//! Errors raised by an admin service store and by the builders of its types.

use vstd::prelude::*;

verus! {

/// An admin service store error. Where the store passes on an error of its
/// own, `source` holds that error's message.
#[derive(Debug)]
#[allow(inconsistent_fields)]
pub enum AdminServiceStoreError {
    /// A create, update or delete failed.
    OperationError { context: String, source: Option<String> },
    /// A query failed.
    QueryError { context: String, source: String },
    /// The underlying storage failed.
    StorageError { context: String, source: Option<String> },
    /// The store could not be reached.
    ConnectionError(String),
    /// The entity asked for does not exist.
    NotFoundError(String),
}

/// The message of an admin service store error.
pub open spec fn store_error_message(e: AdminServiceStoreError) -> Seq<char> {
    match e {
        AdminServiceStoreError::OperationError { context, source: Some(source) } =>
            "failed to perform operation: "@ + context@ + ": "@ + source@,
        AdminServiceStoreError::OperationError { context, source: None } =>
            "failed to perform operation: "@ + context@,
        AdminServiceStoreError::QueryError { context, source } => "failed query: "@ + context@
            + ": "@ + source@,
        AdminServiceStoreError::StorageError { context, source: Some(source) } =>
            "the underlying storage returned an error: "@ + context@ + ": "@ + source@,
        AdminServiceStoreError::StorageError { context, source: None } =>
            "the underlying storage returned an error: "@ + context@,
        AdminServiceStoreError::ConnectionError(err) => "failed to connect to underlying storage: "@
            + err@,
        AdminServiceStoreError::NotFoundError(s) => "Not found: "@ + s@,
    }
}

impl AdminServiceStoreError {
    /// The message of the error this one passes on, if any.
    pub fn source(&self) -> (r: Option<&String>)
        ensures
            r == match self {
                AdminServiceStoreError::OperationError { source, .. } => match source {
                    Some(s) => Some(s),
                    None => None,
                },
                AdminServiceStoreError::QueryError { source, .. } => Some(source),
                AdminServiceStoreError::StorageError { source, .. } => match source {
                    Some(s) => Some(s),
                    None => None,
                },
                AdminServiceStoreError::ConnectionError(err) => Some(err),
                AdminServiceStoreError::NotFoundError(_) => None::<&String>,
            },
    {
        match self {
            AdminServiceStoreError::OperationError { source, .. } => source.as_ref(),
            AdminServiceStoreError::QueryError { source, .. } => Some(source),
            AdminServiceStoreError::StorageError { source, .. } => source.as_ref(),
            AdminServiceStoreError::ConnectionError(err) => Some(err),
            AdminServiceStoreError::NotFoundError(_) => None,
        }
    }

    /// The error as text.
    pub fn to_string(&self) -> (r: String)
        ensures
            r@ == store_error_message(*self),
    {
        match self {
            AdminServiceStoreError::OperationError { context, source: Some(source) } => {
                "failed to perform operation: ".to_owned().concat(context.as_str()).concat(
                    ": ",
                ).concat(source.as_str())
            },
            AdminServiceStoreError::OperationError { context, source: None } => {
                "failed to perform operation: ".to_owned().concat(context.as_str())
            },
            AdminServiceStoreError::QueryError { context, source } => {
                "failed query: ".to_owned().concat(context.as_str()).concat(": ").concat(
                    source.as_str(),
                )
            },
            AdminServiceStoreError::StorageError { context, source: Some(source) } => {
                "the underlying storage returned an error: ".to_owned().concat(
                    context.as_str(),
                ).concat(": ").concat(source.as_str())
            },
            AdminServiceStoreError::StorageError { context, source: None } => {
                "the underlying storage returned an error: ".to_owned().concat(context.as_str())
            },
            AdminServiceStoreError::ConnectionError(err) => {
                "failed to connect to underlying storage: ".to_owned().concat(err.as_str())
            },
            AdminServiceStoreError::NotFoundError(s) => "Not found: ".to_owned().concat(
                s.as_str(),
            ),
        }
    }
}

/// An error raised while building a value.
#[derive(Debug)]
pub enum BuilderError {
    InvalidField(String),
    MissingField(String),
}

impl BuilderError {
    /// The error as text.
    pub fn to_string(&self) -> (r: String)
        ensures
            r@ == match self {
                BuilderError::InvalidField(s) => "unable to build, invalid field: "@ + s@,
                BuilderError::MissingField(s) => "unable to build, missing field: "@ + s@,
            },
    {
        match self {
            BuilderError::InvalidField(s) => "unable to build, invalid field: ".to_owned().concat(
                s.as_str(),
            ),
            BuilderError::MissingField(s) => "unable to build, missing field: ".to_owned().concat(
                s.as_str(),
            ),
        }
    }
}

} // verus!
