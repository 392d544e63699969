//! Credentials of the users of the REST API.
//!
//! A username is taken at most once. The store itself is reached from
//! outside the library; the decision whether new credentials may be added is
//! made here.

use vstd::prelude::*;

verus! {

/// A user's credentials.
#[derive(Debug)]
pub struct Credentials {
    pub user_id: String,
    pub username: String,
    pub password: String,
}

/// A credentials store error; `source` holds the message of the store's own
/// error.
#[derive(Debug)]
pub enum CredentialsStoreError {
    /// A create, update or delete failed.
    OperationError { context: String, source: String },
    /// A query failed.
    QueryError { context: String, source: String },
    /// The username is taken.
    DuplicateError(String),
    /// The credentials asked for do not exist.
    NotFoundError(String),
}

/// May credentials for `username` be added, given whether the store already
/// holds credentials under that username?
pub fn check_new_username(username: &str, already_taken: bool) -> (r: Result<
    (),
    CredentialsStoreError,
>)
    ensures
        already_taken <==> r is Err,
        r matches Err(e) ==> e matches CredentialsStoreError::DuplicateError(message)
            && message@ == "Username already in use: "@ + username@,
{
    if already_taken {
        Err(
            CredentialsStoreError::DuplicateError(
                "Username already in use: ".to_owned().concat(username),
            ),
        )
    } else {
        Ok(())
    }
}

} // verus!
