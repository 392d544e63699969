use splinter::credentials::{check_new_username, CredentialsStoreError};
use splinter::error::{AdminServiceStoreError, BuilderError};
use splinter::sessions::{default_validation, DEFAULT_LEEWAY};

#[test]
fn store_error_messages() {
    let op = AdminServiceStoreError::OperationError {
        context: "add proposal".to_string(),
        source: Some("disk full".to_string()),
    };
    assert_eq!(op.to_string(), "failed to perform operation: add proposal: disk full");
    assert_eq!(op.source(), Some(&"disk full".to_string()));
    let op = AdminServiceStoreError::OperationError { context: "add proposal".to_string(), source: None };
    assert_eq!(op.to_string(), "failed to perform operation: add proposal");
    assert_eq!(op.source(), None);
    let query = AdminServiceStoreError::QueryError { context: "list".to_string(), source: "bad sql".to_string() };
    assert_eq!(query.to_string(), "failed query: list: bad sql");
    let storage = AdminServiceStoreError::StorageError { context: "save".to_string(), source: None };
    assert_eq!(storage.to_string(), "the underlying storage returned an error: save");
    let storage = AdminServiceStoreError::StorageError {
        context: "save".to_string(),
        source: Some("io".to_string()),
    };
    assert_eq!(storage.to_string(), "the underlying storage returned an error: save: io");
    let conn = AdminServiceStoreError::ConnectionError("refused".to_string());
    assert_eq!(conn.to_string(), "failed to connect to underlying storage: refused");
    assert_eq!(conn.source(), Some(&"refused".to_string()));
    let missing = AdminServiceStoreError::NotFoundError("circuit c1".to_string());
    assert_eq!(missing.to_string(), "Not found: circuit c1");
    assert_eq!(missing.source(), None);
}

#[test]
fn builder_error_messages() {
    assert_eq!(
        BuilderError::InvalidField("roster".to_string()).to_string(),
        "unable to build, invalid field: roster"
    );
    assert_eq!(
        BuilderError::MissingField("members".to_string()).to_string(),
        "unable to build, missing field: members"
    );
}

#[test]
fn new_username_check() {
    assert!(check_new_username("alice", false).is_ok());
    match check_new_username("alice", true) {
        Err(CredentialsStoreError::DuplicateError(message)) => {
            assert_eq!(message, "Username already in use: alice")
        }
        other => panic!("unexpected result {:?}", other),
    }
}

#[test]
fn validation_defaults() {
    let settings = default_validation("splinterd");
    assert_eq!(settings.leeway, DEFAULT_LEEWAY);
    assert_eq!(settings.leeway, 10);
    assert_eq!(settings.issuer, "splinterd");
}
