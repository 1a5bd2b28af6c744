use zkp_login::client::CredentialError;
use zkp_login::config::Config;
use zkp_login::error::Error;

#[test]
fn errors_have_their_status() {
    assert_eq!(Error::Unauthorized.status_code(), 401);
    assert_eq!(Error::Forbidden.status_code(), 403);
    assert_eq!(Error::NotFound.status_code(), 404);
    assert_eq!(Error::StoreUnavailable.status_code(), 500);
    assert_eq!(Error::Internal.status_code(), 500);
}

#[test]
fn errors_have_their_text() {
    assert_eq!(Error::Unauthorized.message(), "authentication required");
    assert_eq!(Error::Forbidden.message(), "user may not perform that action");
    assert_eq!(Error::NotFound.message(), "resource not found");
    assert_eq!(Error::StoreUnavailable.message(), "error on database query");
    assert_eq!(Error::Internal.message(), "an internal server error occured");
}

#[test]
fn only_server_faults_are_recorded() {
    assert!(!Error::Unauthorized.is_fault());
    assert!(!Error::Forbidden.is_fault());
    assert!(!Error::NotFound.is_fault());
    assert!(Error::StoreUnavailable.is_fault());
    assert!(Error::Internal.is_fault());
}

#[test]
fn credential_errors_have_their_status() {
    assert_eq!(CredentialError::Unauthenticated.status_code(), 401);
    assert_eq!(CredentialError::MalformedCredential.status_code(), 400);
    assert_eq!(CredentialError::StoreUnavailable.status_code(), 500);
}

#[test]
fn service_listens_on_loopback() {
    let config = Config {
        www_dir: std::path::PathBuf::from("www"),
        port: 8080,
        database_url: "sqlite::memory:".to_string(),
    };
    assert_eq!(config.listen_address(), ([127, 0, 0, 1], 8080));
}
