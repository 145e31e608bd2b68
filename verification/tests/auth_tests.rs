use ftp_fighter::api::{ApiConfig, ApiError, UserResource};
use ftp_fighter::auth::{
    check_credentials, hashed_login_password, session_for, token_exchange_error, AuthError,
    FileFighterAuthenticator, FileFighterUser,
};
use ftp_fighter::cli::Args;

#[test]
fn empty_username_is_a_bad_user() {
    let pw = Some("pw".to_string());
    let r = check_credentials("", &pw);
    assert!(matches!(r, Err(AuthError::BadUser)));
}

#[test]
fn missing_or_empty_password_is_a_bad_password() {
    let r = check_credentials("alice", &None);
    assert!(matches!(r, Err(AuthError::BadPassword)));
    let empty = Some(String::new());
    let r = check_credentials("alice", &empty);
    assert!(matches!(r, Err(AuthError::BadPassword)));
}

#[test]
fn good_credentials_pass_the_precheck() {
    let pw = Some("pw".to_string());
    let r = check_credentials("alice", &pw).unwrap();
    assert_eq!(r, "pw");
}

#[test]
fn login_password_is_salted_hashed_and_uppercased() {
    assert_eq!(
        hashed_login_password("secret-pw"),
        "039E81C77AA030BF1A8D5369B93696C2978115B926501F35D0BFFFBC1D3A84F7"
    );
    // the empty password still hashes the salt alone
    assert_eq!(
        hashed_login_password(""),
        "4FAB891C880D3214FBBC8376E6CDF2B167AF7B3527F1B8F7B519DF81B63D5B4A"
    );
}

#[test]
fn session_carries_name_token_and_id() {
    let u = UserResource {
        id: 11,
        privileges: "USER".to_string(),
        username: "alice".to_string(),
    };
    let s = session_for("alice", "tok".to_string(), &u);
    assert_eq!(s.username, "alice");
    assert_eq!(s.token, "tok");
    assert_eq!(s.id, 11);
    assert!(s.account_enabled());
}

#[test]
fn user_constructor_keeps_its_parts() {
    let u = FileFighterUser::new("bob".to_string(), "token".to_string(), 3);
    assert_eq!(u.username, "bob");
    assert_eq!(u.token, "token");
    assert_eq!(u.id, 3);
}

#[test]
fn token_exchange_failure_carries_the_remote_description() {
    let e = token_exchange_error(&ApiError::ReqwestError("timed out".to_string()));
    match e {
        AuthError::Rejected(m) => assert_eq!(m, "Request failed with error timed out"),
        _ => panic!("expected a rejection"),
    }
    let e = token_exchange_error(&ApiError::ResponseMalformed("bad body".to_string()));
    match e {
        AuthError::Rejected(m) => assert_eq!(m, "Response was malformed: bad body"),
        _ => panic!("expected a rejection"),
    }
}

#[test]
fn authenticator_defaults_to_local_services() {
    let a = FileFighterAuthenticator::new();
    assert_eq!(a.api_config.fss_base_url, "http://localhost:8080/api");
    assert_eq!(a.api_config.fhs_base_url, "http://localhost:5000/data");
    let d = FileFighterAuthenticator::default();
    assert_eq!(d.api_config.fss_base_url, a.api_config.fss_base_url);
}

#[test]
fn api_config_appends_the_service_prefixes() {
    let args = Args {
        hostname: "0.0.0.0".to_string(),
        port: 2121,
        passive_start_port: 10000,
        passive_end_port: 10010,
        log_level: "INFO".to_string(),
        backend_url: "http://backend:8080".to_string(),
        filehandler_url: "http://files:5000".to_string(),
    };
    let config = ApiConfig::from(args);
    assert_eq!(config.fss_base_url, "http://backend:8080/api");
    assert_eq!(config.fhs_base_url, "http://files:5000/data");
}
