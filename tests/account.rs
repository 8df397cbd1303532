use nephtys::account::{
    account_from_hash, check_login, create_account, generate_token, login_outcome, AccountError, LoginError,
};
use nephtys::config::{Config, WriteConfigError};

const SALT: &str = "c2FsdHNhbHRzYWx0c2FsdA";

#[test]
fn default_config() {
    let c = Config::with_defaults(SALT.to_string());
    assert_eq!(c.port, 8080);
    assert_eq!(c.camera_path, "/dev/video0");
    assert_eq!(c.username, "");
    assert_eq!(c.pass_hash, "");
    assert_eq!(c.salt, SALT);
    assert!(c.needs_setup());
    assert!(!c.has_account());
}

#[test]
fn setup_and_account_predicates() {
    let mut c = Config::with_defaults(SALT.to_string());
    c.username = "admin".to_string();
    assert!(c.needs_setup());
    assert!(c.has_account());
    c.pass_hash = "h".to_string();
    assert!(!c.needs_setup());
    c.username = String::new();
    assert!(c.needs_setup());
    assert!(c.has_account());
}

#[test]
fn write_config_errors_differ() {
    assert_ne!(WriteConfigError::FileSystemError, WriteConfigError::ParsingError);
}

#[test]
fn account_is_created_once() {
    let c = Config::with_defaults(SALT.to_string());
    let created = create_account(&c, "admin".to_string(), &b"secret".to_vec()).unwrap();
    assert_eq!(created.username, "admin");
    assert!(created.pass_hash.starts_with("$argon2"));
    assert_ne!(created.pass_hash, "secret");
    assert_eq!(created.salt, SALT);
    assert_eq!(created.port, 8080);
    assert_eq!(
        create_account(&created, "other".to_string(), &b"x".to_vec()).err(),
        Some(AccountError::AlreadyCreated)
    );
}

#[test]
fn invalid_salt_is_reported() {
    let c = Config::with_defaults("!!".to_string());
    assert_eq!(create_account(&c, "admin".to_string(), &b"secret".to_vec()).err(), Some(AccountError::InvalidSalt));
}

#[test]
fn login_checks_password() {
    let c = Config::with_defaults(SALT.to_string());
    let created = create_account(&c, "admin".to_string(), &b"secret".to_vec()).unwrap();
    assert_eq!(check_login(&created, &b"secret".to_vec()), Ok(()));
    assert_eq!(check_login(&created, &b"wrong".to_vec()), Err(LoginError::Unauthorized));
    assert_eq!(check_login(&c, &b"secret".to_vec()), Err(LoginError::InvalidConfiguration));
}

#[test]
fn token_is_random_alphanumeric() {
    let t = generate_token();
    assert_eq!(t.len(), 32);
    assert!(t.chars().all(|c| c.is_ascii_alphanumeric()));
    assert_ne!(t, generate_token());
}

#[test]
fn account_from_hash_outcomes() {
    let c = Config::with_defaults(SALT.to_string());
    let made = account_from_hash(&c, "admin".to_string(), Ok("$argon2id$h".to_string())).unwrap();
    assert_eq!(made.username, "admin");
    assert_eq!(made.pass_hash, "$argon2id$h");
    assert_eq!(made.camera_path, "/dev/video0");
    assert_eq!(made.salt, SALT);
    assert_eq!(
        account_from_hash(&c, "admin".to_string(), Err(AccountError::HashFailed)).err(),
        Some(AccountError::HashFailed)
    );
    assert_eq!(
        account_from_hash(&c, "admin".to_string(), Err(AccountError::InvalidSalt)).err(),
        Some(AccountError::InvalidSalt)
    );
}

#[test]
fn login_outcome_for_each_answer() {
    assert_eq!(login_outcome(Some(true)), Ok(()));
    assert_eq!(login_outcome(Some(false)), Err(LoginError::Unauthorized));
    assert_eq!(login_outcome(None), Err(LoginError::InvalidConfiguration));
}
