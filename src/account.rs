//! Creating the single account and checking a login.
use vstd::prelude::*;
use crate::config::Config;
use crate::names::{is_random_name, random_alphanumeric};

verus! {

/// What argon2 with its default parameters makes of a password and a salt:
/// the hash in PHC string form.
pub uninterp spec fn argon2_phc_of(password: Seq<u8>, salt: Seq<char>) -> Seq<char>;

/// Whether argon2's `PasswordHash::new` reads a PHC string.
pub uninterp spec fn phc_readable(phc: Seq<char>) -> bool;

/// Whether argon2 accepts a password against a hash in PHC string form.
pub uninterp spec fn argon2_accepts(password: Seq<u8>, phc: Seq<char>) -> bool;

/// Relies on argon2's `SaltString::from_b64` to read the salt and on
/// `PasswordHasher::hash_password` of `Argon2::default()` to hash; the hash
/// is returned in PHC string form.
#[verifier::external_body]
fn argon2_hash(password: &Vec<u8>, salt: &String) -> (r: Result<String, AccountError>)
    ensures
        r matches Ok(h) ==> h@ == argon2_phc_of(password@, salt@),
        r matches Err(e) ==> e == AccountError::InvalidSalt || e == AccountError::HashFailed,
{
    let salt = match argon2::password_hash::SaltString::from_b64(salt.as_str()) {
        Ok(s) => s,
        Err(_) => return Err(AccountError::InvalidSalt),
    };
    match argon2::PasswordHasher::hash_password(&argon2::Argon2::default(), password, &salt) {
        Ok(h) => Ok(h.to_string()),
        Err(_) => Err(AccountError::HashFailed),
    }
}

/// Relies on argon2's `PasswordHash::new` to read a PHC string (`None` when
/// it cannot) and on `PasswordVerifier::verify_password` of
/// `Argon2::default()` to check the password against it.
#[verifier::external_body]
fn argon2_verify(password: &Vec<u8>, phc: &String) -> (r: Option<bool>)
    ensures
        r is Some <==> phc_readable(phc@),
        r matches Some(ok) ==> ok == argon2_accepts(password@, phc@),
{
    match argon2::PasswordHash::new(phc.as_str()) {
        Ok(h) => Some(
            argon2::PasswordVerifier::verify_password(&argon2::Argon2::default(), password, &h).is_ok(),
        ),
        Err(_) => None,
    }
}

/// Why an account could not be created.
#[derive(Clone, Copy, Debug, PartialEq, Eq, Structural)]
pub enum AccountError {
    /// An account exists already.
    AlreadyCreated,
    /// The stored salt is not a valid salt.
    InvalidSalt,
    /// Hashing the password failed.
    HashFailed,
}

/// Why a login was refused.
#[derive(Clone, Copy, Debug, PartialEq, Eq, Structural)]
pub enum LoginError {
    /// The stored password hash cannot be read.
    InvalidConfiguration,
    /// The password does not match.
    Unauthorized,
}

/// The settings with the account `username` once its password was hashed:
/// `hashed` is the hash in PHC string form, or why hashing failed.
pub fn account_from_hash(config: &Config, username: String, hashed: Result<String, AccountError>) -> (r: Result<
    Config,
    AccountError,
>)
    ensures
        hashed matches Err(e) ==> r matches Err(f) && f == e,
        hashed matches Ok(h) ==> r matches Ok(c) && {
            &&& c.username@ == username@
            &&& c.pass_hash@ == h@
            &&& c.port == config.port
            &&& c.camera_path@ == config.camera_path@
            &&& c.salt@ == config.salt@
        },
{
    match hashed {
        Ok(hash) => Ok(
            Config {
                port: config.port,
                camera_path: config.camera_path.clone(),
                username,
                pass_hash: hash,
                salt: config.salt.clone(),
            },
        ),
        Err(e) => Err(e),
    }
}

/// The settings with the account `username` whose password is `password`,
/// hashed with the stored salt. Refused when an account exists already;
/// otherwise it fails only where argon2 rejects the salt or the hashing.
pub fn create_account(config: &Config, username: String, password: &Vec<u8>) -> (r: Result<
    Config,
    AccountError,
>)
    ensures
        config.account_exists() <==> r == Err::<Config, AccountError>(AccountError::AlreadyCreated),
        r matches Ok(c) ==> {
            &&& c.username@ == username@
            &&& c.pass_hash@ == argon2_phc_of(password@, config.salt@)
            &&& c.port == config.port
            &&& c.camera_path@ == config.camera_path@
            &&& c.salt@ == config.salt@
        },
        r matches Err(e) ==> !config.account_exists() ==> (e == AccountError::InvalidSalt || e
            == AccountError::HashFailed),
{
    if config.has_account() {
        return Err(AccountError::AlreadyCreated);
    }
    account_from_hash(config, username, argon2_hash(password, &config.salt))
}

/// The result of a login from what argon2 answered: `None` when the
/// stored hash cannot be read, else whether the password matches it.
pub fn login_outcome(answer: Option<bool>) -> (r: Result<(), LoginError>)
    ensures
        answer == Some(true) <==> r is Ok,
        answer == Some(false) <==> r == Err::<(), LoginError>(LoginError::Unauthorized),
        answer is None <==> r == Err::<(), LoginError>(LoginError::InvalidConfiguration),
{
    match answer {
        Some(true) => Ok(()),
        Some(false) => Err(LoginError::Unauthorized),
        None => Err(LoginError::InvalidConfiguration),
    }
}

/// Checks a login password against the stored hash.
pub fn check_login(config: &Config, password: &Vec<u8>) -> (r: Result<(), LoginError>)
    ensures
        r is Ok <==> phc_readable(config.pass_hash@) && argon2_accepts(password@, config.pass_hash@),
        r == Err::<(), LoginError>(LoginError::Unauthorized) <==> phc_readable(config.pass_hash@)
            && !argon2_accepts(password@, config.pass_hash@),
        r == Err::<(), LoginError>(LoginError::InvalidConfiguration) <==> !phc_readable(
            config.pass_hash@,
        ),
{
    login_outcome(argon2_verify(password, &config.pass_hash))
}

/// A fresh session token: 32 random letters and digits.
pub fn generate_token() -> (r: String)
    ensures
        is_random_name(r@),
{
    random_alphanumeric()
}

} // verus!
