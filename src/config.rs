//! The appliance's settings.
use vstd::prelude::*;

verus! {

/// The settings read from and written to the configuration file.
#[derive(Clone, Debug)]
pub struct Config {
    pub port: u16,
    pub camera_path: String,
    pub username: String,
    pub pass_hash: String,
    pub salt: String,
}

/// Why the settings could not be saved.
#[derive(Clone, Copy, Debug, PartialEq, Eq, Structural)]
pub enum WriteConfigError {
    FileSystemError,
    ParsingError,
}

impl Config {
    pub open spec fn account_exists(&self) -> bool {
        self.username@.len() != 0 || self.pass_hash@.len() != 0
    }

    /// The settings of a fresh install: the first video device, port 8080,
    /// no account yet, and the given password salt.
    pub fn with_defaults(salt: String) -> (r: Self)
        ensures
            r.port == 8080,
            r.camera_path@ == "/dev/video0"@,
            r.username@.len() == 0,
            r.pass_hash@.len() == 0,
            r.salt@ == salt@,
    {
        Config {
            port: 8080,
            camera_path: "/dev/video0".to_owned(),
            username: String::new(),
            pass_hash: String::new(),
            salt,
        }
    }

    /// Whether the account is still to be set up: the user name or the
    /// password hash is empty.
    pub fn needs_setup(&self) -> (r: bool)
        ensures
            r == (self.username@.len() == 0 || self.pass_hash@.len() == 0),
    {
        self.username.as_str().is_empty() || self.pass_hash.as_str().is_empty()
    }

    /// Whether an account was created: the user name or the password hash is
    /// set.
    pub fn has_account(&self) -> (r: bool)
        ensures
            r == self.account_exists(),
    {
        !self.username.as_str().is_empty() || !self.pass_hash.as_str().is_empty()
    }
}

} // verus!
