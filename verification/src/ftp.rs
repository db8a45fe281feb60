//! The settings an FTP client connects with.

use vstd::prelude::*;
use vstd::string::StringExecFns;

verus! {

/// The server used when none is given.
pub fn default_address() -> (s: &'static str)
    ensures
        s@ == "127.0.0.1:21"@,
{
    "127.0.0.1:21"
}

/// The user logged in when none is given.
pub fn default_user() -> (s: &'static str)
    ensures
        s@ == "TestUser"@,
{
    "TestUser"
}

/// The password used when none is given.
pub fn default_password() -> (s: &'static str)
    ensures
        s@ == "12345678"@,
{
    "12345678"
}

/// Where to connect and as whom.
pub struct FtpConfig {
    pub address: String,
    pub user: String,
    pub password: String,
}

impl FtpConfig {
    pub fn new(address: String, user: String, password: String) -> (c: Self)
        ensures
            c.address@ == address@,
            c.user@ == user@,
            c.password@ == password@,
    {
        FtpConfig { address, user, password }
    }

    /// A copy of these settings.
    pub fn duplicate(&self) -> (c: Self)
        ensures
            c.address@ == self.address@,
            c.user@ == self.user@,
            c.password@ == self.password@,
    {
        FtpConfig {
            address: self.address.clone(),
            user: self.user.clone(),
            password: self.password.clone(),
        }
    }
}

impl Default for FtpConfig {
    fn default() -> (c: Self)
        ensures
            c.address@ == "127.0.0.1:21"@,
            c.user@ == "TestUser"@,
            c.password@ == "12345678"@,
    {
        FtpConfig {
            address: String::from_str(default_address()),
            user: String::from_str(default_user()),
            password: String::from_str(default_password()),
        }
    }
}

} // verus!
