use vstd::prelude::*;
use crate::error::AppError;
use crate::text::{decimal, decimal_string, push_char};

verus! {

/// Authentication method
#[derive(Debug, Clone)]
pub enum AuthMethod {
    Password(String),
    Key { private_key_path: String, passphrase: Option<String> },
}

/// SSH connection configuration
#[derive(Debug, Clone)]
pub struct SshConfig {
    pub host: String,
    pub port: u16,
    pub username: String,
    pub auth: AuthMethod,
    /// Connection timeout: whole seconds ...
    pub connect_timeout_secs: u64,
    /// ... plus this many nanoseconds (below one second).
    pub connect_timeout_nanos: u32,
}

impl SshConfig {
    /// A configuration with the default 30-second connection timeout.
    pub fn new(host: String, port: u16, username: String, auth: AuthMethod) -> (r: Self)
        ensures
            r.host == host,
            r.port == port,
            r.username == username,
            r.auth == auth,
            r.connect_timeout_secs == 30,
            r.connect_timeout_nanos == 0,
    {
        SshConfig { host, port, username, auth, connect_timeout_secs: 30, connect_timeout_nanos: 0 }
    }

    /// The same configuration with another connection timeout, `timeout_secs` seconds and
    /// `subsec_nanos` nanoseconds (as a `std::time::Duration` holds it).
    pub fn with_timeout(self, timeout_secs: u64, subsec_nanos: u32) -> (r: Self)
        requires
            subsec_nanos < 1_000_000_000,
        ensures
            r.host == self.host,
            r.port == self.port,
            r.username == self.username,
            r.auth == self.auth,
            r.connect_timeout_secs == timeout_secs,
            r.connect_timeout_nanos == subsec_nanos,
    {
        let mut s = self;
        s.connect_timeout_secs = timeout_secs;
        s.connect_timeout_nanos = subsec_nanos;
        s
    }

    /// The `host:port` address to connect to.
    pub fn address(&self) -> (r: String)
        ensures
            r@ == self.host@ + seq![':'] + decimal(self.port as nat),
    {
        let mut r = String::from_str(self.host.as_str());
        push_char(&mut r, ':');
        r.append(decimal_string(self.port as u64).as_str());
        r
    }
}

/// The authentication the options ask for: the key when one is given (with its
/// passphrase), else the password; `None` when there is neither.
pub open spec fn chosen_auth(key: Option<String>, passphrase: Option<String>, password: Option<String>) -> Option<AuthMethod> {
    match key {
        Some(k) => Some(AuthMethod::Key { private_key_path: k, passphrase }),
        None => match password {
            Some(p) => Some(AuthMethod::Password(p)),
            None => None,
        },
    }
}

/// Build the authentication method: a private key takes precedence over a password.
pub fn auth_method(key: Option<String>, passphrase: Option<String>, password: Option<String>) -> (r: Option<AuthMethod>)
    ensures
        r == chosen_auth(key, passphrase, password),
{
    match key {
        Some(k) => Some(AuthMethod::Key { private_key_path: k, passphrase }),
        None => match password {
            Some(p) => Some(AuthMethod::Password(p)),
            None => None,
        },
    }
}

/// Turn the server's answer to an authentication attempt into a result.
pub fn auth_outcome(method: &AuthMethod, accepted: bool) -> (r: Result<(), AppError>)
    ensures
        accepted <==> r is Ok,
        !accepted ==> (r matches Err(AppError::AuthFailed(msg)) && msg@ == (match *method {
            AuthMethod::Password(_) => "Password authentication failed"@,
            AuthMethod::Key { .. } => "Key authentication failed"@,
        })),
{
    if accepted {
        return Ok(());
    }
    match method {
        AuthMethod::Password(_) => Err(AppError::AuthFailed(String::from_str("Password authentication failed"))),
        AuthMethod::Key { .. } => Err(AppError::AuthFailed(String::from_str("Key authentication failed"))),
    }
}

} // verus!
