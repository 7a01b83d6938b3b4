use vstd::prelude::*;

verus! {

/// Application error types
#[derive(Debug, Clone)]
pub enum AppError {
    ConnectionFailed(String),
    AuthFailed(String),
    SftpError(String),
    /// An I/O error, by its message.
    IoError(String),
    FileNotFound(String),
    PathExists(String),
    PermissionDenied(String),
    InvalidPath(String),
    Interrupted(String),
    ConfigError(String),
    KeyLoadError(String),
}

/// The text an error is displayed with.
pub open spec fn error_text(e: AppError) -> Seq<char> {
    match e {
        AppError::ConnectionFailed(s) => "SSH connection failed: "@ + s@,
        AppError::AuthFailed(s) => "Authentication failed: "@ + s@,
        AppError::SftpError(s) => "SFTP error: "@ + s@,
        AppError::IoError(s) => "IO error: "@ + s@,
        AppError::FileNotFound(s) => "Remote file not found: "@ + s@,
        AppError::PathExists(s) => "Local path already exists: "@ + s@,
        AppError::PermissionDenied(s) => "Permission denied: "@ + s@,
        AppError::InvalidPath(s) => "Invalid path: "@ + s@,
        AppError::Interrupted(s) => "Download interrupted: "@ + s@,
        AppError::ConfigError(s) => "Configuration error: "@ + s@,
        AppError::KeyLoadError(s) => "Key loading failed: "@ + s@,
    }
}

fn prefixed(prefix: &str, s: &String) -> (r: String)
    ensures
        r@ == prefix@ + s@,
{
    let mut r = String::from_str(prefix);
    r.append(s.as_str());
    r
}

impl AppError {
    /// The error's display text.
    pub fn message(&self) -> (r: String)
        ensures
            r@ == error_text(*self),
    {
        match self {
            AppError::ConnectionFailed(s) => prefixed("SSH connection failed: ", s),
            AppError::AuthFailed(s) => prefixed("Authentication failed: ", s),
            AppError::SftpError(s) => prefixed("SFTP error: ", s),
            AppError::IoError(s) => prefixed("IO error: ", s),
            AppError::FileNotFound(s) => prefixed("Remote file not found: ", s),
            AppError::PathExists(s) => prefixed("Local path already exists: ", s),
            AppError::PermissionDenied(s) => prefixed("Permission denied: ", s),
            AppError::InvalidPath(s) => prefixed("Invalid path: ", s),
            AppError::Interrupted(s) => prefixed("Download interrupted: ", s),
            AppError::ConfigError(s) => prefixed("Configuration error: ", s),
            AppError::KeyLoadError(s) => prefixed("Key loading failed: ", s),
        }
    }
}

} // verus!
