use sftp_download::error::AppError;
use sftp_download::progress::TransferStats;
use sftp_download::ssh_client::{auth_method, auth_outcome, AuthMethod, SshConfig};

#[test]
fn ssh_config_defaults_and_timeout() {
    let c = SshConfig::new("server.com".to_string(), 2222, "user".to_string(), AuthMethod::Password("pw".to_string()));
    assert_eq!(c.connect_timeout_secs, 30);
    assert_eq!(c.connect_timeout_nanos, 0);
    assert_eq!(c.address(), "server.com:2222");
    let c = c.with_timeout(5, 250_000_000);
    assert_eq!(c.connect_timeout_secs, 5);
    assert_eq!(c.connect_timeout_nanos, 250_000_000);
    assert_eq!(c.host, "server.com");
    assert_eq!(c.port, 2222);
    assert_eq!(c.username, "user");
}

#[test]
fn key_wins_over_password() {
    match auth_method(Some("~/.ssh/id_rsa".to_string()), Some("p".to_string()), Some("pw".to_string())) {
        Some(AuthMethod::Key { private_key_path, passphrase }) => {
            assert_eq!(private_key_path, "~/.ssh/id_rsa");
            assert_eq!(passphrase, Some("p".to_string()));
        }
        _ => panic!("expected key authentication"),
    }
    match auth_method(None, None, Some("pw".to_string())) {
        Some(AuthMethod::Password(p)) => assert_eq!(p, "pw"),
        _ => panic!("expected password authentication"),
    }
    assert!(auth_method(None, Some("p".to_string()), None).is_none());
}

#[test]
fn refused_authentication_is_an_error() {
    let pw = AuthMethod::Password("x".to_string());
    assert!(auth_outcome(&pw, true).is_ok());
    match auth_outcome(&pw, false) {
        Err(AppError::AuthFailed(m)) => assert_eq!(m, "Password authentication failed"),
        _ => panic!("expected an authentication error"),
    }
    let key = AuthMethod::Key { private_key_path: "k".to_string(), passphrase: None };
    match auth_outcome(&key, false) {
        Err(e) => assert_eq!(e.message(), "Authentication failed: Key authentication failed"),
        _ => panic!("expected an authentication error"),
    }
}

#[test]
fn error_messages() {
    assert_eq!(AppError::ConnectionFailed("timeout".to_string()).message(), "SSH connection failed: timeout");
    assert_eq!(AppError::FileNotFound("/x".to_string()).message(), "Remote file not found: /x");
    assert_eq!(AppError::IoError("disk full".to_string()).message(), "IO error: disk full");
}

#[test]
fn transfer_stats_counters() {
    let mut s = TransferStats::new();
    assert!(s.start_time.is_some());
    assert_eq!((s.total_bytes, s.transferred_bytes, s.files_completed, s.total_files), (0, 0, 0, 0));
    s.total_files = 2;
    s.record_completed(100);
    s.record_completed(50);
    assert_eq!(s.transferred_bytes, 150);
    assert_eq!(s.files_completed, 2);
    let one = TransferStats::single_file(42);
    assert_eq!((one.total_files, one.files_completed, one.total_bytes, one.transferred_bytes), (1, 1, 42, 42));
    let d = TransferStats::default();
    assert!(d.start_time.is_none());
}

#[test]
fn directory_outcomes_tally() {
    let mut s = TransferStats::new();
    s.total_files = 4;
    let outcomes: Vec<Result<u64, String>> =
        vec![Ok(10), Err("SFTP error: gone".to_string()), Ok(0), Ok(32)];
    s.record_outcomes(&outcomes);
    assert_eq!(s.files_completed, 3);
    assert_eq!(s.transferred_bytes, 42);
    assert_eq!(s.total_files, 4);
    s.record_outcomes(&Vec::new());
    assert_eq!(s.files_completed, 3);
}
