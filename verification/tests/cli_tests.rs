use sftp_download::cli::{
    config_format, mask_secret, resolve_args, shell_escape, Args, ArgsError, ConfigFormat, FileConfig,
    ResolvedArgs,
};
use sftp_download::dates::parse_time_bound;

fn no_args() -> Args {
    Args {
        config: None,
        host: None,
        port: None,
        user: None,
        password: None,
        key: None,
        key_passphrase: None,
        timeout: None,
        remote: None,
        local: None,
        skip: None,
        resume: None,
        parallel: None,
        exclude: None,
        include_patterns: None,
        ignore_case: None,
        since: None,
        until: None,
        latest: None,
    }
}

fn minimal_args() -> Args {
    let mut a = no_args();
    a.user = Some("admin".to_string());
    a.remote = Some("/data".to_string());
    a.local = Some("./data".to_string());
    a
}

fn resolved() -> ResolvedArgs {
    let mut a = minimal_args();
    a.host = Some("192.168.1.100".to_string());
    a.password = Some("password".to_string());
    resolve_args(a, FileConfig::default()).unwrap()
}

#[test]
fn defaults_fill_gaps() {
    let r = resolve_args(minimal_args(), FileConfig::default()).unwrap();
    assert_eq!(r.host, "localhost");
    assert_eq!(r.port, 22);
    assert_eq!(r.timeout, 30);
    assert_eq!(r.parallel, 4);
    assert!(!r.skip && !r.resume && !r.ignore_case);
    assert!(r.exclude.is_empty() && r.include_patterns.is_empty());
    assert_eq!(r.user, "admin");
    assert_eq!(r.remote, "/data");
    assert_eq!(r.local, "./data");
    assert_eq!(r.latest, None);
}

#[test]
fn cli_beats_config_beats_default() {
    let mut a = minimal_args();
    a.port = Some(2222);
    let mut c = FileConfig::default();
    c.port = Some(2200);
    c.host = Some("server.com".to_string());
    c.parallel = Some(8);
    c.exclude = Some(vec!["*.tmp".to_string(), "*~".to_string()]);
    c.latest = Some(10);
    let r = resolve_args(a, c).unwrap();
    assert_eq!(r.port, 2222);
    assert_eq!(r.host, "server.com");
    assert_eq!(r.parallel, 8);
    assert_eq!(r.exclude, vec!["*.tmp".to_string(), "*~".to_string()]);
    assert_eq!(r.latest, Some(10));
}

#[test]
fn config_supplies_required_fields() {
    let mut c = FileConfig::default();
    c.user = Some("u".to_string());
    c.remote = Some("/r".to_string());
    c.local = Some("l".to_string());
    let r = resolve_args(no_args(), c).unwrap();
    assert_eq!(r.user, "u");
}

#[test]
fn argument_errors_in_order() {
    assert_eq!(resolve_args(no_args(), FileConfig::default()).err(), Some(ArgsError::MissingUser));
    let mut a = no_args();
    a.user = Some("u".to_string());
    assert_eq!(resolve_args(a, FileConfig::default()).err(), Some(ArgsError::MissingRemote));
    let mut a = no_args();
    a.user = Some("u".to_string());
    a.remote = Some("/r".to_string());
    assert_eq!(resolve_args(a, FileConfig::default()).err(), Some(ArgsError::MissingLocal));
    let mut a = minimal_args();
    a.skip = Some(true);
    a.resume = Some(true);
    assert_eq!(resolve_args(a, FileConfig::default()).err(), Some(ArgsError::SkipWithResume));
    let mut a = minimal_args();
    a.key_passphrase = Some("p".to_string());
    assert_eq!(resolve_args(a, FileConfig::default()).err(), Some(ArgsError::PassphraseWithoutKey));
    let mut a = minimal_args();
    a.since = Some("2026-13-01".to_string());
    assert_eq!(resolve_args(a, FileConfig::default()).err(), Some(ArgsError::InvalidSince));
    let mut a = minimal_args();
    a.until = Some("tomorrow".to_string());
    assert_eq!(resolve_args(a, FileConfig::default()).err(), Some(ArgsError::InvalidUntil));
}

#[test]
fn command_line_masks_secrets() {
    let mut r = resolved();
    r.exclude = vec!["*.tmp".to_string()];
    r.include_patterns = vec!["*.log".to_string()];
    assert_eq!(
        r.to_command_line(),
        "sftp-download -H 192.168.1.100 -p 22 -u admin -P \"********\" --timeout 30 -r /data -l ./data -j 4 -x \"*.tmp\" -i \"*.log\""
    );
}

#[test]
fn command_line_all_options() {
    let mut r = resolved();
    r.password = None;
    r.key = Some("~/.ssh/id_rsa".to_string());
    r.key_passphrase = Some("abc".to_string());
    r.skip = true;
    r.ignore_case = true;
    r.since = Some("2026-06-01".to_string());
    r.until = Some("2026-06-30 12:00:00".to_string());
    r.latest = Some(10);
    r.parallel = 8;
    assert_eq!(
        r.to_command_line(),
        "sftp-download -H 192.168.1.100 -p 22 -u admin -k ~/.ssh/id_rsa --key-passphrase \"***\" --timeout 30 -r /data -l ./data -s -j 8 --ignore-case --since 2026-06-01 --until \"2026-06-30 12:00:00\" --latest 10"
    );
}

#[test]
fn secret_masking() {
    assert_eq!(mask_secret(""), "");
    assert_eq!(mask_secret("abc"), "***");
    assert_eq!(mask_secret("a-very-long-password"), "********");
    // Counted in bytes: two 3-byte characters.
    assert_eq!(mask_secret("密码"), "******");
}

#[test]
fn shell_quoting() {
    assert_eq!(shell_escape(""), "");
    assert_eq!(shell_escape("/data/x_1.log"), "/data/x_1.log");
    assert_eq!(shell_escape("C:\\dir"), "C:\\dir");
    assert_eq!(shell_escape("a b"), "\"a b\"");
    assert_eq!(shell_escape("say \"hi\""), "\"say \\\"hi\\\"\"");
    assert_eq!(shell_escape("a\\b c"), "\"a\\\\b c\"");
}

#[test]
fn config_extensions() {
    assert_eq!(config_format("toml"), Ok(ConfigFormat::Toml));
    assert_eq!(config_format("JSON"), Ok(ConfigFormat::Json));
    assert_eq!(config_format("yaml"), Ok(ConfigFormat::Yaml));
    assert_eq!(config_format("Yml"), Ok(ConfigFormat::Yaml));
    assert_eq!(config_format("INI"), Err("ini".to_string()));
    assert_eq!(config_format(""), Err(String::new()));
}

#[test]
fn date_bounds() {
    assert_eq!(parse_time_bound("1970-01-01", false), Some(0));
    assert_eq!(parse_time_bound("1970-01-01", true), Some(86399));
    assert_eq!(parse_time_bound("2026-06-01", false), Some(1780272000));
    assert_eq!(parse_time_bound("2026-06-30", true), Some(1782863999));
    assert_eq!(parse_time_bound("2026-06-30 12:34:56", true), Some(1782822896));
    assert_eq!(parse_time_bound("1969-12-31 23:59:59", false), Some(-1));
    assert_eq!(parse_time_bound("2024-02-29", false), Some(1709164800));
    assert_eq!(parse_time_bound("2023-02-29", false), None);
    assert_eq!(parse_time_bound("2026-06-01 24:00:00", false), None);
    assert_eq!(parse_time_bound("2026-6-1", false), None);
    assert_eq!(parse_time_bound("2026-06-01T00:00:00", false), None);
}

#[test]
fn until_covers_the_day() {
    let s = parse_time_bound("2026-06-23", false).unwrap();
    let u = parse_time_bound("2026-06-23", true).unwrap();
    assert_eq!(u - s, 86399);
    assert_eq!(parse_time_bound("2026-06-23 00:00:00", false), Some(s));
}

#[test]
fn options_from_arguments() {
    let mut r = resolved();
    r.since = Some("1970-01-02".to_string());
    r.until = Some("1970-01-02".to_string());
    r.include_patterns = vec!["*.log".to_string()];
    r.latest = Some(3);
    let o = r.download_options().unwrap();
    assert_eq!(o.since, Some(86400));
    assert_eq!(o.until, Some(2 * 86400 - 1));
    assert_eq!(o.include_patterns, vec!["*.log".to_string()]);
    assert_eq!(o.parallel, 4);
    assert_eq!(o.latest, Some(3));
    r.since = Some("bad".to_string());
    assert!(r.download_options().is_none());
}

#[test]
fn secret_shows_only_its_length() {
    let mut a = resolved();
    let mut b = resolved();
    a.password = Some("hunter2".to_string());
    b.password = Some("1234567".to_string());
    assert_eq!(a.to_command_line(), b.to_command_line());
    assert!(!a.to_command_line().contains("hunter2"));
    a.password = Some(String::new());
    assert!(a.to_command_line().contains(" -P  --timeout"));
}

fn read_back(t: &str) -> String {
    let c: Vec<char> = t.chars().collect();
    if c.len() >= 2 && c[0] == '"' {
        let body = &c[1..c.len() - 1];
        let mut out = String::new();
        let mut i = 0;
        while i < body.len() {
            if i + 1 < body.len() && body[i] == '\\' && (body[i + 1] == '\\' || body[i + 1] == '"') {
                out.push(body[i + 1]);
                i += 2;
            } else {
                out.push(body[i]);
                i += 1;
            }
        }
        out
    } else {
        t.to_string()
    }
}

#[test]
fn shell_escape_reads_back() {
    for s in ["", "plain/path.txt", "a b", "say \"hi\"", "back\\slash and space", "\"", "\\\"", "日本 語"] {
        assert_eq!(read_back(&shell_escape(s)), s);
    }
}
