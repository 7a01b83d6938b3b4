use sftp_download::sftp_downloader::{glob_match, matches_any_glob};

#[test]
fn glob_basic_star() {
    assert!(glob_match("app.log", "*.log", false));
    assert!(glob_match("app.log", "*", false));
    assert!(!glob_match("app.log", "*.txt", false));
    // '*' matches empty sequence.
    assert!(glob_match("app", "app*", false));
    assert!(glob_match("app", "*app", false));
    assert!(glob_match("app", "a*p", false));
}

#[test]
fn glob_question_mark() {
    assert!(glob_match("app.log", "app.log", false));
    assert!(glob_match("app.log", "??p.log", false));
    assert!(!glob_match("app.log", "?.log", false));
    assert!(glob_match("a", "?", false));
    assert!(!glob_match("", "?", false));
}

#[test]
fn glob_char_class() {
    assert!(glob_match("app.log", "app.[lj]og", false));
    assert!(!glob_match("app.kog", "app.[lj]og", false));
    // Range.
    assert!(glob_match("app.log", "app.[a-z]og", false));
    assert!(!glob_match("app.Log", "app.[a-z]og", false));
    // Negated class.
    assert!(glob_match("app.kog", "app.[!lj]og", false));
    assert!(!glob_match("app.log", "app.[!lj]og", false));
}

#[test]
fn glob_ignore_case() {
    assert!(!glob_match("app.LOG", "*.log", false));
    assert!(glob_match("app.LOG", "*.log", true));
    assert!(glob_match("App.Log", "app.log", true));
    assert!(glob_match("APP.LOG", "???.LOG", true));
    // `?` matches exactly one char.
    assert!(!glob_match("APP.LOG", "?.LOG", true));
}

#[test]
fn glob_multiple_stars() {
    assert!(glob_match("dir/app.log", "*app.log", false)); // '*' spans 'dir/'
    assert!(glob_match("app.log.bak", "app*.bak", false));
    assert!(glob_match("app.log.bak", "*log*bak", false));
    assert!(!glob_match("app.log", "*log.tmp", false));
}

#[test]
fn glob_no_extension_file() {
    assert!(glob_match("README", "README", false));
    assert!(glob_match("README", "*", false));
    assert!(!glob_match("README", "*.log", false));
    assert!(glob_match("README", "READ*", false));
}

#[test]
fn glob_empty_pattern() {
    assert!(glob_match("", "", false));
    assert!(glob_match("", "*", false));
    assert!(!glob_match("a", "", false));
}

#[test]
fn matches_any_glob_works() {
    let pats = vec!["*.log".to_string(), "*.txt".to_string()];
    assert!(matches_any_glob("app.log", &pats, false));
    assert!(matches_any_glob("app.txt", &pats, false));
    assert!(!matches_any_glob("app.tmp", &pats, false));
    // Empty patterns -> no match.
    assert!(!matches_any_glob("app.log", &[], false));
}

#[test]
fn include_whitelist_semantics() {
    let whitelist = vec!["*.log".to_string(), "*.txt".to_string()];
    // Matches one of the patterns -> kept.
    assert!(matches_any_glob("app.log", &whitelist, false));
    assert!(matches_any_glob("notes.txt", &whitelist, false));
    // No match -> would be skipped by whitelist.
    assert!(!matches_any_glob("app.tmp", &whitelist, false));
    assert!(!matches_any_glob("README", &whitelist, false));
    assert!(!matches_any_glob("archive.tar.gz", &whitelist, false));
}

#[test]
fn exclude_blacklist_semantics() {
    let exclude = vec!["*.tmp".to_string(), "*~".to_string()];
    // Matches -> would be excluded.
    assert!(matches_any_glob("build.tmp", &exclude, false));
    assert!(matches_any_glob("app.log~", &exclude, false));
    assert!(matches_any_glob("~", &exclude, false));
    // No match -> kept.
    assert!(!matches_any_glob("app.log", &exclude, false));
    assert!(!matches_any_glob("README", &exclude, false));
}

#[test]
fn include_then_exclude_subset() {
    // Simulate the actual filter pipeline:
    //   include=*.log  -> {app.log, debug.log}
    //   exclude=debug* -> trims debug.log
    // Final: {app.log}
    let whitelist = vec!["*.log".to_string()];
    let exclude = vec!["debug*".to_string()];

    // app.log: passes include, not excluded -> downloaded.
    assert!(matches_any_glob("app.log", &whitelist, false));
    assert!(!matches_any_glob("app.log", &exclude, false));
    // debug.log: passes include, then excluded -> skipped.
    assert!(matches_any_glob("debug.log", &whitelist, false));
    assert!(matches_any_glob("debug.log", &exclude, false));
    // app.txt: fails include -> skipped (exclude never consulted).
    assert!(!matches_any_glob("app.txt", &whitelist, false));
}

#[test]
fn ignore_case_affects_matching() {
    let pats = vec!["*.LOG".to_string()];
    // Case-sensitive: mismatched case -> no match.
    assert!(!matches_any_glob("app.log", &pats, false));
    assert!(matches_any_glob("app.LOG", &pats, false));
    // Case-insensitive: both match.
    assert!(matches_any_glob("app.log", &pats, true));
    assert!(matches_any_glob("app.LOG", &pats, true));
    assert!(matches_any_glob("App.Log", &pats, true));
}

#[test]
fn empty_include_keeps_all() {
    // Empty include list -> matches_any_glob returns false,
    // which the caller interprets as "no whitelist active" (keep all).
    assert!(!matches_any_glob("anything.log", &[], false));
    assert!(!matches_any_glob("README", &[], false));
}

#[test]
fn empty_exclude_excludes_none() {
    // Empty exclude list -> nothing matches -> nothing excluded.
    assert!(!matches_any_glob("anything.log", &[], false));
    assert!(!matches_any_glob("debug.log", &[], false));
}

#[test]
fn no_extension_file_handling() {
    // No-extension files: only match patterns that don't require a dot ext.
    let whitelist = vec!["*.log".to_string()];
    assert!(!matches_any_glob("README", &whitelist, false)); // not whitelisted
    assert!(matches_any_glob("README", &["README".to_string()], false)); // exact match
    assert!(matches_any_glob("README", &["*".to_string()], false)); // wildcard
    assert!(matches_any_glob("README", &["READ*".to_string()], false)); // prefix
}
