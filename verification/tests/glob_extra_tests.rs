use sftp_download::glob::glob_match_recursive;
use sftp_download::sftp_downloader::glob_match;

#[test]
fn star_matches_any_name() {
    for name in ["", "a", "app.log", "dir/x.y.z", "日本語.txt"] {
        assert!(glob_match(name, "*", false));
        assert!(glob_match(name, "**", false));
    }
}

#[test]
fn plain_pattern_matches_only_itself() {
    assert!(glob_match("report.csv", "report.csv", false));
    assert!(!glob_match("report.csv2", "report.csv", false));
    assert!(!glob_match("report.cs", "report.csv", false));
    assert!(glob_match("a1c", "a?c", false));
    assert!(!glob_match("ac", "a?c", false));
}

#[test]
fn star_then_text_is_suffix_test() {
    assert!(glob_match(".log", "*.log", false));
    assert!(glob_match("a.b.log", "*.log", false));
    assert!(!glob_match("a.log.gz", "*.log", false));
}

#[test]
fn text_then_star_is_prefix_test() {
    assert!(glob_match("debug", "debug*", false));
    assert!(glob_match("debug.log", "debug*", false));
    assert!(!glob_match("xdebug", "debug*", false));
}

#[test]
fn class_edge_cases() {
    // `]` first in a class is a member.
    assert!(glob_match("]", "[]]", false));
    assert!(glob_match("a", "[]a]", false));
    // `^` negates too.
    assert!(glob_match("x", "[^ab]", false));
    assert!(!glob_match("a", "[^ab]", false));
    // A trailing `-` is literal.
    assert!(glob_match("-", "[a-]", false));
    // An unterminated class: `[` stands for itself.
    assert!(glob_match("[ab", "[ab", false));
    assert!(!glob_match("xab", "[ab", false));
    // After `[!`, the unterminated `[` takes one character that is not `[`.
    assert!(glob_match("x!a", "[!a", false));
    // An empty name never matches a class.
    assert!(!glob_match("", "[a]", false));
}

#[test]
fn ignore_case_folds_both_sides() {
    assert!(glob_match("README.MD", "readme.md", true));
    assert!(glob_match("readme.md", "README.MD", true));
    assert!(!glob_match("README.MD", "readme.md", false));
    // Only ASCII letters are folded.
    assert!(!glob_match("É", "é", true));
}

#[test]
fn recursive_matcher_from_offsets() {
    let name: Vec<char> = "xxapp.log".chars().collect();
    let pattern: Vec<char> = "--*.log".chars().collect();
    assert!(glob_match_recursive(&name, 2, &pattern, 2));
    assert!(!glob_match_recursive(&name, 2, &pattern, 0));
}

#[test]
fn recursive_matcher_past_the_ends() {
    let name: Vec<char> = "ab".chars().collect();
    let stars: Vec<char> = "x**".chars().collect();
    let plain: Vec<char> = "x*a".chars().collect();
    // Past the end of the name only a rest of stars matches.
    assert!(glob_match_recursive(&name, 5, &stars, 1));
    assert!(!glob_match_recursive(&name, 5, &plain, 1));
    assert!(!glob_match_recursive(&name, 5, &stars, 3));
    // Past the end of the pattern only the end of the name matches.
    assert!(glob_match_recursive(&name, 2, &plain, 9));
    assert!(!glob_match_recursive(&name, 1, &plain, 9));
}
