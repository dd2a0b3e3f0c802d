use subtrace::subst::{encode_base64, substitute_str};
use subtrace::text::{
    contains_sub, first_line, normalize_hostname, replace_all, str_eq, strip_trailing_dots,
};

#[test]
fn substitute_resolves_every_marker() {
    let doc = "https://api.test/subtrace_B64({{domain}})/v1?d={{domain}}&k={{token}}";
    let out = substitute_str(doc, "example.com", "s3cr3t-token");
    assert_eq!(
        out,
        "https://api.test/ZXhhbXBsZS5jb20=/v1?d=example.com&k=s3cr3t-token"
    );
    assert!(!contains_sub(&out, "{{domain}}"));
    assert!(!contains_sub(&out, "{{token}}"));
    assert!(!contains_sub(&out, "subtrace_B64({{domain}})"));
}

#[test]
fn substitute_handles_repeats_and_plain_text() {
    let out = substitute_str("{{domain}}/{{domain}}", "a.io", "t");
    assert_eq!(out, "a.io/a.io");
    let unchanged = substitute_str("no markers here", "a.io", "t");
    assert_eq!(unchanged, "no markers here");
}

#[test]
fn base64_marker_uses_real_encoding() {
    let out = encode_base64("example.com");
    assert_eq!(out, "ZXhhbXBsZS5jb20=");
    assert_eq!(encode_base64(""), "");
}

#[test]
fn replace_all_scans_left_to_right() {
    assert_eq!(replace_all("aaa", "aa", "b"), "ba");
    assert_eq!(replace_all("x*.y*.z", "*.", ""), "xyz");
    assert_eq!(replace_all("abc", "", "q"), "abc");
}

#[test]
fn normalize_strips_wildcards_and_dots() {
    assert_eq!(normalize_hostname("*.sub.example.com."), "sub.example.com");
    assert_eq!(normalize_hostname("a*.b.example.com"), "ab.example.com");
    assert_eq!(normalize_hostname("sub.example.com..."), "sub.example.com");
    // one removal pass can leave a new leading marker; normalization
    // removes that too
    assert_eq!(normalize_hostname("**..x"), "x");
    assert_eq!(normalize_hostname("**.."), "");
}

#[test]
fn first_line_truncates_at_line_break() {
    assert_eq!(first_line("a.example.com\njunk"), "a.example.com");
    assert_eq!(first_line("a\r\nb"), "a");
    assert_eq!(first_line("plain"), "plain");
    assert_eq!(first_line("tail\r"), "tail\r");
    assert_eq!(first_line(""), "");
}

#[test]
fn trailing_dots_are_stripped() {
    assert_eq!(strip_trailing_dots("ns1.example.com."), "ns1.example.com");
    assert_eq!(strip_trailing_dots("ns1.example.com"), "ns1.example.com");
    assert_eq!(strip_trailing_dots("..."), "");
}

#[test]
fn string_search_helpers_agree() {
    assert!(str_eq("abc", "abc"));
    assert!(!str_eq("abc", "abd"));
    assert!(contains_sub("sub.example.com", "example.com"));
    assert!(!contains_sub("other.org", "example.com"));
}
