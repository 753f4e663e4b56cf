use csp_editor::csp::{directive_name, CspPolicy, DIRECTIVE_COUNT};
use csp_editor::pattern::{any_pattern_matched, is_valid_value, value_pattern, PATTERN_COUNT};
use csp_editor::text::{chars_of, split_chars, string_from_chars, trim_string, words_of};

#[test]
fn test_valid_values() {
    assert!(is_valid_value("'self'"));
    assert!(is_valid_value("'unsafe-inline'"));
    assert!(is_valid_value("https://example.com"));
    assert!(is_valid_value("*.example.com"));
    assert!(is_valid_value("data:"));
    assert!(is_valid_value("'nonce-abc123='"));
    assert!(is_valid_value("'sha256-abc123='"));
}

#[test]
fn test_invalid_values() {
    assert!(!is_valid_value("invalid"));
    assert!(!is_valid_value("self")); // missing quotes
    assert!(!is_valid_value("javascript:"));
}

#[test]
fn test_parse_csp() {
    let csp = "default-src 'self'; script-src 'self' 'unsafe-inline'";
    let policy = CspPolicy::parse(csp).unwrap();

    assert!(policy.get_values("default-src").unwrap().contains("'self'"));
    assert!(policy.get_values("script-src").unwrap().contains("'self'"));
    assert!(policy.get_values("script-src").unwrap().contains("'unsafe-inline'"));
}

#[test]
fn test_add_remove_value() {
    let mut policy = CspPolicy::new();
    policy.add_value("default-src", "'self'");
    assert!(policy.get_values("default-src").unwrap().contains("'self'"));

    policy.remove_value("default-src", "'self'");
    assert!(policy.get_values("default-src").is_none());
}

#[test]
fn more_valid_values() {
    for v in [
        "'unsafe-eval'",
        "'unsafe-hashes'",
        "'strict-dynamic'",
        "'report-sample'",
        "'none'",
        "'wasm-unsafe-eval'",
        "http://localhost:8080/path/to",
        "cdn.example.org",
        "example.com:443/a/b",
        "*",
        "api.*",
        "wss://socket.example.com",
        "ws://127.0.0.1:9000",
        "blob:",
        "filesystem:",
        "mediastream:",
        "'sha384-AbC+/=='",
        "'sha512-xyz'",
    ] {
        assert!(is_valid_value(v), "{v}");
    }
}

#[test]
fn more_invalid_values() {
    for v in ["", "'self", "https://", "*.com", "ftp://example.com", "'nonce-'", "data", "a b"] {
        assert!(!is_valid_value(v), "{v}");
    }
}

#[test]
fn every_pattern_compiles() {
    for i in 0..PATTERN_COUNT {
        assert!(regex_ok(value_pattern(i)), "{}", value_pattern(i));
    }
    assert_eq!(value_pattern(0), "^'self'$");
}

fn regex_ok(p: &str) -> bool {
    regex::Regex::new(p).is_ok()
}

#[test]
fn any_pattern_matched_needs_a_true_outcome() {
    assert!(!any_pattern_matched(&vec![]));
    assert!(!any_pattern_matched(&vec![None, Some(false)]));
    assert!(any_pattern_matched(&vec![None, Some(false), Some(true)]));
}

#[test]
fn parse_keeps_directive_and_value_order() {
    let csp = "default-src 'self'; script-src 'self' 'unsafe-inline'; style-src 'self' 'unsafe-inline'";
    let policy = CspPolicy::parse(csp).unwrap();
    assert_eq!(policy.to_string(), csp);
    let dirs = policy.get_directives();
    assert_eq!(dirs.len(), 3);
    assert_eq!(dirs[0].0, "default-src");
    assert_eq!(dirs[1].0, "script-src");
    assert_eq!(dirs[1].1.len(), 2);
    assert_eq!(dirs[1].1.get(1).unwrap(), "'unsafe-inline'");
}

#[test]
fn parse_round_trip_readme_example() {
    let csp = "default-src 'none'; script-src 'self'; connect-src 'self'; img-src 'self'; style-src 'self'; base-uri 'self'; form-action 'self'";
    let policy = CspPolicy::parse(csp).unwrap();
    assert_eq!(policy.to_string(), csp);
    let again = CspPolicy::parse(&policy.to_string()).unwrap();
    assert_eq!(again.to_string(), csp);
}

#[test]
fn parse_tolerates_whitespace_and_empty_groups() {
    let policy = CspPolicy::parse("  ;; default-src\t 'self'\n 'self' ;  ;img-src\u{3000}data: ").unwrap();
    assert_eq!(policy.to_string(), "default-src 'self'; img-src data:");
    assert!(CspPolicy::parse("").unwrap().is_empty());
    assert!(CspPolicy::parse(" ; ;\t").unwrap().is_empty());
}

#[test]
fn parse_directive_without_values_and_repeated_directive() {
    let policy = CspPolicy::parse("upgrade-insecure-requests; img-src a.com; img-src b.com a.com").unwrap();
    assert_eq!(policy.to_string(), "upgrade-insecure-requests; img-src a.com b.com");
    assert_eq!(policy.get_values("upgrade-insecure-requests").unwrap().len(), 0);
    assert!(policy.get_values("upgrade-insecure-requests").unwrap().is_empty());
}

#[test]
fn add_value_is_idempotent_and_keeps_other_directives() {
    let mut policy = CspPolicy::new();
    policy.add_value("img-src", "a.com");
    policy.add_value("script-src", "'self'");
    policy.add_value("img-src", "a.com");
    assert_eq!(policy.to_string(), "img-src a.com; script-src 'self'");
    assert_eq!(policy.get_values("img-src").unwrap().len(), 1);
    assert!(policy.get_values("style-src").is_none());
}

#[test]
fn remove_value_cases() {
    let mut policy = CspPolicy::parse("img-src a.com b.com; frame-ancestors").unwrap();
    policy.remove_value("img-src", "a.com");
    assert_eq!(policy.to_string(), "img-src b.com; frame-ancestors");
    policy.remove_value("img-src", "c.com");
    assert_eq!(policy.to_string(), "img-src b.com; frame-ancestors");
    policy.remove_value("font-src", "x");
    assert_eq!(policy.to_string(), "img-src b.com; frame-ancestors");
    // a directive without values goes away on any removal from it
    policy.remove_value("frame-ancestors", "anything");
    assert_eq!(policy.to_string(), "img-src b.com");
    policy.remove_value("img-src", "b.com");
    assert!(policy.is_empty());
    assert_eq!(policy.to_string(), "");
}

#[test]
fn clear_and_char_count() {
    let mut policy = CspPolicy::parse("img-src a.com").unwrap();
    assert_eq!(policy.char_count(), 13);
    policy.add_value("img-src", "\u{e9}.fr");
    // "img-src a.com é.fr": the accented letter counts as one character
    assert_eq!(policy.char_count(), 18);
    let copy = policy.clone();
    policy.clear();
    assert!(policy.is_empty());
    assert_eq!(policy.char_count(), 0);
    assert_eq!(copy.to_string(), "img-src a.com \u{e9}.fr");
    assert!(CspPolicy::default().is_empty());
}

#[test]
fn char_count_counts_characters() {
    let mut policy = CspPolicy::new();
    policy.add_value("\u{e9}", "\u{e9}");
    assert_eq!(policy.to_string(), "\u{e9} \u{e9}");
    assert_eq!(policy.char_count(), 3);
}

#[test]
fn offered_directives() {
    assert_eq!(DIRECTIVE_COUNT, 19);
    assert_eq!(directive_name(0), "default-src");
    assert_eq!(directive_name(14), "report-to");
    assert_eq!(directive_name(18), "prefetch-src");
}

#[test]
fn text_helpers() {
    let v = chars_of("a;b;;c");
    let parts = split_chars(&v, ';');
    assert_eq!(parts.len(), 4);
    assert_eq!(parts[2].len(), 0);
    assert_eq!(split_chars(&chars_of(""), ';').len(), 1);
    let w = words_of(&chars_of("  x  yz\u{a0}w "));
    assert_eq!(w.len(), 3);
    assert_eq!(string_from_chars(&w[1], 0, 2), "yz");
    assert_eq!(trim_string("\u{2003} a b \n"), "a b");
    assert_eq!(trim_string("   "), "");
}

#[test]
fn empty_policy_iff_empty_string() {
    let p = CspPolicy::parse("upgrade-insecure-requests").unwrap();
    assert!(!p.is_empty());
    assert_eq!(p.to_string(), "upgrade-insecure-requests");
    let e = CspPolicy::parse(" ;; ").unwrap();
    assert!(e.is_empty());
    assert_eq!(e.to_string(), "");
}

#[test]
fn parse_print_parse_is_stable() {
    let p = CspPolicy::parse(" a  b b ;c;; d e\t ").unwrap();
    let printed = p.to_string();
    assert_eq!(printed, "a b; c; d e");
    assert_eq!(CspPolicy::parse(&printed).unwrap().to_string(), printed);
}

#[test]
fn add_then_remove_on_present_directive() {
    let mut policy = CspPolicy::parse("img-src a.com; font-src f.com").unwrap();
    let before = policy.to_string();
    policy.add_value("img-src", "b.com");
    assert_eq!(policy.to_string(), "img-src a.com b.com; font-src f.com");
    policy.remove_value("img-src", "b.com");
    assert_eq!(policy.to_string(), before);
}

#[test]
fn directives_keep_first_added_order() {
    let mut policy = CspPolicy::new();
    policy.add_value("b-src", "x");
    policy.add_value("a-src", "y");
    policy.add_value("b-src", "z");
    assert_eq!(policy.to_string(), "b-src x z; a-src y");
    policy.remove_value("b-src", "x");
    policy.remove_value("b-src", "z");
    policy.add_value("b-src", "w");
    assert_eq!(policy.to_string(), "a-src y; b-src w");
}
