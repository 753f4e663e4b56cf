//! Validation of source values against the patterns of accepted CSP source
//! expressions. The patterns are regular expressions, matched by the `regex` crate.

use vstd::prelude::*;

verus! {

/// The number of accepted value patterns.
pub const PATTERN_COUNT: usize = 22;

/// The accepted value patterns, by position: keywords, URLs and domains,
/// wildcards, WebSocket URLs, special schemes, nonces and hashes.
pub open spec fn pattern_at(i: int) -> Seq<char> {
    if i == 0 {
        r"^'self'$"@
    } else if i == 1 {
        r"^'unsafe-inline'$"@
    } else if i == 2 {
        r"^'unsafe-eval'$"@
    } else if i == 3 {
        r"^'unsafe-hashes'$"@
    } else if i == 4 {
        r"^'strict-dynamic'$"@
    } else if i == 5 {
        r"^'report-sample'$"@
    } else if i == 6 {
        r"^'none'$"@
    } else if i == 7 {
        r"^'wasm-unsafe-eval'$"@
    } else if i == 8 {
        r"^https?://[\w\-.]+(:\d+)?(/[\w\-./]*)*$"@
    } else if i == 9 {
        r"^[\w][\w\-.]*\.[a-z]{2,}(:\d+)?(/[\w\-./]*)*$"@
    } else if i == 10 {
        r"^\*$"@
    } else if i == 11 {
        r"^\*\.[\w][\w\-.]*\.[a-z]{2,}$"@
    } else if i == 12 {
        r"^[\w][\w\-.]*\.\*$"@
    } else if i == 13 {
        r"^wss?://[\w\-.]+(:\d+)?(/[\w\-./]*)*$"@
    } else if i == 14 {
        r"^data:$"@
    } else if i == 15 {
        r"^blob:$"@
    } else if i == 16 {
        r"^filesystem:$"@
    } else if i == 17 {
        r"^mediastream:$"@
    } else if i == 18 {
        r"^'nonce-[\w+/=]+'$"@
    } else if i == 19 {
        r"^'sha256-[\w+/=]+'$"@
    } else if i == 20 {
        r"^'sha384-[\w+/=]+'$"@
    } else {
        r"^'sha512-[\w+/=]+'$"@
    }
}

/// Whether `regex::Regex::new` accepts `pattern` (it returns `Ok`).
pub uninterp spec fn regex_compiles(pattern: Seq<char>) -> bool;

/// What `regex::Regex::is_match` of the regex compiled from `pattern` answers for `haystack`.
pub uninterp spec fn regex_is_match(pattern: Seq<char>, haystack: Seq<char>) -> bool;

/// Compiles `pattern` with `regex::Regex::new` and, when that succeeds, asks
/// `regex::Regex::is_match` whether it matches `haystack`. The contract says
/// only that the outcome is `Some` exactly when the pattern compiles and that
/// the answer is the one `is_match` gives; what a pattern matches is left to
/// the `regex` crate.
#[verifier::external_body]
fn regex_match(pattern: &str, haystack: &str) -> (r: Option<bool>)
    ensures
        r is Some <==> regex_compiles(pattern@),
        r matches Some(b) ==> b == regex_is_match(pattern@, haystack@),
{
    match regex::Regex::new(pattern) {
        Ok(re) => Some(re.is_match(haystack)),
        Err(_) => None,
    }
}

/// The pattern at position `i`.
pub fn value_pattern(i: usize) -> (r: &'static str)
    requires
        i < PATTERN_COUNT,
    ensures
        r@ == pattern_at(i as int),
{
    match i {
        // CSP keywords
        0 => r"^'self'$",
        1 => r"^'unsafe-inline'$",
        2 => r"^'unsafe-eval'$",
        3 => r"^'unsafe-hashes'$",
        4 => r"^'strict-dynamic'$",
        5 => r"^'report-sample'$",
        6 => r"^'none'$",
        7 => r"^'wasm-unsafe-eval'$",
        // URLs and domains
        8 => r"^https?://[\w\-.]+(:\d+)?(/[\w\-./]*)*$",
        9 => r"^[\w][\w\-.]*\.[a-z]{2,}(:\d+)?(/[\w\-./]*)*$",
        // Wildcards
        10 => r"^\*$",
        11 => r"^\*\.[\w][\w\-.]*\.[a-z]{2,}$",
        12 => r"^[\w][\w\-.]*\.\*$",
        // WebSocket URLs
        13 => r"^wss?://[\w\-.]+(:\d+)?(/[\w\-./]*)*$",
        // Special schemes
        14 => r"^data:$",
        15 => r"^blob:$",
        16 => r"^filesystem:$",
        17 => r"^mediastream:$",
        // Nonces and hashes
        18 => r"^'nonce-[\w+/=]+'$",
        19 => r"^'sha256-[\w+/=]+'$",
        20 => r"^'sha384-[\w+/=]+'$",
        _ => r"^'sha512-[\w+/=]+'$",
    }
}

/// Whether pattern `i` compiles and matches `value`.
pub open spec fn pattern_accepts(i: int, value: Seq<char>) -> bool {
    regex_compiles(pattern_at(i)) && regex_is_match(pattern_at(i), value)
}

/// A value is valid when one of the patterns accepts it.
pub open spec fn valid_value(value: Seq<char>) -> bool {
    exists|i: int| 0 <= i < PATTERN_COUNT && #[trigger] pattern_accepts(i, value)
}

/// The patterns of the CSP source expressions that the editor accepts:
/// keywords, URLs and domains, wildcards, WebSocket URLs, special schemes,
/// nonces and hashes.
pub open spec fn csp_source_patterns() -> Set<Seq<char>> {
    Set::empty()
        .insert(r"^'self'$"@)
        .insert(r"^'unsafe-inline'$"@)
        .insert(r"^'unsafe-eval'$"@)
        .insert(r"^'unsafe-hashes'$"@)
        .insert(r"^'strict-dynamic'$"@)
        .insert(r"^'report-sample'$"@)
        .insert(r"^'none'$"@)
        .insert(r"^'wasm-unsafe-eval'$"@)
        .insert(r"^https?://[\w\-.]+(:\d+)?(/[\w\-./]*)*$"@)
        .insert(r"^[\w][\w\-.]*\.[a-z]{2,}(:\d+)?(/[\w\-./]*)*$"@)
        .insert(r"^\*$"@)
        .insert(r"^\*\.[\w][\w\-.]*\.[a-z]{2,}$"@)
        .insert(r"^[\w][\w\-.]*\.\*$"@)
        .insert(r"^wss?://[\w\-.]+(:\d+)?(/[\w\-./]*)*$"@)
        .insert(r"^data:$"@)
        .insert(r"^blob:$"@)
        .insert(r"^filesystem:$"@)
        .insert(r"^mediastream:$"@)
        .insert(r"^'nonce-[\w+/=]+'$"@)
        .insert(r"^'sha256-[\w+/=]+'$"@)
        .insert(r"^'sha384-[\w+/=]+'$"@)
        .insert(r"^'sha512-[\w+/=]+'$"@)
}

/// A value is valid exactly when one of the CSP source patterns compiles and
/// matches it: the accepted patterns are exactly those of the list above.
pub proof fn lemma_valid_value_patterns(value: Seq<char>)
    ensures
        valid_value(value) <==> exists|p: Seq<char>|
            #[trigger] csp_source_patterns().contains(p) && regex_compiles(p) && regex_is_match(
                p,
                value,
            ),
{
    if valid_value(value) {
        let i = choose|i: int| 0 <= i < PATTERN_COUNT && #[trigger] pattern_accepts(i, value);
        if i == 0 {
            assert(csp_source_patterns().contains(r"^'self'$"@));
        } else if i == 1 {
            assert(csp_source_patterns().contains(r"^'unsafe-inline'$"@));
        } else if i == 2 {
            assert(csp_source_patterns().contains(r"^'unsafe-eval'$"@));
        } else if i == 3 {
            assert(csp_source_patterns().contains(r"^'unsafe-hashes'$"@));
        } else if i == 4 {
            assert(csp_source_patterns().contains(r"^'strict-dynamic'$"@));
        } else if i == 5 {
            assert(csp_source_patterns().contains(r"^'report-sample'$"@));
        } else if i == 6 {
            assert(csp_source_patterns().contains(r"^'none'$"@));
        } else if i == 7 {
            assert(csp_source_patterns().contains(r"^'wasm-unsafe-eval'$"@));
        } else if i == 8 {
            assert(csp_source_patterns().contains(r"^https?://[\w\-.]+(:\d+)?(/[\w\-./]*)*$"@));
        } else if i == 9 {
            assert(csp_source_patterns().contains(r"^[\w][\w\-.]*\.[a-z]{2,}(:\d+)?(/[\w\-./]*)*$"@));
        } else if i == 10 {
            assert(csp_source_patterns().contains(r"^\*$"@));
        } else if i == 11 {
            assert(csp_source_patterns().contains(r"^\*\.[\w][\w\-.]*\.[a-z]{2,}$"@));
        } else if i == 12 {
            assert(csp_source_patterns().contains(r"^[\w][\w\-.]*\.\*$"@));
        } else if i == 13 {
            assert(csp_source_patterns().contains(r"^wss?://[\w\-.]+(:\d+)?(/[\w\-./]*)*$"@));
        } else if i == 14 {
            assert(csp_source_patterns().contains(r"^data:$"@));
        } else if i == 15 {
            assert(csp_source_patterns().contains(r"^blob:$"@));
        } else if i == 16 {
            assert(csp_source_patterns().contains(r"^filesystem:$"@));
        } else if i == 17 {
            assert(csp_source_patterns().contains(r"^mediastream:$"@));
        } else if i == 18 {
            assert(csp_source_patterns().contains(r"^'nonce-[\w+/=]+'$"@));
        } else if i == 19 {
            assert(csp_source_patterns().contains(r"^'sha256-[\w+/=]+'$"@));
        } else if i == 20 {
            assert(csp_source_patterns().contains(r"^'sha384-[\w+/=]+'$"@));
        } else if i == 21 {
            assert(csp_source_patterns().contains(r"^'sha512-[\w+/=]+'$"@));
        }
        assert(csp_source_patterns().contains(pattern_at(i)));
    }
    if exists|p: Seq<char>|
        #[trigger] csp_source_patterns().contains(p) && regex_compiles(p) && regex_is_match(p, value) {
        let p = choose|p: Seq<char>|
            #[trigger] csp_source_patterns().contains(p) && regex_compiles(p) && regex_is_match(
                p,
                value,
            );
        if p == r"^'self'$"@ {
            assert(pattern_accepts(0, value));
        } else if p == r"^'unsafe-inline'$"@ {
            assert(pattern_accepts(1, value));
        } else if p == r"^'unsafe-eval'$"@ {
            assert(pattern_accepts(2, value));
        } else if p == r"^'unsafe-hashes'$"@ {
            assert(pattern_accepts(3, value));
        } else if p == r"^'strict-dynamic'$"@ {
            assert(pattern_accepts(4, value));
        } else if p == r"^'report-sample'$"@ {
            assert(pattern_accepts(5, value));
        } else if p == r"^'none'$"@ {
            assert(pattern_accepts(6, value));
        } else if p == r"^'wasm-unsafe-eval'$"@ {
            assert(pattern_accepts(7, value));
        } else if p == r"^https?://[\w\-.]+(:\d+)?(/[\w\-./]*)*$"@ {
            assert(pattern_accepts(8, value));
        } else if p == r"^[\w][\w\-.]*\.[a-z]{2,}(:\d+)?(/[\w\-./]*)*$"@ {
            assert(pattern_accepts(9, value));
        } else if p == r"^\*$"@ {
            assert(pattern_accepts(10, value));
        } else if p == r"^\*\.[\w][\w\-.]*\.[a-z]{2,}$"@ {
            assert(pattern_accepts(11, value));
        } else if p == r"^[\w][\w\-.]*\.\*$"@ {
            assert(pattern_accepts(12, value));
        } else if p == r"^wss?://[\w\-.]+(:\d+)?(/[\w\-./]*)*$"@ {
            assert(pattern_accepts(13, value));
        } else if p == r"^data:$"@ {
            assert(pattern_accepts(14, value));
        } else if p == r"^blob:$"@ {
            assert(pattern_accepts(15, value));
        } else if p == r"^filesystem:$"@ {
            assert(pattern_accepts(16, value));
        } else if p == r"^mediastream:$"@ {
            assert(pattern_accepts(17, value));
        } else if p == r"^'nonce-[\w+/=]+'$"@ {
            assert(pattern_accepts(18, value));
        } else if p == r"^'sha256-[\w+/=]+'$"@ {
            assert(pattern_accepts(19, value));
        } else if p == r"^'sha384-[\w+/=]+'$"@ {
            assert(pattern_accepts(20, value));
        } else if p == r"^'sha512-[\w+/=]+'$"@ {
            assert(pattern_accepts(21, value));
        }
    }
}

/// Whether one of the per-pattern outcomes is a match.
pub fn any_pattern_matched(outcomes: &Vec<Option<bool>>) -> (r: bool)
    ensures
        r == exists|i: int| 0 <= i < outcomes@.len() && #[trigger] outcomes@[i] == Some(true),
{
    let mut i: usize = 0;
    while i < outcomes.len()
        invariant
            i <= outcomes.len(),
            forall|j: int| 0 <= j < i ==> #[trigger] outcomes@[j] != Some(true),
        decreases outcomes.len() - i,
    {
        match outcomes[i] {
            Some(true) => {
                return true;
            },
            _ => {},
        }
        i = i + 1;
    }
    false
}

/// Validates a CSP source value against the accepted patterns.
pub fn is_valid_value(value: &str) -> (r: bool)
    ensures
        r == valid_value(value@),
        r <==> exists|p: Seq<char>|
            #[trigger] csp_source_patterns().contains(p) && regex_compiles(p) && regex_is_match(
                p,
                value@,
            ),
{
    proof {
        lemma_valid_value_patterns(value@);
    }
    let mut outcomes: Vec<Option<bool>> = Vec::new();
    let mut i: usize = 0;
    while i < PATTERN_COUNT
        invariant
            i <= PATTERN_COUNT,
            outcomes@.len() == i,
            forall|j: int|
                0 <= j < i ==> (#[trigger] outcomes@[j] == Some(true) <==> pattern_accepts(j, value@)),
        decreases PATTERN_COUNT - i,
    {
        let outcome = regex_match(value_pattern(i), value);
        outcomes.push(outcome);
        i = i + 1;
    }
    let r = any_pattern_matched(&outcomes);
    proof {
        if r {
            let j = choose|j: int| 0 <= j < outcomes@.len() && #[trigger] outcomes@[j] == Some(true);
            assert(pattern_accepts(j, value@));
        } else {
            assert forall|j: int| 0 <= j < PATTERN_COUNT implies !#[trigger] pattern_accepts(j, value@) by {
                assert(outcomes@[j] != Some(true));
            }
        }
    }
    r
}

} // verus!
