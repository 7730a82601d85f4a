//! Shape checks for producer-supplied extension keys and number lexemes.
use vstd::prelude::*;
use crate::text::{is_ascii_alnum, is_ascii_alpha, is_ascii_digit};

verus! {

// ---------------------------------------------------------------------------
// Extension keys.

/// A namespace segment: an ASCII letter, then letters, digits, `.`, `_` or `-`.
pub open spec fn is_segment(s: Seq<char>) -> bool {
    s.len() > 0 && is_ascii_alpha(s[0]) && forall|i: int|
        1 <= i < s.len() ==> is_segment_tail(#[trigger] s[i])
}

/// A character allowed after the first one in a segment.
pub open spec fn is_segment_tail(c: char) -> bool {
    is_ascii_alnum(c) || c == '.' || c == '_' || c == '-'
}

/// A namespaced key: two segments joined by one `:`.
pub open spec fn is_namespaced_key(s: Seq<char>) -> bool {
    exists|k: int|
        0 <= k < s.len() && s[k] == ':' && is_segment(s.subrange(0, k)) && is_segment(
            s.subrange(k + 1, s.len() as int),
        )
}

fn is_extension_segment(s: &[char], a: usize, b: usize) -> (r: bool)
    requires
        a <= b <= s@.len(),
    ensures
        r == is_segment(s@.subrange(a as int, b as int)),
{
    let ghost seg = s@.subrange(a as int, b as int);
    if a == b {
        return false;
    }
    if !crate::text::ascii_alpha(s[a]) {
        assert(seg[0] == s@[a as int]);
        return false;
    }
    let mut i = a + 1;
    while i < b
        invariant
            a < i <= b,
            b <= s@.len(),
            seg == s@.subrange(a as int, b as int),
            forall|j: int| 1 <= j < i - a ==> is_segment_tail(#[trigger] seg[j]),
        decreases b - i,
    {
        let c = s[i];
        assert(seg[i - a] == c);
        if !(crate::text::ascii_alnum(c) || c == '.' || c == '_' || c == '-') {
            return false;
        }
        i = i + 1;
    }
    assert(seg[0] == s@[a as int]);
    true
}

/// Whether a producer extension key has the canonical namespace shape.
pub fn is_namespaced_extension_key(key: &str) -> (r: bool)
    ensures
        r == is_namespaced_key(key@),
{
    let s = crate::text::str_chars(key);
    let n = s.len();
    // The first ':' splits the key; a second one makes the second segment invalid.
    let mut k: usize = 0;
    while k < n && s[k] != ':'
        invariant
            k <= n,
            n == s@.len(),
            forall|j: int| 0 <= j < k ==> s@[j] != ':',
        decreases n - k,
    {
        k = k + 1;
    }
    if k == n {
        proof {
            if is_namespaced_key(key@) {
                let m = choose|m: int|
                    0 <= m < key@.len() && key@[m] == ':' && is_segment(key@.subrange(0, m))
                        && is_segment(key@.subrange(m + 1, key@.len() as int));
                assert(s@[m] == ':');
            }
        }
        return false;
    }
    let r = is_extension_segment(&s, 0, k) && is_extension_segment(&s, k + 1, n);
    proof {
        if r {
            assert(is_namespaced_key(key@)) by {
                assert(0 <= k < key@.len() && key@[k as int] == ':');
            }
        } else if is_namespaced_key(key@) {
            let m = choose|m: int|
                0 <= m < key@.len() && key@[m] == ':' && is_segment(key@.subrange(0, m))
                    && is_segment(key@.subrange(m + 1, key@.len() as int));
            if m < k {
                assert(s@[m] == ':');
            } else if m > k {
                let seg = key@.subrange(0, m);
                assert(seg[k as int] == ':');
                assert(!is_segment_tail(seg[k as int]));
            }
        }
    }
    r
}

// ---------------------------------------------------------------------------
// Number lexemes.

/// Calls `serde_json::Number::from_str` and, on success, formats the number
/// with its `Display` impl. Trusted: with the `arbitrary_precision` feature
/// the text parses exactly when it is a JSON number, and the number prints
/// as its own text with the exponent mark written `e` and the exponent sign
/// written out (`json_number_reprint`).
#[verifier::external_body]
fn serde_json_number_reprint(value: &str) -> (r: Option<String>)
    ensures
        match r {
            Some(t) => json_number_reprint(value@) == Some(t@),
            None => json_number_reprint(value@) is None,
        },
{
    match value.parse::<serde_json::Number>() {
        Ok(number) => Some(number.to_string()),
        Err(_) => None,
    }
}

/// Digits from `i` on: the index of the first non-digit at or after `i`.
pub open spec fn digits_end(s: Seq<char>, i: int) -> int
    decreases s.len() - i,
{
    if 0 <= i < s.len() && is_ascii_digit(s[i]) {
        digits_end(s, i + 1)
    } else {
        i
    }
}

/// Some character of `s[a..b]` is a digit other than `0`.
pub open spec fn has_nonzero(s: Seq<char>, a: int, b: int) -> bool {
    exists|j: int| a <= j < b && #[trigger] s[j] != '0'
}

/// The JSON number grammar: an optional `-`, an integer part without leading
/// zeros, an optional non-empty fraction and an optional exponent (`e` or
/// `E`, an optional sign, digits), and nothing else.
pub open spec fn json_number_grammar(s: Seq<char>) -> bool {
    let neg = s.len() > 0 && s[0] == '-';
    let i0: int = if neg { 1 } else { 0 };
    let int_end = if i0 < s.len() && s[i0] == '0' { i0 + 1 } else { digits_end(s, i0) };
    let frac = int_end < s.len() && s[int_end] == '.';
    let frac_end = if frac { digits_end(s, int_end + 1) } else { int_end };
    let exp = frac_end < s.len() && (s[frac_end] == 'e' || s[frac_end] == 'E');
    let exp_digits = if exp && frac_end + 1 < s.len() && (s[frac_end + 1] == '+' || s[frac_end + 1]
        == '-') {
        frac_end + 2
    } else {
        frac_end + 1
    };
    let end = if exp { digits_end(s, exp_digits) } else { frac_end };
    &&& i0 < s.len()
    &&& is_ascii_digit(s[i0])
    &&& !(s[i0] == '0' && i0 + 1 < s.len() && is_ascii_digit(s[i0 + 1]))
    &&& (frac ==> frac_end > int_end + 1)
    &&& (exp ==> end > exp_digits)
    &&& end == s.len()
}

/// How serde_json spells a number it read from `s`: the same text, with the
/// exponent mark written `e` and a `+` written where the exponent had no sign.
pub open spec fn json_number_spelling(s: Seq<char>) -> Seq<char> {
    let neg = s.len() > 0 && s[0] == '-';
    let i0: int = if neg { 1 } else { 0 };
    let int_end = if i0 < s.len() && s[i0] == '0' { i0 + 1 } else { digits_end(s, i0) };
    let frac = int_end < s.len() && s[int_end] == '.';
    let frac_end = if frac { digits_end(s, int_end + 1) } else { int_end };
    let exp = frac_end < s.len() && (s[frac_end] == 'e' || s[frac_end] == 'E');
    let signed = frac_end + 1 < s.len() && (s[frac_end + 1] == '+' || s[frac_end + 1] == '-');
    if !exp {
        s
    } else if signed {
        s.take(frac_end) + seq!['e'] + s.skip(frac_end + 1)
    } else {
        s.take(frac_end) + seq!['e', '+'] + s.skip(frac_end + 1)
    }
}

/// What `serde_json` prints for the number it parses from `text`, or `None`
/// when `text` is not a JSON number.
pub open spec fn json_number_reprint(text: Seq<char>) -> Option<Seq<char>> {
    if json_number_grammar(text) {
        Some(json_number_spelling(text))
    } else {
        None
    }
}

/// A JSON number in serde_json's own spelling, so that it prints back
/// unchanged; a negative number has a non-zero digit.
pub open spec fn is_json_number_text(s: Seq<char>) -> bool {
    let neg = s.len() > 0 && s[0] == '-';
    let i0: int = if neg { 1 } else { 0 };
    let int_end = if i0 < s.len() && s[i0] == '0' { i0 + 1 } else { digits_end(s, i0) };
    let frac = int_end < s.len() && s[int_end] == '.';
    let frac_end = if frac { digits_end(s, int_end + 1) } else { int_end };
    &&& json_number_grammar(s)
    &&& (neg ==> has_nonzero(s, i0, int_end) || (frac && has_nonzero(s, int_end + 1, frac_end)))
    &&& json_number_reprint(s) == Some(s)
}

fn scan_digits(s: &[char], i: usize) -> (r: usize)
    requires
        i <= s@.len(),
    ensures
        r == digits_end(s@, i as int),
        i <= r <= s@.len(),
        forall|j: int| i <= j < r ==> is_ascii_digit(#[trigger] s@[j]),
    decreases s@.len() - i,
{
    if i < s.len() && '0' <= s[i] && s[i] <= '9' {
        scan_digits(s, i + 1)
    } else {
        i
    }
}

fn any_nonzero(s: &[char], a: usize, b: usize) -> (r: bool)
    requires
        a <= b <= s@.len(),
    ensures
        r == has_nonzero(s@, a as int, b as int),
{
    let mut j = a;
    while j < b
        invariant
            a <= j <= b,
            b <= s@.len(),
            forall|t: int| a <= t < j ==> s@[t] == '0',
        decreases b - j,
    {
        if s[j] != '0' {
            return true;
        }
        j = j + 1;
    }
    false
}

/// Whether a producer number is a JSON number lexeme in serde_json's
/// canonical spelling, so that it survives a write and a read unchanged.
pub fn is_json_number_lexeme(value: &str) -> (r: bool)
    ensures
        r == is_json_number_text(value@),
{
    let s = crate::text::str_chars(value);
    let n = s.len();
    let neg = n > 0 && s[0] == '-';
    let i0: usize = if neg { 1 } else { 0 };
    if i0 >= n || !('0' <= s[i0] && s[i0] <= '9') {
        return false;
    }
    let int_end = if s[i0] == '0' {
        if i0 + 1 < n && '0' <= s[i0 + 1] && s[i0 + 1] <= '9' {
            return false;
        }
        i0 + 1
    } else {
        scan_digits(&s, i0)
    };
    let mut nonzero = any_nonzero(&s, i0, int_end);
    let frac = int_end < n && s[int_end] == '.';
    let frac_end = if frac {
        let e = scan_digits(&s, int_end + 1);
        if e == int_end + 1 {
            return false;
        }
        nonzero = nonzero || any_nonzero(&s, int_end + 1, e);
        e
    } else {
        int_end
    };
    let exp = frac_end < n && (s[frac_end] == 'e' || s[frac_end] == 'E');
    let end = if exp {
        let exp_digits = if frac_end + 1 < n && (s[frac_end + 1] == '+' || s[frac_end + 1] == '-') {
            frac_end + 2
        } else {
            frac_end + 1
        };
        if exp_digits > n {
            return false;
        }
        let e = scan_digits(&s, exp_digits);
        if e == exp_digits {
            return false;
        }
        e
    } else {
        frac_end
    };
    if end != n || (neg && !nonzero) {
        return false;
    }
    match serde_json_number_reprint(value) {
        Some(t) => crate::text::str_eq(t.as_str(), value),
        None => false,
    }
}

} // verus!
