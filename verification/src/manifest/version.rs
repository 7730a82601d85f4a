//! The `schema_version` field: only a number token equal to one is supported.
use vstd::prelude::*;
use crate::text::is_ascii_digit;

verus! {

/// Decimal value of a digit sequence.
pub open spec fn digits_value(s: Seq<char>) -> nat
    decreases s.len(),
{
    if s.len() == 0 {
        0
    } else {
        digits_value(s.drop_last()) * 10 + (s.last() as nat - '0' as nat) as nat
    }
}

/// Every character is an ASCII digit.
pub open spec fn all_digits(s: Seq<char>) -> bool {
    forall|i: int| 0 <= i < s.len() ==> is_ascii_digit(#[trigger] s[i])
}

/// The value `i64::from_str` reads from `s`: an optional `+` or `-`, then
/// one or more ASCII digits, within the range of `i64`.
pub open spec fn i64_text_value(s: Seq<char>) -> Option<int> {
    let neg = s.len() > 0 && s[0] == '-';
    let signed = s.len() > 0 && (s[0] == '-' || s[0] == '+');
    let digits = if signed { s.subrange(1, s.len() as int) } else { s };
    if digits.len() == 0 || !all_digits(digits) {
        None
    } else {
        let v: int = if neg { -(digits_value(digits) as int) } else { digits_value(digits) as int };
        if i64::MIN <= v <= i64::MAX {
            Some(v)
        } else {
            None
        }
    }
}

proof fn lemma_digits_value_push(s: Seq<char>, c: char)
    ensures
        digits_value(s.push(c)) == digits_value(s) * 10 + (c as nat - '0' as nat) as nat,
{
    assert(s.push(c).drop_last() =~= s);
}

proof fn lemma_digits_value_grows(s: Seq<char>, i: int)
    requires
        0 <= i <= s.len(),
        all_digits(s),
    ensures
        digits_value(s.subrange(0, i)) <= digits_value(s),
    decreases s.len() - i,
{
    if i < s.len() {
        lemma_digits_value_grows(s, i + 1);
        lemma_digits_value_push(s.subrange(0, i), s[i]);
        assert(s.subrange(0, i + 1) =~= s.subrange(0, i).push(s[i]));
    } else {
        assert(s.subrange(0, i) =~= s);
    }
}

/// Parse a decimal `i64` as `i64::from_str` does.
pub fn parse_i64(s: &[char]) -> (r: Option<i64>)
    ensures
        match r {
            Some(v) => i64_text_value(s@) == Some(v as int),
            None => i64_text_value(s@) is None,
        },
{
    let n = s.len();
    let neg = n > 0 && s[0] == '-';
    let signed = n > 0 && (s[0] == '-' || s[0] == '+');
    let start: usize = if signed { 1 } else { 0 };
    let ghost digits = if signed { s@.subrange(1, n as int) } else { s@ };
    if start >= n {
        return None;
    }
    proof {
        assert(s@.subrange(0, n as int) =~= s@);
    }
    // Magnitudes up to 2^63 are representable on one side or the other.
    let limit: u64 = 0x8000_0000_0000_0000;
    let mut acc: u64 = 0;
    let mut i: usize = start;
    while i < n
        invariant
            start <= i <= n,
            n == s@.len(),
            digits == s@.subrange(start as int, n as int),
            all_digits(s@.subrange(start as int, i as int)),
            acc as nat == digits_value(s@.subrange(start as int, i as int)),
            acc <= limit,
            limit == 0x8000_0000_0000_0000u64,
            start == (if s@.len() > 0 && (s@[0] == '-' || s@[0] == '+') { 1usize } else { 0usize }),
            digits == (if s@.len() > 0 && (s@[0] == '-' || s@[0] == '+') {
                s@.subrange(1, s@.len() as int)
            } else {
                s@
            }),
        decreases n - i,
    {
        let c = s[i];
        if !('0' <= c && c <= '9') {
            proof {
                assert(digits[i - start] == c);
                assert(!is_ascii_digit(digits[i - start]));
            }
            return None;
        }
        let d: u64 = (c as u32 - '0' as u32) as u64;
        proof {
            assert(d as nat == (c as nat - '0' as nat) as nat);
            lemma_digits_value_push(s@.subrange(start as int, i as int), c);
            assert(s@.subrange(start as int, i + 1) =~= s@.subrange(start as int, i as int).push(c));
        }
        if acc > (limit - d) / 10 {
            proof {
                assert(acc * 10 + d > limit) by (nonlinear_arith)
                    requires acc > (limit - d) / 10, d <= 9, limit == 0x8000_0000_0000_0000u64;
                if all_digits(digits) {
                    lemma_digits_value_grows(digits, i + 1 - start);
                    assert(digits.subrange(0, i + 1 - start) =~= s@.subrange(start as int, i + 1));
                    assert(digits_value(digits) > 0x8000_0000_0000_0000);
                }
            }
            return None;
        }
        proof {
            assert(acc * 10 + d <= limit) by (nonlinear_arith)
                requires acc <= (limit - d) / 10, d <= 9, limit == 0x8000_0000_0000_0000u64;
        }
        acc = acc * 10 + d;
        i = i + 1;
        proof {
            assert forall|j: int| 0 <= j < i - start implies is_ascii_digit(#[trigger] s@.subrange(start as int, i as int)[j]) by {
                if j < i - 1 - start {
                    assert(s@.subrange(start as int, i as int)[j] == s@.subrange(start as int, i - 1)[j]);
                }
            }
        }
    }
    proof {
        assert(s@.subrange(start as int, n as int) =~= digits);
    }
    if neg {
        if acc == limit {
            Some(i64::MIN)
        } else {
            Some(-(acc as i64))
        }
    } else {
        if acc == limit {
            None
        } else {
            Some(acc as i64)
        }
    }
}


/// Index of the first character at or after `i` that satisfies `p`.
pub open spec fn first_index_from(s: Seq<char>, i: int, p: spec_fn(char) -> bool) -> Option<int>
    decreases s.len() - i,
{
    if i < 0 || i >= s.len() {
        None
    } else if p(s[i]) {
        Some(i)
    } else {
        first_index_from(s, i + 1, p)
    }
}

pub open spec fn is_exp_marker() -> spec_fn(char) -> bool {
    |c: char| c == 'e' || c == 'E'
}

pub open spec fn is_dot() -> spec_fn(char) -> bool {
    |c: char| c == '.'
}

/// Significand and exponent of a number token: the text before the first
/// `e`/`E` and the `i64` after it (exponent 0 when there is no marker).
pub open spec fn split_exponent(s: Seq<char>) -> Option<(Seq<char>, int)> {
    match first_index_from(s, 0, is_exp_marker()) {
        None => Some((s, 0)),
        Some(k) => match i64_text_value(s.subrange(k + 1, s.len() as int)) {
            Some(e) => Some((s.subrange(0, k), e)),
            None => None,
        },
    }
}

/// Number of leading `0` characters.
pub open spec fn leading_zeros(s: Seq<char>) -> nat
    decreases s.len(),
{
    if s.len() > 0 && s[0] == '0' {
        1 + leading_zeros(s.drop_first())
    } else {
        0
    }
}

/// A `1` followed by `n` zeros.
pub open spec fn is_one_then_zeros(s: Seq<char>, n: int) -> bool {
    s.len() == n + 1 && s[0] == '1' && forall|i: int| 1 <= i < s.len() ==> #[trigger] s[i] == '0'
}

/// Whether a number token denotes exactly one: a non-negative decimal
/// significand (digits with an optional fraction) times ten to an `i64`
/// exponent, whose value is 1.
pub open spec fn number_token_is_one(token: Seq<char>) -> bool {
    match split_exponent(token) {
        None => false,
        Some((sig, e)) => {
            let dot = first_index_from(sig, 0, is_dot());
            let int_part = match dot {
                Some(k) => sig.subrange(0, k),
                None => sig,
            };
            let frac = match dot {
                Some(k) => sig.subrange(k + 1, sig.len() as int),
                None => Seq::<char>::empty(),
            };
            let coeff = int_part + frac;
            let trimmed = coeff.subrange(leading_zeros(coeff) as int, coeff.len() as int);
            let scale = frac.len() - e;
            &&& !(sig.len() > 0 && sig[0] == '-')
            &&& coeff.len() > 0
            &&& all_digits(coeff)
            &&& trimmed.len() > 0
            &&& 0 <= scale < usize::MAX
            &&& is_one_then_zeros(trimmed, scale)
        },
    }
}

/// Index of the first character at or after `from` satisfying the marker test.
fn find_char(s: &[char], from: usize, dot: bool) -> (r: Option<usize>)
    requires
        from <= s@.len(),
    ensures
        r matches Some(k) ==> from <= k < s@.len(),
        match r {
            Some(k) => first_index_from(s@, from as int, if dot { is_dot() } else { is_exp_marker() })
                == Some(k as int),
            None => first_index_from(s@, from as int, if dot { is_dot() } else { is_exp_marker() }) is None,
        },
    decreases s@.len() - from,
{
    if from >= s.len() {
        return None;
    }
    let c = s[from];
    let hit = if dot {
        c == '.'
    } else {
        c == 'e' || c == 'E'
    };
    if hit {
        Some(from)
    } else {
        find_char(s, from + 1, dot)
    }
}

fn slice_chars(s: &[char], a: usize, b: usize) -> (r: Vec<char>)
    requires
        a <= b <= s@.len(),
    ensures
        r@ == s@.subrange(a as int, b as int),
{
    let mut r: Vec<char> = Vec::new();
    let mut i = a;
    while i < b
        invariant
            a <= i <= b,
            b <= s@.len(),
            r@ == s@.subrange(a as int, i as int),
        decreases b - i,
    {
        r.push(s[i]);
        i = i + 1;
        assert(r@ =~= s@.subrange(a as int, i as int));
    }
    r
}

/// Split a number token at its exponent marker.
pub fn split_decimal_exponent(token: &[char]) -> (r: Option<(Vec<char>, i64)>)
    ensures
        match r {
            Some((sig, e)) => split_exponent(token@) == Some((sig@, e as int)),
            None => split_exponent(token@) is None,
        },
{
    match find_char(token, 0, false) {
        None => {
            let all = slice_chars(token, 0, token.len());
            assert(all@ =~= token@);
            Some((all, 0))
        },
        Some(k) => {
            let rest = slice_chars(token, k + 1, token.len());
            match parse_i64(&rest) {
                Some(e) => Some((slice_chars(token, 0, k), e)),
                None => None,
            }
        },
    }
}

proof fn lemma_leading_zeros_step(s: Seq<char>, i: int)
    requires
        0 <= i <= s.len(),
        forall|j: int| 0 <= j < i ==> s[j] == '0',
    ensures
        leading_zeros(s) == i + leading_zeros(s.subrange(i, s.len() as int)),
    decreases i,
{
    if i > 0 {
        lemma_leading_zeros_step(s.drop_first(), i - 1);
        assert(s.drop_first().subrange(i - 1, s.drop_first().len() as int) =~= s.subrange(i, s.len() as int));
    } else {
        assert(s.subrange(0, s.len() as int) =~= s);
    }
}

/// Whether a number token denotes exactly one.
pub fn number_token_equals_one(token: &str) -> (r: bool)
    ensures
        r == number_token_is_one(token@),
{
    let chars = crate::text::str_chars(token);
    let (sig, exponent) = match split_decimal_exponent(&chars) {
        Some(p) => p,
        None => return false,
    };
    if sig.len() > 0 && sig[0] == '-' {
        return false;
    }
    let found = find_char(&sig, 0, true);
    let (int_part, frac) = match found {
        Some(k) => (slice_chars(&sig, 0, k), slice_chars(&sig, k + 1, sig.len())),
        None => {
            let all = slice_chars(&sig, 0, sig.len());
            assert(all@ =~= sig@);
            (all, Vec::new())
        },
    };
    let mut coeff = int_part;
    let mut i: usize = 0;
    let ghost ip = coeff@;
    while i < frac.len()
        invariant
            i <= frac@.len(),
            coeff@ == ip + frac@.subrange(0, i as int),
        decreases frac@.len() - i,
    {
        coeff.push(frac[i]);
        i = i + 1;
        assert(coeff@ =~= ip + frac@.subrange(0, i as int));
    }
    assert(frac@.subrange(0, frac@.len() as int) =~= frac@);
    let ghost e = exponent as int;
    let ghost scale_spec = frac@.len() - e;
    let ghost trimmed_of = |c: Seq<char>| c.subrange(leading_zeros(c) as int, c.len() as int);
    proof {
        let dot = first_index_from(sig@, 0, is_dot());
        assert(dot == match found { Some(k) => Some(k as int), None => None::<int> });
        assert(number_token_is_one(token@) == (!(sig@.len() > 0 && sig@[0] == '-')
            && coeff@.len() > 0
            && all_digits(coeff@)
            && trimmed_of(coeff@).len() > 0
            && 0 <= scale_spec < usize::MAX
            && is_one_then_zeros(trimmed_of(coeff@), scale_spec)));
    }
    if coeff.len() == 0 {
        return false;
    }
    let mut j: usize = 0;
    while j < coeff.len()
        invariant
            j <= coeff@.len(),
            all_digits(coeff@.subrange(0, j as int)),
            number_token_is_one(token@) ==> all_digits(coeff@),
        decreases coeff@.len() - j,
    {
        if !('0' <= coeff[j] && coeff[j] <= '9') {
            proof {
                assert(!is_ascii_digit(coeff@[j as int]));
            }
            return false;
        }
        j = j + 1;
        assert forall|t: int| 0 <= t < j implies is_ascii_digit(#[trigger] coeff@.subrange(0, j as int)[t]) by {
            if t < j - 1 {
                assert(coeff@.subrange(0, j as int)[t] == coeff@.subrange(0, j - 1)[t]);
            }
        }
    }
    assert(coeff@.subrange(0, coeff@.len() as int) =~= coeff@);
    let mut z: usize = 0;
    while z < coeff.len() && coeff[z] == '0'
        invariant
            z <= coeff@.len(),
            forall|t: int| 0 <= t < z ==> coeff@[t] == '0',
        decreases coeff@.len() - z,
    {
        z = z + 1;
    }
    proof {
        lemma_leading_zeros_step(coeff@, z as int);
        let rest = coeff@.subrange(z as int, coeff@.len() as int);
        if rest.len() > 0 {
            assert(rest[0] == coeff@[z as int]);
        }
        assert(leading_zeros(rest) == 0);
        assert(trimmed_of(coeff@) == rest);
    }
    if z == coeff.len() {
        return false;
    }
    let scale: i128 = frac.len() as i128 - exponent as i128;
    if scale < 0 {
        return false;
    }
    if scale >= usize::MAX as i128 {
        return false;
    }
    let expected_len: usize = (scale as usize) + 1;
    let trimmed_len = coeff.len() - z;
    if trimmed_len != expected_len || coeff[z] != '1' {
        proof {
            let rest = coeff@.subrange(z as int, coeff@.len() as int);
            assert(rest[0] == coeff@[z as int]);
        }
        return false;
    }
    let ghost rest = coeff@.subrange(z as int, coeff@.len() as int);
    let mut k: usize = z + 1;
    while k < coeff.len()
        invariant
            z < k <= coeff@.len(),
            rest == coeff@.subrange(z as int, coeff@.len() as int),
            forall|t: int| z < t < k ==> coeff@[t] == '0',
            number_token_is_one(token@) ==> is_one_then_zeros(rest, rest.len() - 1),
        decreases coeff@.len() - k,
    {
        if coeff[k] != '0' {
            proof {
                assert(rest[k - z] == coeff@[k as int]);
            }
            return false;
        }
        k = k + 1;
    }
    proof {
        assert(rest[0] == coeff@[z as int]);
        assert forall|t: int| 1 <= t < rest.len() implies #[trigger] rest[t] == '0' by {
            assert(rest[t] == coeff@[z + t]);
        }
    }
    true
}

/// The schema version a manifest declares.
#[derive(Debug)]
pub enum SchemaVersion {
    One,
    /// A number other than one, as written.
    Unsupported(String),
    /// Not a number.
    Malformed,
}

/// The version a `schema_version` value and its number token declare.
pub open spec fn version_of(is_number: bool, token: Option<Seq<char>>) -> Option<Option<Seq<char>>> {
    if !is_number {
        None
    } else {
        match token {
            None => None,
            Some(t) => if number_token_is_one(t) { Some(None) } else { Some(Some(t)) },
        }
    }
}

/// View of a schema version: `None` when malformed, `Some(None)` for one,
/// else the unsupported token.
pub open spec fn version_view(v: SchemaVersion) -> Option<Option<Seq<char>>> {
    match v {
        SchemaVersion::One => Some(None),
        SchemaVersion::Unsupported(t) => Some(Some(t@)),
        SchemaVersion::Malformed => None,
    }
}

/// The version declared by a value that is a number or not, and the number
/// token written for it in the source.
pub fn schema_version_from_token(is_number: bool, token: Option<String>) -> (r: SchemaVersion)
    ensures
        version_view(r) == version_of(is_number, match token {
            Some(t) => Some(t@),
            None => None,
        }),
{
    if !is_number {
        return SchemaVersion::Malformed;
    }
    match token {
        None => SchemaVersion::Malformed,
        Some(t) => {
            if number_token_equals_one(t.as_str()) {
                SchemaVersion::One
            } else {
                SchemaVersion::Unsupported(t)
            }
        },
    }
}

} // verus!
