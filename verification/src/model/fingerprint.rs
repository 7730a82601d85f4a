//! Content fingerprints and the parsing of producer-owned content digests.
use vstd::prelude::*;
use crate::text::{ascii_lower, decimal, hex_value, is_hex_digit, lemma_hex_digit_values};
use vstd::string::StringSliceAdditionalSpecFns;

verus! {

/// The BLAKE3 hash of `data`, as computed by the `blake3` crate.
pub uninterp spec fn blake3_digest(data: Seq<u8>) -> Seq<u8>;

/// Calls `blake3::hash`. Trusted: the digest equals `blake3_digest` of the
/// input, and is `blake3::OUT_LEN` (32) bytes long, as the crate documents.
#[verifier::external_body]
fn blake3_hash(data: &[u8]) -> (r: Vec<u8>)
    ensures
        r@ == blake3_digest(data@),
        r@.len() == 32,
{
    blake3::hash(data).as_bytes().to_vec()
}

/// A validated content fingerprint: a named algorithm and a non-empty digest.
#[derive(Clone, Debug, PartialEq, Eq)]
pub struct ContentFingerprint {
    algorithm: String,
    digest: Vec<u8>,
}

/// The algorithm name `blake3`.
pub open spec fn blake3_name() -> Seq<char> {
    seq!['b', 'l', 'a', 'k', 'e', '3']
}

/// Whether an algorithm and digest form a valid content fingerprint.
pub open spec fn valid_fingerprint(algorithm: Seq<char>, digest: Seq<u8>) -> bool {
    algorithm.len() > 0 && digest.len() > 0 && (algorithm == blake3_name() ==> digest.len() == 32)
}

/// The character and byte view of the BLAKE3 fingerprint of `data`.
pub open spec fn blake3_content_fingerprint(data: Seq<u8>) -> (Seq<char>, Seq<u8>) {
    (blake3_name(), blake3_digest(data))
}

impl View for ContentFingerprint {
    type V = (Seq<char>, Seq<u8>);

    closed spec fn view(&self) -> (Seq<char>, Seq<u8>) {
        (self.algorithm@, self.digest@)
    }
}

/// Why a content fingerprint could not be constructed.
#[derive(Clone, Copy, Debug, PartialEq, Eq)]
pub enum ContentFingerprintError {
    EmptyAlgorithm,
    EmptyDigest,
    InvalidFingerprintDigestLength { expected: usize, actual: usize },
}

impl ContentFingerprint {
    /// A fingerprint, when the algorithm and digest are non-empty and a
    /// `blake3` digest is 32 bytes long.
    pub fn new(algorithm: String, digest: Vec<u8>) -> (r: Result<Self, ContentFingerprintError>)
        ensures
            r is Ok <==> valid_fingerprint(algorithm@, digest@),
            r matches Ok(f) ==> f@ == (algorithm@, digest@),
            r matches Err(e) ==> e == (if algorithm@.len() == 0 {
                ContentFingerprintError::EmptyAlgorithm
            } else if digest@.len() == 0 {
                ContentFingerprintError::EmptyDigest
            } else {
                ContentFingerprintError::InvalidFingerprintDigestLength {
                    expected: 32,
                    actual: digest@.len() as usize,
                }
            }),
    {
        if algorithm.unicode_len() == 0 {
            return Err(ContentFingerprintError::EmptyAlgorithm);
        }
        if digest.len() == 0 {
            return Err(ContentFingerprintError::EmptyDigest);
        }
        if is_blake3_name(algorithm.as_str()) && digest.len() != 32 {
            return Err(
                ContentFingerprintError::InvalidFingerprintDigestLength {
                    expected: 32,
                    actual: digest.len(),
                },
            );
        }
        Ok(ContentFingerprint { algorithm, digest })
    }

    /// The algorithm name.
    pub fn algorithm(&self) -> (r: &str)
        ensures
            r@ == self@.0,
    {
        self.algorithm.as_str()
    }

    /// The digest bytes.
    pub fn digest(&self) -> (r: &[u8])
        ensures
            r@ == self@.1,
    {
        self.digest.as_slice()
    }

    /// Whether two fingerprints are the same.
    pub fn same(&self, other: &ContentFingerprint) -> (r: bool)
        ensures
            r == (self@ == other@),
    {
        if !crate::text::str_eq(self.algorithm.as_str(), other.algorithm.as_str()) {
            return false;
        }
        if self.digest.len() != other.digest.len() {
            return false;
        }
        let mut i: usize = 0;
        while i < self.digest.len()
            invariant
                self.digest@.len() == other.digest@.len(),
                i <= self.digest@.len(),
                forall|j: int| 0 <= j < i ==> self.digest@[j] == other.digest@[j],
            decreases self.digest@.len() - i,
        {
            if self.digest[i] != other.digest[i] {
                return false;
            }
            i = i + 1;
        }
        assert(self.digest@ =~= other.digest@);
        true
    }

    /// A copy of this fingerprint.
    pub fn copy(&self) -> (r: Self)
        ensures
            r@ == self@,
    {
        let mut d: Vec<u8> = Vec::new();
        let mut i: usize = 0;
        while i < self.digest.len()
            invariant
                i <= self.digest@.len(),
                d@ == self.digest@.subrange(0, i as int),
            decreases self.digest@.len() - i,
        {
            d.push(self.digest[i]);
            i = i + 1;
            assert(d@ =~= self.digest@.subrange(0, i as int));
        }
        assert(d@ =~= self.digest@);
        ContentFingerprint { algorithm: crate::text::copy_string(&self.algorithm), digest: d }
    }
}

/// Whether a name is `blake3`.
pub fn is_blake3_name(s: &str) -> (r: bool)
    ensures
        r == (s@ == blake3_name()),
{
    let lit = "blake3";
    proof {
        reveal_strlit("blake3");
        assert(lit@ =~= blake3_name());
    }
    crate::text::str_eq(s, lit)
}

/// The BLAKE3 content fingerprint of `data`.
pub fn canonical_blake3_fingerprint(data: &[u8]) -> (r: ContentFingerprint)
    ensures
        r@ == blake3_content_fingerprint(data@),
{
    let digest = blake3_hash(data);
    let lit = "blake3";
    proof {
        reveal_strlit("blake3");
        assert(lit@ =~= blake3_name());
    }
    ContentFingerprint { algorithm: String::from_str(lit), digest }
}

/// Schema fingerprint recorded in compiled assets.
#[derive(Clone, Debug, PartialEq, Eq)]
pub enum SchemaFingerprint {
    Fingerprint(ContentFingerprint),
}

impl View for SchemaFingerprint {
    type V = (Seq<char>, Seq<u8>);

    open spec fn view(&self) -> (Seq<char>, Seq<u8>) {
        match self {
            SchemaFingerprint::Fingerprint(f) => f@,
        }
    }
}

/// Why a producer content digest was rejected.
#[derive(Clone, Copy, Debug, PartialEq, Eq)]
pub enum ProducerContentFingerprintError {
    EmptyAlgorithm,
    Blake3HexShape,
    Blake3HexData,
    EmptyDigest,
    Blake3DigestLength { actual: usize },
}

/// The message text of each producer content fingerprint error.
pub open spec fn producer_error_message(e: ProducerContentFingerprintError) -> Seq<char> {
    match e {
        ProducerContentFingerprintError::EmptyAlgorithm => "FingerprintAlgorithm must not be empty"@,
        ProducerContentFingerprintError::Blake3HexShape => "blake3 producer fingerprint must be even-length hex"@,
        ProducerContentFingerprintError::Blake3HexData => "blake3 producer fingerprint must be hex"@,
        ProducerContentFingerprintError::EmptyDigest => "FingerprintDigest must not be empty"@,
        ProducerContentFingerprintError::Blake3DigestLength { actual } =>
            "blake3 fingerprint digest must be 32 bytes, got "@ + decimal(actual as nat),
    }
}

impl ProducerContentFingerprintError {
    /// The human-readable message.
    pub fn message(&self) -> (r: String)
        ensures
            r@ == producer_error_message(*self),
    {
        match self {
            ProducerContentFingerprintError::EmptyAlgorithm => String::from_str(
                "FingerprintAlgorithm must not be empty",
            ),
            ProducerContentFingerprintError::Blake3HexShape => String::from_str(
                "blake3 producer fingerprint must be even-length hex",
            ),
            ProducerContentFingerprintError::Blake3HexData => String::from_str(
                "blake3 producer fingerprint must be hex",
            ),
            ProducerContentFingerprintError::EmptyDigest => String::from_str(
                "FingerprintDigest must not be empty",
            ),
            ProducerContentFingerprintError::Blake3DigestLength { actual } => {
                let mut m = String::from_str("blake3 fingerprint digest must be 32 bytes, got ");
                crate::text::push_decimal(&mut m, *actual);
                m
            },
        }
    }
}

/// Value of a two-character radix-16 byte as `u8::from_str_radix` reads it:
/// two hex digits, or `+` followed by one hex digit.
pub open spec fn hex_pair(a: char, b: char) -> Option<u8> {
    if is_hex_digit(a) && is_hex_digit(b) {
        Some((16 * hex_value(a) + hex_value(b)) as u8)
    } else if a == '+' && is_hex_digit(b) {
        Some(hex_value(b) as u8)
    } else {
        None
    }
}

/// Decode consecutive character pairs; `None` when a pair is not a byte.
pub open spec fn decode_hex_pairs(s: Seq<char>) -> Option<Seq<u8>>
    decreases s.len(),
{
    if s.len() < 2 {
        Some(Seq::empty())
    } else {
        match (hex_pair(s[0], s[1]), decode_hex_pairs(s.subrange(2, s.len() as int))) {
            (Some(b), Some(rest)) => Some(seq![b] + rest),
            _ => None,
        }
    }
}

/// The digest bytes a producer value stands for under `algorithm`, or the error.
pub open spec fn producer_digest(algorithm: Seq<char>, value: Seq<char>) -> Result<
    Seq<u8>,
    ProducerContentFingerprintError,
> {
    if algorithm == blake3_name() {
        if !vstd::utf8::is_ascii_chars(value) || value.len() % 2 == 1 {
            Err(ProducerContentFingerprintError::Blake3HexShape)
        } else {
            match decode_hex_pairs(value) {
                Some(d) => Ok(d),
                None => Err(ProducerContentFingerprintError::Blake3HexData),
            }
        }
    } else {
        Ok(vstd::utf8::encode_utf8(value))
    }
}

/// The outcome of parsing a producer content digest.
pub open spec fn producer_fingerprint_outcome(algorithm: Seq<char>, value: Seq<char>) -> Result<
    (Seq<char>, Seq<u8>),
    ProducerContentFingerprintError,
> {
    if algorithm.len() == 0 {
        Err(ProducerContentFingerprintError::EmptyAlgorithm)
    } else {
        match producer_digest(algorithm, value) {
            Err(e) => Err(e),
            Ok(d) => if d.len() == 0 {
                Err(ProducerContentFingerprintError::EmptyDigest)
            } else if algorithm == blake3_name() && d.len() != 32 {
                Err(ProducerContentFingerprintError::Blake3DigestLength { actual: d.len() as usize })
            } else {
                Ok((algorithm, d))
            },
        }
    }
}

proof fn lemma_decode_step(s: Seq<char>, i: int)
    requires
        0 <= i,
        i + 2 <= s.len(),
    ensures
        decode_hex_pairs(s.subrange(i, s.len() as int)) == match (
            hex_pair(s[i], s[i + 1]),
            decode_hex_pairs(s.subrange(i + 2, s.len() as int)),
        ) {
            (Some(b), Some(rest)) => Some(seq![b] + rest),
            _ => None,
        },
{
    let t = s.subrange(i, s.len() as int);
    assert(t.subrange(2, t.len() as int) =~= s.subrange(i + 2, s.len() as int));
}

/// Decode an even-length ASCII hex string of pairs.
fn decode_hex(chars: &Vec<char>) -> (r: Option<Vec<u8>>)
    requires
        chars@.len() % 2 == 0,
    ensures
        r.is_some() == decode_hex_pairs(chars@).is_some(),
        r matches Some(d) ==> Some(d@) == decode_hex_pairs(chars@),
{
    let n = chars.len();
    let mut out: Vec<u8> = Vec::new();
    let mut i: usize = 0;
    let ghost s = chars@;
    assert(s.subrange(0, s.len() as int) =~= s);
    while i < n
        invariant
            n == s.len(),
            s == chars@,
            n % 2 == 0,
            i % 2 == 0,
            i <= n,
            decode_hex_pairs(s).is_some() ==> (decode_hex_pairs(s.subrange(i as int, n as int)).is_some()
                && decode_hex_pairs(s) == Some(out@ + decode_hex_pairs(s.subrange(i as int, n as int)).unwrap())),
            decode_hex_pairs(s).is_none() ==> (decode_hex_pairs(s.subrange(i as int, n as int)).is_none()),
        decreases n - i,
    {
        proof {
            lemma_decode_step(s, i as int);
        }
        let a = chars[i];
        let b = chars[i + 1];
        let hb = crate::text::hex_digit_value(b);
        let v: u8 = match hb {
            None => {
                return None;
            },
            Some(lo) => {
                if a == '+' {
                    lo
                } else {
                    match crate::text::hex_digit_value(a) {
                        None => {
                            return None;
                        },
                        Some(hi) => hi * 16 + lo,
                    }
                }
            },
        };
        let ghost old_out = out@;
        out.push(v);
        proof {
            assert(hex_pair(a, b) == Some(v));
            if decode_hex_pairs(s).is_some() {
                let rest = decode_hex_pairs(s.subrange(i + 2, n as int)).unwrap();
                assert(old_out + (seq![v] + rest) =~= out@ + rest);
            }
        }
        i = i + 2;
    }
    proof {
        let e = s.subrange(n as int, n as int);
        assert(decode_hex_pairs(e) == Some(Seq::<u8>::empty()));
        assert(out@ + Seq::<u8>::empty() =~= out@);
    }
    Some(out)
}

/// Parse a producer-owned content digest. `blake3` digests are hex: each
/// byte is two characters read as `u8::from_str_radix(_, 16)` reads them.
/// Other algorithms take the UTF-8 bytes of the value as the digest.
pub fn producer_content_fingerprint_detailed(algorithm: String, value: &str) -> (r: Result<
    ContentFingerprint,
    ProducerContentFingerprintError,
>)
    ensures
        match (r, producer_fingerprint_outcome(algorithm@, value@)) {
            (Ok(f), Ok(v)) => f@ == v,
            (Err(e), Err(x)) => e == x,
            _ => false,
        },
{
    if algorithm.unicode_len() == 0 {
        return Err(ProducerContentFingerprintError::EmptyAlgorithm);
    }
    let is_blake3 = is_blake3_name(algorithm.as_str());
    let digest: Vec<u8> = if is_blake3 {
        let ascii = value.is_ascii();
        if !ascii {
            return Err(ProducerContentFingerprintError::Blake3HexShape);
        }
        let chars = crate::text::str_chars(value);
        proof {
            broadcast use vstd::string::is_ascii_spec_bytes;
            assert(value.spec_bytes().len() == value@.len());
        }
        if chars.len() % 2 == 1 {
            return Err(ProducerContentFingerprintError::Blake3HexShape);
        }
        match decode_hex(&chars) {
            Some(d) => d,
            None => {
                return Err(ProducerContentFingerprintError::Blake3HexData);
            },
        }
    } else {
        value.as_bytes_vec()
    };
    if digest.len() == 0 {
        return Err(ProducerContentFingerprintError::EmptyDigest);
    }
    match ContentFingerprint::new(algorithm, digest) {
        Ok(f) => Ok(f),
        Err(ContentFingerprintError::InvalidFingerprintDigestLength { actual, .. }) => Err(
            ProducerContentFingerprintError::Blake3DigestLength { actual },
        ),
        Err(ContentFingerprintError::EmptyAlgorithm) => Err(
            ProducerContentFingerprintError::EmptyAlgorithm,
        ),
        Err(ContentFingerprintError::EmptyDigest) => Err(ProducerContentFingerprintError::EmptyDigest),
    }
}

/// Parse a producer-owned content digest, reporting failures as message text.
pub fn producer_content_fingerprint(algorithm: String, value: &str) -> (r: Result<
    ContentFingerprint,
    String,
>)
    ensures
        match (r, producer_fingerprint_outcome(algorithm@, value@)) {
            (Ok(f), Ok(v)) => f@ == v,
            (Err(m), Err(x)) => m@ == producer_error_message(x),
            _ => false,
        },
{
    match producer_content_fingerprint_detailed(algorithm, value) {
        Ok(f) => Ok(f),
        Err(e) => Err(e.message()),
    }
}

/// `s` with its ASCII letters in lower case.
pub open spec fn ascii_lower_text(s: Seq<char>) -> Seq<char> {
    s.map_values(|c: char| ascii_lower(c))
}

/// Hex pairs decode the same in either case.
pub proof fn lemma_decode_hex_case_insensitive(s: Seq<char>)
    ensures
        decode_hex_pairs(ascii_lower_text(s)) == decode_hex_pairs(s),
    decreases s.len(),
{
    let l = ascii_lower_text(s);
    if s.len() >= 2 {
        lemma_hex_digit_values(s[0]);
        lemma_hex_digit_values(s[1]);
        assert(l[0] == ascii_lower(s[0]));
        assert(l[1] == ascii_lower(s[1]));
        assert(hex_pair(l[0], l[1]) == hex_pair(s[0], s[1]));
        let rest = s.subrange(2, s.len() as int);
        assert(l.subrange(2, l.len() as int) =~= ascii_lower_text(rest));
        lemma_decode_hex_case_insensitive(rest);
    }
}

/// A blake3 producer digest reads the same in upper and lower case: writing
/// its hex digits in lower case changes neither the outcome nor the bytes.
pub proof fn lemma_blake3_digest_case_insensitive(value: Seq<char>)
    ensures
        producer_fingerprint_outcome(blake3_name(), ascii_lower_text(value)) == producer_fingerprint_outcome(
            blake3_name(),
            value,
        ),
{
    let l = ascii_lower_text(value);
    lemma_decode_hex_case_insensitive(value);
    assert(vstd::utf8::is_ascii_chars(l) == vstd::utf8::is_ascii_chars(value)) by {
        if vstd::utf8::is_ascii_chars(value) {
            assert forall|i| 0 <= i < l.len() implies '\0' <= #[trigger] l[i] <= '\u{7f}' by {
                assert(l[i] == ascii_lower(value[i]));
                if 'A' <= value[i] && value[i] <= 'Z' {
                    assert(l[i] as u32 == value[i] as u32 + 32);
                }
            }
        }
        if vstd::utf8::is_ascii_chars(l) {
            assert forall|i| 0 <= i < value.len() implies '\0' <= #[trigger] value[i] <= '\u{7f}' by {
                assert(l[i] == ascii_lower(value[i]));
                if 'A' <= value[i] && value[i] <= 'Z' {
                    assert(l[i] as u32 == value[i] as u32 + 32);
                }
            }
        }
    }
}

/// Hex digits decode two by two: each pair of digits is one byte, the first
/// digit the high half and the second the low half.
pub proof fn lemma_hex_digits_decode(s: Seq<char>)
    requires
        s.len() % 2 == 0,
        forall|i: int| 0 <= i < s.len() ==> is_hex_digit(#[trigger] s[i]),
    ensures
        decode_hex_pairs(s) matches Some(d) && d.len() == s.len() / 2 && forall|j: int| 0 <= j < d.len()
            ==> #[trigger] d[j] as nat == 16 * hex_value(s[2 * j]) + hex_value(s[2 * j + 1]),
    decreases s.len(),
{
    if s.len() >= 2 {
        let rest = s.subrange(2, s.len() as int);
        lemma_hex_digits_decode(rest);
        lemma_hex_digit_values(s[0]);
        lemma_hex_digit_values(s[1]);
        let r = decode_hex_pairs(rest)->0;
        let b = (16 * hex_value(s[0]) + hex_value(s[1])) as u8;
        assert(16 * hex_value(s[0]) + hex_value(s[1]) < 256) by {
            assert(hex_value(s[0]) < 16 && hex_value(s[1]) < 16);
        }
        let d = seq![b] + r;
        assert forall|j: int| 0 <= j < d.len() implies #[trigger] d[j] as nat == 16 * hex_value(s[2 * j]) + hex_value(
            s[2 * j + 1],
        ) by {
            if j > 0 {
                assert(d[j] == r[j - 1]);
                assert(rest[2 * (j - 1)] == s[2 * j]);
                assert(rest[2 * (j - 1) + 1] == s[2 * j + 1]);
            }
        }
    }
}

/// A blake3 producer digest written as 64 hex digits, in either case, is
/// accepted, and its digest is the 32 bytes the digit pairs spell.
pub proof fn lemma_blake3_hex_digest(value: Seq<char>)
    requires
        value.len() == 64,
        forall|i: int| 0 <= i < value.len() ==> is_hex_digit(#[trigger] value[i]),
    ensures
        producer_fingerprint_outcome(blake3_name(), value) matches Ok((a, d)) && a == blake3_name() && d.len() == 32
            && forall|j: int| 0 <= j < 32 ==> #[trigger] d[j] as nat == 16 * hex_value(value[2 * j]) + hex_value(
            value[2 * j + 1],
        ),
{
    lemma_hex_digits_decode(value);
    assert(vstd::utf8::is_ascii_chars(value)) by {
        assert forall|i| 0 <= i < value.len() implies '\0' <= #[trigger] value[i] <= '\u{7f}' by {
            lemma_hex_digit_values(value[i]);
        }
    }
}

} // verus!
