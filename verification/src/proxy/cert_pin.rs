//! The pinned fingerprint of the mirror server's certificate.

use crate::text::decimal;
use crate::text::decimal_text;
use crate::text::hex;
use crate::text::hex_digit;
use crate::text::hex_encode;
use vstd::prelude::*;
use vstd::string::StringExecFns;
use vstd::utf8::encode_utf8;
use vstd::utf8::is_ascii_chars;

verus! {

/// What `{:?}` writes for a character: the character in single quotes, escaped
/// where it does not print.
pub uninterp spec fn char_debug_text(c: char) -> Seq<char>;

/// A character of ASCII that prints, other than a quote or a backslash.
pub open spec fn shown_plainly(c: char) -> bool {
    ' ' <= c <= '~' && c != '\'' && c != '\\'
}

/// `format!("{:?}", c)`. The text depends on the character alone. A character of
/// ASCII that prints, other than a quote or a backslash, stands in single quotes;
/// what the text is for any other is not said.
#[verifier::external_body]
fn char_debug(c: char) -> (r: String)
    ensures
        r@ == char_debug_text(c),
        shown_plainly(c) ==> r@ == seq!['\'', c, '\''],
{
    format!("{:?}", c)
}

/// The SHA-256 digest of some bytes.
pub uninterp spec fn sha256_digest(data: Seq<u8>) -> Seq<u8>;

/// `openssl::sha::sha256`. The digest depends on the bytes alone.
#[verifier::external_body]
fn sha256(data: &[u8]) -> (r: [u8; 32])
    ensures
        r@ == sha256_digest(data@),
{
    openssl::sha::sha256(data)
}

/// `openssl::memcmp::eq`, a comparison in constant time: true if and only if both
/// hold the same bytes. It panics on different lengths.
#[verifier::external_body]
fn constant_time_eq(a: &[u8], b: &[u8]) -> (r: bool)
    requires
        a@.len() == b@.len(),
    ensures
        r == (a@ == b@),
{
    openssl::memcmp::eq(a, b)
}

/// ASCII white space and colons may stand anywhere in a fingerprint.
pub open spec fn is_separator(b: u8) -> bool {
    b == 0x20 || b == 0x09 || b == 0x0a || b == 0x0c || b == 0x0d || b == 0x3a
}

/// The value of a hexadecimal digit in either case.
pub open spec fn hex_value(c: u8) -> Option<u8> {
    if 0x30 <= c <= 0x39 {
        Some((c - 0x30) as u8)
    } else if 0x61 <= c <= 0x66 {
        Some((c - 0x61 + 10) as u8)
    } else if 0x41 <= c <= 0x46 {
        Some((c - 0x41 + 10) as u8)
    } else {
        None
    }
}

/// The text of a fingerprint in UTF-8, without separators.
pub open spec fn cleaned(s: Seq<char>) -> Seq<u8> {
    encode_utf8(s).filter(|b: u8| !is_separator(b))
}

/// `i` is the first position that holds no hexadecimal digit.
pub open spec fn first_bad_digit(digits: Seq<u8>, i: int) -> bool {
    &&& 0 <= i < digits.len()
    &&& hex_value(digits[i]) is None
    &&& forall|j: int| 0 <= j < i ==> hex_value(#[trigger] digits[j]) is Some
}

/// Two digits make a byte, the high one first.
pub open spec fn digits_to_bytes(digits: Seq<u8>) -> Seq<u8> {
    Seq::new(
        digits.len() / 2,
        |i: int|
            (hex_value(digits[2 * i]).unwrap() * 16 + hex_value(digits[2 * i + 1]).unwrap()) as u8,
    )
}

/// The complaint about a byte that is no hexadecimal digit.
pub open spec fn invalid_digit_text(c: u8) -> Seq<char> {
    "invalid hex character: "@ + char_debug_text(c as char)
}

/// The complaint about a byte that is no hexadecimal digit, but prints.
pub open spec fn plain_digit_text(c: u8) -> Seq<char> {
    "invalid hex character: "@ + seq!['\'', c as char, '\'']
}

/// What a fingerprint stands for: thirty-two bytes, or the complaint about it.
pub open spec fn parsed_pin(s: Seq<char>) -> Result<Seq<u8>, Seq<char>> {
    let digits = cleaned(s);
    if digits.len() != 64 {
        Err("expected 64 hex characters (32-byte SHA-256), got "@ + decimal(digits.len()))
    } else if exists|i: int| first_bad_digit(digits, i) {
        Err(invalid_digit_text(digits[choose|i: int| first_bad_digit(digits, i)]))
    } else {
        Ok(digits_to_bytes(digits))
    }
}

/// The value of a hexadecimal digit, or the complaint about it.
pub fn hex_val(c: u8) -> (r: Result<u8, String>)
    ensures
        match r {
            Ok(v) => hex_value(c) == Some(v) && v < 16,
            Err(e) => hex_value(c) is None && e@ == invalid_digit_text(c) && (shown_plainly(
                c as char,
            ) ==> e@ == plain_digit_text(c)),
        },
{
    if 0x30 <= c && c <= 0x39 {
        Ok(c - 0x30)
    } else if 0x61 <= c && c <= 0x66 {
        Ok(c - 0x61 + 10)
    } else if 0x41 <= c && c <= 0x46 {
        Ok(c - 0x41 + 10)
    } else {
        Err(String::from_str("invalid hex character: ").concat(char_debug(c as char).as_str()))
    }
}

fn without_separators(bytes: &[u8]) -> (r: Vec<u8>)
    ensures
        r@ == bytes@.filter(|b: u8| !is_separator(b)),
{
    let ghost keep = |b: u8| !is_separator(b);
    let mut r: Vec<u8> = Vec::new();
    let n: usize = bytes.len();
    let mut i: usize = 0;
    assert(bytes@.take(0) =~= Seq::<u8>::empty());
    assert(r@ =~= bytes@.take(0).filter(keep));
    while i < n
        invariant
            i <= n,
            n == bytes@.len(),
            keep == (|b: u8| !is_separator(b)),
            r@ == bytes@.take(i as int).filter(keep),
        decreases n - i,
    {
        let b: u8 = bytes[i];
        let separator = b == 0x20 || b == 0x09 || b == 0x0a || b == 0x0c || b == 0x0d || b == 0x3a;
        proof {
            bytes@.take(i as int).lemma_filter_push(b, keep);
            assert(bytes@.take(i as int).push(b) =~= bytes@.take(i + 1));
        }
        if !separator {
            r.push(b);
        }
        i += 1;
    }
    assert(bytes@.take(n as int) =~= bytes@);
    r
}

/// Reads a SHA-256 fingerprint: sixty-four hexadecimal digits, with white space
/// and colons anywhere between them.
pub fn parse_cert_pin(s: &str) -> (r: Result<[u8; 32], String>)
    ensures
        match r {
            Ok(pin) => parsed_pin(s@) == Ok::<Seq<u8>, Seq<char>>(pin@),
            Err(e) => parsed_pin(s@) == Err::<Seq<u8>, Seq<char>>(e@) && (cleaned(s@).len() == 64
                ==> forall|i: int| #[trigger]
                first_bad_digit(cleaned(s@), i) && shown_plainly(cleaned(s@)[i] as char) ==> e@
                    == plain_digit_text(cleaned(s@)[i])),
        },
{
    let digits = without_separators(s.as_bytes());
    assert(digits@ == cleaned(s@));
    if digits.len() != 64 {
        return Err(
            String::from_str("expected 64 hex characters (32-byte SHA-256), got ").concat(
                decimal_text(digits.len() as u64).as_str(),
            ),
        );
    }
    let mut out: [u8; 32] = [0u8;32];
    let mut i: usize = 0;
    while i < 32
        invariant
            i <= 32,
            digits@.len() == 64,
            digits@ == cleaned(s@),
            forall|j: int| 0 <= j < 2 * i ==> hex_value(#[trigger] digits@[j]) is Some,
            forall|j: int| 0 <= j < i ==> #[trigger] out@[j] == digits_to_bytes(digits@)[j],
        decreases 32 - i,
    {
        let hi: u8 = match hex_val(digits[i * 2]) {
            Ok(v) => v,
            Err(e) => {
                proof {
                    lemma_first_bad_digit(digits@, 2 * i as int);
                    assert forall|j: int| #[trigger] first_bad_digit(digits@, j) implies j == 2 * i as int by {
                        lemma_first_bad_digit(digits@, j);
                    }
                }
                return Err(e);
            },
        };
        let lo: u8 = match hex_val(digits[i * 2 + 1]) {
            Ok(v) => v,
            Err(e) => {
                proof {
                    lemma_first_bad_digit(digits@, 2 * i as int + 1);
                    assert forall|j: int| #[trigger] first_bad_digit(digits@, j) implies j == 2 * i as int + 1 by {
                        lemma_first_bad_digit(digits@, j);
                    }
                }
                return Err(e);
            },
        };
        out[i] = hi * 16 + lo;
        i += 1;
    }
    proof {
        assert forall|j: int| !first_bad_digit(digits@, j) by {
            if 0 <= j < 64 {
                assert(hex_value(digits@[j]) is Some);
            }
        }
        assert(out@ =~= digits_to_bytes(digits@));
    }
    Ok(out)
}

proof fn lemma_first_bad_digit(digits: Seq<u8>, i: int)
    requires
        first_bad_digit(digits, i),
    ensures
        exists|j: int| first_bad_digit(digits, j),
        (choose|j: int| first_bad_digit(digits, j)) == i,
{
    let j = choose|j: int| first_bad_digit(digits, j);
    assert(first_bad_digit(digits, j));
    if j < i {
        assert(hex_value(digits[j]) is Some);
    } else if i < j {
        assert(hex_value(digits[i]) is Some);
    }
}

proof fn lemma_hex_digit_value(v: int)
    requires
        0 <= v < 16,
    ensures
        '\0' <= hex_digit(v) <= '\u{7f}',
        !is_separator(hex_digit(v) as u8),
        hex_value(hex_digit(v) as u8) == Some(v as u8),
{
}

proof fn lemma_hex_digits(bytes: Seq<u8>)
    ensures
        hex(bytes).len() == 2 * bytes.len(),
        forall|i: int|
            #![trigger bytes[i]]
            0 <= i < bytes.len() ==> hex(bytes)[2 * i] == hex_digit((bytes[i] / 16) as int) && hex(
                bytes,
            )[2 * i + 1] == hex_digit((bytes[i] % 16) as int),
    decreases bytes.len(),
{
    if bytes.len() > 0 {
        let init = bytes.drop_last();
        lemma_hex_digits(init);
        assert forall|i: int|
            #![trigger bytes[i]]
            0 <= i < bytes.len() implies hex(bytes)[2 * i] == hex_digit((bytes[i] / 16) as int)
            && hex(bytes)[2 * i + 1] == hex_digit((bytes[i] % 16) as int) by {
            if i < init.len() {
                assert(init[i] == bytes[i]);
            }
        }
    }
}

proof fn lemma_encode_concat(a: Seq<char>, b: Seq<char>)
    ensures
        encode_utf8(a + b) == encode_utf8(a) + encode_utf8(b),
    decreases a.len(),
{
    if a.len() == 0 {
        assert(a + b =~= b);
    } else {
        lemma_encode_concat(a.drop_first(), b);
        assert((a + b).drop_first() =~= a.drop_first() + b);
    }
}

/// A fingerprint written out in hexadecimal reads back as itself.
pub proof fn law_pin_round_trip(pin: Seq<u8>)
    requires
        pin.len() == 32,
    ensures
        parsed_pin(hex(pin)) == Ok::<Seq<u8>, Seq<char>>(pin),
{
    let text = hex(pin);
    lemma_hex_digits(pin);
    assert forall|j: int| 0 <= j < text.len() implies '\0' <= #[trigger] text[j] <= '\u{7f}'
        && !is_separator(text[j] as u8) && hex_value(text[j] as u8) is Some by {
        let b = pin[j / 2];
        lemma_hex_digit_value((b / 16) as int);
        lemma_hex_digit_value((b % 16) as int);
        assert(j == 2 * (j / 2) || j == 2 * (j / 2) + 1);
    }
    assert(is_ascii_chars(text));
    vstd::utf8::is_ascii_chars_encode_utf8(text);
    let bytes = encode_utf8(text);
    let keep = |b: u8| !is_separator(b);
    assert forall|j: int| 0 <= j < bytes.len() implies keep(#[trigger] bytes[j]) by {
        assert(bytes[j] == text[j] as u8);
    }
    lemma_filter_all(bytes, keep);
    let digits = cleaned(text);
    assert(digits == bytes);
    assert forall|j: int| !first_bad_digit(digits, j) by {
        if 0 <= j < digits.len() {
            assert(digits[j] == text[j] as u8);
        }
    }
    assert forall|i: int| 0 <= i < 32 implies #[trigger] digits_to_bytes(digits)[i] == pin[i] by {
        lemma_hex_digit_value((pin[i] / 16) as int);
        lemma_hex_digit_value((pin[i] % 16) as int);
        assert(digits[2 * i] == text[2 * i] as u8);
        assert(digits[2 * i + 1] == text[2 * i + 1] as u8);
        assert(text[2 * i] == hex_digit((pin[i] / 16) as int));
        assert(hex_value(digits[2 * i]) == Some((pin[i] / 16) as u8));
        assert(hex_value(digits[2 * i + 1]) == Some((pin[i] % 16) as u8));
    }
    assert(digits_to_bytes(digits) =~= pin);
}

proof fn lemma_filter_all(s: Seq<u8>, keep: spec_fn(u8) -> bool)
    requires
        forall|i: int| 0 <= i < s.len() ==> keep(#[trigger] s[i]),
    ensures
        s.filter(keep) == s,
    decreases s.len(),
{
    reveal(Seq::filter);
    if s.len() > 0 {
        lemma_filter_all(s.drop_last(), keep);
        assert(s.drop_last().push(s.last()) =~= s);
    }
}

/// A separator changes nothing, wherever it stands.
pub proof fn law_separators_are_ignored(before: Seq<char>, separator: char, after: Seq<char>)
    requires
        separator as u32 <= 0x7f,
        is_separator(separator as u8),
    ensures
        parsed_pin(before + seq![separator] + after) == parsed_pin(before + after),
{
    let keep = |b: u8| !is_separator(b);
    let one = seq![separator];
    lemma_encode_concat(before + one, after);
    lemma_encode_concat(before, one);
    lemma_encode_concat(before, after);
    assert(is_ascii_chars(one));
    vstd::utf8::is_ascii_chars_encode_utf8(one);
    assert(encode_utf8(one) =~= seq![separator as u8]);
    reveal(Seq::filter);
    assert(seq![separator as u8].filter(keep) =~= Seq::<u8>::empty()) by {
        assert(seq![separator as u8].drop_last() =~= Seq::<u8>::empty());
        reveal_with_fuel(Seq::filter, 2);
    }
    Seq::filter_distributes_over_add(encode_utf8(before + one), encode_utf8(after), keep);
    Seq::filter_distributes_over_add(encode_utf8(before), encode_utf8(one), keep);
    Seq::filter_distributes_over_add(encode_utf8(before), encode_utf8(after), keep);
    assert(cleaned(before + one + after) =~= cleaned(before + after));
}

/// Upper-case and lower-case digits say the same: fingerprints whose digits
/// agree in value are read alike.
pub proof fn law_digit_case_is_ignored(s: Seq<char>, t: Seq<char>)
    requires
        cleaned(s).len() == cleaned(t).len(),
        forall|i: int|
            0 <= i < cleaned(s).len() ==> hex_value(#[trigger] cleaned(s)[i]) is Some && hex_value(
                cleaned(s)[i],
            ) == hex_value(cleaned(t)[i]),
    ensures
        parsed_pin(s) == parsed_pin(t),
{
    let a = cleaned(s);
    let b = cleaned(t);
    if a.len() == 64 {
        assert forall|j: int| !first_bad_digit(a, j) && !first_bad_digit(b, j) by {
            if 0 <= j < 64 {
                assert(hex_value(a[j]) is Some);
            }
        }
        assert forall|i: int| 0 <= i < 32 implies #[trigger] digits_to_bytes(a)[i]
            == digits_to_bytes(b)[i] by {
            assert(hex_value(a[2 * i]) == hex_value(b[2 * i]));
            assert(hex_value(a[2 * i + 1]) == hex_value(b[2 * i + 1]));
        }
        assert(digits_to_bytes(a) =~= digits_to_bytes(b));
    }
}

/// The complaint about a certificate whose digest is not the pinned one.
pub open spec fn mismatch_text(pinned: Seq<u8>, presented: Seq<u8>) -> Seq<char> {
    "server certificate fingerprint mismatch: expected "@ + hex(pinned) + ", got "@ + hex(presented)
}

/// Accepts a server by its certificate alone: the digest must be the pinned one.
pub struct PinnedServerCertVerifier {
    /// The digest that the server's certificate must have.
    pub pinned_sha256: [u8; 32],
}

impl PinnedServerCertVerifier {
    /// Decides on a certificate in DER.
    pub fn verify_server_cert(&self, end_entity: &[u8]) -> (r: Result<(), String>)
        ensures
            match r {
                Ok(()) => sha256_digest(end_entity@) == self.pinned_sha256@,
                Err(e) => sha256_digest(end_entity@) != self.pinned_sha256@ && e@ == mismatch_text(
                    self.pinned_sha256@,
                    sha256_digest(end_entity@),
                ),
            },
    {
        let presented = sha256(end_entity);
        self.check_fingerprint(&presented)
    }

    /// Decides on the digest of a certificate.
    pub fn check_fingerprint(&self, presented: &[u8; 32]) -> (r: Result<(), String>)
        ensures
            match r {
                Ok(()) => presented@ == self.pinned_sha256@,
                Err(e) => presented@ != self.pinned_sha256@ && e@ == mismatch_text(
                    self.pinned_sha256@,
                    presented@,
                ),
            },
    {
        if constant_time_eq(presented.as_slice(), self.pinned_sha256.as_slice()) {
            Ok(())
        } else {
            let expected = hex_encode(self.pinned_sha256.as_slice());
            let got = hex_encode(presented.as_slice());
            Err(
                String::from_str("server certificate fingerprint mismatch: expected ").concat(
                    expected.as_str(),
                ).concat(", got ").concat(got.as_str()),
            )
        }
    }
}

} // verus!
