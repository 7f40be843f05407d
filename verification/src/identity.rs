//! Identities of validators.

use std::str::FromStr;
use vstd::prelude::*;

verus! {

/// The identity of a validator.
pub type Pubkey = [u8; 32];

/// The number that bytes stand for, the high one first.
pub open spec fn number(bytes: Seq<u8>) -> nat
    decreases bytes.len(),
{
    if bytes.len() == 0 {
        0
    } else {
        number(bytes.drop_last()) * 256 + bytes.last() as nat
    }
}

/// How many zeros are in front.
pub open spec fn leading_zeros(bytes: Seq<u8>) -> nat
    decreases bytes.len(),
{
    if bytes.len() == 0 || bytes[0] != 0 {
        0
    } else {
        1 + leading_zeros(bytes.drop_first())
    }
}

/// A digit in base 58: figures and letters without those that look alike.
pub open spec fn base58_digit(v: int) -> char {
    if v < 9 {
        ('1' as int + v) as char
    } else if v < 17 {
        ('A' as int + v - 9) as char
    } else if v < 22 {
        ('J' as int + v - 17) as char
    } else if v < 33 {
        ('P' as int + v - 22) as char
    } else if v < 44 {
        ('a' as int + v - 33) as char
    } else {
        ('m' as int + v - 44) as char
    }
}

/// A number in base 58; zero takes no digit.
pub open spec fn base58_digits(n: nat) -> Seq<char>
    decreases n,
{
    if n == 0 {
        Seq::empty()
    } else {
        base58_digits(n / 58).push(base58_digit((n % 58) as int))
    }
}

/// The text that stands for bytes: a figure one for each zero in front, and then
/// the number in base 58.
pub open spec fn base58(bytes: Seq<u8>) -> Seq<char> {
    Seq::new(leading_zeros(bytes), |i: int| '1') + base58_digits(number(bytes))
}

/// The identity that a text stands for, where it stands for one.
pub open spec fn parsed_pubkey(text: Seq<char>) -> Option<Pubkey> {
    if exists|pubkey: Pubkey| #[trigger] base58(pubkey@) == text {
        Some(choose|pubkey: Pubkey| #[trigger] base58(pubkey@) == text)
    } else {
        None
    }
}

/// `Display` of `solana_sdk::pubkey::Pubkey`: the bytes in base 58.
#[verifier::external_body]
pub(crate) fn pubkey_text(pubkey: &Pubkey) -> (r: String)
    ensures
        r@ == base58(pubkey@),
{
    solana_sdk::pubkey::Pubkey::from(*pubkey).to_string()
}

/// `from_str` of `solana_sdk::pubkey::Pubkey`: the identity whose text it is, and
/// none for a text that is no identity's.
#[verifier::external_body]
pub(crate) fn pubkey_from_text(text: &str) -> (r: Option<Pubkey>)
    ensures
        r == parsed_pubkey(text@),
{
    solana_sdk::pubkey::Pubkey::from_str(text).ok().map(|p| p.to_bytes())
}

/// The value of a digit in base 58.
spec fn digit_value(c: char) -> int {
    let v = c as int;
    if v < 'A' as int {
        v - '1' as int
    } else if v < 'J' as int {
        v - 'A' as int + 9
    } else if v < 'P' as int {
        v - 'J' as int + 17
    } else if v < 'a' as int {
        v - 'P' as int + 22
    } else if v < 'm' as int {
        v - 'a' as int + 33
    } else {
        v - 'm' as int + 44
    }
}

/// The number that digits in base 58 stand for.
spec fn base58_value(text: Seq<char>) -> int
    decreases text.len(),
{
    if text.len() == 0 {
        0
    } else {
        base58_value(text.drop_last()) * 58 + digit_value(text.last())
    }
}

proof fn lemma_base58_value(ones: nat, n: nat)
    ensures
        base58_value(Seq::new(ones, |i: int| '1') + base58_digits(n)) == n,
    decreases n, ones,
{
    let text = Seq::new(ones, |i: int| '1') + base58_digits(n);
    if n > 0 {
        lemma_base58_value(ones, n / 58);
        assert(text.drop_last() =~= Seq::new(ones, |i: int| '1') + base58_digits(n / 58));
        assert(text.last() == base58_digit((n % 58) as int));
        assert(digit_value(base58_digit((n % 58) as int)) == n % 58);
    } else if ones > 0 {
        lemma_base58_value((ones - 1) as nat, n);
        assert(text.drop_last() =~= Seq::new((ones - 1) as nat, |i: int| '1') + base58_digits(n));
    }
}

proof fn lemma_number_injective(a: Seq<u8>, b: Seq<u8>)
    requires
        a.len() == b.len(),
        number(a) == number(b),
    ensures
        a == b,
    decreases a.len(),
{
    if a.len() > 0 {
        lemma_number_injective(a.drop_last(), b.drop_last());
        assert(a =~= a.drop_last().push(a.last()));
        assert(b =~= b.drop_last().push(b.last()));
    } else {
        assert(a =~= b);
    }
}

/// The text of an identity reads back as that identity.
pub proof fn law_identity_reads_back(pubkey: Pubkey)
    ensures
        parsed_pubkey(base58(pubkey@)) == Some(pubkey),
{
    let text = base58(pubkey@);
    let read = choose|p: Pubkey| #[trigger] base58(p@) == text;
    assert(base58(read@) == text);
    lemma_base58_value(leading_zeros(pubkey@), number(pubkey@));
    lemma_base58_value(leading_zeros(read@), number(read@));
    lemma_number_injective(read@, pubkey@);
    assert(read =~= pubkey);
}

} // verus!
