//! How fingerprints are read and written.

use crate::proxy::cert_pin::char_debug_text;
use crate::proxy::cert_pin::cleaned;
use crate::proxy::cert_pin::digits_to_bytes;
use crate::proxy::cert_pin::first_bad_digit;
use crate::proxy::cert_pin::hex_value;
use crate::proxy::cert_pin::is_separator;
use crate::proxy::cert_pin::law_separators_are_ignored;
use crate::proxy::cert_pin::mismatch_text;
use crate::proxy::cert_pin::parsed_pin;
use crate::text::decimal;
use crate::text::hex;
use vstd::prelude::*;
use vstd::utf8::encode_utf8;
use vstd::utf8::is_ascii_chars;

verus! {

/// A character is the digit for a value: a figure, or a letter of either case.
pub open spec fn writes(c: char, v: int) -> bool {
    ||| 0 <= v < 10 && c as int == 48 + v
    ||| 10 <= v < 16 && c as int == 87 + v
    ||| 10 <= v < 16 && c as int == 55 + v
}

/// A blank, a tab, a line feed, a form feed, a carriage return or a colon.
pub open spec fn is_gap(c: char) -> bool {
    let n = c as int;
    n == 32 || n == 9 || n == 10 || n == 12 || n == 13 || n == 58
}

proof fn lemma_filter_none_out(s: Seq<u8>, keep: spec_fn(u8) -> bool)
    requires
        forall|i: int| 0 <= i < s.len() ==> keep(#[trigger] s[i]),
    ensures
        s.filter(keep) == s,
    decreases s.len(),
{
    reveal(Seq::filter);
    if s.len() > 0 {
        lemma_filter_none_out(s.drop_last(), keep);
        assert(s.drop_last().push(s.last()) =~= s);
    }
}

proof fn lemma_cleaned_without_gaps(text: Seq<char>)
    requires
        forall|j: int|
            0 <= j < text.len() ==> '\0' <= #[trigger] text[j] <= '\u{7f}' && !is_gap(text[j]),
    ensures
        cleaned(text).len() == text.len(),
        forall|j: int| 0 <= j < text.len() ==> #[trigger] cleaned(text)[j] == text[j] as u8,
{
    assert(is_ascii_chars(text));
    vstd::utf8::is_ascii_chars_encode_utf8(text);
    let bytes = encode_utf8(text);
    let keep = |b: u8| !is_separator(b);
    assert forall|j: int| 0 <= j < bytes.len() implies keep(#[trigger] bytes[j]) by {
        assert(bytes[j] == text[j] as u8);
        assert(!is_gap(text[j]));
    }
    lemma_filter_none_out(bytes, keep);
    assert forall|j: int| 0 <= j < text.len() implies #[trigger] cleaned(text)[j]
        == text[j] as u8 by {
        assert(bytes[j] == text[j] as u8);
    }
}

/// Sixty-four digits are read as thirty-two bytes, each out of two digits with the
/// high one first.
pub proof fn law_two_digits_make_a_byte(text: Seq<char>, values: Seq<int>, i: int)
    requires
        text.len() == 64,
        values.len() == 64,
        forall|j: int| 0 <= j < 64 ==> writes(#[trigger] text[j], values[j]),
        0 <= i < 32,
    ensures
        parsed_pin(text) is Ok,
        (parsed_pin(text)->Ok_0).len() == 32,
        (parsed_pin(text)->Ok_0)[i] == 16 * values[2 * i] + values[2 * i + 1],
{
    assert forall|j: int| 0 <= j < text.len() implies '\0' <= #[trigger] text[j] <= '\u{7f}' && !is_gap(
        text[j],
    ) by {
        assert(writes(text[j], values[j]));
    }
    lemma_cleaned_without_gaps(text);
    let digits = cleaned(text);
    assert forall|j: int| 0 <= j < 64 implies hex_value(#[trigger] digits[j]) == Some(
        values[j] as u8,
    ) && 0 <= values[j] < 16 by {
        assert(writes(text[j], values[j]));
        assert(digits[j] == text[j] as u8);
    }
    assert forall|j: int| !first_bad_digit(digits, j) by {
        if 0 <= j < 64 {
            assert(hex_value(digits[j]) is Some);
        }
    }
    assert(hex_value(digits[2 * i]) == Some(values[2 * i] as u8));
    assert(hex_value(digits[2 * i + 1]) == Some(values[2 * i + 1] as u8));
    assert(digits_to_bytes(digits)[i] == 16 * values[2 * i] + values[2 * i + 1]);
}

/// A text of any other length is refused, and the complaint tells its length.
pub proof fn law_another_length_is_refused(text: Seq<char>)
    requires
        text.len() != 64,
        forall|j: int|
            0 <= j < text.len() ==> '\0' <= #[trigger] text[j] <= '\u{7f}' && !is_gap(text[j]),
    ensures
        parsed_pin(text) == Err::<Seq<u8>, Seq<char>>(
            "expected 64 hex characters (32-byte SHA-256), got "@ + decimal(text.len()),
        ),
{
    lemma_cleaned_without_gaps(text);
}

/// A text of the right length with a character in it that is no digit is refused,
/// and the complaint shows the first such character.
pub proof fn law_another_character_is_refused(text: Seq<char>, values: Seq<int>, i: int)
    requires
        text.len() == 64,
        forall|j: int|
            0 <= j < text.len() ==> '\0' <= #[trigger] text[j] <= '\u{7f}' && !is_gap(text[j]),
        0 <= i < 64,
        forall|j: int| 0 <= j < i ==> writes(#[trigger] text[j], values[j]),
        forall|v: int| !writes(text[i], v),
    ensures
        parsed_pin(text) == Err::<Seq<u8>, Seq<char>>(
            "invalid hex character: "@ + char_debug_text(text[i]),
        ),
{
    lemma_cleaned_without_gaps(text);
    let digits = cleaned(text);
    assert(digits[i] == text[i] as u8);
    assert(!writes(text[i], text[i] as int - 48));
    assert(!writes(text[i], text[i] as int - 87));
    assert(!writes(text[i], text[i] as int - 55));
    assert(hex_value(digits[i]) is None);
    assert forall|j: int| 0 <= j < i implies hex_value(#[trigger] digits[j]) is Some by {
        assert(writes(text[j], values[j]));
        assert(digits[j] == text[j] as u8);
    }
    assert(first_bad_digit(digits, i));
    let k = choose|k: int| first_bad_digit(digits, k);
    assert(first_bad_digit(digits, k));
    if k < i {
        assert(hex_value(digits[k]) is Some);
    } else if i < k {
        assert(hex_value(digits[i]) is Some);
    }
    assert((text[i] as u8) as char == text[i]);
}

/// A gap makes no difference, wherever it stands.
pub proof fn law_gaps_make_no_difference(before: Seq<char>, gap: char, after: Seq<char>)
    requires
        is_gap(gap),
    ensures
        parsed_pin(before + seq![gap] + after) == parsed_pin(before + after),
{
    law_separators_are_ignored(before, gap, after);
}

/// A byte is written as two characters: those that write its high and its low
/// half, letters in lower case.
pub proof fn law_a_byte_is_two_digits(bytes: Seq<u8>, b: u8)
    ensures
        ({
            let high = b as int / 16;
            let low = b as int % 16;
            let text = hex(bytes.push(b));
            &&& text.len() == hex(bytes).len() + 2
            &&& text.take(hex(bytes).len() as int) == hex(bytes)
            &&& text[text.len() - 2] as int == if high < 10 {
                48 + high
            } else {
                87 + high
            }
            &&& text[text.len() - 1] as int == if low < 10 {
                48 + low
            } else {
                87 + low
            }
        }),
        hex(Seq::empty()).len() == 0,
{
    assert(bytes.push(b).drop_last() =~= bytes);
    assert(hex(bytes.push(b)).take(hex(bytes).len() as int) =~= hex(bytes));
}

/// A number with one more figure is written with that figure behind it.
pub proof fn law_a_figure_is_written_behind(n: nat, figure: nat)
    requires
        figure < 10,
    ensures
        decimal(figure) == seq![(48 + figure) as char],
        n > 0 ==> decimal(10 * n + figure) == decimal(n).push((48 + figure) as char),
{
    assert(decimal(figure) =~= seq![(48 + figure) as char]);
    assert((10 * n + figure) / 10 == n && (10 * n + figure) % 10 == figure);
}

proof fn lemma_hex_len(bytes: Seq<u8>)
    ensures
        hex(bytes).len() == 2 * bytes.len(),
    decreases bytes.len(),
{
    if bytes.len() > 0 {
        lemma_hex_len(bytes.drop_last());
    }
}

/// The complaint about a certificate tells the digest that was expected and the
/// one that came, in this order.
pub proof fn law_a_complaint_tells_both_digests(pinned: Seq<u8>, presented: Seq<u8>)
    requires
        pinned.len() == 32,
        presented.len() == 32,
    ensures
        mismatch_text(pinned, presented).len() == 184,
        mismatch_text(pinned, presented).take(50)
            == "server certificate fingerprint mismatch: expected "@,
        mismatch_text(pinned, presented).subrange(50, 114) == hex(pinned),
        mismatch_text(pinned, presented).subrange(114, 120) == ", got "@,
        mismatch_text(pinned, presented).skip(120) == hex(presented),
{
    reveal_strlit("server certificate fingerprint mismatch: expected ");
    reveal_strlit(", got ");
    lemma_hex_len(pinned);
    lemma_hex_len(presented);
    let text = mismatch_text(pinned, presented);
    assert(text.take(50) =~= "server certificate fingerprint mismatch: expected "@);
    assert(text.subrange(50, 114) =~= hex(pinned));
    assert(text.subrange(114, 120) =~= ", got "@);
    assert(text.skip(120) =~= hex(presented));
}

} // verus!
