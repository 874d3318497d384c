//! The shape of a timestamp, and why timestamps of that shape sort by the
//! instant they name.

use crate::order::{bytes_less, falls_below_at, lemma_bytes_less_total};
use crate::record::{later, lemma_encoding_injective};
use vstd::prelude::*;
use vstd::utf8::{encode_utf8, is_ascii_chars, is_ascii_chars_encode_utf8};

verus! {

/// A decimal digit.
pub open spec fn is_digit(c: char) -> bool {
    '0' <= c <= '9'
}

/// The character that a timestamp has at index `i` where it has no digit:
/// `-` within the date, a space after it, `:` within the time of day.
pub open spec fn separator_at(i: int) -> Option<char> {
    if i == 4 || i == 7 {
        Some('-')
    } else if i == 10 {
        Some(' ')
    } else if i == 13 || i == 16 {
        Some(':')
    } else {
        None
    }
}

/// `text` has the shape `YYYY-MM-DD hh:mm:ss`.
pub open spec fn is_timestamp(text: Seq<char>) -> bool {
    &&& text.len() == 19
    &&& forall|i: int|
        0 <= i < 19 ==> match separator_at(i) {
            Some(mark) => #[trigger] text[i] == mark,
            None => is_digit(text[i]),
        }
}

/// The value of the digit at index `i` of `text`.
pub open spec fn digit_at(text: Seq<char>, i: int) -> int {
    text[i] as int - '0' as int
}

/// The number with two digits that starts at index `i` of `text`.
pub open spec fn pair_at(text: Seq<char>, i: int) -> int {
    10 * digit_at(text, i) + digit_at(text, i + 1)
}

/// The year that a timestamp names.
pub open spec fn year_of(text: Seq<char>) -> int {
    100 * pair_at(text, 0) + pair_at(text, 2)
}

/// The instant that a timestamp names, as one number: the year, then two
/// decimal places each for month, day, hour, minute and second. A later
/// instant has the larger number.
pub open spec fn moment_of(text: Seq<char>) -> int {
    year_of(text) * 10_000_000_000 + pair_at(text, 5) * 100_000_000 + pair_at(text, 8) * 1_000_000
        + pair_at(text, 11) * 10_000 + pair_at(text, 14) * 100 + pair_at(text, 17)
}

/// Every character of `text` is a decimal digit.
pub open spec fn all_digits(text: Seq<char>) -> bool {
    forall|i: int| 0 <= i < text.len() ==> is_digit(#[trigger] text[i])
}

/// `year` is a year as the clock writes it: four digits, or, for a year
/// before 0 or after 9999, a sign followed by at least four digits.
pub open spec fn is_year_text(year: Seq<char>) -> bool {
    if year.len() == 4 {
        all_digits(year)
    } else {
        &&& year.len() >= 5
        &&& (year[0] == '+' || year[0] == '-')
        &&& all_digits(year.skip(1))
    }
}

/// `tail` is what follows the year in a text of the clock:
/// `-MM-DD hh:mm:ss`, two digits each, with the month from 01 to 12, the
/// day from 01 to 31, the hour up to 23, the minute up to 59 and the
/// second up to 60, the last for a leap second.
pub open spec fn is_day_and_time(tail: Seq<char>) -> bool {
    &&& tail.len() == 15
    &&& forall|i: int|
        0 <= i < 15 ==> match separator_at(i + 4) {
            Some(mark) => #[trigger] tail[i] == mark,
            None => is_digit(tail[i]),
        }
    &&& 1 <= pair_at(tail, 1) <= 12
    &&& 1 <= pair_at(tail, 4) <= 31
    &&& pair_at(tail, 7) <= 23
    &&& pair_at(tail, 10) <= 59
    &&& pair_at(tail, 13) <= 60
}

/// `text` is an instant as the clock writes it under the pattern of
/// timestamps: a year, then `-MM-DD hh:mm:ss`.
pub open spec fn is_clock_text(text: Seq<char>) -> bool {
    &&& text.len() >= 19
    &&& is_year_text(text.take(text.len() - 15))
    &&& is_day_and_time(text.skip(text.len() - 15))
}

/// A text of the clock has the shape of a timestamp exactly when it has
/// 19 characters, which is when its year is written without a sign.
pub proof fn lemma_clock_text_is_timestamp(text: Seq<char>)
    requires
        is_clock_text(text),
    ensures
        is_timestamp(text) <==> text.len() == 19,
{
    if text.len() == 19 {
        let year = text.take(4);
        let tail = text.skip(4);
        assert forall|i: int| 0 <= i < 19 implies match separator_at(i) {
            Some(mark) => #[trigger] text[i] == mark,
            None => is_digit(text[i]),
        } by {
            if i < 4 {
                assert(year[i] == text[i]);
            } else {
                assert(tail[i - 4] == text[i]);
            }
        }
    }
}

/// A timestamp is encoded with one byte for each of its characters.
proof fn lemma_timestamp_bytes(text: Seq<char>)
    requires
        is_timestamp(text),
    ensures
        encode_utf8(text).len() == 19,
        forall|i: int| 0 <= i < 19 ==> #[trigger] encode_utf8(text)[i] == text[i] as u8,
{
    assert forall|i: int| 0 <= i < text.len() implies '\0' <= #[trigger] text[i] <= '\u{7f}' by {
        assert(separator_at(i) is Some || is_digit(text[i]));
    }
    assert(is_ascii_chars(text));
    is_ascii_chars_encode_utf8(text);
}

/// Where two timestamps agree up to index `k` and the first has the
/// smaller character there, it names the earlier instant.
#[verifier::spinoff_prover]
#[verifier::rlimit(60)]
proof fn lemma_decided_at(low: Seq<char>, high: Seq<char>, k: int)
    requires
        is_timestamp(low),
        is_timestamp(high),
        0 <= k < 19,
        forall|i: int| 0 <= i < k ==> low[i] == high[i],
        (low[k] as int) < (high[k] as int),
    ensures
        moment_of(low) < moment_of(high),
{
    assert(separator_at(k) is None) by {
        if separator_at(k) is Some {
            assert(low[k] == separator_at(k)->0);
            assert(high[k] == separator_at(k)->0);
        }
    }
    assert forall|i: int| 0 <= i < 19 && separator_at(i) is None implies 0 <= #[trigger] digit_at(
        low,
        i,
    ) <= 9 && 0 <= digit_at(high, i) <= 9 by {
        assert(is_digit(low[i]));
        assert(is_digit(high[i]));
    }
    assert forall|i: int| 0 <= i < k implies #[trigger] digit_at(low, i) == digit_at(high, i) by {
        assert(low[i] == high[i]);
    }
    assert(digit_at(low, k) < digit_at(high, k));
    assert(digit_at(low, 0) <= 9 && digit_at(low, 1) <= 9 && digit_at(low, 2) <= 9 && digit_at(
        low,
        3,
    ) <= 9);
    assert(digit_at(low, 5) <= 9 && digit_at(low, 6) <= 9 && digit_at(low, 8) <= 9 && digit_at(
        low,
        9,
    ) <= 9);
    assert(digit_at(low, 11) <= 9 && digit_at(low, 12) <= 9 && digit_at(low, 14) <= 9
        && digit_at(low, 15) <= 9);
    assert(digit_at(low, 17) <= 9 && digit_at(low, 18) <= 9);
    assert(digit_at(high, 0) >= 0 && digit_at(high, 1) >= 0 && digit_at(high, 2) >= 0
        && digit_at(high, 3) >= 0);
    assert(digit_at(high, 5) >= 0 && digit_at(high, 6) >= 0 && digit_at(high, 8) >= 0
        && digit_at(high, 9) >= 0);
    assert(digit_at(high, 11) >= 0 && digit_at(high, 12) >= 0 && digit_at(high, 14) >= 0
        && digit_at(high, 15) >= 0);
    assert(digit_at(high, 17) >= 0 && digit_at(high, 18) >= 0);
}

/// Timestamps of the fixed shape sort by the instant they name: one is
/// `later` than the other exactly when it names the later instant.
pub proof fn lemma_later_is_later_moment(a: Seq<char>, b: Seq<char>)
    requires
        is_timestamp(a),
        is_timestamp(b),
    ensures
        later(a, b) <==> moment_of(a) > moment_of(b),
{
    lemma_timestamp_bytes(a);
    lemma_timestamp_bytes(b);
    let ea = encode_utf8(a);
    let eb = encode_utf8(b);
    if bytes_less(eb, ea) {
        let k = choose|k: int| falls_below_at(eb, ea, k);
        assert forall|i: int| 0 <= i < k implies b[i] == a[i] by {
            assert(eb[i] == ea[i]);
            lemma_same_byte_same_char(a, b, i);
        }
        assert(eb[k] == b[k] as u8 && ea[k] == a[k] as u8);
        lemma_char_order(b, a, k);
        lemma_decided_at(b, a, k);
    } else if bytes_less(ea, eb) {
        let k = choose|k: int| falls_below_at(ea, eb, k);
        assert forall|i: int| 0 <= i < k implies a[i] == b[i] by {
            assert(ea[i] == eb[i]);
            lemma_same_byte_same_char(a, b, i);
        }
        assert(eb[k] == b[k] as u8 && ea[k] == a[k] as u8);
        lemma_char_order(a, b, k);
        lemma_decided_at(a, b, k);
    } else {
        if ea != eb {
            lemma_bytes_less_total(ea, eb);
        }
        lemma_encoding_injective(a, b);
    }
}

/// Characters of two timestamps that are encoded by the same byte are the
/// same character.
proof fn lemma_same_byte_same_char(a: Seq<char>, b: Seq<char>, i: int)
    requires
        is_timestamp(a),
        is_timestamp(b),
        0 <= i < 19,
        a[i] as u8 == b[i] as u8,
    ensures
        a[i] == b[i],
{
    assert(separator_at(i) is Some || is_digit(a[i]));
    assert(separator_at(i) is Some || is_digit(b[i]));
    assert('\0' <= a[i] <= '\u{7f}');
    assert('\0' <= b[i] <= '\u{7f}');
    assert(a[i] as u32 == b[i] as u32);
}

/// Characters of two timestamps are ordered as the bytes that encode them.
proof fn lemma_char_order(low: Seq<char>, high: Seq<char>, i: int)
    requires
        is_timestamp(low),
        is_timestamp(high),
        0 <= i < 19,
        (low[i] as u8) < (high[i] as u8),
    ensures
        (low[i] as int) < (high[i] as int),
{
    assert(separator_at(i) is Some || is_digit(low[i]));
    assert(separator_at(i) is Some || is_digit(high[i]));
    assert('\0' <= low[i] <= '\u{7f}');
    assert('\0' <= high[i] <= '\u{7f}');
}

} // verus!
