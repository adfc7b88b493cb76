//! The header values that a ranged fetch sends and reads: decimal numbers,
//! the `Range` request value, the unit of `Accept-Ranges`, and the status
//! line's verdict.

use crate::chunk::FetchCause;
use crate::range::ByteRange;
use vstd::prelude::*;

verus! {

/// Whether `byte` is an ASCII decimal digit.
pub open spec fn is_digit(byte: u8) -> bool {
    0x30 <= byte <= 0x39
}

/// Whether `text` is a decimal numeral: one or more ASCII digits and nothing
/// else.
pub open spec fn is_numeral(text: Seq<u8>) -> bool {
    &&& text.len() > 0
    &&& forall|i: int| 0 <= i < text.len() ==> is_digit(#[trigger] text[i])
}

/// The number that the digits of `text` denote, most significant first.
pub open spec fn decimal_value(text: Seq<u8>) -> nat
    decreases text.len(),
{
    if text.len() == 0 {
        0
    } else {
        (decimal_value(text.drop_last()) * 10 + (text.last() - 0x30)) as nat
    }
}

/// The decimal numeral of `value`, without leading zeros.
pub open spec fn decimal_digits(value: nat) -> Seq<u8>
    decreases value,
{
    if value < 10 {
        seq![(0x30 + value) as u8]
    } else {
        decimal_digits(value / 10).push((0x30 + value % 10) as u8)
    }
}

/// The digits of `value` before its last one: none for a value below 10.
spec fn leading_digits(value: nat) -> Seq<u8> {
    if value < 10 {
        Seq::empty()
    } else {
        decimal_digits(value / 10)
    }
}

/// A numeral and the number it denotes determine each other: what
/// `decimal_digits` writes is a numeral, and `decimal_value` reads the same
/// number back from it.
pub proof fn lemma_decimal_round_trip(value: nat)
    ensures
        is_numeral(decimal_digits(value)),
        decimal_value(decimal_digits(value)) == value,
    decreases value,
{
    let digits = decimal_digits(value);
    if value < 10 {
        assert(digits.drop_last() =~= Seq::<u8>::empty());
        assert(decimal_value(digits.drop_last()) == 0);
    } else {
        lemma_decimal_round_trip(value / 10);
        assert(digits.drop_last() =~= decimal_digits(value / 10));
        assert forall|i: int| 0 <= i < digits.len() implies is_digit(#[trigger] digits[i]) by {
            if i < digits.len() - 1 {
                assert(digits[i] == decimal_digits(value / 10)[i]);
            }
        }
    }
}

/// Reading more digits never lowers the number read so far.
proof fn lemma_decimal_value_grows(text: Seq<u8>, k: int)
    requires
        is_numeral(text),
        0 <= k <= text.len(),
    ensures
        decimal_value(text.take(k)) <= decimal_value(text),
    decreases text.len() - k,
{
    if k == text.len() {
        assert(text.take(k) =~= text);
    } else {
        lemma_decimal_value_grows(text, k + 1);
        let longer = text.take(k + 1);
        assert(longer.drop_last() =~= text.take(k));
        assert(is_digit(text[k]));
        assert(longer.last() == text[k]);
    }
}

/// Reads a decimal numeral such as the value of `Content-Length`.
///
/// The result is the number denoted when `text` is a numeral and the number
/// fits a `u64`; every other text gives `None`.
pub fn parse_decimal(text: &[u8]) -> (value: Option<u64>)
    ensures
        value is Some <==> is_numeral(text@) && decimal_value(text@) <= u64::MAX,
        value matches Some(v) ==> v == decimal_value(text@),
{
    if text.len() == 0 {
        return None;
    }
    let mut acc: u64 = 0;
    let mut i: usize = 0;
    while i < text.len()
        invariant
            0 <= i <= text.len(),
            forall|j: int| 0 <= j < i ==> is_digit(#[trigger] text@[j]),
            acc == decimal_value(text@.take(i as int)),
        decreases text.len() - i,
    {
        let byte: u8 = text[i];
        if byte < 0x30 || byte > 0x39 {
            return None;
        }
        let digit: u64 = (byte - 0x30) as u64;
        proof {
            let longer = text@.take(i + 1);
            assert(longer.drop_last() =~= text@.take(i as int));
            assert(longer.last() == byte);
            assert(decimal_value(longer) == acc * 10 + digit);
        }
        if acc > (u64::MAX - digit) / 10 {
            proof {
                if is_numeral(text@) {
                    lemma_decimal_value_grows(text@, i + 1);
                }
            }
            return None;
        }
        acc = acc * 10 + digit;
        i = i + 1;
    }
    assert(text@.take(i as int) =~= text@);
    Some(acc)
}

/// Writes `value` as a decimal numeral.
pub fn format_decimal(value: u64) -> (digits: Vec<u8>)
    ensures
        digits@ == decimal_digits(value as nat),
{
    let mut digits: Vec<u8> = Vec::new();
    digits.push(0x30 + (value % 10) as u8);
    let mut rest: u64 = value / 10;
    assert(decimal_digits(value as nat) =~= leading_digits(value as nat) + digits@);
    while rest > 0
        invariant
            decimal_digits(value as nat) == (if rest == 0 {
                Seq::<u8>::empty()
            } else {
                decimal_digits(rest as nat)
            }) + digits@,
        decreases rest,
    {
        let digit: u8 = 0x30 + (rest % 10) as u8;
        proof {
            assert(decimal_digits(rest as nat) =~= leading_digits(rest as nat).push(digit));
            assert(leading_digits(rest as nat).push(digit) + digits@ =~= leading_digits(
                rest as nat,
            ) + digits@.insert(0, digit));
        }
        digits.insert(0, digit);
        rest = rest / 10;
    }
    assert(Seq::<u8>::empty() + digits@ =~= digits@);
    digits
}

/// The text `bytes=`.
pub open spec fn range_unit_prefix() -> Seq<u8> {
    seq![0x62u8, 0x79u8, 0x74u8, 0x65u8, 0x73u8, 0x3du8]
}

/// The value of the `Range` request header that asks for `range`: the text
/// `bytes=`, the first offset, a hyphen, and the last offset.
pub open spec fn range_header_value(range: ByteRange) -> Seq<u8> {
    range_unit_prefix() + decimal_digits(range.start as nat) + seq![0x2du8] + decimal_digits(
        range.end as nat,
    )
}

/// The value of the `Range` header for a fetch of `range`, or `None` for the
/// unbounded range, which is fetched by a plain request.
pub fn range_header(range: &ByteRange) -> (value: Option<Vec<u8>>)
    ensures
        range.is_unbounded() <==> value is None,
        value matches Some(text) ==> text@ == range_header_value(*range),
{
    if range.start == 0 && range.end == u64::MAX {
        return None;
    }
    let mut text: Vec<u8> = Vec::new();
    text.push(0x62);
    text.push(0x79);
    text.push(0x74);
    text.push(0x65);
    text.push(0x73);
    text.push(0x3d);
    assert(text@ =~= range_unit_prefix());
    let mut first = format_decimal(range.start);
    text.append(&mut first);
    text.push(0x2d);
    let mut last = format_decimal(range.end);
    text.append(&mut last);
    assert(text@ =~= range_header_value(*range));
    Some(text)
}

/// `byte` with an ASCII capital letter turned into its small letter.
pub open spec fn ascii_lower(byte: u8) -> u8 {
    if 0x41 <= byte <= 0x5a {
        (byte + 0x20) as u8
    } else {
        byte
    }
}

/// Whether `value` names the range unit `bytes`, in any mix of capital and
/// small letters.
pub open spec fn names_bytes_unit(value: Seq<u8>) -> bool {
    value.map_values(|byte: u8| ascii_lower(byte)) == seq![
        0x62u8,
        0x79u8,
        0x74u8,
        0x65u8,
        0x73u8,
    ]
}

fn to_ascii_lower(byte: u8) -> (lower: u8)
    ensures
        lower == ascii_lower(byte),
{
    if byte >= 0x41 && byte <= 0x5a {
        byte + 0x20
    } else {
        byte
    }
}

/// Whether the value of an `Accept-Ranges` header says that the server
/// serves byte ranges.
pub fn accepts_byte_ranges(value: &[u8]) -> (accepted: bool)
    ensures
        accepted == names_bytes_unit(value@),
{
    let ghost lowered = value@.map_values(|byte: u8| ascii_lower(byte));
    let accepted = value.len() == 5 && to_ascii_lower(value[0]) == 0x62 && to_ascii_lower(value[1])
        == 0x79 && to_ascii_lower(value[2]) == 0x74 && to_ascii_lower(value[3]) == 0x65
        && to_ascii_lower(value[4]) == 0x73;
    proof {
        let unit = seq![0x62u8, 0x79u8, 0x74u8, 0x65u8, 0x73u8];
        assert(lowered.len() == value@.len());
        if accepted {
            assert(lowered =~= unit);
        } else if value.len() == 5 {
            assert(lowered[0] == ascii_lower(value@[0]));
            assert(lowered[1] == ascii_lower(value@[1]));
            assert(lowered[2] == ascii_lower(value@[2]));
            assert(lowered[3] == ascii_lower(value@[3]));
            assert(lowered[4] == ascii_lower(value@[4]));
            assert(unit[0] == 0x62 && unit[1] == 0x79 && unit[2] == 0x74 && unit[3] == 0x65
                && unit[4] == 0x73);
        } else {
            assert(unit.len() == 5);
        }
    }
    accepted
}

/// Whether a response with this status carries the bytes asked for: the
/// statuses 200 to 299, among them 206 for a served range.
pub open spec fn status_accepted(status: u16) -> bool {
    200 <= status <= 299
}

/// Judges the status of a response: any status outside 200 ..= 299 fails the
/// fetch with `FetchCause::Status`.
pub fn check_status(status: u16) -> (verdict: Result<(), FetchCause>)
    ensures
        status_accepted(status) <==> verdict is Ok,
        verdict matches Err(cause) ==> cause == FetchCause::Status(status),
{
    if 200 <= status && status <= 299 {
        Ok(())
    } else {
        Err(FetchCause::Status(status))
    }
}

} // verus!
