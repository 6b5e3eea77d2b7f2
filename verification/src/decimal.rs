//! Handles as decimal text: how a handle is written in a response body and
//! read back from a request path.

use vstd::prelude::*;

verus! {

/// The byte `0`.
pub const DIGIT_ZERO: u8 = 0x30;

/// The byte `9`.
pub const DIGIT_NINE: u8 = 0x39;

/// The byte `,`, which separates the handles of a list.
pub const COMMA: u8 = 0x2c;

/// `b` is one of the ASCII digits `0` to `9`.
pub open spec fn is_digit(b: u8) -> bool {
    DIGIT_ZERO <= b <= DIGIT_NINE
}

/// Every byte of `text` is an ASCII digit.
pub open spec fn all_digits(text: Seq<u8>) -> bool {
    forall|i: int| 0 <= i < text.len() ==> is_digit(#[trigger] text[i])
}

/// The number that a string of ASCII digits denotes in base ten. Leading
/// zeros do not count; the empty string denotes zero.
pub open spec fn decimal_value(text: Seq<u8>) -> nat
    decreases text.len(),
{
    if text.len() == 0 {
        0
    } else {
        10 * decimal_value(text.drop_last()) + (text.last() - DIGIT_ZERO) as nat
    }
}

/// The handle that `text` denotes: `text` is one or more ASCII digits and
/// their value fits a handle. Anything else denotes no handle.
pub open spec fn parsed(text: Seq<u8>) -> Option<usize> {
    if text.len() > 0 && all_digits(text) && decimal_value(text) <= usize::MAX {
        Some(decimal_value(text) as usize)
    } else {
        None
    }
}

/// The shortest decimal notation of `n`: no leading zeros, and `0` for zero.
pub open spec fn decimal_digits(n: nat) -> Seq<u8>
    decreases n,
{
    if n < 10 {
        seq![(DIGIT_ZERO + n) as u8]
    } else {
        decimal_digits(n / 10).push((DIGIT_ZERO + n % 10) as u8)
    }
}

/// The decimal notations of `numbers`, separated by commas. The empty list
/// gives the empty string.
pub open spec fn comma_joined(numbers: Seq<usize>) -> Seq<u8>
    decreases numbers.len(),
{
    if numbers.len() == 0 {
        Seq::empty()
    } else if numbers.len() == 1 {
        decimal_digits(numbers[0] as nat)
    } else {
        comma_joined(numbers.drop_last()) + seq![COMMA] + decimal_digits(numbers.last() as nat)
    }
}

/// A prefix of a digit string never denotes more than the whole string.
proof fn lemma_prefix_value(text: Seq<u8>, n: int)
    requires
        0 <= n <= text.len(),
    ensures
        decimal_value(text.take(n)) <= decimal_value(text),
    decreases text.len(),
{
    if n == text.len() {
        assert(text.take(n) =~= text);
    } else {
        lemma_prefix_value(text.drop_last(), n);
        assert(text.drop_last().take(n) =~= text.take(n));
    }
}

/// Reads a handle from its decimal notation.
pub fn parse_decimal(text: &[u8]) -> (value: Option<usize>)
    ensures
        value == parsed(text@),
{
    if text.len() == 0 {
        return None;
    }
    let mut value: usize = 0;
    let mut i: usize = 0;
    while i < text.len()
        invariant
            i <= text@.len(),
            all_digits(text@.take(i as int)),
            value == decimal_value(text@.take(i as int)),
        decreases text@.len() - i,
    {
        let byte = text[i];
        if byte < DIGIT_ZERO || byte > DIGIT_NINE {
            return None;
        }
        let digit = (byte - DIGIT_ZERO) as usize;
        proof {
            assert(text@.take(i + 1).drop_last() =~= text@.take(i as int));
        }
        if value > (usize::MAX - digit) / 10 {
            proof {
                lemma_prefix_value(text@, i + 1);
            }
            return None;
        }
        value = value * 10 + digit;
        i += 1;
        assert forall|j: int| 0 <= j < i implies is_digit(#[trigger] text@.take(i as int)[j]) by {}
    }
    assert(text@.take(i as int) =~= text@);
    Some(value)
}

/// Appends the decimal notation of `n` to `out`.
pub fn push_decimal(out: &mut Vec<u8>, n: usize)
    ensures
        final(out)@ == old(out)@ + decimal_digits(n as nat),
    decreases n,
{
    if n >= 10 {
        push_decimal(out, n / 10);
    }
    out.push(DIGIT_ZERO + (n % 10) as u8);
}

/// The decimal notation of `n`.
pub fn render_decimal(n: usize) -> (text: Vec<u8>)
    ensures
        text@ == decimal_digits(n as nat),
{
    let mut text = Vec::new();
    push_decimal(&mut text, n);
    text
}

/// The decimal notations of `numbers`, separated by commas.
pub fn render_list(numbers: &[usize]) -> (text: Vec<u8>)
    ensures
        text@ == comma_joined(numbers@),
{
    let mut text = Vec::new();
    let mut i: usize = 0;
    while i < numbers.len()
        invariant
            i <= numbers@.len(),
            text@ == comma_joined(numbers@.take(i as int)),
        decreases numbers@.len() - i,
    {
        if i > 0 {
            text.push(COMMA);
        }
        push_decimal(&mut text, numbers[i]);
        proof {
            assert(numbers@.take(i + 1).drop_last() =~= numbers@.take(i as int));
        }
        i += 1;
    }
    assert(numbers@.take(i as int) =~= numbers@);
    text
}

/// Writing a number and reading it back gives the number.
pub proof fn lemma_decimal_round_trip(n: nat)
    ensures
        decimal_digits(n).len() > 0,
        all_digits(decimal_digits(n)),
        decimal_value(decimal_digits(n)) == n,
    decreases n,
{
    if n < 10 {
        assert(decimal_value(decimal_digits(n).drop_last()) == 0);
    } else {
        lemma_decimal_round_trip(n / 10);
        assert(decimal_digits(n).drop_last() =~= decimal_digits(n / 10));
    }
}

} // verus!
