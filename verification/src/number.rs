//! Numbers as text: the digits that the parsers accept and the formatters
//! write.
use core::num::ParseIntError;
use vstd::prelude::*;

verus! {

/// The error that the standard integer parsers return. Nothing is known of
/// its contents here.
#[verifier::external_type_specification]
#[verifier::external_body]
pub struct ExParseIntError(core::num::ParseIntError);

/// Specifies `ParseIntError::clone`.
///
/// Trusted: the clone is equal to the error that was cloned.
pub assume_specification[ <ParseIntError as Clone>::clone ](e: &ParseIntError) -> (r:
    ParseIntError)
    ensures
        r == *e,
;

/// The value of `c` as a digit in base `radix`: `0` to `9`, then the letters
/// in either case, as far as the base reaches.
pub open spec fn digit_value(c: char, radix: nat) -> Option<nat> {
    let u = c as u32;
    let v: nat = if 48 <= u <= 57 {
        (u - 48) as nat
    } else if 97 <= u <= 122 {
        (u - 87) as nat
    } else if 65 <= u <= 90 {
        (u - 55) as nat
    } else {
        radix
    };
    if v < radix {
        Some(v)
    } else {
        None
    }
}

/// The number that `digits` spell in base `radix`, if each of them is a digit
/// of that base. No digits spell zero.
pub open spec fn digits_value(digits: Seq<char>, radix: nat) -> Option<nat>
    decreases digits.len(),
{
    if digits.len() == 0 {
        Some(0)
    } else {
        match (digits_value(digits.drop_last(), radix), digit_value(digits.last(), radix)) {
            (Some(high), Some(low)) => Some(high * radix + low),
            _ => None,
        }
    }
}

/// The number that `text` stands for as an unsigned integer in base `radix`
/// that is at most `max`: an optional `+`, then one digit or more.
pub open spec fn parse_unsigned(text: Seq<char>, radix: nat, max: nat) -> Option<nat> {
    let digits = if text.len() > 0 && text[0] == '+' {
        text.skip(1)
    } else {
        text
    };
    if digits.len() == 0 {
        None
    } else {
        match digits_value(digits, radix) {
            Some(v) => if v <= max {
                Some(v)
            } else {
                None
            },
            None => None,
        }
    }
}

/// Calls `u8::from_str_radix`.
///
/// Trusted: the call succeeds exactly on an optional `+` followed by one or
/// more digits of the base whose value fits the type, and returns that value.
/// It panics on a base outside 2 to 36, which the precondition rules out.
#[verifier::external_body]
pub(crate) fn u8_from_str_radix(text: &str, radix: u32) -> (r: Result<u8, ParseIntError>)
    requires
        2 <= radix <= 36,
    ensures
        r is Ok <==> parse_unsigned(text@, radix as nat, u8::MAX as nat) is Some,
        r matches Ok(v) ==> parse_unsigned(text@, radix as nat, u8::MAX as nat) == Some(v as nat),
{
    u8::from_str_radix(text, radix)
}

/// Calls `u16::from_str_radix`.
///
/// Trusted: the call succeeds exactly on an optional `+` followed by one or
/// more digits of the base whose value fits the type, and returns that value.
/// It panics on a base outside 2 to 36, which the precondition rules out.
#[verifier::external_body]
pub(crate) fn u16_from_str_radix(text: &str, radix: u32) -> (r: Result<u16, ParseIntError>)
    requires
        2 <= radix <= 36,
    ensures
        r is Ok <==> parse_unsigned(text@, radix as nat, u16::MAX as nat) is Some,
        r matches Ok(v) ==> parse_unsigned(text@, radix as nat, u16::MAX as nat) == Some(
            v as nat,
        ),
{
    u16::from_str_radix(text, radix)
}

/// Calls `String::push`.
///
/// Trusted: the character is appended to the end of the string.
#[verifier::external_body]
pub(crate) fn push_char(text: &mut String, c: char)
    ensures
        final(text)@ == old(text)@.push(c),
{
    text.push(c)
}

/// The character that stands for the digit `n`, with letters in upper or
/// lower case.
pub open spec fn digit_char(n: nat, upper: bool) -> char {
    if n < 10 {
        ((48 + n) as u8) as char
    } else if upper {
        ((55 + n) as u8) as char
    } else {
        ((87 + n) as u8) as char
    }
}

/// The character that stands for the digit `n`.
pub(crate) fn digit(n: u8, upper: bool) -> (c: char)
    requires
        n < 36,
    ensures
        c == digit_char(n as nat, upper),
{
    if n < 10 {
        (48 + n) as char
    } else if upper {
        (55 + n) as char
    } else {
        (87 + n) as char
    }
}

/// A digit's character reads back as the digit, in any base that has it.
pub proof fn lemma_digit_round_trip(n: nat, upper: bool, radix: nat)
    requires
        n < radix <= 36,
    ensures
        digit_value(digit_char(n, upper), radix) == Some(n),
        digit_char(n, upper) != '+',
        digit_char(n, upper) != ':',
        digit_char(n, upper) != '.',
{
}

/// The decimal digits of `n`, without leading zeros.
pub open spec fn decimal(n: nat) -> Seq<char>
    decreases n,
{
    if n < 10 {
        seq![digit_char(n, false)]
    } else {
        decimal(n / 10).push(digit_char(n % 10, false))
    }
}

/// Appends the decimal digits of `n` to `text`.
pub fn push_decimal(text: &mut String, n: u16)
    ensures
        final(text)@ == old(text)@ + decimal(n as nat),
    decreases n,
{
    if n >= 10 {
        push_decimal(text, n / 10);
    }
    push_char(text, digit((n % 10) as u8, false));
    proof {
        let low = digit_char((n % 10) as nat, false);
        if n >= 10 {
            assert((old(text)@ + decimal((n / 10) as nat)).push(low) =~= old(text)@ + decimal(
                n as nat,
            ));
        } else {
            assert(old(text)@.push(low) =~= old(text)@ + decimal(n as nat));
        }
    }
}

/// The decimal digits of a number read back as the number. There is at least
/// one of them, and none is a sign or a dot.
pub proof fn lemma_decimal_round_trip(n: nat)
    ensures
        decimal(n).len() >= 1,
        digits_value(decimal(n), 10) == Some(n),
        forall|j: int| 0 <= j < decimal(n).len() ==> decimal(n)[j] != '+' && decimal(n)[j] != '.',
    decreases n,
{
    let low = digit_char(n % 10, false);
    lemma_digit_round_trip(n % 10, false, 10);
    if n < 10 {
        assert(decimal(n).drop_last() =~= Seq::<char>::empty());
        assert(digits_value(decimal(n), 10) == Some(n)) by {
            reveal_with_fuel(digits_value, 2);
        }
    } else {
        lemma_decimal_round_trip(n / 10);
        assert(decimal(n).drop_last() =~= decimal(n / 10));
    }
}

/// The decimal digits of `n` as ASCII bytes.
pub open spec fn decimal_bytes(n: nat) -> Seq<u8> {
    Seq::new(decimal(n).len(), |i: int| decimal(n)[i] as u8)
}

/// Appends the decimal digits of `n`, as ASCII bytes, to `out`.
pub fn push_decimal_bytes(out: &mut Vec<u8>, n: u16)
    ensures
        final(out)@ == old(out)@ + decimal_bytes(n as nat),
    decreases n,
{
    if n >= 10 {
        push_decimal_bytes(out, n / 10);
    }
    let low = (n % 10) as u8;
    out.push(48 + low);
    proof {
        assert(digit_char(low as nat, false) as u8 == 48 + low);
        if n >= 10 {
            assert((old(out)@ + decimal_bytes((n / 10) as nat)).push((48 + low) as u8) =~= old(
                out,
            )@ + decimal_bytes(n as nat));
        } else {
            assert(old(out)@.push((48 + low) as u8) =~= old(out)@ + decimal_bytes(n as nat));
        }
    }
}

} // verus!
