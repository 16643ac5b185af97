//! Bytes as text: strict and lossy UTF-8 decoding, and decimal numerals.

use vstd::prelude::*;
use vstd::string::StringExecFns;
use vstd::utf8::{decode_utf8, valid_utf8};

verus! {

/// The description that the standard library gives of why `bytes` are not
/// valid UTF-8.
pub uninterp spec fn utf8_error_text(bytes: Seq<u8>) -> Seq<char>;

/// `String::from_utf8`: the text that `bytes` encode when they are valid
/// UTF-8; otherwise the description of the decoding error, which depends on
/// the bytes alone.
#[verifier::external_body]
pub(crate) fn string_from_utf8(bytes: Vec<u8>) -> (decoded: Result<String, String>)
    ensures
        decoded is Ok <==> valid_utf8(bytes@),
        decoded is Ok ==> decoded->Ok_0@ == decode_utf8(bytes@),
        decoded is Err ==> decoded->Err_0@ == utf8_error_text(bytes@),
{
    match String::from_utf8(bytes) {
        Ok(text) => Ok(text),
        Err(error) => Err(format!("{}", error)),
    }
}

/// The text that the standard library's lossy decoding makes of `bytes`:
/// what is not valid UTF-8 is replaced.
pub uninterp spec fn utf8_lossy_text(bytes: Seq<u8>) -> Seq<char>;

/// `String::from_utf8_lossy`: the text of `bytes` with every invalid sequence
/// replaced, which depends on the bytes alone; for valid UTF-8 it is the text
/// that the bytes encode.
#[verifier::external_body]
pub(crate) fn string_from_utf8_lossy(bytes: &[u8]) -> (text: String)
    ensures
        text@ == utf8_lossy_text(bytes@),
        valid_utf8(bytes@) ==> text@ == decode_utf8(bytes@),
{
    String::from_utf8_lossy(bytes).into_owned()
}

/// The character that stands for a digit.
pub open spec fn digit_char(digit: nat) -> char
    recommends
        digit < 10,
{
    if digit == 0 {
        '0'
    } else if digit == 1 {
        '1'
    } else if digit == 2 {
        '2'
    } else if digit == 3 {
        '3'
    } else if digit == 4 {
        '4'
    } else if digit == 5 {
        '5'
    } else if digit == 6 {
        '6'
    } else if digit == 7 {
        '7'
    } else if digit == 8 {
        '8'
    } else {
        '9'
    }
}

/// A number written in decimal, without leading zeros.
pub open spec fn decimal(value: nat) -> Seq<char>
    decreases value,
{
    if value < 10 {
        seq![digit_char(value)]
    } else {
        decimal(value / 10).push(digit_char(value % 10))
    }
}

/// The characters of digits that were collected from the least significant
/// upwards, in the order in which they are written.
pub open spec fn written(digits: Seq<u32>) -> Seq<char> {
    Seq::new(digits.len(), |k: int| digit_char(digits[digits.len() - 1 - k] as nat))
}

/// The one-character text of a digit.
fn digit_str(digit: u32) -> (text: &'static str)
    requires
        digit < 10,
    ensures
        text@ == seq![digit_char(digit as nat)],
{
    proof {
        reveal_strlit("0");
        reveal_strlit("1");
        reveal_strlit("2");
        reveal_strlit("3");
        reveal_strlit("4");
        reveal_strlit("5");
        reveal_strlit("6");
        reveal_strlit("7");
        reveal_strlit("8");
        reveal_strlit("9");
    }
    let text = if digit == 0 {
        "0"
    } else if digit == 1 {
        "1"
    } else if digit == 2 {
        "2"
    } else if digit == 3 {
        "3"
    } else if digit == 4 {
        "4"
    } else if digit == 5 {
        "5"
    } else if digit == 6 {
        "6"
    } else if digit == 7 {
        "7"
    } else if digit == 8 {
        "8"
    } else {
        "9"
    };
    assert(text@ =~= seq![digit_char(digit as nat)]);
    text
}

/// Writes a number in decimal.
pub fn decimal_string(value: u32) -> (text: String)
    ensures
        text@ == decimal(value as nat),
{
    let mut digits: Vec<u32> = Vec::new();
    let mut rest: u32 = value;
    assert(decimal(rest as nat) + written(digits@) =~= decimal(value as nat));
    while rest >= 10
        invariant
            decimal(value as nat) == decimal(rest as nat) + written(digits@),
            forall|k: int| 0 <= k < digits@.len() ==> #[trigger] digits@[k] < 10,
        decreases rest,
    {
        let digit: u32 = rest % 10;
        proof {
            let longer = digits@.push(digit);
            assert(written(longer) =~= seq![digit_char(digit as nat)] + written(digits@));
            assert(decimal((rest / 10) as nat) + written(longer) =~= decimal(rest as nat) + written(
                digits@,
            ));
        }
        digits.push(digit);
        rest = rest / 10;
    }
    let mut text: String = String::new();
    text.append(digit_str(rest));
    let mut left: usize = digits.len();
    assert(text@ =~= decimal(rest as nat) + written(digits@).take(0));
    while left > 0
        invariant
            left <= digits@.len(),
            rest < 10,
            forall|k: int| 0 <= k < digits@.len() ==> #[trigger] digits@[k] < 10,
            text@ == decimal(rest as nat) + written(digits@).take(digits@.len() - left),
        decreases left,
    {
        left = left - 1;
        text.append(digit_str(digits[left]));
        assert(text@ =~= decimal(rest as nat) + written(digits@).take(digits@.len() - left));
    }
    assert(written(digits@).take(digits@.len() as int) =~= written(digits@));
    text
}

} // verus!
