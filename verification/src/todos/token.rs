//! Reading item ids out of the tokens a client submits.
//!
//! A reordering request names items by decimal tokens.  A token that is not
//! a decimal `i32` is not an error: it stands for the id `0`.

use vstd::prelude::*;

verus! {

/// `c` is one of the ten ASCII digits.
pub open spec fn is_digit(c: char) -> bool {
    '0' <= c <= '9'
}

/// The number a digit stands for.
pub open spec fn digit_value(c: char) -> int {
    c as int - '0' as int
}

/// The number a run of digits writes in base ten; the empty run writes 0.
pub open spec fn digits_value(digits: Seq<char>) -> int
    decreases digits.len(),
{
    if digits.len() == 0 {
        0
    } else {
        10 * digits_value(digits.drop_last()) + digit_value(digits.last())
    }
}

/// Every character of `s` is a digit.
pub open spec fn all_digits(s: Seq<char>) -> bool {
    forall|i: int| 0 <= i < s.len() ==> is_digit(#[trigger] s[i])
}

/// `s` starts with a plus or a minus sign.
pub open spec fn has_sign(s: Seq<char>) -> bool {
    s.len() > 0 && (s[0] == '+' || s[0] == '-')
}

/// The integer that `s` writes: an optional sign followed by at least one
/// digit and nothing else.  Any other text writes no integer.
pub open spec fn decimal_value(s: Seq<char>) -> Option<int> {
    let digits = if has_sign(s) {
        s.subrange(1, s.len() as int)
    } else {
        s
    };
    if digits.len() == 0 || !all_digits(digits) {
        None
    } else if has_sign(s) && s[0] == '-' {
        Some(-digits_value(digits))
    } else {
        Some(digits_value(digits))
    }
}

/// The `i32` that `s` writes, if it writes an integer that fits in one.
pub open spec fn decimal_i32(s: Seq<char>) -> Option<i32> {
    match decimal_value(s) {
        Some(v) => if i32::MIN <= v <= i32::MAX {
            Some(v as i32)
        } else {
            None
        },
        None => None,
    }
}

/// The id a token names: the `i32` it writes, or `0` when it writes none.
pub open spec fn token_id_of(token: Seq<char>) -> i32 {
    match decimal_i32(token) {
        Some(id) => id,
        None => 0,
    }
}

/// The ids a sequence of tokens names, in the same order.
pub open spec fn token_ids(tokens: Seq<String>) -> Seq<int> {
    Seq::new(tokens.len(), |k: int| token_id_of(tokens[k]@) as int)
}

/// Calls `str::parse::<i32>` and keeps the number it yields.
///
/// Trusted: the standard library reads an optional `+` or `-` followed by one
/// or more ASCII digits, and fails on empty text, on any other character and
/// on a value outside the range of `i32`.
#[verifier::external_body]
fn parse_i32(token: &str) -> (parsed: Option<i32>)
    ensures
        parsed == decimal_i32(token@),
{
    token.parse::<i32>().ok()
}

/// Reads the id a token names; a token that is no decimal `i32` names `0`.
pub fn token_id(token: &str) -> (id: i32)
    ensures
        id == token_id_of(token@),
{
    match parse_i32(token) {
        Some(id) => id,
        None => 0,
    }
}

} // verus!
