//! The numbers of `serde_json`.

use vstd::prelude::*;

verus! {

/// `serde_json::Number`, carried through as it is.
#[verifier::external_type_specification]
#[verifier::external_body]
pub struct ExJsonNumber(serde_json::Number);

/// The integer that a `serde_json::Number` holds, if it holds one.
pub uninterp spec fn integer_of(n: serde_json::Number) -> Option<int>;

/// `serde_json::Number::as_u64`: the integer, where it fits an unsigned 64-bit word.
pub assume_specification[ serde_json::Number::as_u64 ](n: &serde_json::Number) -> (r: Option<u64>)
    ensures
        r == (match integer_of(*n) {
            Some(i) => if 0 <= i <= u64::MAX {
                Some(i as u64)
            } else {
                None
            },
            None => None,
        }),
;

/// `serde_json::Number::as_i64`: the integer, where it fits a signed 64-bit word; a number that
/// fits neither word holds no integer at all.
pub assume_specification[ serde_json::Number::as_i64 ](n: &serde_json::Number) -> (r: Option<i64>)
    ensures
        r == (match integer_of(*n) {
            Some(i) => if i64::MIN <= i <= i64::MAX {
                Some(i as i64)
            } else {
                None
            },
            None => None,
        }),
        integer_of(*n) matches Some(i) ==> r is Some || 0 <= i <= u64::MAX,
;

/// `serde_json::Number::clone`: the same number.
#[verifier::external_body]
pub(crate) fn copy_number(n: &serde_json::Number) -> (r: serde_json::Number)
    ensures
        r == *n,
{
    n.clone()
}

/// `serde_json::Number::from`, of an unsigned word: the number that holds this integer.
#[verifier::external_body]
pub(crate) fn unsigned_number(n: u64) -> (r: serde_json::Number)
    ensures
        integer_of(r) == Some(n as int),
{
    serde_json::Number::from(n)
}

/// `serde_json::Number::from`, of a signed word: the number that holds this integer.
#[verifier::external_body]
pub(crate) fn signed_number(n: i64) -> (r: serde_json::Number)
    ensures
        integer_of(r) == Some(n as int),
{
    serde_json::Number::from(n)
}

} // verus!
