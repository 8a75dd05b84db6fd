//! Type adapters: bijections between one scalar chunk and one domain value.
//! Raw scalars pass through unchanged and optional values are a property of
//! a field; the adapter here is the boolean, carried by one integer.

use vstd::prelude::*;

verus! {

/// The boolean that an integer scalar stands for: any non-zero value is true.
pub fn bool_from_attr_data(v: i32) -> (r: bool)
    ensures
        r == (v != 0),
{
    v != 0
}

/// The integer scalar that carries a boolean.
pub fn bool_into_attr_data(b: bool) -> (r: i32)
    ensures
        r == (if b {
            1i32
        } else {
            0i32
        }),
{
    if b {
        1
    } else {
        0
    }
}

/// A boolean survives being carried by an integer.
pub proof fn lemma_bool_round_trip(b: bool)
    ensures
        (if b {
            1i32
        } else {
            0i32
        } != 0) == b,
{
}

} // verus!
