use vstd::prelude::*;

verus! {

/// True when the number is zero.
pub fn _is_zero(num: &u32) -> (r: bool)
    ensures
        r == (*num == 0),
{
    *num == 0
}

/// True when the flag is false.
pub fn is_false(value: &bool) -> (r: bool)
    ensures
        r == !*value,
{
    !*value
}

/// True when the vector holds no element.
pub fn is_empty<T>(value: &Vec<T>) -> (r: bool)
    ensures
        r == (value@.len() == 0),
{
    value.len() == 0
}

} // verus!
