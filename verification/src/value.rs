//! Runtime values, and the order and equality of numbers.
//!
//! A number is an IEEE 754 double held as its 64-bit pattern: the sign in the
//! highest bit, then eleven bits of exponent, then the fraction.

use vstd::prelude::*;
use crate::gc::Gc;

verus! {

/// The sign bit of a number.
pub const SIGN_MASK: u64 = 0x8000_0000_0000_0000;

/// Every bit of a number but its sign.
pub const MAGNITUDE_MASK: u64 = 0x7fff_ffff_ffff_ffff;

/// The magnitude of infinity: every magnitude above it is not a number.
pub const INFINITY_BITS: u64 = 0x7ff0_0000_0000_0000;

/// The pattern is not a number.
pub open spec fn spec_number_is_nan(bits: u64) -> bool {
    (bits & MAGNITUDE_MASK) > INFINITY_BITS
}

/// The pattern is zero, of either sign.
pub open spec fn spec_number_is_zero(bits: u64) -> bool {
    bits & MAGNITUDE_MASK == 0
}

/// The sign bit of the pattern is set.
pub open spec fn spec_number_is_negative(bits: u64) -> bool {
    bits & SIGN_MASK != 0
}

/// Equality of numbers: nothing equals a NaN, the two zeros are equal, and any
/// other two numbers are equal when their patterns are.
pub open spec fn spec_numbers_equal(a: u64, b: u64) -> bool {
    !spec_number_is_nan(a) && !spec_number_is_nan(b) && (a == b || (spec_number_is_zero(a)
        && spec_number_is_zero(b)))
}

/// The order of numbers: nothing compares with a NaN, the two zeros are not
/// below each other, a negative number is below a positive one, positive
/// numbers go by their magnitude and negative ones against it.
pub open spec fn spec_number_less(a: u64, b: u64) -> bool {
    !spec_number_is_nan(a) && !spec_number_is_nan(b) && !(spec_number_is_zero(a)
        && spec_number_is_zero(b)) && if spec_number_is_negative(a) {
        !spec_number_is_negative(b) || (a & MAGNITUDE_MASK) > (b & MAGNITUDE_MASK)
    } else {
        !spec_number_is_negative(b) && (a & MAGNITUDE_MASK) < (b & MAGNITUDE_MASK)
    }
}

/// The number with its sign flipped.
pub open spec fn spec_number_negate(bits: u64) -> u64 {
    bits ^ SIGN_MASK
}

/// Whether the pattern is not a number.
pub fn number_is_nan(bits: u64) -> (nan: bool)
    ensures
        nan == spec_number_is_nan(bits),
{
    (bits & MAGNITUDE_MASK) > INFINITY_BITS
}

/// Whether two numbers are equal.
pub fn numbers_equal(a: u64, b: u64) -> (equal: bool)
    ensures
        equal == spec_numbers_equal(a, b),
{
    !number_is_nan(a) && !number_is_nan(b) && (a == b || ((a & MAGNITUDE_MASK) == 0 && (b
        & MAGNITUDE_MASK) == 0))
}

/// Whether `a` is below `b`.
pub fn number_less(a: u64, b: u64) -> (less: bool)
    ensures
        less == spec_number_less(a, b),
{
    if number_is_nan(a) || number_is_nan(b) {
        return false;
    }
    let (ma, mb) = (a & MAGNITUDE_MASK, b & MAGNITUDE_MASK);
    if ma == 0 && mb == 0 {
        return false;
    }
    if a & SIGN_MASK != 0 {
        b & SIGN_MASK == 0 || ma > mb
    } else {
        b & SIGN_MASK == 0 && ma < mb
    }
}

/// The number with its sign flipped.
pub fn number_negate(bits: u64) -> (negated: u64)
    ensures
        negated == spec_number_negate(bits),
{
    bits ^ SIGN_MASK
}

/// A runtime value. Strings, native functions and closures live on the heap
/// and are held by handle.
#[derive(Clone, Copy, PartialEq, Eq, Debug, Structural)]
pub enum Value {
    Bool(bool),
    Nil,
    Number(u64),
    String(Gc),
    NativeFunction(Gc),
    Closure(Gc),
}

impl Value {
    /// The handle held by the value, if it holds one.
    pub open spec fn spec_handle(self) -> Option<Gc> {
        match self {
            Value::String(h) | Value::NativeFunction(h) | Value::Closure(h) => Some(h),
            _ => None,
        }
    }

    /// The handle held by the value, if it holds one.
    pub fn handle(&self) -> (held: Option<Gc>)
        ensures
            held == self.spec_handle(),
    {
        match self {
            Value::String(h) | Value::NativeFunction(h) | Value::Closure(h) => Some(*h),
            _ => None,
        }
    }
}

/// The handles held by the values, in order.
pub open spec fn value_handles(values: Seq<Value>) -> Seq<Gc>
    decreases values.len(),
{
    if values.len() == 0 {
        Seq::empty()
    } else {
        match values.last().spec_handle() {
            Some(h) => value_handles(values.drop_last()).push(h),
            None => value_handles(values.drop_last()),
        }
    }
}

/// A handle is among the handles of the values exactly when one of the values
/// holds it.
pub proof fn lemma_value_handles(values: Seq<Value>, h: Gc)
    ensures
        value_handles(values).contains(h) <==> exists|i: int|
            0 <= i < values.len() && (#[trigger] values[i]).spec_handle() == Some(h),
    decreases values.len(),
{
    if values.len() > 0 {
        let front = values.drop_last();
        lemma_value_handles(front, h);
        if value_handles(values).contains(h) {
            let k = choose|k: int| 0 <= k < value_handles(values).len() && value_handles(values)[k] == h;
            if values.last().spec_handle() == Some(h) {
                assert(values[values.len() - 1].spec_handle() == Some(h));
            } else {
                assert(value_handles(front).contains(h)) by {
                    match values.last().spec_handle() {
                        Some(other) => {
                            assert(value_handles(front)[k] == h);
                        },
                        None => {},
                    }
                }
                let i = choose|i: int| 0 <= i < front.len() && (#[trigger] front[i]).spec_handle() == Some(h);
                assert(values[i].spec_handle() == Some(h));
            }
        }
        if exists|i: int| 0 <= i < values.len() && (#[trigger] values[i]).spec_handle() == Some(h) {
            let i = choose|i: int| 0 <= i < values.len() && (#[trigger] values[i]).spec_handle() == Some(h);
            if i == values.len() - 1 {
                let hs = value_handles(values);
                assert(hs[hs.len() - 1] == h);
            } else {
                assert(front[i].spec_handle() == Some(h));
                let k = choose|k: int| 0 <= k < value_handles(front).len() && value_handles(front)[k] == h;
                assert(value_handles(values)[k] == h);
            }
        }
    }
}

} // verus!
