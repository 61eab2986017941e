//! Saturating arithmetic on `i64`.

use vstd::prelude::*;

verus! {

/// `x` held within the range of an `i64`.
pub open spec fn clamp_i64(x: int) -> int {
    if x > i64::MAX {
        i64::MAX as int
    } else if x < i64::MIN {
        i64::MIN as int
    } else {
        x
    }
}

/// `a + b`, held within the range of an `i64`.
pub fn saturating_add(a: i64, b: i64) -> (r: i64)
    ensures
        r == clamp_i64(a + b),
{
    match a.checked_add(b) {
        Some(sum) => sum,
        None => if a > 0 {
            i64::MAX
        } else {
            i64::MIN
        },
    }
}

/// `a - b`, held within the range of an `i64`.
pub fn saturating_sub(a: i64, b: i64) -> (r: i64)
    ensures
        r == clamp_i64(a - b),
{
    match a.checked_sub(b) {
        Some(difference) => difference,
        None => if a >= 0 {
            i64::MAX
        } else {
            i64::MIN
        },
    }
}

/// `a * b`, held within the range of an `i64`.
pub fn saturating_mul(a: i64, b: i64) -> (r: i64)
    ensures
        r == clamp_i64(a * b),
{
    match a.checked_mul(b) {
        Some(product) => product,
        None => {
            let positive = (a > 0) == (b > 0);
            proof {
                lemma_product_sign(a as int, b as int);
            }
            if positive {
                i64::MAX
            } else {
                i64::MIN
            }
        },
    }
}

proof fn lemma_product_sign(a: int, b: int)
    by (nonlinear_arith)
    ensures
        a > 0 && b > 0 ==> a * b > 0,
        a < 0 && b < 0 ==> a * b > 0,
        a > 0 && b < 0 ==> a * b < 0,
        a < 0 && b > 0 ==> a * b < 0,
        a == 0 ==> a * b == 0,
        b == 0 ==> a * b == 0,
{
}

} // verus!
