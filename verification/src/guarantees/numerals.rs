//! Decimal numerals.

use crate::text;
use vstd::prelude::*;

verus! {

/// The number that decimal digits give.
pub open spec fn value(digits: Seq<char>) -> nat
    decreases digits.len(),
{
    if digits.len() == 0 {
        0
    } else {
        (value(digits.drop_last()) * 10 + (digits.last() as nat - 48)) as nat
    }
}

/// The numeral of a number has that value, holds digits only, and does not start with a zero unless
/// it is one.
pub proof fn law_numeral(n: nat)
    ensures
        value(text::dec(n)) == n,
        text::dec(n).len() > 0,
        forall|i: int| 0 <= i < text::dec(n).len() ==> '0' <= #[trigger] text::dec(n)[i] <= '9',
        n > 0 ==> text::dec(n)[0] != '0',
        n == 0 ==> text::dec(n).len() == 1,
    decreases n,
{
    let s = text::dec(n);
    reveal_with_fuel(value, 2);
    if n >= 10 {
        law_numeral(n / 10);
        assert(s.drop_last() =~= text::dec(n / 10));
        assert forall|i: int| 0 <= i < s.len() implies '0' <= #[trigger] s[i] <= '9' by {
            if i < s.len() - 1 {
                assert(s[i] == text::dec(n / 10)[i]);
            }
        }
        assert(s[0] == text::dec(n / 10)[0]);
    } else {
        assert(s.drop_last() =~= Seq::<char>::empty());
    }
}

/// Different numbers have different numerals.
pub proof fn law_numerals_differ(a: nat, b: nat)
    ensures
        text::dec(a) == text::dec(b) <==> a == b,
{
    law_numeral(a);
    law_numeral(b);
}

} // verus!
