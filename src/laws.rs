use crate::owo::{difference, negated, sum, Owo};
use vstd::prelude::*;

verus! {

/// Adding a value's negation gives zero of its currency, and so does
/// subtracting a value from itself.
pub proof fn lemma_additive_inverse(v: Owo)
    requires
        v.amount != i64::MIN,
    ensures
        sum(v, negated(v)) == Some(Owo { amount: 0, currency: v.currency }),
        difference(v, v) == Some(Owo { amount: 0, currency: v.currency }),
{
}

/// Values of different currencies neither add nor subtract: no value is
/// produced, whichever operand comes first.
pub proof fn lemma_mismatch_yields_nothing(a: Owo, b: Owo)
    requires
        !a.currency.same(&b.currency),
    ensures
        sum(a, b) is None,
        sum(b, a) is None,
        difference(a, b) is None,
        difference(b, a) is None,
{
}

/// Values of different currencies have no order and are not equal.
pub proof fn lemma_no_order_across_currencies(a: Owo, b: Owo)
    requires
        !a.currency.same(&b.currency),
    ensures
        a.order(&b) is None,
        b.order(&a) is None,
        !a.same(&b),
{
}

} // verus!
