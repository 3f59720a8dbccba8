use crate::owo::{rescaled, Owo};
use crate::rounding::RoundingMode;
use vstd::prelude::*;

verus! {

/// Applies the per-value collapse to every element: element `i` of the
/// result is `values[i]` rescaled from the double `scaled[i]` under `mode`.
/// Length and order are kept and no element affects another.
pub fn with_scaled_all(values: &Vec<Owo>, scaled: &Vec<u64>, mode: RoundingMode) -> (r: Vec<Owo>)
    requires
        values.len() == scaled.len(),
    ensures
        r.len() == values.len(),
        forall|i: int| 0 <= i < r.len() ==> #[trigger] r[i] == rescaled(values[i], scaled[i], mode),
{
    let mut out: Vec<Owo> = Vec::new();
    let mut i: usize = 0;
    while i < values.len()
        invariant
            values.len() == scaled.len(),
            i <= values.len(),
            out.len() == i,
            forall|j: int| 0 <= j < i ==> #[trigger] out[j] == rescaled(values[j], scaled[j], mode),
        decreases values.len() - i,
    {
        out.push(values[i].with_scaled(scaled[i], mode));
        i = i + 1;
    }
    out
}

} // verus!
