//! Applying a series of parsed patches in order.
use vstd::prelude::*;

use crate::patch::Patch;

verus! {

/// Hands each patch, in order, to `apply` together with its number in the
/// series (`start_num` for the first one) and `strip_num`, and stops at the
/// first one that `apply` reports as failed. Returns whether all succeeded;
/// when one failed, every patch before it was reported applied.
pub fn apply_patches<F: Fn(&Patch, usize, &str) -> bool>(
    patches: &Vec<Patch>,
    start_num: usize,
    strip_num: &str,
    apply: F,
) -> (r: bool)
    requires
        patches@.len() == 0 || start_num + patches@.len() - 1 <= usize::MAX,
        forall|i: int|
            0 <= i < patches@.len() ==> apply.requires(
                (&patches@[i], (start_num + i) as usize, strip_num),
            ),
    ensures
        r ==> forall|i: int|
            0 <= i < patches@.len() ==> apply.ensures(
                (&patches@[i], (start_num + i) as usize, strip_num),
                true,
            ),
        !r ==> exists|k: int|
            0 <= k < patches@.len() && apply.ensures(
                (&patches@[k], (start_num + k) as usize, strip_num),
                false,
            ) && forall|i: int|
                0 <= i < k ==> apply.ensures(
                    (&patches@[i], (start_num + i) as usize, strip_num),
                    true,
                ),
{
    let mut num: usize = 0;
    while num < patches.len()
        invariant
            num <= patches@.len(),
            patches@.len() == 0 || start_num + patches@.len() - 1 <= usize::MAX,
            forall|i: int|
                0 <= i < patches@.len() ==> apply.requires(
                    (&patches@[i], (start_num + i) as usize, strip_num),
                ),
            forall|i: int|
                0 <= i < num ==> apply.ensures(
                    (&patches@[i], (start_num + i) as usize, strip_num),
                    true,
                ),
        decreases patches@.len() - num,
    {
        let ok = apply(&patches[num], start_num + num, strip_num);
        if !ok {
            return false;
        }
        num += 1;
    }
    true
}

} // verus!
