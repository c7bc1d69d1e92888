//! Applying a match plan to a value: the fixed-bit test followed by the
//! shift-and-mask extraction of each field, in plan order.

use vstd::prelude::*;

verus! {

use vstd::arithmetic::power2::pow2;
use vstd::bits::low_bits_mask;
use crate::pattern::field_value_of;
use crate::plan::MatchPlan;
use crate::compile::low_mask_u128;
use crate::bits128::{lemma_pow2_le_128, lemma_u128_low_mask_is_mod, lemma_u128_shr_is_div_pow2};

/// Apply a compiled plan to a value, as the generated expression would: the
/// value is truncated to the plan's width and tested against the fixed bits;
/// on success every field is extracted by shifting and masking, in plan
/// order; on failure the result is absent.
pub fn apply_plan(plan: &MatchPlan, value: u128) -> (r: Option<Vec<u128>>)
    requires
        plan.wf(),
    ensures
        r is Some <==> plan.spec_test(value),
        r matches Some(vals) ==> {
            &&& vals@.len() == plan.fields@.len()
            &&& forall|k: int|
                0 <= k < vals@.len() ==> #[trigger] vals@[k] as nat == field_value_of(
                    plan.fields@[k].model(),
                    plan.spec_trunc(value),
                )
        },
{
    let ones = low_mask_u128(plan.width as usize);
    let trunc = value & ones;
    proof {
        lemma_u128_low_mask_is_mod(value, plan.width as nat);
        lemma_pow2_le_128(plan.width as nat);
        assert(ones == low_bits_mask(plan.width as nat) as u128);
        assert(trunc as nat == plan.spec_trunc(value));
    }
    if (trunc & plan.mask) != plan.expect {
        return None;
    }
    let mut vals: Vec<u128> = Vec::new();
    let mut k: usize = 0;
    while k < plan.fields.len()
        invariant
            plan.wf(),
            k <= plan.fields@.len(),
            trunc as nat == plan.spec_trunc(value),
            vals@.len() == k,
            forall|j: int|
                0 <= j < k ==> #[trigger] vals@[j] as nat == field_value_of(
                    plan.fields@[j].model(),
                    plan.spec_trunc(value),
                ),
        decreases plan.fields@.len() - k,
    {
        let f = plan.fields[k];
        let shifted = trunc >> (f.offset as u128);
        proof {
            lemma_u128_shr_is_div_pow2(trunc, f.offset as u128);
            lemma_u128_low_mask_is_mod(shifted, f.width as nat);
            assert(f.mask == low_bits_mask(f.width as nat) as u128);
        }
        let v = shifted & f.mask;
        vals.push(v);
        k += 1;
    }
    Some(vals)
}

} // verus!
