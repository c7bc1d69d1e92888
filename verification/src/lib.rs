//! Bit-pattern matching and field extraction over fixed-width unsigned
//! integers.
//!
//! A pattern string is made of `'0'` and `'1'` (fixed bits), `'_'`
//! (don't-care bits) and arbitrary extractor letters, where a maximal run of
//! adjacent identical extractor letters names one extraction field. The
//! pattern is compiled into a match plan — a mask, the expected bits, and an
//! ordered list of fields — and the plan is applied to a value: if every
//! fixed bit agrees the result is present and carries the extracted fields,
//! in the order their runs appear from the left; otherwise it is absent.

use vstd::prelude::*;

pub mod bits128;
pub mod compile;
pub mod laws;
pub mod matcher;
pub mod pattern;
pub mod plan;

verus! {

use vstd::arithmetic::power2::pow2;
use crate::pattern::{stripped_of, fields_spec, field_value_of, fixed_bits_match, width_for};
use crate::plan::PatternError;

/// Match `value` against a pattern string and extract its fields.
///
/// Spaces in the pattern are insignificant and removed first. The stripped
/// pattern must have 1 to 128 characters; its length selects the integer
/// width (8, 16, 32, 64 or 128 bits) and the value is truncated to that width
/// before matching. The result is present exactly when every fixed bit of the
/// pattern agrees with the truncated value, and then carries one extracted
/// sub-value per extraction field, in the order the fields' runs appear from
/// the left.
pub fn bitmatch(pattern: &str, value: u128) -> (r: Result<Option<Vec<u128>>, PatternError>)
    ensures
        ({
            let p = stripped_of(pattern@);
            let t = (value as nat) % pow2(width_for(p.len()));
            &&& (r is Ok <==> 1 <= p.len() <= 128)
            &&& (p.len() == 0 ==> r == Err::<Option<Vec<u128>>, PatternError>(PatternError::Empty))
            &&& (p.len() > 128 ==> r == Err::<Option<Vec<u128>>, PatternError>(
                PatternError::TooLong,
            ))
            &&& (r matches Ok(opt) ==> {
                &&& (opt is Some <==> fixed_bits_match(p, t))
                &&& (opt matches Some(vals) ==> {
                    &&& vals@.len() == fields_spec(p).len()
                    &&& (forall|k: int|
                        0 <= k < vals@.len() ==> #[trigger] vals@[k] as nat == field_value_of(
                            fields_spec(p)[k],
                            t,
                        ))
                })
            })
        }),
{
    let chars = compile::strip_spaces(pattern);
    match compile::compile_stripped(&chars) {
        Ok(plan) => {
            let r = matcher::apply_plan(&plan, value);
            proof {
                laws::lemma_match_iff_fixed_bits(plan, chars@, value);
            }
            Ok(r)
        },
        Err(e) => Err(e),
    }
}

} // verus!
