//! The pattern compiler: a single left-to-right scan that turns a stripped
//! pattern into a match plan.

use vstd::prelude::*;

verus! {

use vstd::arithmetic::power2::{pow2, lemma_pow2_unfold};
use vstd::bits::{low_bits_mask, lemma_low_bits_mask_unfold};
use vstd::string::StrSliceExecFns;
use crate::pattern::{
    stripped_of,
    mask_spec,
    expect_spec,
    fields_upto,
    run_len_at,
    width_for,
    lemma_mask_expect_bound,
    lemma_run_len_at_bound,
};
use crate::plan::{Field, MatchPlan, PatternError};
use crate::bits128::{lemma_pow2_128, lemma_pow2_le_128};

/// The pattern string with every space removed, as a vector of characters.
pub fn strip_spaces(pattern: &str) -> (r: Vec<char>)
    ensures
        r@ == stripped_of(pattern@),
{
    let n = pattern.unicode_len();
    let mut out: Vec<char> = Vec::new();
    let mut j: usize = 0;
    while j < n
        invariant
            j <= n,
            n == pattern@.len(),
            out@ == stripped_of(pattern@.take(j as int)),
        decreases n - j,
    {
        let c = pattern.get_char(j);
        if c != ' ' {
            out.push(c);
        }
        proof {
            assert(pattern@.take(j + 1).drop_last() =~= pattern@.take(j as int));
        }
        j += 1;
    }
    proof {
        assert(pattern@.take(n as int) =~= pattern@);
    }
    out
}

/// A `u128` with exactly the low `w` bits set.
pub(crate) fn low_mask_u128(w: usize) -> (r: u128)
    requires
        w <= 128,
    ensures
        r as nat == low_bits_mask(w as nat),
{
    proof {
        vstd::arithmetic::power2::lemma2_to64();
        assert(low_bits_mask(0) == 0);
    }
    let mut r: u128 = 0;
    let mut j: usize = 0;
    while j < w
        invariant
            j <= w <= 128,
            r as nat == low_bits_mask(j as nat),
        decreases w - j,
    {
        proof {
            lemma_pow2_128();
            lemma_pow2_le_128((j + 1) as nat);
            lemma_pow2_unfold((j + 1) as nat);
            assert(low_bits_mask((j + 1) as nat) == 2 * low_bits_mask(j as nat) + 1) by {
                lemma_low_bits_mask_unfold((j + 1) as nat);
            }
        }
        r = r * 2 + 1;
        j += 1;
    }
    r
}

/// Compile a stripped pattern into a match plan by one left-to-right scan.
///
/// Succeeds exactly when the stripped pattern has 1 to 128 characters; the
/// plan then carries the pattern's mask, expected bits, selected width, and
/// extraction fields in the order their runs appear from the left.
pub fn compile_stripped(p: &Vec<char>) -> (r: Result<MatchPlan, PatternError>)
    ensures
        r is Ok <==> 1 <= p@.len() <= 128,
        p@.len() == 0 ==> r == Err::<MatchPlan, PatternError>(PatternError::Empty),
        p@.len() > 128 ==> r == Err::<MatchPlan, PatternError>(PatternError::TooLong),
        r matches Ok(plan) ==> plan.wf() && plan.matches_pattern(p@),
{
    let n = p.len();
    if n == 0 {
        return Err(PatternError::Empty);
    }
    if n > 128 {
        return Err(PatternError::TooLong);
    }
    let width: u32 = if n <= 8 {
        8
    } else if n <= 16 {
        16
    } else if n <= 32 {
        32
    } else if n <= 64 {
        64
    } else {
        128
    };
    let mut mask: u128 = 0;
    let mut expect: u128 = 0;
    let mut fields: Vec<Field> = Vec::new();
    let mut prev: Option<char> = None;
    let mut count: usize = 0;
    let mut i: usize = 0;
    while i < n
        invariant
            1 <= n <= 128,
            n == p@.len(),
            i <= n,
            width as nat == width_for(n as nat),
            n <= width <= 128,
            mask as nat == mask_spec(p@.take(i as int)),
            expect as nat == expect_spec(p@.take(i as int)),
            i == 0 ==> prev is None && count == 0,
            i >= 1 ==> prev == Some(p@[i - 1]) && count == run_len_at(p@, i - 1),
            count <= i,
            fields@.len() == fields_upto(p@, i as int).len(),
            forall|k: int|
                0 <= k < fields@.len() ==> (#[trigger] fields@[k]).model() == fields_upto(
                    p@,
                    i as int,
                )[k] && fields@[k].wf(width as nat),
        decreases n - i,
    {
        let bit = p[i];
        proof {
            assert(p@.take(i + 1).drop_last() =~= p@.take(i as int));
            lemma_mask_expect_bound(p@.take(i as int));
            lemma_pow2_128();
            lemma_pow2_le_128((i + 1) as nat);
            lemma_pow2_unfold((i + 1) as nat);
        }
        mask = mask * 2 + (if bit == '0' || bit == '1' {
            1
        } else {
            0
        });
        expect = expect * 2 + (if bit == '1' {
            1
        } else {
            0
        });
        if let Some(x) = prev {
            if x != bit && x != '0' && x != '1' && x != '_' {
                proof {
                    lemma_run_len_at_bound(p@, i - 1);
                }
                let fmask = low_mask_u128(count);
                fields.push(
                    Field { offset: (n - i) as u32, width: count as u32, mask: fmask },
                );
                count = 0;
            } else if x != bit {
                count = 0;
            }
        }
        count += 1;
        prev = Some(bit);
        i += 1;
    }
    proof {
        assert(p@.take(n as int) =~= p@);
    }
    if let Some(x) = prev {
        if x != '0' && x != '1' && x != '_' {
            proof {
                lemma_run_len_at_bound(p@, n - 1);
            }
            let fmask = low_mask_u128(count);
            fields.push(Field { offset: 0, width: count as u32, mask: fmask });
        }
    }
    Ok(MatchPlan { width, mask, expect, fields })
}

} // verus!
