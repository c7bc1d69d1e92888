//! The laws of the pattern compiler, stated and proved over the model.

use vstd::prelude::*;

verus! {

use vstd::arithmetic::power2::{pow2, lemma_pow2_pos};
use vstd::arithmetic::div_mod::lemma_small_mod;
use crate::pattern::{
    SpecField,
    fields_upto,
    fields_spec,
    run_len_at,
    is_extractor,
    field_covers_run,
    lemma_run_chars,
    stripped_of,
    mask_spec,
    expect_spec,
    width_for,
    is_fixed_char,
    bit_of,
    fixed_bits_match,
};
use crate::plan::MatchPlan;
use crate::bits128::{
    lemma_pow2_le_128,
    lemma_u128_and_split_low_bit,
    lemma_bit_of_half,
    lemma_bit_of_zero,
};

/// Splitting the fixed-bit test of a pattern: the last character constrains
/// the value's lowest bit, the rest of the pattern constrains the halved
/// value.
proof fn lemma_fixed_bits_match_step(p: Seq<char>, v: nat)
    requires
        p.len() >= 1,
    ensures
        fixed_bits_match(p, v) <==> (fixed_bits_match(p.drop_last(), v / 2) && (is_fixed_char(
            p.last(),
        ) ==> bit_of(v, 0) == (if p.last() == '1' {
            1nat
        } else {
            0nat
        }))),
{
    let q = p.drop_last();
    let n = p.len() as int;
    if fixed_bits_match(p, v) {
        assert forall|j: int| 0 <= j < q.len() && is_fixed_char(#[trigger] q[j]) implies bit_of(
            v / 2,
            (q.len() - 1 - j) as nat,
        ) == (if q[j] == '1' {
            1nat
        } else {
            0nat
        }) by {
            assert(q[j] == p[j]);
            lemma_bit_of_half(v, (n - 2 - j) as nat);
        }
        if is_fixed_char(p.last()) {
            assert(p[n - 1] == p.last());
        }
    }
    if fixed_bits_match(q, v / 2) && (is_fixed_char(p.last()) ==> bit_of(v, 0) == (if p.last()
        == '1' {
        1nat
    } else {
        0nat
    })) {
        assert forall|j: int| 0 <= j < n && is_fixed_char(#[trigger] p[j]) implies bit_of(
            v,
            (n - 1 - j) as nat,
        ) == (if p[j] == '1' {
            1nat
        } else {
            0nat
        }) by {
            if j < n - 1 {
                assert(q[j] == p[j]);
                lemma_bit_of_half(v, (n - 2 - j) as nat);
            } else {
                assert(p[j] == p.last());
            }
        }
    }
}

/// The masked comparison a plan performs agrees, bit for bit, with the
/// pattern it was compiled from: `w & m == e` holds exactly when every fixed
/// position of the pattern matches the corresponding bit of `w`.
pub proof fn lemma_test_iff_fixed_bits(p: Seq<char>, m: u128, e: u128, w: u128)
    requires
        p.len() <= 128,
        m as nat == mask_spec(p),
        e as nat == expect_spec(p),
    ensures
        (w & m == e) <==> fixed_bits_match(p, w as nat),
    decreases p.len(),
{
    if p.len() == 0 {
        assert(w & 0 == 0) by (bit_vector);
    } else {
        let q = p.drop_last();
        let c = p.last();
        let f: nat = if is_fixed_char(c) {
            1
        } else {
            0
        };
        let g: nat = if c == '1' {
            1
        } else {
            0
        };
        assert(m as nat == 2 * mask_spec(q) + f);
        assert(e as nat == 2 * expect_spec(q) + g);
        assert((m / 2) as nat == mask_spec(q));
        assert((e / 2) as nat == expect_spec(q));
        assert(m % 2 == f && e % 2 == g);
        lemma_u128_and_split_low_bit(w, m);
        lemma_test_iff_fixed_bits(q, m / 2, e / 2, w / 2);
        if f == 1 {
            assert((w % 2) & (m % 2) == w % 2) by (bit_vector)
                requires
                    m % 2 == 1,
            ;
        } else {
            assert((w % 2) & (m % 2) == 0) by (bit_vector)
                requires
                    m % 2 == 0,
            ;
        }
        lemma_fixed_bits_match_step(p, w as nat);
        lemma_bit_of_zero(w as nat);
    }
}

/// LAW — match semantics. A compiled plan accepts a value exactly when every
/// fixed position of the pattern agrees with the corresponding bit of the
/// value truncated to the selected width; don't-care and extractor positions
/// never affect the outcome.
pub proof fn lemma_match_iff_fixed_bits(plan: MatchPlan, p: Seq<char>, v: u128)
    requires
        plan.wf(),
        plan.matches_pattern(p),
        p.len() <= 128,
    ensures
        plan.spec_test(v) <==> fixed_bits_match(p, plan.spec_trunc(v)),
{
    let t = plan.spec_trunc(v);
    lemma_pow2_pos(plan.width as nat);
    lemma_pow2_le_128(plan.width as nat);
    assert(t < pow2(plan.width as nat));
    lemma_test_iff_fixed_bits(p, plan.mask, plan.expect, t as u128);
}

/// LAW — match semantics for a value already of the selected width. For a
/// value below 2^width no truncation happens: the plan accepts it exactly
/// when every fixed position of the pattern matches the value's bits.
pub proof fn lemma_match_iff_fixed_bits_in_width(plan: MatchPlan, p: Seq<char>, v: u128)
    requires
        plan.wf(),
        plan.matches_pattern(p),
        p.len() <= 128,
        (v as nat) < pow2(width_for(p.len())),
    ensures
        plan.spec_test(v) <==> fixed_bits_match(p, v as nat),
{
    lemma_small_mod(v as nat, pow2(plan.width as nat));
    lemma_match_iff_fixed_bits(plan, p, v);
}

/// LAW — determinism. Compiling one stripped pattern can only yield one plan:
/// any two well-formed plans for the same pattern are identical, the field
/// lists included.
pub proof fn lemma_compile_deterministic(a: MatchPlan, b: MatchPlan, p: Seq<char>)
    requires
        a.wf(),
        b.wf(),
        a.matches_pattern(p),
        b.matches_pattern(p),
    ensures
        a.width == b.width,
        a.mask == b.mask,
        a.expect == b.expect,
        a.fields@ == b.fields@,
{
    assert forall|k: int| 0 <= k < a.fields@.len() implies a.fields@[k] == b.fields@[k] by {
        assert(a.fields@[k].model() == b.fields@[k].model());
        assert(a.fields@[k].offset == b.fields@[k].offset);
        assert(a.fields@[k].width == b.fields@[k].width);
        assert(a.fields@[k].mask as nat == b.fields@[k].mask as nat);
    }
    assert(a.fields@ =~= b.fields@);
}

proof fn lemma_fields_upto_runs(p: Seq<char>, n: int)
    requires
        n <= p.len(),
    ensures
        forall|k: int|
            0 <= k < fields_upto(p, n).len() ==> field_covers_run(
                p,
                #[trigger] fields_upto(p, n)[k],
            ),
    decreases n,
{
    if n > 1 {
        lemma_fields_upto_runs(p, n - 1);
        if is_extractor(p[n - 2]) && p[n - 2] != p[n - 1] {
            let w = run_len_at(p, n - 2);
            lemma_run_chars(p, n - 2);
            let f = SpecField { offset: (p.len() - (n - 1)) as nat, width: w };
            assert(field_covers_run(p, f));
            assert(fields_upto(p, n) =~= fields_upto(p, n - 1).push(f));
        }
    }
}

/// LAW — every field is a maximal extractor run. Each extraction field of a
/// pattern covers a maximal run of one repeated extractor letter: adjacent
/// runs of different letters stay separate fields, and two runs of the same
/// letter separated by any other character stay separate fields.
pub proof fn lemma_fields_are_extractor_runs(p: Seq<char>)
    ensures
        forall|k: int|
            0 <= k < fields_spec(p).len() ==> field_covers_run(p, #[trigger] fields_spec(p)[k]),
{
    lemma_fields_upto_runs(p, p.len() as int);
    if p.len() > 0 && is_extractor(p.last()) {
        let w = run_len_at(p, p.len() - 1);
        lemma_run_chars(p, p.len() - 1);
        let f = SpecField { offset: 0, width: w };
        assert(field_covers_run(p, f));
        assert(fields_spec(p) =~= fields_upto(p, p.len() as int).push(f));
    }
}

proof fn lemma_fields_upto_ordered(p: Seq<char>, n: int)
    requires
        n <= p.len(),
    ensures
        forall|k: int|
            0 <= k < fields_upto(p, n).len() ==> p.len() - (#[trigger] fields_upto(p, n)[k]).offset
                <= n - 1,
        forall|k1: int, k2: int|
            0 <= k1 < k2 < fields_upto(p, n).len() ==> (#[trigger] fields_upto(p, n)[k1]).offset
                >= (#[trigger] fields_upto(p, n)[k2]).offset + fields_upto(p, n)[k2].width,
    decreases n,
{
    if n > 1 {
        lemma_fields_upto_ordered(p, n - 1);
        if is_extractor(p[n - 2]) && p[n - 2] != p[n - 1] {
            lemma_fields_upto_runs(p, n - 1);
            let old_fields = fields_upto(p, n - 1);
            let w = run_len_at(p, n - 2);
            lemma_run_chars(p, n - 2);
            let f = SpecField { offset: (p.len() - (n - 1)) as nat, width: w };
            assert forall|k: int| 0 <= k < old_fields.len() implies p.len() - (
            #[trigger] old_fields[k]).offset <= n - 1 - w by {
                let fk = old_fields[k];
                assert(field_covers_run(p, fk));
                let end_k = p.len() - fk.offset;
                let start_k = end_k - fk.width;
                if end_k > n - 1 - w {
                    assert(p[end_k - 1] == p[n - 2]);
                    assert(p[end_k] == p[n - 2]);
                    assert(p[end_k - 1] == p[start_k]);
                    assert(false);
                }
            }
            assert(fields_upto(p, n) =~= old_fields.push(f));
            assert forall|k: int| 0 <= k < fields_upto(p, n).len() implies p.len() - (
            #[trigger] fields_upto(p, n)[k]).offset <= n - 1 by {
                if k < old_fields.len() {
                    assert(fields_upto(p, n)[k] == old_fields[k]);
                } else {
                    assert(fields_upto(p, n)[k] == f);
                }
            }
            assert forall|k1: int, k2: int|
                0 <= k1 < k2 < fields_upto(p, n).len() implies (#[trigger] fields_upto(p, n)[k1]).offset
                >= (#[trigger] fields_upto(p, n)[k2]).offset + fields_upto(p, n)[k2].width by {
                assert(fields_upto(p, n)[k1] == old_fields[k1]);
                if k2 < old_fields.len() {
                    assert(fields_upto(p, n)[k2] == old_fields[k2]);
                } else {
                    assert(fields_upto(p, n)[k2] == f);
                    assert(p.len() - old_fields[k1].offset <= n - 1 - w);
                }
            }
        } else {
            assert(fields_upto(p, n) =~= fields_upto(p, n - 1));
        }
    }
}

/// LAW — field order. The extraction fields of a pattern stand in
/// left-to-right order of their runs and never overlap: each field lies
/// strictly above the next one in the list.
pub proof fn lemma_fields_ordered(p: Seq<char>)
    ensures
        forall|k1: int, k2: int|
            0 <= k1 < k2 < fields_spec(p).len() ==> (#[trigger] fields_spec(p)[k1]).offset >= (
            #[trigger] fields_spec(p)[k2]).offset + fields_spec(p)[k2].width,
{
    let n = p.len() as int;
    lemma_fields_upto_ordered(p, n);
    if p.len() > 0 && is_extractor(p.last()) {
        lemma_fields_upto_runs(p, n);
        let old_fields = fields_upto(p, n);
        let w = run_len_at(p, n - 1);
        lemma_run_chars(p, n - 1);
        let f = SpecField { offset: 0, width: w };
        assert forall|k: int| 0 <= k < old_fields.len() implies (#[trigger] old_fields[k]).offset
            >= f.offset + f.width by {
            let fk = old_fields[k];
            assert(field_covers_run(p, fk));
            let end_k = p.len() - fk.offset;
            let start_k = end_k - fk.width;
            if end_k > n - w {
                assert(p[end_k - 1] == p[n - 1]);
                assert(p[end_k] == p[n - 1]);
                assert(p[end_k - 1] == p[start_k]);
                assert(false);
            }
        }
        assert(fields_spec(p) =~= old_fields.push(f));
    }
}

/// LAW — whitespace invariance. Two pattern strings that agree once spaces
/// are removed compile to identical plans.
pub proof fn lemma_whitespace_invariance(a: MatchPlan, b: MatchPlan, p1: Seq<char>, p2: Seq<char>)
    requires
        a.wf(),
        b.wf(),
        stripped_of(p1) == stripped_of(p2),
        a.matches_pattern(stripped_of(p1)),
        b.matches_pattern(stripped_of(p2)),
    ensures
        a.width == b.width,
        a.mask == b.mask,
        a.expect == b.expect,
        a.fields@ == b.fields@,
{
    lemma_compile_deterministic(a, b, stripped_of(p1));
}

} // verus!
