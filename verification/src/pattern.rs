//! The mathematical model of a bit pattern.
//!
//! A pattern is a sequence of characters, leftmost character first, where the
//! leftmost character describes the most significant bit of the value under
//! test. `'0'` and `'1'` are fixed bits, `'_'` is a don't-care bit, and every
//! other character is an extractor label: a maximal run of adjacent identical
//! extractor characters forms one extraction field.

use vstd::prelude::*;

verus! {

use vstd::arithmetic::power2::{pow2, lemma_pow2_unfold, lemma2_to64};

/// A fixed bit: the value's bit at this position must equal the character.
pub open spec fn is_fixed_char(c: char) -> bool {
    c == '0' || c == '1'
}

/// A don't-care bit: never checked, never extracted.
pub open spec fn is_dont_care(c: char) -> bool {
    c == '_'
}

/// An extractor label: any character that is neither a fixed bit nor `'_'`.
pub open spec fn is_extractor(c: char) -> bool {
    !is_fixed_char(c) && !is_dont_care(c)
}

/// The pattern with every space removed; only what remains is compiled.
pub open spec fn stripped_of(p: Seq<char>) -> Seq<char>
    decreases p.len(),
{
    if p.len() == 0 {
        Seq::empty()
    } else if p.last() == ' ' {
        stripped_of(p.drop_last())
    } else {
        stripped_of(p.drop_last()).push(p.last())
    }
}

/// The bit mask of a stripped pattern: bit `len - 1 - j` is set exactly when
/// character `j` is a fixed bit.
pub open spec fn mask_spec(p: Seq<char>) -> nat
    decreases p.len(),
{
    if p.len() == 0 {
        0
    } else {
        2 * mask_spec(p.drop_last()) + (if is_fixed_char(p.last()) {
            1nat
        } else {
            0nat
        })
    }
}

/// The expected bits of a stripped pattern: bit `len - 1 - j` is set exactly
/// when character `j` is `'1'`.
pub open spec fn expect_spec(p: Seq<char>) -> nat
    decreases p.len(),
{
    if p.len() == 0 {
        0
    } else {
        2 * expect_spec(p.drop_last()) + (if p.last() == '1' {
            1nat
        } else {
            0nat
        })
    }
}

/// The length of the maximal run of identical characters that ends at index
/// `i` (inclusive). Only meaningful for `0 <= i < p.len()`.
pub open spec fn run_len_at(p: Seq<char>, i: int) -> nat
    decreases i,
{
    if i <= 0 {
        1
    } else if p[i] == p[i - 1] {
        run_len_at(p, i - 1) + 1
    } else {
        1
    }
}

/// One extraction field: the value's bits `offset .. offset + width`, counted
/// from bit 0, make up the extracted sub-value.
pub struct SpecField {
    pub offset: nat,
    pub width: nat,
}

/// The fields whose runs are closed while scanning the first `n` characters:
/// a run is closed at index `i` when the character before `i` is an extractor
/// label different from the character at `i`.
pub open spec fn fields_upto(p: Seq<char>, n: int) -> Seq<SpecField>
    decreases n,
{
    if n <= 1 {
        Seq::empty()
    } else {
        let closed = fields_upto(p, n - 1);
        if is_extractor(p[n - 2]) && p[n - 2] != p[n - 1] {
            closed.push(
                SpecField {
                    offset: (p.len() - (n - 1)) as nat,
                    width: run_len_at(p, n - 2),
                },
            )
        } else {
            closed
        }
    }
}

/// All extraction fields of a stripped pattern, in the order their runs are
/// closed while scanning left to right; a trailing extractor run is closed
/// last, at offset 0.
pub open spec fn fields_spec(p: Seq<char>) -> Seq<SpecField> {
    let scanned = fields_upto(p, p.len() as int);
    if p.len() > 0 && is_extractor(p.last()) {
        scanned.push(SpecField { offset: 0, width: run_len_at(p, p.len() - 1) })
    } else {
        scanned
    }
}

/// The integer width selected for a stripped pattern of the given length:
/// the smallest of 8, 16, 32, 64, 128 that the length fits in.
pub open spec fn width_for(len: nat) -> nat {
    if len <= 8 {
        8nat
    } else if len <= 16 {
        16nat
    } else if len <= 32 {
        32nat
    } else if len <= 64 {
        64nat
    } else {
        128nat
    }
}

/// Bit `k` of a value, counted from the least significant end.
pub open spec fn bit_of(v: nat, k: nat) -> nat {
    (v / pow2(k)) % 2
}

/// The test that the generated expression performs, stated over the pattern
/// itself: every fixed position of the pattern agrees with the corresponding
/// bit of the value. Don't-care and extractor positions put no constraint on
/// the value.
pub open spec fn fixed_bits_match(p: Seq<char>, v: nat) -> bool {
    forall|j: int|
        0 <= j < p.len() && is_fixed_char(#[trigger] p[j]) ==> bit_of(
            v,
            (p.len() - 1 - j) as nat,
        ) == (if p[j] == '1' {
            1nat
        } else {
            0nat
        })
}

/// The sub-value one field extracts from a (truncated) value: the `width`
/// bits starting `offset` bits above the least significant end.
pub open spec fn field_value_of(f: SpecField, v: nat) -> nat {
    (v / pow2(f.offset)) % pow2(f.width)
}

/// The mask and the expected bits of a pattern lie below 2^len.
pub proof fn lemma_mask_expect_bound(p: Seq<char>)
    ensures
        mask_spec(p) < pow2(p.len()),
        expect_spec(p) < pow2(p.len()),
    decreases p.len(),
{
    if p.len() == 0 {
        lemma2_to64();
    } else {
        lemma_mask_expect_bound(p.drop_last());
        lemma_pow2_unfold(p.len());
    }
}

/// A run of identical characters ending at index `i` is no longer than
/// `i + 1` characters.
pub proof fn lemma_run_len_at_bound(p: Seq<char>, i: int)
    requires
        0 <= i,
    ensures
        1 <= run_len_at(p, i) <= i + 1,
    decreases i,
{
    if i > 0 && p[i] == p[i - 1] {
        lemma_run_len_at_bound(p, i - 1);
    }
}

/// The field `f` covers a maximal run of one repeated extractor letter: the
/// pattern characters under the field are identical extractor characters, and
/// the characters on either side of the run, where they exist, differ from
/// the run's character.
pub open spec fn field_covers_run(p: Seq<char>, f: SpecField) -> bool {
    let end = p.len() - f.offset;
    let start = end - f.width;
    &&& 1 <= f.width
    &&& f.offset + f.width <= p.len()
    &&& is_extractor(p[start])
    &&& (forall|t: int| start <= t < end ==> p[t] == p[start])
    &&& (start > 0 ==> p[start - 1] != p[start])
    &&& (end < p.len() ==> p[end] != p[start])
}

/// The run of identical characters ending at index `i` consists of characters
/// equal to `p[i]`, and the character just before the run, where one exists,
/// differs from them.
pub proof fn lemma_run_chars(p: Seq<char>, i: int)
    requires
        0 <= i < p.len(),
    ensures
        1 <= run_len_at(p, i) <= i + 1,
        forall|t: int| i + 1 - run_len_at(p, i) <= t <= i ==> p[t] == p[i],
        i + 1 - run_len_at(p, i) > 0 ==> p[i - run_len_at(p, i)] != p[i + 1 - run_len_at(p, i)],
    decreases i,
{
    if i > 0 && p[i] == p[i - 1] {
        lemma_run_chars(p, i - 1);
    }
}

} // verus!
