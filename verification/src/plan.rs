//! The compiled form of a pattern: a match plan holding the bit mask, the
//! expected bits, and the ordered extraction fields.

use vstd::prelude::*;

verus! {

use vstd::arithmetic::power2::pow2;
use vstd::bits::low_bits_mask;
use crate::pattern::{SpecField, mask_spec, expect_spec, fields_spec, width_for};

/// Why a pattern string is rejected.
#[derive(Clone, Copy, PartialEq, Eq, Structural, Debug)]
pub enum PatternError {
    /// The stripped pattern has no characters.
    Empty,
    /// The stripped pattern has more than 128 characters.
    TooLong,
}

/// One extraction field of a compiled plan: the value's bits
/// `offset .. offset + width`, counted from bit 0.
#[derive(Clone, Copy, PartialEq, Eq, Structural, Debug)]
pub struct Field {
    /// Distance of the field's least significant bit from bit 0.
    pub offset: u32,
    /// Number of bits the field covers.
    pub width: u32,
    /// The low `width` bits set: applied after shifting by `offset`.
    pub mask: u128,
}

/// A compiled pattern: the fixed-bit test and the ordered extraction fields.
#[derive(Clone, Debug, PartialEq)]
pub struct MatchPlan {
    /// The integer width the pattern selects: 8, 16, 32, 64 or 128.
    pub width: u32,
    /// Bits set wherever the pattern fixes a bit to 0 or 1.
    pub mask: u128,
    /// Bits set wherever the pattern fixes a bit to 1.
    pub expect: u128,
    /// The extraction fields, in the order their runs appear from the left.
    pub fields: Vec<Field>,
}

impl Field {
    /// The mathematical field this executable field stands for.
    pub open spec fn model(self) -> SpecField {
        SpecField { offset: self.offset as nat, width: self.width as nat }
    }

    /// The field is internally consistent and lies inside the given width.
    pub open spec fn wf(self, width: nat) -> bool {
        &&& 1 <= self.width
        &&& self.offset + self.width <= width
        &&& self.mask as nat == low_bits_mask(self.width as nat)
    }
}

impl MatchPlan {
    /// The plan is internally consistent: a supported width, and every field
    /// lies inside it.
    pub open spec fn wf(self) -> bool {
        &&& (self.width == 8 || self.width == 16 || self.width == 32 || self.width == 64
            || self.width == 128)
        &&& forall|k: int|
            0 <= k < self.fields@.len() ==> (#[trigger] self.fields@[k]).wf(self.width as nat)
    }

    /// The plan is the compiled form of the stripped pattern `p`.
    pub open spec fn matches_pattern(self, p: Seq<char>) -> bool {
        &&& self.width as nat == width_for(p.len())
        &&& self.mask as nat == mask_spec(p)
        &&& self.expect as nat == expect_spec(p)
        &&& self.fields@.len() == fields_spec(p).len()
        &&& forall|k: int|
            0 <= k < self.fields@.len() ==> (#[trigger] self.fields@[k]).model() == fields_spec(
                p,
            )[k]
    }

    /// The given value truncated to the plan's width, as the generated
    /// expression coerces it before masking.
    pub open spec fn spec_trunc(self, v: u128) -> nat {
        v as nat % pow2(self.width as nat)
    }

    /// The fixed-bit test the plan performs on a value.
    pub open spec fn spec_test(self, v: u128) -> bool {
        (self.spec_trunc(v) as u128) & self.mask == self.expect
    }
}

} // verus!
