//! Cutting a text so that it fits a byte budget without splitting a scalar.
use crate::encoding::starts_well_formed_utf8_sequence;
use crate::utf8_facts::{lemma_boundary_within_four, lemma_first_byte_starts_scalar};
use vstd::prelude::*;
use vstd::string::StringSliceAdditionalSpecFns;
use vstd::utf8::*;

verus! {

/// The cut point that a walk back from `limit` stops at: `limit` itself where
/// it lies at or behind the end of `bytes` or on a byte that starts a scalar,
/// else the nearest such byte before it.
pub open spec fn floor_boundary(bytes: Seq<u8>, limit: int) -> int
    decreases limit,
{
    if limit <= 0 {
        0
    } else if limit >= bytes.len() {
        bytes.len() as int
    } else if !is_continuation_byte(bytes[limit]) {
        limit
    } else {
        floor_boundary(bytes, limit - 1)
    }
}

/// In a well-formed byte string `floor_boundary` is the last character
/// boundary that is not behind `limit`, and it lies less than four bytes
/// before a `limit` inside the string.
pub proof fn lemma_floor_boundary(bytes: Seq<u8>, limit: int)
    requires
        valid_utf8(bytes),
        0 <= limit,
    ensures
        0 <= floor_boundary(bytes, limit) <= limit,
        floor_boundary(bytes, limit) <= bytes.len(),
        is_char_boundary(bytes, floor_boundary(bytes, limit)),
        forall|j: int|
            floor_boundary(bytes, limit) < j <= limit ==> !is_char_boundary(bytes, j),
        limit <= bytes.len() ==> limit - floor_boundary(bytes, limit) <= 3,
    decreases limit,
{
    let cut = floor_boundary(bytes, limit);
    if limit <= 0 {
    } else if limit >= bytes.len() {
        is_char_boundary_start_end_of_seq(bytes);
    } else if !is_continuation_byte(bytes[limit]) {
        is_char_boundary_iff_not_is_continuation_byte(bytes, limit);
    } else {
        lemma_floor_boundary(bytes, limit - 1);
        is_char_boundary_iff_not_is_continuation_byte(bytes, limit);
        if limit - cut > 3 {
            assert forall|k: int| cut + 1 <= k <= cut + 4 implies is_continuation_byte(
                #[trigger] bytes[k],
            ) by {
                is_char_boundary_iff_not_is_continuation_byte(bytes, k);
            }
            lemma_boundary_within_four(bytes, cut + 1);
        }
    }
}

/// The longest front of `text` that takes at most `limit` bytes and ends
/// between two scalars, as a number of bytes.
pub fn trim_to_boundary(text: &str, limit: usize) -> (cut: usize)
    ensures
        cut == floor_boundary(text.spec_bytes(), limit as int),
        cut <= limit,
        cut <= text.spec_bytes().len(),
        is_char_boundary(text.spec_bytes(), cut as int),
        forall|j: int| cut < j <= limit ==> !is_char_boundary(text.spec_bytes(), j),
        limit <= text.spec_bytes().len() ==> limit - cut <= 3,
{
    let bytes = text.as_bytes();
    proof {
        encode_utf8_valid_utf8(text@);
        lemma_floor_boundary(bytes@, limit as int);
    }
    if limit >= bytes.len() {
        return bytes.len();
    }
    let mut i: usize = limit;
    while !starts_well_formed_utf8_sequence(bytes[i])
        invariant
            valid_utf8(bytes@),
            i <= limit < bytes@.len(),
            floor_boundary(bytes@, limit as int) == floor_boundary(bytes@, i as int),
        decreases i,
    {
        proof {
            lemma_first_byte_starts_scalar(bytes@);
        }
        i -= 1;
    }
    i
}

} // verus!
