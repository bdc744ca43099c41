//! Bit fields of a 32-bit word.
//!
//! Every layout of the instruction set is a few fields laid side by side from
//! the top of the word down. A field is named here by the position of its
//! lowest bit and by its width, so that the layouts can be read off the
//! encoders and decoders directly.

use vstd::prelude::*;

verus! {

/// The mask that keeps the low `width` bits.
pub open spec fn low_mask(width: u32) -> u32 {
    if width >= 32 {
        0xffff_ffffu32
    } else {
        ((1u32 << width) - 1) as u32
    }
}

/// The field of `width` bits whose lowest bit is bit `low` of `word`.
pub open spec fn field(word: u32, low: u32, width: u32) -> u32 {
    (word >> low) & low_mask(width)
}

/// `value`, cut to `width` bits and moved up so that its lowest bit is bit `low`.
pub open spec fn place(value: u32, low: u32, width: u32) -> u32 {
    (value & low_mask(width)) << low
}

/// Computes the mask that keeps the low `width` bits.
pub fn mask(width: u32) -> (r: u32)
    requires
        1 <= width <= 32,
    ensures
        r == low_mask(width),
{
    if width >= 32 {
        0xffff_ffffu32
    } else {
        assert((1u32 << width) >= 1) by (bit_vector)
            requires
                width < 32,
        ;
        (1u32 << width) - 1
    }
}

/// Reads a field out of a word.
pub fn get_field(word: u32, low: u32, width: u32) -> (r: u32)
    requires
        low < 32,
        1 <= width <= 32,
    ensures
        r == field(word, low, width),
{
    (word >> low) & mask(width)
}

/// Moves a value into the position of a field, dropping the bits that do not fit.
pub fn put_field(value: u32, low: u32, width: u32) -> (r: u32)
    requires
        low < 32,
        1 <= width <= 32,
    ensures
        r == place(value, low, width),
{
    (value & mask(width)) << low
}

} // verus!
