//! Bit-field extraction from a 16-bit instruction word.
//!
//! An instruction is conventionally described by its four nibbles: the low
//! 12 bits form an address operand, bits 8..12 and 4..8 name registers, and
//! the low byte or low nibble carry immediates.
use vstd::prelude::*;

verus! {

/// The 12-bit address operand (`nnn`) of an instruction word.
pub open spec fn nnn_of(value: u16) -> u16 {
    value & 0xFFF
}

/// The first register index (`x`, bits 8..12) of an instruction word.
pub open spec fn x_of(value: u16) -> u8 {
    ((value & 0x0F00) >> 8) as u8
}

/// The second register index (`y`, bits 4..8) of an instruction word.
pub open spec fn y_of(value: u16) -> u8 {
    ((value & 0x00F0) >> 4) as u8
}

/// The 4-bit immediate (`n`, the lowest nibble) of an instruction word.
pub open spec fn n_of(value: u16) -> u8 {
    (value & 0x000F) as u8
}

/// The 8-bit immediate (`kk`, the low byte) of an instruction word.
pub open spec fn kk_of(value: u16) -> u8 {
    (value & 0x00FF) as u8
}

/// The operand fields are in range for their bit widths, whatever the word.
pub proof fn lemma_operand_ranges(value: u16)
    ensures
        nnn_of(value) < 0x1000,
        x_of(value) < 16,
        y_of(value) < 16,
        n_of(value) < 16,
{
    assert(value & 0xFFF < 0x1000) by (bit_vector);
    assert((value & 0x0F00) >> 8 < 16) by (bit_vector);
    assert((value & 0x00F0) >> 4 < 16) by (bit_vector);
    assert(value & 0x000F < 16) by (bit_vector);
}

pub fn get_low_12_bits(value: u16) -> (r: u16)
    ensures
        r == nnn_of(value),
        r < 0x1000,
{
    proof {
        lemma_operand_ranges(value);
    }
    value & 0xFFF
}

pub fn get_low_4_bits_of_high_byte(value: u16) -> (r: u8)
    ensures
        r == x_of(value),
        r < 16,
{
    proof {
        lemma_operand_ranges(value);
    }
    ((value & 0x0F00) >> 8) as u8
}

pub fn get_high_4_bits_of_low_byte(value: u16) -> (r: u8)
    ensures
        r == y_of(value),
        r < 16,
{
    proof {
        lemma_operand_ranges(value);
    }
    ((value & 0x00F0) >> 4) as u8
}

pub fn get_lowest_4_bits(value: u16) -> (r: u8)
    ensures
        r == n_of(value),
        r < 16,
{
    proof {
        lemma_operand_ranges(value);
    }
    (value & 0x000F) as u8
}

pub fn get_low_byte(value: u16) -> (r: u8)
    ensures
        r == kk_of(value),
{
    (value & 0x00FF) as u8
}

} // verus!
