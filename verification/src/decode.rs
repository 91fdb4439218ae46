//! Instruction decoding: a 16-bit big-endian instruction word is split into
//! four 4-bit nibbles and the three conventional operand views (12-bit
//! address, 8-bit immediate, 4-bit count).

use vstd::prelude::*;

verus! {

/// The four 4-bit fields of an instruction word, high nibble first.
pub type Nibbles = (usize, usize, usize, usize);

/// Highest 4 bits of an instruction word.
pub open spec fn op_nib1(op: u16) -> u16 {
    (op & 0xF000) >> 12
}

/// Second-highest 4 bits; conventionally the register index `x`.
pub open spec fn op_nib2(op: u16) -> u16 {
    (op & 0x0F00) >> 8
}

/// Third 4 bits; conventionally the register index `y`.
pub open spec fn op_nib3(op: u16) -> u16 {
    (op & 0x00F0) >> 4
}

/// Lowest 4 bits; conventionally the count operand `n`.
pub open spec fn op_nib4(op: u16) -> u16 {
    op & 0x000F
}

/// The 12-bit address operand `nnn` (low 12 bits).
pub open spec fn op_addr(op: u16) -> u16 {
    op & 0x0FFF
}

/// The 8-bit immediate operand `kk` (low byte).
pub open spec fn op_byte(op: u16) -> u8 {
    (op & 0x00FF) as u8
}

/// Every nibble is below 16 and the address operand is below 4096.
pub proof fn lemma_operand_bounds(op: u16)
    ensures
        op_nib1(op) < 16,
        op_nib2(op) < 16,
        op_nib3(op) < 16,
        op_nib4(op) < 16,
        op_addr(op) < 4096,
{
    assert((op & 0xF000) >> 12 < 16 && (op & 0x0F00) >> 8 < 16 && (op & 0x00F0) >> 4 < 16
        && (op & 0x000F) < 16 && (op & 0x0FFF) < 4096) by (bit_vector);
}

/// Split an instruction word into its four 4-bit fields, high nibble first.
pub fn decode(opcode: u16) -> (r: Nibbles)
    ensures
        r.0 == op_nib1(opcode) as usize,
        r.1 == op_nib2(opcode) as usize,
        r.2 == op_nib3(opcode) as usize,
        r.3 == op_nib4(opcode) as usize,
        r.0 < 16,
        r.1 < 16,
        r.2 < 16,
        r.3 < 16,
{
    proof {
        lemma_operand_bounds(opcode);
    }
    let nibble_1 = ((opcode & 0xF000) >> 12) as usize;
    let nibble_2 = ((opcode & 0x0F00) >> 8) as usize;
    let nibble_3 = ((opcode & 0x00F0) >> 4) as usize;
    let nibble_4 = (opcode & 0x000F) as usize;

    (nibble_1, nibble_2, nibble_3, nibble_4)
}

} // verus!
