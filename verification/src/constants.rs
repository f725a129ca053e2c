//! Fixed encoding tables of the 8086 subset: register names, the
//! effective-address base expressions selected by the `rm` field, and the
//! little-endian byte/word reader shared by all family decoders.

use vstd::prelude::*;

verus! {

/// The canonical register name selected by a 3-bit register value and the
/// word flag, as a sequence of characters. The sixteen names, indexed by
/// `2 * reg + word`, are:
/// `al, ax, cl, cx, dl, dx, bl, bx, ah, sp, ch, bp, dh, si, bh, di`.
pub open spec fn spec_register_name(reg: int, word: bool) -> Seq<char> {
    if reg == 0 {
        if word { "ax"@ } else { "al"@ }
    } else if reg == 1 {
        if word { "cx"@ } else { "cl"@ }
    } else if reg == 2 {
        if word { "dx"@ } else { "dl"@ }
    } else if reg == 3 {
        if word { "bx"@ } else { "bl"@ }
    } else if reg == 4 {
        if word { "sp"@ } else { "ah"@ }
    } else if reg == 5 {
        if word { "bp"@ } else { "ch"@ }
    } else if reg == 6 {
        if word { "si"@ } else { "dh"@ }
    } else {
        if word { "di"@ } else { "bh"@ }
    }
}

/// Looks up the register name for a 3-bit register value and the word flag.
pub fn get_register_name(reg_val: u8, word: bool) -> (r: &'static str)
    requires
        reg_val < 8,
    ensures
        r@ == spec_register_name(reg_val as int, word),
{
    match reg_val {
        0 => if word { "ax" } else { "al" },
        1 => if word { "cx" } else { "cl" },
        2 => if word { "dx" } else { "dl" },
        3 => if word { "bx" } else { "bl" },
        4 => if word { "sp" } else { "ah" },
        5 => if word { "bp" } else { "ch" },
        6 => if word { "si" } else { "dh" },
        _ => if word { "di" } else { "bh" },
    }
}

/// The effective-address base expression selected by the `rm` field when the
/// ModR/M byte names a memory operand: `bx + si, bx + di, bp + si, bp + di,
/// si, di, bp, bx`, indexed by `rm`.
pub open spec fn spec_mem_base(rm: int) -> Seq<char> {
    if rm == 0 {
        "bx + si"@
    } else if rm == 1 {
        "bx + di"@
    } else if rm == 2 {
        "bp + si"@
    } else if rm == 3 {
        "bp + di"@
    } else if rm == 4 {
        "si"@
    } else if rm == 5 {
        "di"@
    } else if rm == 6 {
        "bp"@
    } else {
        "bx"@
    }
}

/// Looks up the effective-address base expression for a 3-bit `rm` value.
pub fn get_mem_base(rm: u8) -> (r: &'static str)
    requires
        rm < 8,
    ensures
        r@ == spec_mem_base(rm as int),
{
    match rm {
        0 => "bx + si",
        1 => "bx + di",
        2 => "bp + si",
        3 => "bp + di",
        4 => "si",
        5 => "di",
        6 => "bp",
        _ => "bx",
    }
}

/// The unsigned 16-bit value encoded by two bytes in little-endian order.
pub open spec fn spec_word_value(lo: u8, hi: u8) -> int {
    lo + 256 * hi
}

/// The value read by `get_byte_or_word` at position `offset + consumed`:
/// one byte when `word` is false, a little-endian word when it is true.
pub open spec fn spec_byte_or_word(b: Seq<u8>, pos: int, word: bool) -> int {
    if word {
        spec_word_value(b[pos], b[pos + 1])
    } else {
        b[pos] as int
    }
}

pub type NumBytesInInstruction = usize;

/// Reads one byte, or a little-endian word, at the current position of an
/// instruction and advances `num_bytes_in_instruction` by one or two
/// accordingly.
pub fn get_byte_or_word(
    instructions: &[u8],
    offset: usize,
    num_bytes_in_instruction: &mut usize,
    word: bool,
) -> (value: u16)
    requires
        offset + *old(num_bytes_in_instruction) + (if word { 2int } else { 1int })
            <= instructions@.len(),
    ensures
        *final(num_bytes_in_instruction) == *old(num_bytes_in_instruction)
            + (if word { 2int } else { 1int }),
        value == spec_byte_or_word(
            instructions@,
            offset + *old(num_bytes_in_instruction),
            word,
        ),
{
    let total_len = instructions.len();
    let first_byte_from_offset = instructions[offset + *num_bytes_in_instruction];
    *num_bytes_in_instruction += 1;

    let value: u16 = if word {
        let second_byte_from_offset = instructions[offset + *num_bytes_in_instruction];
        *num_bytes_in_instruction += 1;
        first_byte_from_offset as u16 + 256 * (second_byte_from_offset as u16)
    } else {
        first_byte_from_offset as u16
    };

    value
}

} // verus!
