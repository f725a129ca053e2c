//! The mathematical model of the decoder: spec functions that say, byte for
//! byte, which instruction stands at an offset of the stream, what its
//! rendered line is, how many bytes it occupies, and how the label table
//! evolves. The exec decoders in `decoder` are proved to match this model.

use vstd::prelude::*;

use crate::constants::{spec_byte_or_word, spec_mem_base, spec_register_name, spec_word_value};
use crate::error::DecodeError;
use crate::render::{dec_int, dec_nat};

verus! {

/// The value of a byte read as a signed 8-bit quantity.
pub open spec fn as_i8(v: u8) -> int {
    if v < 0x80 {
        v as int
    } else {
        v - 0x100
    }
}

/// The value of an unsigned 16-bit quantity read as signed.
pub open spec fn as_i16(v: int) -> int {
    if v < 0x8000 {
        v
    } else {
        v - 0x10000
    }
}

/// One decoded instruction, before labels are considered: the number of
/// bytes it occupies and its rendered line.
pub struct SpecText {
    pub len: int,
    pub text: Seq<char>,
}

/// One decoding step: the bytes consumed, the rendered line, and the label
/// table after the step (only a conditional jump ever extends it).
pub struct SpecStep {
    pub len: int,
    pub text: Seq<char>,
    pub labels: Seq<int>,
}

/// One record of the driver: the offset at which an instruction began, its
/// byte count, and its rendered line.
pub struct SpecRec {
    pub offset: int,
    pub len: int,
    pub text: Seq<char>,
}

/// The effective-address expression selected by `(mode, rm)`, reading any
/// direct address or displacement at byte position `pos`. `len` counts only
/// those extra bytes. Truncation errors carry `err_off`, the offset of the
/// instruction being decoded.
pub open spec fn spec_ea(b: Seq<u8>, pos: int, err_off: int, mode: int, rm: int) -> Result<
    SpecText,
    DecodeError,
> {
    if mode == 0 && rm == 6 {
        if pos + 2 > b.len() {
            Err(DecodeError::Truncated { offset: err_off as usize })
        } else {
            Ok(
                SpecText {
                    len: 2,
                    text: dec_int(as_i16(spec_word_value(b[pos], b[pos + 1]))),
                },
            )
        }
    } else if mode == 0 {
        Ok(SpecText { len: 0, text: spec_mem_base(rm) })
    } else {
        let n: int = if mode == 2 {
            2
        } else {
            1
        };
        if pos + n > b.len() {
            Err(DecodeError::Truncated { offset: err_off as usize })
        } else {
            let disp: int = if mode == 2 {
                as_i16(spec_word_value(b[pos], b[pos + 1]))
            } else {
                as_i8(b[pos])
            };
            Ok(
                SpecText {
                    len: n,
                    text: if disp == 0 {
                        spec_mem_base(rm)
                    } else {
                        spec_mem_base(rm) + " + "@ + dec_int(disp)
                    },
                },
            )
        }
    }
}

/// An immediate-to-memory form: the effective address read at `off + 2`,
/// then a 1- or 2-byte immediate, rendered with the `word`/`byte` size
/// keyword chosen by `word`. `len` is the whole instruction's byte count.
pub open spec fn spec_imm_to_mem(
    mn: Seq<char>,
    b: Seq<u8>,
    off: int,
    mode: int,
    rm: int,
    word: bool,
    is_data_16bit: bool,
) -> Result<SpecText, DecodeError> {
    match spec_ea(b, off + 2, off, mode, rm) {
        Err(e) => Err(e),
        Ok(ea) => {
            let ipos = off + 2 + ea.len;
            let n: int = if is_data_16bit {
                2
            } else {
                1
            };
            if ipos + n > b.len() {
                Err(DecodeError::Truncated { offset: off as usize })
            } else {
                let imm = spec_byte_or_word(b, ipos, is_data_16bit);
                Ok(
                    SpecText {
                        len: 2 + ea.len + n,
                        text: mn + " ["@ + ea.text + "], "@ + (if word {
                            "word "@
                        } else {
                            "byte "@
                        }) + dec_nat(imm as nat) + "\n"@,
                    },
                )
            }
        },
    }
}

/// A register/memory-to/from-register form: ModR/M decoding, the direction
/// bit choosing which operand is the destination.
pub open spec fn spec_rm2rm(mn: Seq<char>, b: Seq<u8>, off: int) -> Result<
    SpecText,
    DecodeError,
> {
    if off + 2 > b.len() {
        Err(DecodeError::Truncated { offset: off as usize })
    } else {
        let first = b[off];
        let second = b[off + 1];
        let direction = (first & 0b00000010) > 0;
        let word = (first & 0b00000001) > 0;
        let mode = (second >> 6) as int;
        let reg = ((second >> 3) & 0b111) as int;
        let rm = (second & 0b111) as int;
        if mode == 3 {
            let dest: int = if direction {
                reg
            } else {
                rm
            };
            let src: int = if direction {
                rm
            } else {
                reg
            };
            Ok(
                SpecText {
                    len: 2,
                    text: mn + " "@ + spec_register_name(dest, word) + ", "@ + spec_register_name(
                        src,
                        word,
                    ) + "\n"@,
                },
            )
        } else {
            match spec_ea(b, off + 2, off, mode, rm) {
                Err(e) => Err(e),
                Ok(ea) => Ok(
                    SpecText {
                        len: 2 + ea.len,
                        text: if direction {
                            mn + " "@ + spec_register_name(reg, word) + ", ["@ + ea.text + "]\n"@
                        } else {
                            mn + " ["@ + ea.text + "], "@ + spec_register_name(reg, word) + "\n"@
                        },
                    },
                ),
            }
        }
    }
}

/// The MOV family: register/memory with register, immediate to register,
/// immediate to memory, and accumulator with memory.
pub open spec fn spec_decode_mov(b: Seq<u8>, off: int) -> Result<SpecText, DecodeError> {
    if off >= b.len() {
        Err(DecodeError::Truncated { offset: off as usize })
    } else {
        let first = b[off];
        if first >> 2 == 0b100010 {
            spec_rm2rm("mov"@, b, off)
        } else if first >> 4 == 0b1011 {
            let word = (first & 0b00001000) > 0;
            let reg = (first & 0b00000111) as int;
            let n: int = if word {
                2
            } else {
                1
            };
            if off + 1 + n > b.len() {
                Err(DecodeError::Truncated { offset: off as usize })
            } else {
                let imm = spec_byte_or_word(b, off + 1, word);
                Ok(
                    SpecText {
                        len: 1 + n,
                        text: "mov "@ + spec_register_name(reg, word) + ", "@ + dec_nat(
                            imm as nat,
                        ) + "\n"@,
                    },
                )
            }
        } else if first >> 1 == 0b1100011 {
            if off + 2 > b.len() {
                Err(DecodeError::Truncated { offset: off as usize })
            } else {
                let second = b[off + 1];
                if (second >> 3) & 0b111 == 0 {
                    let word = (first & 0b00000001) > 0;
                    spec_imm_to_mem(
                        "mov"@,
                        b,
                        off,
                        (second >> 6) as int,
                        (second & 0b111) as int,
                        word,
                        word,
                    )
                } else {
                    Err(DecodeError::UnknownOpcode { offset: off as usize })
                }
            }
        } else if first >> 2 == 0b101000 {
            let acc_to_mem = (first & 0b00000010) > 0;
            let word = (first & 0b00000001) > 0;
            if off + 3 > b.len() {
                Err(DecodeError::Truncated { offset: off as usize })
            } else {
                let addr = as_i16(spec_word_value(b[off + 1], b[off + 2]));
                Ok(
                    SpecText {
                        len: 3,
                        text: if acc_to_mem {
                            "mov ["@ + dec_int(addr) + "], "@ + spec_register_name(0, word)
                                + "\n"@
                        } else {
                            "mov "@ + spec_register_name(0, word) + ", ["@ + dec_int(addr)
                                + "]\n"@
                        },
                    },
                )
            }
        } else {
            Err(DecodeError::UnknownOpcode { offset: off as usize })
        }
    }
}

/// The shared shape of the ADD, SUB and CMP families, parameterized by the
/// mnemonic, the 6-bit register/memory opcode, the 7-bit
/// immediate-to-accumulator opcode, and the group `reg` value that selects
/// the family within the shared immediate-to-register/memory opcode.
pub open spec fn spec_decode_arith(
    mn: Seq<char>,
    rm_opcode: u8,
    imm_rm_opcode: u8,
    acc_opcode: u8,
    group_reg: u8,
    b: Seq<u8>,
    off: int,
) -> Result<SpecText, DecodeError> {
    if off >= b.len() {
        Err(DecodeError::Truncated { offset: off as usize })
    } else {
        let first = b[off];
        if first >> 2 == rm_opcode {
            spec_rm2rm(mn, b, off)
        } else if first >> 2 == imm_rm_opcode {
            if off + 2 > b.len() {
                Err(DecodeError::Truncated { offset: off as usize })
            } else {
                let second = b[off + 1];
                if (second >> 3) & 0b111 == group_reg {
                    let sign = (first & 0b00000010) > 0;
                    let word = (first & 0b00000001) > 0;
                    let mode = (second >> 6) as int;
                    let rm = (second & 0b111) as int;
                    let is_data_16bit = !sign && word;
                    if mode == 3 {
                        let n: int = if is_data_16bit {
                            2
                        } else {
                            1
                        };
                        if off + 2 + n > b.len() {
                            Err(DecodeError::Truncated { offset: off as usize })
                        } else {
                            let imm = spec_byte_or_word(b, off + 2, is_data_16bit);
                            Ok(
                                SpecText {
                                    len: 2 + n,
                                    text: mn + " "@ + spec_register_name(rm, word) + ", "@
                                        + dec_nat(imm as nat) + "\n"@,
                                },
                            )
                        }
                    } else {
                        spec_imm_to_mem(mn, b, off, mode, rm, word, is_data_16bit)
                    }
                } else {
                    Err(DecodeError::UnknownOpcode { offset: off as usize })
                }
            }
        } else if first >> 1 == acc_opcode {
            let word = (first & 0b00000001) > 0;
            let n: int = if word {
                2
            } else {
                1
            };
            if off + 1 + n > b.len() {
                Err(DecodeError::Truncated { offset: off as usize })
            } else {
                let imm = spec_byte_or_word(b, off + 1, word);
                Ok(
                    SpecText {
                        len: 1 + n,
                        text: mn + " "@ + spec_register_name(0, word) + ", "@ + dec_nat(
                            imm as nat,
                        ) + "\n"@,
                    },
                )
            }
        } else {
            Err(DecodeError::UnknownOpcode { offset: off as usize })
        }
    }
}

/// The ADD family.
pub open spec fn spec_decode_add(b: Seq<u8>, off: int) -> Result<SpecText, DecodeError> {
    spec_decode_arith("add"@, 0b000000, 0b100000, 0b0000010, 0b000, b, off)
}

/// The SUB family.
pub open spec fn spec_decode_sub(b: Seq<u8>, off: int) -> Result<SpecText, DecodeError> {
    spec_decode_arith("sub"@, 0b001010, 0b100000, 0b0010110, 0b101, b, off)
}

/// The CMP family.
pub open spec fn spec_decode_cmp(b: Seq<u8>, off: int) -> Result<SpecText, DecodeError> {
    spec_decode_arith("cmp"@, 0b001110, 0b100000, 0b0011110, 0b111, b, off)
}

/// Group dispatch: the row is chosen from the first byte, the family from
/// the `reg` field of the second. Only the `0x80`-`0x83` row has decoders
/// assigned (ADD, SUB, CMP); every other cell is a stub.
pub open spec fn spec_decode_group(b: Seq<u8>, off: int) -> Result<SpecText, DecodeError> {
    if off >= b.len() {
        Err(DecodeError::Truncated { offset: off as usize })
    } else {
        let first = b[off];
        let known_row = (0x80 <= first && first <= 0x83) || (0xD0 <= first && first <= 0xD3)
            || first == 0xF6 || first == 0xF7 || first == 0xFE || first == 0xFF;
        if !known_row {
            Err(DecodeError::UnknownGroupRow { offset: off as usize })
        } else if off + 2 > b.len() {
            Err(DecodeError::Truncated { offset: off as usize })
        } else {
            let reg = (b[off + 1] >> 3) & 0b111;
            if 0x80 <= first && first <= 0x83 {
                if reg == 0b000 {
                    spec_decode_add(b, off)
                } else if reg == 0b101 {
                    spec_decode_sub(b, off)
                } else if reg == 0b111 {
                    spec_decode_cmp(b, off)
                } else {
                    Err(DecodeError::UnknownGroupMember { offset: off as usize })
                }
            } else {
                Err(DecodeError::UnknownGroupMember { offset: off as usize })
            }
        }
    }
}

/// The mnemonic of a conditional jump or loop, selected by the first byte.
pub open spec fn jump_mnemonic(first: u8) -> Option<Seq<char>> {
    if first == 0b01110100 {
        Some("je"@)
    } else if first == 0b01111100 {
        Some("jl"@)
    } else if first == 0b01111110 {
        Some("jle"@)
    } else if first == 0b01110010 {
        Some("jb"@)
    } else if first == 0b01110110 {
        Some("jbe"@)
    } else if first == 0b01111010 {
        Some("jp"@)
    } else if first == 0b01110000 {
        Some("jo"@)
    } else if first == 0b01111000 {
        Some("js"@)
    } else if first == 0b01110101 {
        Some("jne"@)
    } else if first == 0b01111101 {
        Some("jnl"@)
    } else if first == 0b01111111 {
        Some("jnle"@)
    } else if first == 0b01110011 {
        Some("jnb"@)
    } else if first == 0b01110111 {
        Some("jnbe"@)
    } else if first == 0b01111011 {
        Some("jnp"@)
    } else if first == 0b01110001 {
        Some("jno"@)
    } else if first == 0b01111001 {
        Some("jns"@)
    } else if first == 0b11100010 {
        Some("loop"@)
    } else if first == 0b11100001 {
        Some("loope"@)
    } else if first == 0b11100000 {
        Some("loopne"@)
    } else if first == 0b11100011 {
        Some("jcxz"@)
    } else {
        None
    }
}

/// The byte offset a two-byte jump at `off` targets: the address just past
/// the instruction plus the sign-extended displacement, under the wrapping
/// arithmetic of `usize`.
pub open spec fn jump_target(off: int, disp: u8) -> int {
    vstd::wrapping::usize_specs::wrapping_add_signed(
        vstd::wrapping::usize_specs::wrapping_add(off as usize, 2),
        as_i8(disp) as isize,
    ) as int
}

/// The index of the first occurrence of `t` in the label-target table.
pub open spec fn spec_find_target(lt: Seq<int>, t: int) -> Option<int>
    decreases lt.len(),
{
    if lt.len() == 0 {
        None
    } else if lt[0] == t {
        Some(0)
    } else {
        match spec_find_target(lt.subrange(1, lt.len() as int), t) {
            None => None,
            Some(i) => Some(i + 1),
        }
    }
}

/// The synthesized name of the label with table index `i`.
pub open spec fn label_name(i: int) -> Seq<char> {
    "label"@ + dec_nat(i as nat)
}

/// A conditional jump or loop: two bytes, a label for the target offset.
/// A fresh target is appended to the label table; a known one reuses its
/// name.
pub open spec fn spec_decode_jump(b: Seq<u8>, off: int, lt: Seq<int>) -> Result<
    SpecStep,
    DecodeError,
> {
    if off + 2 > b.len() {
        Err(DecodeError::Truncated { offset: off as usize })
    } else {
        match jump_mnemonic(b[off]) {
            None => Err(DecodeError::InvalidJumpOpcode { offset: off as usize }),
            Some(mn) => {
                let t = jump_target(off, b[off + 1]);
                match spec_find_target(lt, t) {
                    Some(i) => Ok(
                        SpecStep { len: 2, text: mn + " "@ + label_name(i) + "\n"@, labels: lt },
                    ),
                    None => Ok(
                        SpecStep {
                            len: 2,
                            text: mn + " "@ + label_name(lt.len() as int) + "\n"@,
                            labels: lt.push(t),
                        },
                    ),
                }
            },
        }
    }
}

/// Lifts a label-free decode result to a decoding step.
pub open spec fn lift_step(r: Result<SpecText, DecodeError>, lt: Seq<int>) -> Result<
    SpecStep,
    DecodeError,
> {
    match r {
        Ok(st) => Ok(SpecStep { len: st.len, text: st.text, labels: lt }),
        Err(e) => Err(e),
    }
}

/// One step of the driver: primary dispatch on the first byte, as the
/// dispatch table assigns it, then the family decoder.
pub open spec fn spec_step(b: Seq<u8>, off: int, lt: Seq<int>) -> Result<SpecStep, DecodeError> {
    if off >= b.len() {
        Err(DecodeError::Truncated { offset: off as usize })
    } else {
        let first = b[off];
        if first <= 0x05 {
            lift_step(spec_decode_add(b, off), lt)
        } else if 0x28 <= first && first <= 0x2D {
            lift_step(spec_decode_sub(b, off), lt)
        } else if 0x38 <= first && first <= 0x3D {
            lift_step(spec_decode_cmp(b, off), lt)
        } else if (0x70 <= first && first <= 0x7F) || (0xE0 <= first && first <= 0xE3) {
            spec_decode_jump(b, off, lt)
        } else if 0x80 <= first && first <= 0x83 {
            lift_step(spec_decode_group(b, off), lt)
        } else if (0x88 <= first && first <= 0x8B) || (0xA0 <= first && first <= 0xA3) || (0xB0
            <= first && first <= 0xBF) || (0xC6 <= first && first <= 0xC7) {
            lift_step(spec_decode_mov(b, off), lt)
        } else {
            Err(DecodeError::UnknownOpcode { offset: off as usize })
        }
    }
}

/// The driver's loop from offset `off` to the end of the stream: the
/// records of every decoded instruction and the final label table. The
/// guard on the step's length is redundant — `lemma_step_bounds` shows a
/// successful step always stays within the stream — but bounds the
/// recursion syntactically.
pub open spec fn spec_run(b: Seq<u8>, off: int, lt: Seq<int>) -> Result<
    (Seq<SpecRec>, Seq<int>),
    DecodeError,
>
    decreases b.len() - off,
{
    if off >= b.len() {
        Ok((Seq::empty(), lt))
    } else {
        match spec_step(b, off, lt) {
            Err(e) => Err(e),
            Ok(st) => if 1 <= st.len && off + st.len <= b.len() {
                match spec_run(b, off + st.len, st.labels) {
                    Err(e) => Err(e),
                    Ok((rs, ltf)) => Ok(
                        (
                            seq![SpecRec { offset: off, len: st.len, text: st.text }] + rs,
                            ltf,
                        ),
                    ),
                }
            } else {
                Err(DecodeError::Truncated { offset: off as usize })
            },
        }
    }
}

/// Label stitching: every record's line, preceded by a label declaration
/// wherever the record's offset is a jump target.
pub open spec fn spec_stitch(rs: Seq<SpecRec>, lt: Seq<int>) -> Seq<Seq<char>>
    decreases rs.len(),
{
    if rs.len() == 0 {
        Seq::empty()
    } else {
        spec_stitch_one(rs[0], lt) + spec_stitch(rs.subrange(1, rs.len() as int), lt)
    }
}

/// The whole decode of a byte stream: the `bits 16` header, then every
/// instruction line in offset order with label declarations stitched in.
pub open spec fn spec_decode(b: Seq<u8>) -> Result<Seq<Seq<char>>, DecodeError> {
    match spec_run(b, 0, Seq::empty()) {
        Err(e) => Err(e),
        Ok((rs, lt)) => Ok(seq!["bits 16\n\n"@] + spec_stitch(rs, lt)),
    }
}

/// The 3-bit and 2-bit fields extracted from a byte stay below 8 and 4.
pub proof fn lemma_bit_fields(x: u8)
    ensures
        x & 0b111 < 8,
        (x >> 3) & 0b111 < 8,
        x >> 6 < 4,
{
    assert(x & 0b111 < 8) by (bit_vector);
    assert((x >> 3) & 0b111 < 8) by (bit_vector);
    assert(x >> 6 < 4) by (bit_vector);
}

/// A successful effective-address read stays within the stream.
pub proof fn lemma_ea_bounds(b: Seq<u8>, pos: int, err_off: int, mode: int, rm: int)
    requires
        pos <= b.len(),
        spec_ea(b, pos, err_off, mode, rm) is Ok,
    ensures
        0 <= spec_ea(b, pos, err_off, mode, rm)->Ok_0.len <= 2,
        pos + spec_ea(b, pos, err_off, mode, rm)->Ok_0.len <= b.len(),
{
}

/// A successful register/memory form occupies 2 to 4 bytes, within the
/// stream.
pub proof fn lemma_rm2rm_bounds(mn: Seq<char>, b: Seq<u8>, off: int)
    requires
        spec_rm2rm(mn, b, off) is Ok,
    ensures
        2 <= spec_rm2rm(mn, b, off)->Ok_0.len <= 4,
        off + spec_rm2rm(mn, b, off)->Ok_0.len <= b.len(),
{
    let st = spec_rm2rm(mn, b, off)->Ok_0;
    let second = b[off + 1];
    let mode = (second >> 6) as int;
    let rm = (second & 0b111) as int;
    if mode != 3 {
        lemma_ea_bounds(b, off + 2, off, mode, rm);
    }
}

/// A successful immediate-to-memory form occupies 3 to 6 bytes, within the
/// stream.
pub proof fn lemma_imm_to_mem_bounds(
    mn: Seq<char>,
    b: Seq<u8>,
    off: int,
    mode: int,
    rm: int,
    word: bool,
    is_data_16bit: bool,
)
    requires
        0 <= off,
        spec_imm_to_mem(mn, b, off, mode, rm, word, is_data_16bit) is Ok,
    ensures
        3 <= spec_imm_to_mem(mn, b, off, mode, rm, word, is_data_16bit)->Ok_0.len <= 6,
        off + spec_imm_to_mem(mn, b, off, mode, rm, word, is_data_16bit)->Ok_0.len <= b.len(),
{
    let ea = spec_ea(b, off + 2, off, mode, rm)->Ok_0;
    if mode == 0 && rm == 6 {
    } else if mode == 0 {
        assert(ea.len == 0);
    }
}

/// A successful MOV decode occupies 2 to 6 bytes, within the stream.
pub proof fn lemma_mov_bounds(b: Seq<u8>, off: int)
    requires
        0 <= off,
        spec_decode_mov(b, off) is Ok,
    ensures
        2 <= spec_decode_mov(b, off)->Ok_0.len <= 6,
        off + spec_decode_mov(b, off)->Ok_0.len <= b.len(),
{
    let first = b[off];
    if first >> 2 == 0b100010 {
        lemma_rm2rm_bounds("mov"@, b, off);
    } else if first >> 4 == 0b1011 {
    } else if first >> 1 == 0b1100011 {
        let second = b[off + 1];
        lemma_imm_to_mem_bounds(
            "mov"@,
            b,
            off,
            (second >> 6) as int,
            (second & 0b111) as int,
            (first & 0b00000001) > 0,
            (first & 0b00000001) > 0,
        );
    }
}

/// A successful arithmetic-family decode occupies 2 to 6 bytes, within the
/// stream.
pub proof fn lemma_arith_bounds(
    mn: Seq<char>,
    rm_opcode: u8,
    imm_rm_opcode: u8,
    acc_opcode: u8,
    group_reg: u8,
    b: Seq<u8>,
    off: int,
)
    requires
        0 <= off,
        spec_decode_arith(mn, rm_opcode, imm_rm_opcode, acc_opcode, group_reg, b, off) is Ok,
    ensures
        2 <= spec_decode_arith(mn, rm_opcode, imm_rm_opcode, acc_opcode, group_reg, b, off)->Ok_0.len
            <= 6,
        off + spec_decode_arith(
            mn,
            rm_opcode,
            imm_rm_opcode,
            acc_opcode,
            group_reg,
            b,
            off,
        )->Ok_0.len <= b.len(),
{
    let first = b[off];
    if first >> 2 == rm_opcode {
        lemma_rm2rm_bounds(mn, b, off);
    } else if first >> 2 == imm_rm_opcode {
        let second = b[off + 1];
        let sign = (first & 0b00000010) > 0;
        let word = (first & 0b00000001) > 0;
        let mode = (second >> 6) as int;
        let rm = (second & 0b111) as int;
        if (second >> 3) & 0b111 == group_reg && mode != 3 {
            lemma_imm_to_mem_bounds(mn, b, off, mode, rm, word, !sign && word);
        }
    }
}

/// A successful group-dispatched decode occupies 2 to 6 bytes, within the
/// stream.
pub proof fn lemma_group_bounds(b: Seq<u8>, off: int)
    requires
        0 <= off,
        spec_decode_group(b, off) is Ok,
    ensures
        2 <= spec_decode_group(b, off)->Ok_0.len <= 6,
        off + spec_decode_group(b, off)->Ok_0.len <= b.len(),
{
    let reg = (b[off + 1] >> 3) & 0b111;
    if reg == 0b000 {
        lemma_arith_bounds("add"@, 0b000000, 0b100000, 0b0000010, 0b000, b, off);
    } else if reg == 0b101 {
        lemma_arith_bounds("sub"@, 0b001010, 0b100000, 0b0010110, 0b101, b, off);
    } else if reg == 0b111 {
        lemma_arith_bounds("cmp"@, 0b001110, 0b100000, 0b0011110, 0b111, b, off);
    }
}

/// A successful decoding step consumes at least two bytes and stays within
/// the stream, and only a jump can have extended the label table.
pub proof fn lemma_step_bounds(b: Seq<u8>, off: int, lt: Seq<int>)
    requires
        0 <= off,
        spec_step(b, off, lt) is Ok,
    ensures
        2 <= spec_step(b, off, lt)->Ok_0.len <= 6,
        off + spec_step(b, off, lt)->Ok_0.len <= b.len(),
{
    let first = b[off];
    if first <= 0x05 {
        lemma_arith_bounds("add"@, 0b000000, 0b100000, 0b0000010, 0b000, b, off);
    } else if 0x28 <= first && first <= 0x2D {
        lemma_arith_bounds("sub"@, 0b001010, 0b100000, 0b0010110, 0b101, b, off);
    } else if 0x38 <= first && first <= 0x3D {
        lemma_arith_bounds("cmp"@, 0b001110, 0b100000, 0b0011110, 0b111, b, off);
    } else if (0x70 <= first && first <= 0x7F) || (0xE0 <= first && first <= 0xE3) {
    } else if 0x80 <= first && first <= 0x83 {
        lemma_group_bounds(b, off);
    } else {
        lemma_mov_bounds(b, off);
    }
}

/// The lines a single record contributes to the stitched listing: its
/// label declaration, when its offset is a jump target, then its text.
pub open spec fn spec_stitch_one(rec: SpecRec, lt: Seq<int>) -> Seq<Seq<char>> {
    match spec_find_target(lt, rec.offset) {
        Some(i) => seq![label_name(i) + ":\n"@, rec.text],
        None => seq![rec.text],
    }
}

/// Stitching distributes over appending one record at the end.
pub proof fn lemma_stitch_snoc(rs: Seq<SpecRec>, rec: SpecRec, lt: Seq<int>)
    ensures
        spec_stitch(rs.push(rec), lt) == spec_stitch(rs, lt) + spec_stitch_one(rec, lt),
    decreases rs.len(),
{
    let whole = rs.push(rec);
    if rs.len() == 0 {
        assert(whole.subrange(1, whole.len() as int) =~= Seq::<SpecRec>::empty());
        assert(whole[0] == rec);
        assert(spec_stitch(whole.subrange(1, whole.len() as int), lt) == Seq::<Seq<
            char,
        >>::empty());
        assert(spec_stitch(rs, lt) == Seq::<Seq<char>>::empty());
        assert(spec_stitch(whole, lt) =~= spec_stitch(rs, lt) + spec_stitch_one(rec, lt));
    } else {
        let tail = rs.subrange(1, rs.len() as int);
        assert(whole.subrange(1, whole.len() as int) =~= tail.push(rec));
        lemma_stitch_snoc(tail, rec, lt);
        assert(whole[0] == rs[0]);
        assert(spec_stitch(whole, lt) == spec_stitch_one(rs[0], lt) + spec_stitch(
            tail.push(rec),
            lt,
        ));
        assert(spec_stitch(whole, lt) == spec_stitch_one(rs[0], lt) + (spec_stitch(tail, lt)
            + spec_stitch_one(rec, lt)));
        assert(spec_stitch(rs, lt) == spec_stitch_one(rs[0], lt) + spec_stitch(tail, lt));
        assert(spec_stitch(whole, lt) =~= spec_stitch(rs, lt) + spec_stitch_one(rec, lt));
    }
}

/// `spec_find_target` returns the index of the first occurrence of `t`.
pub proof fn lemma_find_target_first(lt: Seq<int>, t: int, i: int)
    requires
        0 <= i < lt.len(),
        lt[i] == t,
        forall|j: int| 0 <= j < i ==> lt[j] != t,
    ensures
        spec_find_target(lt, t) == Some(i),
    decreases lt.len(),
{
    if lt[0] == t {
        assert(i == 0);
    } else {
        let tail = lt.subrange(1, lt.len() as int);
        assert(tail[i - 1] == t);
        assert(forall|j: int| 0 <= j < i - 1 ==> tail[j] == lt[j + 1] && tail[j] != t);
        lemma_find_target_first(tail, t, i - 1);
    }
}

/// When `t` occurs nowhere in the table, `spec_find_target` finds nothing.
pub proof fn lemma_find_target_none(lt: Seq<int>, t: int)
    requires
        forall|j: int| 0 <= j < lt.len() ==> lt[j] != t,
    ensures
        spec_find_target(lt, t) is None,
    decreases lt.len(),
{
    if lt.len() > 0 {
        let tail = lt.subrange(1, lt.len() as int);
        assert(forall|j: int| 0 <= j < tail.len() ==> tail[j] == lt[j + 1] && tail[j] != t);
        lemma_find_target_none(tail, t);
    }
}

/// When `spec_find_target` finds nothing, `t` occurs nowhere in the table.
pub proof fn lemma_find_target_absent(lt: Seq<int>, t: int)
    requires
        spec_find_target(lt, t) is None,
    ensures
        forall|j: int| 0 <= j < lt.len() ==> lt[j] != t,
    decreases lt.len(),
{
    if lt.len() > 0 {
        let tail = lt.subrange(1, lt.len() as int);
        lemma_find_target_absent(tail, t);
        assert(forall|j: int| 1 <= j < lt.len() ==> lt[j] == tail[j - 1] && lt[j] != t);
    }
}

/// What a found index means: it is in range, hits `t`, and is the first to
/// do so.
pub proof fn lemma_find_target_some(lt: Seq<int>, t: int)
    requires
        spec_find_target(lt, t) is Some,
    ensures
        0 <= spec_find_target(lt, t)->0 < lt.len(),
        lt[spec_find_target(lt, t)->0] == t,
        forall|j: int| 0 <= j < spec_find_target(lt, t)->0 ==> lt[j] != t,
    decreases lt.len(),
{
    if lt.len() > 0 && lt[0] != t {
        let tail = lt.subrange(1, lt.len() as int);
        lemma_find_target_some(tail, t);
        let i = spec_find_target(tail, t)->0;
        assert(forall|j: int| 1 <= j < i + 1 ==> lt[j] == tail[j - 1] && lt[j] != t);
    }
}

} // verus!
