//! The executable decoder: one function per instruction family, a group
//! dispatcher, the conditional-jump decoder with label synthesis, and the
//! driver that walks a byte stream and stitches label declarations into the
//! listing. Every function is proved against the model in `model`.

use vstd::prelude::*;

use crate::constants::{get_byte_or_word, get_mem_base, get_register_name, NumBytesInInstruction};
use crate::error::DecodeError;
use crate::model::{
    jump_mnemonic, jump_target, label_name, lemma_bit_fields, lemma_find_target_first,
    lemma_find_target_none, lemma_step_bounds, spec_decode, spec_decode_add, spec_decode_arith,
    spec_decode_cmp, spec_decode_group, spec_decode_jump, spec_decode_mov, spec_decode_sub,
    spec_ea, spec_imm_to_mem, spec_rm2rm, spec_run, spec_step, spec_stitch, SpecRec,
};
use crate::render::{append_dec, append_dec_signed};
use vstd::string::StringExecFns;

verus! {

/// One rendered line together with the byte offset at which it begins.
#[derive(Debug)]
pub struct InstructionWithOffset {
    pub offset: usize,
    pub output: String,
}

/// The per-call decoding context: the labels synthesized so far, in
/// first-seen order. Each entry pairs a jump-target offset with the label's
/// name.
pub struct Decoder {
    pub labels: Vec<InstructionWithOffset>,
}

impl Decoder {
    /// The jump targets of the labels allocated so far, in first-seen
    /// order.
    pub open spec fn targets(self) -> Seq<int> {
        self.labels@.map_values(|l: InstructionWithOffset| l.offset as int)
    }

    /// Each label is named `label<i>` after its table index, and no two
    /// labels share a target.
    pub open spec fn wf(self) -> bool {
        &&& forall|i: int|
            0 <= i < self.labels@.len() ==> (#[trigger] self.labels@[i]).output@ == label_name(i)
        &&& forall|i: int, j: int|
            0 <= i < j < self.labels@.len() ==> (#[trigger] self.labels@[i]).offset != (
            #[trigger] self.labels@[j]).offset
    }

    /// A fresh context with an empty label table.
    pub fn new() -> (r: Self)
        ensures
            r.wf(),
            r.targets() == Seq::<int>::empty(),
    {
        let r = Decoder { labels: Vec::new() };
        proof {
            assert(r.targets() =~= Seq::<int>::empty());
        }
        r
    }
}

/// The placeholder behind every dispatch entry that no family claims: it
/// consumes nothing and writes nothing. The driver never invokes it on a
/// well-formed stream.
pub fn decode_stub(
    instructions: &[u8],
    offset: usize,
    output: &mut String,
    decoder: &mut Decoder,
) -> (r: Result<NumBytesInInstruction, DecodeError>)
    ensures
        r matches Ok(n) && n == 0,
        final(output)@ == old(output)@,
        *final(decoder) == *old(decoder),
{
    Ok(0)
}

/// Writes a register-to-register instruction line, the direction bit
/// choosing which operand is the destination.
fn register_to_register(
    op_name: &str,
    reg: u8,
    rm: u8,
    direction: bool,
    word: bool,
    output: &mut String,
)
    requires
        reg < 8,
        rm < 8,
    ensures
        final(output)@ == old(output)@ + (op_name@ + " "@ + crate::constants::spec_register_name(
            (if direction { reg } else { rm }) as int,
            word,
        ) + ", "@ + crate::constants::spec_register_name(
            (if direction { rm } else { reg }) as int,
            word,
        ) + "\n"@),
{
    let ghost start = output@;
    let (src, dest) = if direction { (rm, reg) } else { (reg, rm) };

    output.append(op_name);
    output.append(" ");
    output.append(get_register_name(dest, word));
    output.append(", ");
    output.append(get_register_name(src, word));
    output.append("\n");
    proof {
        assert(output@ =~= start + (op_name@ + " "@ + crate::constants::spec_register_name(
            (if direction { reg } else { rm }) as int,
            word,
        ) + ", "@ + crate::constants::spec_register_name(
            (if direction { rm } else { reg }) as int,
            word,
        ) + "\n"@));
    }
}

/// Renders the effective-address expression selected by `(mode, rm)`,
/// reading any direct address or displacement and advancing
/// `num_bytes_in_instruction` past it.
fn construct_address(
    instructions: &[u8],
    offset: usize,
    num_bytes_in_instruction: &mut usize,
    mode: u8,
    rm: u8,
) -> (r: Result<String, DecodeError>)
    requires
        mode < 4,
        rm < 8,
        offset + *old(num_bytes_in_instruction) <= instructions@.len(),
    ensures
        match spec_ea(
            instructions@,
            offset + *old(num_bytes_in_instruction),
            offset as int,
            mode as int,
            rm as int,
        ) {
            Ok(ea) => r matches Ok(s) && s@ == ea.text && *final(num_bytes_in_instruction) == *old(
                num_bytes_in_instruction,
            ) + ea.len,
            Err(e) => r matches Err(e2) && e2 == e && *final(num_bytes_in_instruction) == *old(
                num_bytes_in_instruction,
            ),
        },
{
    let total_len = instructions.len();
    let mut source_addr_str = String::new();

    if mode == 0b00 && rm == 0b110 {
        if total_len - offset - *num_bytes_in_instruction < 2 {
            return Err(DecodeError::Truncated { offset });
        }
        let direct_address = get_byte_or_word(instructions, offset, num_bytes_in_instruction, true);
        let signed: i32 = if direct_address >= 0x8000 {
            direct_address as i32 - 0x10000
        } else {
            direct_address as i32
        };
        append_dec_signed(&mut source_addr_str, signed);
        return Ok(source_addr_str);
    }

    source_addr_str.append(get_mem_base(rm));

    if mode != 0b00 {
        let wide = mode == 0b10;
        if total_len - offset - *num_bytes_in_instruction < (if wide { 2 } else { 1 }) {
            return Err(DecodeError::Truncated { offset });
        }
        let raw = get_byte_or_word(instructions, offset, num_bytes_in_instruction, wide);
        let signed_disp: i32 = if wide {
            if raw >= 0x8000 {
                raw as i32 - 0x10000
            } else {
                raw as i32
            }
        } else {
            if raw >= 0x80 {
                raw as i32 - 0x100
            } else {
                raw as i32
            }
        };

        if signed_disp != 0 {
            source_addr_str.append(" + ");
            append_dec_signed(&mut source_addr_str, signed_disp);
        }
    }

    Ok(source_addr_str)
}

/// Writes an immediate-to-memory instruction line: the effective address,
/// then the immediate with its `word`/`byte` size keyword.
#[verifier::spinoff_prover]
#[verifier::rlimit(60)]
fn imm_to_mem(
    opname: &str,
    instructions: &[u8],
    offset: usize,
    num_bytes_in_instruction: &mut usize,
    mode: u8,
    rm: u8,
    word: bool,
    is_data_16bit: bool,
    output: &mut String,
) -> (r: Result<(), DecodeError>)
    requires
        mode < 4,
        rm < 8,
        *old(num_bytes_in_instruction) == 2,
        offset + 2 <= instructions@.len(),
    ensures
        match spec_imm_to_mem(
            opname@,
            instructions@,
            offset as int,
            mode as int,
            rm as int,
            word,
            is_data_16bit,
        ) {
            Ok(st) => r is Ok && final(output)@ == old(output)@ + st.text
                && *final(num_bytes_in_instruction) == st.len,
            Err(e) => r matches Err(e2) && e2 == e && final(output)@ == old(output)@,
        },
{
    let ghost start = output@;
    let total_len = instructions.len();

    let source_addr_str = match construct_address(
        instructions,
        offset,
        num_bytes_in_instruction,
        mode,
        rm,
    ) {
        Ok(s) => s,
        Err(e) => {
            return Err(e);
        },
    };

    if total_len - offset - *num_bytes_in_instruction < (if is_data_16bit { 2 } else { 1 }) {
        return Err(DecodeError::Truncated { offset });
    }
    let data = get_byte_or_word(instructions, offset, num_bytes_in_instruction, is_data_16bit);

    output.append(opname);
    output.append(" [");
    output.append(source_addr_str.as_str());
    output.append("], ");
    if word {
        output.append("word ");
    } else {
        output.append("byte ");
    }
    append_dec(output, data as usize);
    output.append("\n");

    proof {
        let st = spec_imm_to_mem(
            opname@,
            instructions@,
            offset as int,
            mode as int,
            rm as int,
            word,
            is_data_16bit,
        )->Ok_0;
        assert(output@ =~= start + st.text);
    }
    Ok(())
}

/// Decodes a register/memory-to/from-register form shared by MOV and the
/// arithmetic families.
fn reg_mem_to_reg_mem(
    opname: &str,
    instructions: &[u8],
    offset: usize,
    output: &mut String,
) -> (r: Result<NumBytesInInstruction, DecodeError>)
    ensures
        match spec_rm2rm(opname@, instructions@, offset as int) {
            Ok(st) => r matches Ok(n) && n == st.len && final(output)@ == old(output)@ + st.text,
            Err(e) => r matches Err(e2) && e2 == e && final(output)@ == old(output)@,
        },
{
    let ghost start = output@;
    let total_len = instructions.len();
    if offset >= total_len || total_len - offset < 2 {
        return Err(DecodeError::Truncated { offset });
    }

    let first_byte = instructions[offset];
    let second_byte = instructions[offset + 1];
    let mut num_bytes_in_instruction: usize = 2;

    let direction = (first_byte & 0b00000010) > 0;
    let word = (first_byte & 0b00000001) > 0;
    let rm = second_byte & 0b00000111;
    let reg = (second_byte >> 3) & 0b00000111;
    let mode = second_byte >> 6;
    proof {
        lemma_bit_fields(second_byte);
    }

    if mode == 0b11 {
        register_to_register(opname, reg, rm, direction, word, output);
        proof {
            let st = spec_rm2rm(opname@, instructions@, offset as int)->Ok_0;
            assert(output@ =~= start + st.text);
        }
        return Ok(num_bytes_in_instruction);
    }

    let source_addr_str = match construct_address(
        instructions,
        offset,
        &mut num_bytes_in_instruction,
        mode,
        rm,
    ) {
        Ok(s) => s,
        Err(e) => {
            return Err(e);
        },
    };

    if direction {
        output.append(opname);
        output.append(" ");
        output.append(get_register_name(reg, word));
        output.append(", [");
        output.append(source_addr_str.as_str());
        output.append("]\n");
    } else {
        output.append(opname);
        output.append(" [");
        output.append(source_addr_str.as_str());
        output.append("], ");
        output.append(get_register_name(reg, word));
        output.append("\n");
    }

    proof {
        let st = spec_rm2rm(opname@, instructions@, offset as int)->Ok_0;
        assert(output@ =~= start + st.text);
    }
    Ok(num_bytes_in_instruction)
}

/// Decodes every form of the MOV family: register/memory with register,
/// immediate to register, immediate to memory, and accumulator with
/// memory.
pub fn decode_mov(
    instructions: &[u8],
    offset: usize,
    output: &mut String,
    decoder: &mut Decoder,
) -> (r: Result<NumBytesInInstruction, DecodeError>)
    ensures
        match spec_decode_mov(instructions@, offset as int) {
            Ok(st) => r matches Ok(n) && n == st.len && final(output)@ == old(output)@ + st.text,
            Err(e) => r matches Err(e2) && e2 == e && final(output)@ == old(output)@,
        },
        *final(decoder) == *old(decoder),
{
    let ghost start = output@;
    let total_len = instructions.len();
    if offset >= total_len {
        return Err(DecodeError::Truncated { offset });
    }
    let first_byte = instructions[offset];

    //* Register/Memory to/from register
    if first_byte >> 2 == 0b100010 {
        let num_bytes_in_instruction = match reg_mem_to_reg_mem("mov", instructions, offset, output)
            {
            Ok(n) => n,
            Err(e) => {
                return Err(e);
            },
        };
        return Ok(num_bytes_in_instruction);
    }

    //* Immediate to register
    if first_byte >> 4 == 0b1011 {
        let word = (first_byte & 0b00001000) > 0;
        let reg = first_byte & 0b00000111;
        proof {
            lemma_bit_fields(first_byte);
        }

        if total_len - offset < (if word { 3 } else { 2 }) {
            return Err(DecodeError::Truncated { offset });
        }
        let mut num_bytes_in_instruction: usize = 1;
        let data = get_byte_or_word(instructions, offset, &mut num_bytes_in_instruction, word);

        output.append("mov ");
        output.append(get_register_name(reg, word));
        output.append(", ");
        append_dec(output, data as usize);
        output.append("\n");

        proof {
            let st = spec_decode_mov(instructions@, offset as int)->Ok_0;
            assert(output@ =~= start + st.text);
        }
        return Ok(num_bytes_in_instruction);
    }

    //* Immediate to memory
    if first_byte >> 1 == 0b1100011 {
        if total_len - offset < 2 {
            return Err(DecodeError::Truncated { offset });
        }
        let second_byte = instructions[offset + 1];
        let reg = (second_byte >> 3) & 0b00000111;

        if reg == 0b000 {
            let mut num_bytes_in_instruction: usize = 2;
            let word = (first_byte & 0b00000001) > 0;
            let rm = second_byte & 0b00000111;
            let mode = second_byte >> 6;
            proof {
                lemma_bit_fields(second_byte);
            }

            match imm_to_mem(
                "mov",
                instructions,
                offset,
                &mut num_bytes_in_instruction,
                mode,
                rm,
                word,
                word,
                output,
            ) {
                Ok(()) => {},
                Err(e) => {
                    return Err(e);
                },
            }
            return Ok(num_bytes_in_instruction);
        }
        return Err(DecodeError::UnknownOpcode { offset });
    }

    //* Memory to accumulator or accumulator to memory
    if first_byte >> 2 == 0b101000 {
        let direction = (first_byte & 0b00000010) > 0;
        let word = (first_byte & 0b00000001) > 0;
        let is_acc_to_mem = direction;

        if total_len - offset < 3 {
            return Err(DecodeError::Truncated { offset });
        }
        let mut num_bytes_in_instruction: usize = 1;
        let raw = get_byte_or_word(instructions, offset, &mut num_bytes_in_instruction, true);
        let direct_address: i32 = if raw >= 0x8000 {
            raw as i32 - 0x10000
        } else {
            raw as i32
        };

        if is_acc_to_mem {
            output.append("mov [");
            append_dec_signed(output, direct_address);
            output.append("], ");
            output.append(get_register_name(0, word));
            output.append("\n");
        } else {
            //* memory to accumulator case
            output.append("mov ");
            output.append(get_register_name(0, word));
            output.append(", [");
            append_dec_signed(output, direct_address);
            output.append("]\n");
        }

        proof {
            let st = spec_decode_mov(instructions@, offset as int)->Ok_0;
            assert(output@ =~= start + st.text);
        }
        return Ok(num_bytes_in_instruction);
    }

    Err(DecodeError::UnknownOpcode { offset })
}

/// Decodes every form of one arithmetic family, parameterized by the
/// mnemonic and its opcodes: register/memory with register, immediate to
/// register/memory (with the sign-extend flag choosing the immediate
/// width), and immediate to accumulator.
#[verifier::spinoff_prover]
#[verifier::rlimit(60)]
pub fn decode_add_sub_cmp(
    opname: &str,
    reg_mem_to_reg_mem_opcode: u8,
    imm_to_reg_mem_opcode: u8,
    imm_to_acc_opcode: u8,
    group_reg: u8,
    instructions: &[u8],
    offset: usize,
    output: &mut String,
) -> (r: Result<NumBytesInInstruction, DecodeError>)
    ensures
        match spec_decode_arith(
            opname@,
            reg_mem_to_reg_mem_opcode,
            imm_to_reg_mem_opcode,
            imm_to_acc_opcode,
            group_reg,
            instructions@,
            offset as int,
        ) {
            Ok(st) => r matches Ok(n) && n == st.len && final(output)@ == old(output)@ + st.text,
            Err(e) => r matches Err(e2) && e2 == e && final(output)@ == old(output)@,
        },
{
    let ghost start = output@;
    let total_len = instructions.len();
    if offset >= total_len {
        return Err(DecodeError::Truncated { offset });
    }
    let first_byte = instructions[offset];

    //* Reg/Memory to reg/memory
    if first_byte >> 2 == reg_mem_to_reg_mem_opcode {
        let num_bytes_in_instruction = match reg_mem_to_reg_mem(
            opname,
            instructions,
            offset,
            output,
        ) {
            Ok(n) => n,
            Err(e) => {
                return Err(e);
            },
        };
        return Ok(num_bytes_in_instruction);
    }

    //* Immediate to reg/memory
    if first_byte >> 2 == imm_to_reg_mem_opcode {
        if total_len - offset < 2 {
            return Err(DecodeError::Truncated { offset });
        }
        let second_byte = instructions[offset + 1];
        let reg = (second_byte >> 3) & 0b00000111;

        if reg == group_reg {
            let mut num_bytes_in_instruction: usize = 2;

            let sign = (first_byte & 0b00000010) > 0;
            let word = (first_byte & 0b00000001) > 0;
            let rm = second_byte & 0b00000111;
            let mode = second_byte >> 6;
            let is_data_16bit = !sign && word;
            proof {
                lemma_bit_fields(second_byte);
            }

            if mode == 0b11 {
                //* Immediate to register case
                if total_len - offset - 2 < (if is_data_16bit { 2 } else { 1 }) {
                    return Err(DecodeError::Truncated { offset });
                }
                let data = get_byte_or_word(
                    instructions,
                    offset,
                    &mut num_bytes_in_instruction,
                    is_data_16bit,
                );

                output.append(opname);
                output.append(" ");
                output.append(get_register_name(rm, word));
                output.append(", ");
                append_dec(output, data as usize);
                output.append("\n");

                proof {
                    let st = spec_decode_arith(
                        opname@,
                        reg_mem_to_reg_mem_opcode,
                        imm_to_reg_mem_opcode,
                        imm_to_acc_opcode,
                        group_reg,
                        instructions@,
                        offset as int,
                    )->Ok_0;
                    assert(output@ =~= start + st.text);
                }
            } else {
                //* Immediate to memory case
                match imm_to_mem(
                    opname,
                    instructions,
                    offset,
                    &mut num_bytes_in_instruction,
                    mode,
                    rm,
                    word,
                    is_data_16bit,
                    output,
                ) {
                    Ok(()) => {},
                    Err(e) => {
                        return Err(e);
                    },
                }
            }
            return Ok(num_bytes_in_instruction);
        }
        //* On these opcodes no other form can match
        return Err(DecodeError::UnknownOpcode { offset });
    }

    //* Immediate to accumulator
    if first_byte >> 1 == imm_to_acc_opcode {
        let word = (first_byte & 0b00000001) > 0;

        if total_len - offset < (if word { 3 } else { 2 }) {
            return Err(DecodeError::Truncated { offset });
        }
        let mut num_bytes_in_instruction: usize = 1;
        let data = get_byte_or_word(instructions, offset, &mut num_bytes_in_instruction, word);

        output.append(opname);
        output.append(" ");
        output.append(get_register_name(0, word));
        output.append(", ");
        append_dec(output, data as usize);
        output.append("\n");

        proof {
            let st = spec_decode_arith(
                opname@,
                reg_mem_to_reg_mem_opcode,
                imm_to_reg_mem_opcode,
                imm_to_acc_opcode,
                group_reg,
                instructions@,
                offset as int,
            )->Ok_0;
            assert(output@ =~= start + st.text);
        }
        return Ok(num_bytes_in_instruction);
    }

    Err(DecodeError::UnknownOpcode { offset })
}

/// Decodes the ADD family.
pub fn decode_add(
    instructions: &[u8],
    offset: usize,
    output: &mut String,
    decoder: &mut Decoder,
) -> (r: Result<NumBytesInInstruction, DecodeError>)
    ensures
        match spec_decode_add(instructions@, offset as int) {
            Ok(st) => r matches Ok(n) && n == st.len && final(output)@ == old(output)@ + st.text,
            Err(e) => r matches Err(e2) && e2 == e && final(output)@ == old(output)@,
        },
        *final(decoder) == *old(decoder),
{
    decode_add_sub_cmp(
        "add",
        0b000000,
        0b100000,
        0b0000010,
        0b000,
        instructions,
        offset,
        output,
    )
}

/// Decodes the SUB family.
pub fn decode_sub(
    instructions: &[u8],
    offset: usize,
    output: &mut String,
    decoder: &mut Decoder,
) -> (r: Result<NumBytesInInstruction, DecodeError>)
    ensures
        match spec_decode_sub(instructions@, offset as int) {
            Ok(st) => r matches Ok(n) && n == st.len && final(output)@ == old(output)@ + st.text,
            Err(e) => r matches Err(e2) && e2 == e && final(output)@ == old(output)@,
        },
        *final(decoder) == *old(decoder),
{
    decode_add_sub_cmp(
        "sub",
        0b001010,
        0b100000,
        0b0010110,
        0b101,
        instructions,
        offset,
        output,
    )
}

/// Decodes the CMP family.
pub fn decode_cmp(
    instructions: &[u8],
    offset: usize,
    output: &mut String,
    decoder: &mut Decoder,
) -> (r: Result<NumBytesInInstruction, DecodeError>)
    ensures
        match spec_decode_cmp(instructions@, offset as int) {
            Ok(st) => r matches Ok(n) && n == st.len && final(output)@ == old(output)@ + st.text,
            Err(e) => r matches Err(e2) && e2 == e && final(output)@ == old(output)@,
        },
        *final(decoder) == *old(decoder),
{
    decode_add_sub_cmp(
        "cmp",
        0b001110,
        0b100000,
        0b0011110,
        0b111,
        instructions,
        offset,
        output,
    )
}

/// Decodes an instruction whose mnemonic is selected by the `reg` field of
/// its second byte: the row is chosen from the first byte, and the family
/// decoder for the `(row, reg)` cell re-reads the first byte. Only the
/// `0x80`-`0x83` row has decoders assigned.
pub fn decode_from_group(
    instructions: &[u8],
    offset: usize,
    output: &mut String,
    decoder: &mut Decoder,
) -> (r: Result<NumBytesInInstruction, DecodeError>)
    ensures
        match spec_decode_group(instructions@, offset as int) {
            Ok(st) => r matches Ok(n) && n == st.len && final(output)@ == old(output)@ + st.text,
            Err(e) => r matches Err(e2) && e2 == e && final(output)@ == old(output)@,
        },
        *final(decoder) == *old(decoder),
{
    let total_len = instructions.len();
    if offset >= total_len {
        return Err(DecodeError::Truncated { offset });
    }
    let first_byte = instructions[offset];

    let known_row = (0x80 <= first_byte && first_byte <= 0x83) || (0xD0 <= first_byte && first_byte
        <= 0xD3) || first_byte == 0xF6 || first_byte == 0xF7 || first_byte == 0xFE || first_byte
        == 0xFF;
    if !known_row {
        return Err(DecodeError::UnknownGroupRow { offset });
    }

    if total_len - offset < 2 {
        return Err(DecodeError::Truncated { offset });
    }
    let second_byte = instructions[offset + 1];
    let reg = (second_byte >> 3) & 0b00000111;

    if 0x80 <= first_byte && first_byte <= 0x83 {
        if reg == 0b000 {
            return decode_add(instructions, offset, output, decoder);
        } else if reg == 0b101 {
            return decode_sub(instructions, offset, output, decoder);
        } else if reg == 0b111 {
            return decode_cmp(instructions, offset, output, decoder);
        }
        return Err(DecodeError::UnknownGroupMember { offset });
    }
    Err(DecodeError::UnknownGroupMember { offset })
}

/// The index of the first label whose target equals `target`, if any.
fn find_target_index(labels: &Vec<InstructionWithOffset>, target: usize) -> (r: Option<usize>)
    ensures
        match r {
            Some(i) => i < labels@.len() && labels@[i as int].offset == target && (forall|j: int|
                0 <= j < i ==> (#[trigger] labels@[j]).offset != target),
            None => forall|j: int|
                0 <= j < labels@.len() ==> (#[trigger] labels@[j]).offset != target,
        },
{
    let n = labels.len();
    let mut i: usize = 0;
    while i < n
        invariant
            i <= n,
            n == labels@.len(),
            forall|j: int| 0 <= j < i ==> (#[trigger] labels@[j]).offset != target,
        decreases n - i,
    {
        if labels[i].offset == target {
            return Some(i);
        }
        i += 1;
    }
    None
}

/// Decodes a two-byte conditional jump or loop. The target offset is the
/// address just past the instruction plus the sign-extended displacement;
/// a fresh target allocates the next sequential label, a known one reuses
/// its name.
pub fn decode_conditional_jump(
    instructions: &[u8],
    offset: usize,
    output: &mut String,
    decoder: &mut Decoder,
) -> (r: Result<NumBytesInInstruction, DecodeError>)
    requires
        old(decoder).wf(),
    ensures
        match spec_decode_jump(instructions@, offset as int, old(decoder).targets()) {
            Ok(st) => r matches Ok(n) && n == st.len && final(output)@ == old(output)@ + st.text
                && final(decoder).wf() && final(decoder).targets() == st.labels,
            Err(e) => r matches Err(e2) && e2 == e && final(output)@ == old(output)@
                && *final(decoder) == *old(decoder),
        },
{
    let ghost start = output@;
    let ghost lt = decoder.targets();
    let total_len = instructions.len();
    if offset >= total_len || total_len - offset < 2 {
        return Err(DecodeError::Truncated { offset });
    }
    let first_byte = instructions[offset];
    let second_byte = instructions[offset + 1];
    let num_bytes_in_instruction: usize = 2;

    let jump_str: &'static str = if first_byte == 0b01110100 {
        "je"
    } else if first_byte == 0b01111100 {
        "jl"
    } else if first_byte == 0b01111110 {
        "jle"
    } else if first_byte == 0b01110010 {
        "jb"
    } else if first_byte == 0b01110110 {
        "jbe"
    } else if first_byte == 0b01111010 {
        "jp"
    } else if first_byte == 0b01110000 {
        "jo"
    } else if first_byte == 0b01111000 {
        "js"
    } else if first_byte == 0b01110101 {
        "jne"
    } else if first_byte == 0b01111101 {
        "jnl"
    } else if first_byte == 0b01111111 {
        "jnle"
    } else if first_byte == 0b01110011 {
        "jnb"
    } else if first_byte == 0b01110111 {
        "jnbe"
    } else if first_byte == 0b01111011 {
        "jnp"
    } else if first_byte == 0b01110001 {
        "jno"
    } else if first_byte == 0b01111001 {
        "jns"
    } else if first_byte == 0b11100010 {
        "loop"
    } else if first_byte == 0b11100001 {
        "loope"
    } else if first_byte == 0b11100000 {
        "loopne"
    } else if first_byte == 0b11100011 {
        "jcxz"
    } else {
        return Err(DecodeError::InvalidJumpOpcode { offset });
    };
    proof {
        assert(jump_mnemonic(first_byte) == Some(jump_str@));
    }

    let byte_to_jump_to = {
        let displacement: isize = if second_byte >= 0x80 {
            second_byte as isize - 0x100
        } else {
            second_byte as isize
        };
        offset.wrapping_add(2).wrapping_add_signed(displacement)
    };
    proof {
        assert(byte_to_jump_to as int == jump_target(offset as int, second_byte));
    }

    //* If the target already has a label, reuse its name
    match find_target_index(&decoder.labels, byte_to_jump_to) {
        Some(index) => {
            proof {
                assert(forall|j: int|
                    0 <= j < lt.len() ==> lt[j] == (#[trigger] decoder.labels@[j]).offset as int);
                lemma_find_target_first(lt, byte_to_jump_to as int, index as int);
            }
            output.append(jump_str);
            output.append(" ");
            output.append(decoder.labels[index].output.as_str());
            output.append("\n");
            proof {
                let st = spec_decode_jump(instructions@, offset as int, lt)->Ok_0;
                assert(output@ =~= start + st.text);
            }
            return Ok(num_bytes_in_instruction);
        },
        None => {
            proof {
                assert(forall|j: int|
                    0 <= j < lt.len() ==> lt[j] == (#[trigger] decoder.labels@[j]).offset as int);
                lemma_find_target_none(lt, byte_to_jump_to as int);
            }
        },
    }

    //* Generate the next sequential label for a fresh target
    let next_index = decoder.labels.len();
    let mut label = String::new();
    label.append("label");
    append_dec(&mut label, next_index);

    output.append(jump_str);
    output.append(" ");
    output.append(label.as_str());
    output.append("\n");

    decoder.labels.push(InstructionWithOffset { offset: byte_to_jump_to, output: label });

    proof {
        let st = spec_decode_jump(instructions@, offset as int, lt)->Ok_0;
        assert(output@ =~= start + st.text);
        assert(decoder.targets() =~= lt.push(byte_to_jump_to as int));
        assert(forall|i: int|
            0 <= i < decoder.labels@.len() ==> (#[trigger] decoder.labels@[i]).output@
                == label_name(i));
    }
    Ok(num_bytes_in_instruction)
}

/// Decodes the single instruction at `offset`: primary dispatch on the
/// first byte selects the family decoder, and the rendered line is pushed
/// onto `outputs` together with its offset.
pub fn decode_single_instruction(
    decoder: &mut Decoder,
    instructions: &[u8],
    offset: usize,
    outputs: &mut Vec<InstructionWithOffset>,
) -> (r: Result<NumBytesInInstruction, DecodeError>)
    requires
        old(decoder).wf(),
    ensures
        match spec_step(instructions@, offset as int, old(decoder).targets()) {
            Ok(st) => r matches Ok(n) && n == st.len && final(decoder).wf()
                && final(decoder).targets() == st.labels
                && final(outputs)@.len() == old(outputs)@.len() + 1
                && (forall|j: int|
                    0 <= j < old(outputs)@.len() ==> final(outputs)@[j] == old(outputs)@[j])
                && final(outputs)@.last().offset == offset
                && final(outputs)@.last().output@ == st.text,
            Err(e) => r matches Err(e2) && e2 == e && *final(decoder) == *old(decoder)
                && final(outputs)@ == old(outputs)@,
        },
{
    let mut output = String::new();

    if offset >= instructions.len() {
        return Err(DecodeError::Truncated { offset });
    }
    let first_byte = instructions[offset];

    let decoded = if first_byte <= 0x05 {
        decode_add(instructions, offset, &mut output, decoder)
    } else if 0x28 <= first_byte && first_byte <= 0x2D {
        decode_sub(instructions, offset, &mut output, decoder)
    } else if 0x38 <= first_byte && first_byte <= 0x3D {
        decode_cmp(instructions, offset, &mut output, decoder)
    } else if (0x70 <= first_byte && first_byte <= 0x7F) || (0xE0 <= first_byte && first_byte
        <= 0xE3) {
        decode_conditional_jump(instructions, offset, &mut output, decoder)
    } else if 0x80 <= first_byte && first_byte <= 0x83 {
        decode_from_group(instructions, offset, &mut output, decoder)
    } else if (0x88 <= first_byte && first_byte <= 0x8B) || (0xA0 <= first_byte && first_byte
        <= 0xA3) || (0xB0 <= first_byte && first_byte <= 0xBF) || (0xC6 <= first_byte
        && first_byte <= 0xC7) {
        decode_mov(instructions, offset, &mut output, decoder)
    } else {
        return Err(DecodeError::UnknownOpcode { offset });
    };

    let num_bytes_in_instruction = match decoded {
        Ok(n) => n,
        Err(e) => {
            return Err(e);
        },
    };

    proof {
        let st = spec_step(instructions@, offset as int, old(decoder).targets())->Ok_0;
        assert(output@ =~= Seq::<char>::empty() + st.text);
    }
    outputs.push(InstructionWithOffset { offset, output });
    Ok(num_bytes_in_instruction)
}

/// Decodes a whole byte stream into its listing: the `bits 16` header,
/// then every instruction line in offset order, with a label declaration
/// inserted immediately before each instruction that a jump targets.
pub fn decode_instructions(instructions: &[u8]) -> (r: Result<Vec<String>, DecodeError>)
    ensures
        match spec_decode(instructions@) {
            Ok(lines) => r matches Ok(v) && v.deep_view() == lines,
            Err(e) => r matches Err(e2) && e2 == e,
        },
{
    let ghost b = instructions@;
    let mut outputs: Vec<InstructionWithOffset> = Vec::new();
    let mut decoder = Decoder::new();
    let ghost mut done: Seq<SpecRec> = Seq::empty();

    proof {
        match spec_run(b, 0, Seq::<int>::empty()) {
            Ok((rs, ltf)) => {
                assert(done + rs =~= rs);
            },
            Err(e) => {},
        }
    }

    let total_len = instructions.len();
    let mut bytes_processed: usize = 0;
    while bytes_processed < total_len
        invariant
            total_len == b.len(),
            instructions@ == b,
            bytes_processed <= total_len,
            decoder.wf(),
            outputs@.len() == done.len(),
            forall|j: int|
                0 <= j < done.len() ==> (#[trigger] outputs@[j]).offset as int == done[j].offset
                    && outputs@[j].output@ == done[j].text,
            match spec_run(b, bytes_processed as int, decoder.targets()) {
                Ok((rs, ltf)) => spec_run(b, 0, Seq::<int>::empty()) == Ok::<
                    (Seq<SpecRec>, Seq<int>),
                    DecodeError,
                >((done + rs, ltf)),
                Err(e) => spec_run(b, 0, Seq::<int>::empty()) == Err::<
                    (Seq<SpecRec>, Seq<int>),
                    DecodeError,
                >(e),
            },
        decreases total_len - bytes_processed,
    {
        let ghost lt_pre = decoder.targets();
        let num_bytes = match decode_single_instruction(
            &mut decoder,
            instructions,
            bytes_processed,
            &mut outputs,
        ) {
            Ok(n) => n,
            Err(e) => {
                proof {
                    assert(spec_run(b, bytes_processed as int, lt_pre) == Err::<
                        (Seq<SpecRec>, Seq<int>),
                        DecodeError,
                    >(e));
                }
                return Err(e);
            },
        };

        proof {
            lemma_step_bounds(b, bytes_processed as int, lt_pre);
            let st = spec_step(b, bytes_processed as int, lt_pre)->Ok_0;
            let rec = SpecRec { offset: bytes_processed as int, len: st.len, text: st.text };
            match spec_run(b, bytes_processed + st.len, st.labels) {
                Ok((rs2, ltf)) => {
                    assert(spec_run(b, bytes_processed as int, lt_pre) == Ok::<
                        (Seq<SpecRec>, Seq<int>),
                        DecodeError,
                    >((seq![rec] + rs2, ltf)));
                    assert(done.push(rec) + rs2 =~= done + (seq![rec] + rs2));
                },
                Err(e) => {
                    assert(spec_run(b, bytes_processed as int, lt_pre) == Err::<
                        (Seq<SpecRec>, Seq<int>),
                        DecodeError,
                    >(e));
                },
            }
            done = done.push(rec);
        }
        bytes_processed += num_bytes;
    }

    let ghost rs = done;
    let ghost lt = decoder.targets();
    proof {
        assert(spec_run(b, bytes_processed as int, decoder.targets()) == Ok::<
            (Seq<SpecRec>, Seq<int>),
            DecodeError,
        >((Seq::empty(), decoder.targets())));
        assert(done + Seq::<SpecRec>::empty() =~= done);
        assert(spec_run(b, 0, Seq::<int>::empty()) == Ok::<
            (Seq<SpecRec>, Seq<int>),
            DecodeError,
        >((rs, lt)));
    }

    //* Stitch label declarations in, immediately before their targets
    let mut result: Vec<String> = Vec::new();
    let mut header = String::new();
    header.append("bits 16\n\n");
    result.push(header);
    proof {
        assert(rs.take(0) =~= Seq::<SpecRec>::empty());
        assert(result.deep_view() =~= seq!["bits 16\n\n"@] + spec_stitch(rs.take(0), lt));
    }

    let n_outputs = outputs.len();
    let mut k: usize = 0;
    while k < n_outputs
        invariant
            k <= n_outputs,
            n_outputs == outputs@.len(),
            outputs@.len() == rs.len(),
            forall|j: int|
                0 <= j < rs.len() ==> (#[trigger] outputs@[j]).offset as int == rs[j].offset
                    && outputs@[j].output@ == rs[j].text,
            decoder.wf(),
            decoder.targets() == lt,
            result.deep_view() == seq!["bits 16\n\n"@] + spec_stitch(rs.take(k as int), lt),
        decreases n_outputs - k,
    {
        let target = outputs[k].offset;
        let line = outputs[k].output.clone();
        let ghost rec = rs[k as int];
        match find_target_index(&decoder.labels, target) {
            Some(index) => {
                proof {
                    assert(forall|j: int|
                        0 <= j < lt.len() ==> lt[j] == (
                        #[trigger] decoder.labels@[j]).offset as int);
                    lemma_find_target_first(lt, target as int, index as int);
                }
                let mut declaration = String::new();
                declaration.append(decoder.labels[index].output.as_str());
                declaration.append(":\n");
                let ghost decl_view = declaration@;
                let ghost dv0 = result.deep_view();
                result.push(declaration);
                proof {
                    assert(result.deep_view() =~= dv0.push(decl_view));
                }
                let ghost dv1 = result.deep_view();
                result.push(line);
                proof {
                    assert(result.deep_view() =~= dv1.push(rec.text));
                    assert(decl_view =~= label_name(index as int) + ":\n"@);
                    assert(crate::model::spec_stitch_one(rec, lt) == seq![
                        label_name(index as int) + ":\n"@,
                        rec.text,
                    ]);
                    assert(result.deep_view() == dv0 + seq![
                        label_name(index as int) + ":\n"@,
                        rec.text,
                    ]) by {
                        assert(result.deep_view() =~= dv0 + seq![
                            label_name(index as int) + ":\n"@,
                            rec.text,
                        ]);
                    }
                }
            },
            None => {
                proof {
                    assert(forall|j: int|
                        0 <= j < lt.len() ==> lt[j] == (
                        #[trigger] decoder.labels@[j]).offset as int);
                    lemma_find_target_none(lt, target as int);
                }
                let ghost dv0 = result.deep_view();
                result.push(line);
                proof {
                    assert(result.deep_view() =~= dv0.push(rec.text));
                    assert(crate::model::spec_stitch_one(rec, lt) == seq![rec.text]);
                    assert(result.deep_view() == dv0 + seq![rec.text]) by {
                        assert(result.deep_view() =~= dv0 + seq![rec.text]);
                    }
                }
            },
        }
        k += 1;
        proof {
            assert(rs.take(k as int) =~= rs.take(k - 1).push(rec));
            crate::model::lemma_stitch_snoc(rs.take(k - 1), rec, lt);
            assert(result.deep_view() =~= seq!["bits 16\n\n"@] + spec_stitch(
                rs.take(k as int),
                lt,
            ));
        }
    }

    proof {
        assert(rs.take(rs.len() as int) =~= rs);
    }
    Ok(result)
}

} // verus!
