use disasm8086::constants::{get_byte_or_word, get_register_name};
use disasm8086::decoder::{
    decode_add, decode_cmp, decode_conditional_jump, decode_from_group, decode_instructions,
    decode_mov, decode_stub, decode_sub, Decoder,
};
use disasm8086::error::DecodeError;

fn decode_lines(bytes: &[u8]) -> Vec<String> {
    decode_instructions(bytes).expect("decode should succeed")
}

#[test]
fn register_to_register_mov() {
    let lines = decode_lines(&[0x89, 0xD9]);
    assert_eq!(lines, vec!["bits 16\n\n".to_string(), "mov cx, bx\n".to_string()]);
}

#[test]
fn immediate_to_register_mov() {
    let lines = decode_lines(&[0xB1, 0x0C]);
    assert_eq!(lines, vec!["bits 16\n\n".to_string(), "mov cl, 12\n".to_string()]);
}

#[test]
fn zero_displacement_is_suppressed() {
    let lines = decode_lines(&[0x8B, 0x5E, 0x00]);
    assert_eq!(lines, vec!["bits 16\n\n".to_string(), "mov bx, [bp]\n".to_string()]);
}

#[test]
fn immediate_byte_to_memory_mov() {
    let lines = decode_lines(&[0xC6, 0x03, 0x07]);
    assert_eq!(lines, vec!["bits 16\n\n".to_string(), "mov [bp + di], byte 7\n".to_string()]);
}

#[test]
fn add_from_memory() {
    let lines = decode_lines(&[0x03, 0x18]);
    assert_eq!(lines, vec!["bits 16\n\n".to_string(), "add bx, [bx + si]\n".to_string()]);
}

#[test]
fn backward_jump_gets_label_before_target() {
    let lines = decode_lines(&[0x75, 0xFE]);
    assert_eq!(
        lines,
        vec!["bits 16\n\n".to_string(), "label0:\n".to_string(), "jne label0\n".to_string()]
    );
}

#[test]
fn memory_to_accumulator_mov() {
    let lines = decode_lines(&[0xA1, 0x3B, 0x00]);
    assert_eq!(lines, vec!["bits 16\n\n".to_string(), "mov ax, [59]\n".to_string()]);
}

#[test]
fn accumulator_to_memory_mov() {
    let lines = decode_lines(&[0xA3, 0x0F, 0x00]);
    assert_eq!(lines, vec!["bits 16\n\n".to_string(), "mov [15], ax\n".to_string()]);
}

#[test]
fn sixteen_bit_immediate_to_register() {
    let lines = decode_lines(&[0xB8, 0x01, 0x00]);
    assert_eq!(lines, vec!["bits 16\n\n".to_string(), "mov ax, 1\n".to_string()]);
}

#[test]
fn direct_address_as_source() {
    let lines = decode_lines(&[0x8B, 0x1E, 0x05, 0x00]);
    assert_eq!(lines, vec!["bits 16\n\n".to_string(), "mov bx, [5]\n".to_string()]);
}

#[test]
fn direct_address_as_destination() {
    let lines = decode_lines(&[0x89, 0x0E, 0x05, 0x00]);
    assert_eq!(lines, vec!["bits 16\n\n".to_string(), "mov [5], cx\n".to_string()]);
}

#[test]
fn negative_displacement_renders_signed() {
    let lines = decode_lines(&[0x8B, 0x46, 0xFF]);
    assert_eq!(lines, vec!["bits 16\n\n".to_string(), "mov ax, [bp + -1]\n".to_string()]);
}

#[test]
fn sixteen_bit_displacement() {
    let lines = decode_lines(&[0x8B, 0x84, 0x04, 0x01]);
    assert_eq!(lines, vec!["bits 16\n\n".to_string(), "mov ax, [si + 260]\n".to_string()]);
}

#[test]
fn word_immediate_to_memory_mov() {
    let lines = decode_lines(&[0xC7, 0x04, 0x2A, 0x01]);
    assert_eq!(lines, vec!["bits 16\n\n".to_string(), "mov [si], word 298\n".to_string()]);
}

#[test]
fn group_dispatched_add_immediate() {
    // 0x83: sign-extend with word, so a one-byte immediate
    let lines = decode_lines(&[0x83, 0xC3, 0x05]);
    assert_eq!(lines, vec!["bits 16\n\n".to_string(), "add bx, 5\n".to_string()]);
}

#[test]
fn group_dispatched_sub_immediate() {
    let lines = decode_lines(&[0x83, 0xEB, 0x05]);
    assert_eq!(lines, vec!["bits 16\n\n".to_string(), "sub bx, 5\n".to_string()]);
}

#[test]
fn group_dispatched_cmp_immediate() {
    let lines = decode_lines(&[0x83, 0xFB, 0x05]);
    assert_eq!(lines, vec!["bits 16\n\n".to_string(), "cmp bx, 5\n".to_string()]);
}

#[test]
fn full_width_immediate_add() {
    // 0x81: no sign-extend, word data, so a two-byte immediate
    let lines = decode_lines(&[0x81, 0xC1, 0x2C, 0x01]);
    assert_eq!(lines, vec!["bits 16\n\n".to_string(), "add cx, 300\n".to_string()]);
}

#[test]
fn immediate_to_accumulator_forms() {
    let lines = decode_lines(&[0x04, 0x09, 0x2D, 0x2A, 0x01, 0x3C, 0x07]);
    assert_eq!(
        lines,
        vec![
            "bits 16\n\n".to_string(),
            "add al, 9\n".to_string(),
            "sub ax, 298\n".to_string(),
            "cmp al, 7\n".to_string(),
        ]
    );
}

#[test]
fn sub_and_cmp_register_forms() {
    let lines = decode_lines(&[0x29, 0xD9, 0x39, 0xC3]);
    assert_eq!(
        lines,
        vec![
            "bits 16\n\n".to_string(),
            "sub cx, bx\n".to_string(),
            "cmp bx, ax\n".to_string(),
        ]
    );
}

#[test]
fn jump_label_is_reused_for_same_target() {
    // Both jumps land on the final instruction, so one label serves both.
    let jumps = [0x75, 0x02, 0x74, 0x00, 0x89, 0xD9];
    let lines = decode_lines(&jumps);
    assert_eq!(
        lines,
        vec![
            "bits 16\n\n".to_string(),
            "jne label0\n".to_string(),
            "je label0\n".to_string(),
            "label0:\n".to_string(),
            "mov cx, bx\n".to_string(),
        ]
    );
}

#[test]
fn distinct_targets_get_sequential_labels() {
    let jumps = [0x75, 0x02, 0x74, 0x02, 0x89, 0xD9, 0x89, 0xD9];
    let lines = decode_lines(&jumps);
    assert_eq!(
        lines,
        vec![
            "bits 16\n\n".to_string(),
            "jne label0\n".to_string(),
            "je label1\n".to_string(),
            "label0:\n".to_string(),
            "mov cx, bx\n".to_string(),
            "label1:\n".to_string(),
            "mov cx, bx\n".to_string(),
        ]
    );
}

#[test]
fn loop_and_jcxz_mnemonics() {
    let lines = decode_lines(&[0xE2, 0xFE, 0xE3, 0xFC]);
    assert_eq!(
        lines,
        vec![
            "bits 16\n\n".to_string(),
            "label0:\n".to_string(),
            "loop label0\n".to_string(),
            "jcxz label0\n".to_string(),
        ]
    );
}

#[test]
fn decode_is_deterministic() {
    let bytes = [0x75, 0xFE, 0x03, 0x18, 0xB1, 0x0C];
    assert_eq!(decode_lines(&bytes), decode_lines(&bytes));
}

#[test]
fn unknown_opcode_is_rejected() {
    assert_eq!(
        decode_instructions(&[0x90]),
        Err(DecodeError::UnknownOpcode { offset: 0 })
    );
}

#[test]
fn error_carries_offset_of_bad_instruction() {
    assert_eq!(
        decode_instructions(&[0x89, 0xD9, 0x90]),
        Err(DecodeError::UnknownOpcode { offset: 2 })
    );
}

#[test]
fn truncated_immediate_is_rejected() {
    assert_eq!(
        decode_instructions(&[0xB8, 0x01]),
        Err(DecodeError::Truncated { offset: 0 })
    );
}

#[test]
fn truncated_displacement_is_rejected() {
    assert_eq!(
        decode_instructions(&[0x8B, 0x5E]),
        Err(DecodeError::Truncated { offset: 0 })
    );
}

#[test]
fn partial_output_is_discarded_on_error() {
    // One good instruction, then a truncated one: all or nothing.
    assert_eq!(
        decode_instructions(&[0x89, 0xD9, 0xB8, 0x01]),
        Err(DecodeError::Truncated { offset: 2 })
    );
}

#[test]
fn unknown_group_row_is_rejected() {
    let mut decoder = Decoder::new();
    let mut output = String::new();
    let r = decode_from_group(&[0x90, 0x00], 0, &mut output, &mut decoder);
    assert_eq!(r, Err(DecodeError::UnknownGroupRow { offset: 0 }));
    assert_eq!(output, "");
}

#[test]
fn unknown_group_member_is_rejected() {
    let mut decoder = Decoder::new();
    let mut output = String::new();
    // reg = 3 selects no family in the 0x80 row
    let r = decode_from_group(&[0x80, 0x18, 0x05], 0, &mut output, &mut decoder);
    assert_eq!(r, Err(DecodeError::UnknownGroupMember { offset: 0 }));
}

#[test]
fn reserved_group_rows_have_no_members() {
    let mut decoder = Decoder::new();
    let mut output = String::new();
    let r = decode_from_group(&[0xD0, 0x00], 0, &mut output, &mut decoder);
    assert_eq!(r, Err(DecodeError::UnknownGroupMember { offset: 0 }));
}

#[test]
fn invalid_jump_opcode_is_rejected() {
    let mut decoder = Decoder::new();
    let mut output = String::new();
    let r = decode_conditional_jump(&[0x90, 0x00], 0, &mut output, &mut decoder);
    assert_eq!(r, Err(DecodeError::InvalidJumpOpcode { offset: 0 }));
}

#[test]
fn family_decoders_reject_foreign_opcodes() {
    let mut decoder = Decoder::new();
    let mut output = String::new();
    assert_eq!(
        decode_mov(&[0x03, 0x18], 0, &mut output, &mut decoder),
        Err(DecodeError::UnknownOpcode { offset: 0 })
    );
    assert_eq!(
        decode_add(&[0x89, 0xD9], 0, &mut output, &mut decoder),
        Err(DecodeError::UnknownOpcode { offset: 0 })
    );
    assert_eq!(
        decode_sub(&[0x89, 0xD9], 0, &mut output, &mut decoder),
        Err(DecodeError::UnknownOpcode { offset: 0 })
    );
    assert_eq!(
        decode_cmp(&[0x89, 0xD9], 0, &mut output, &mut decoder),
        Err(DecodeError::UnknownOpcode { offset: 0 })
    );
    assert_eq!(output, "");
}

#[test]
fn stub_consumes_nothing() {
    let mut decoder = Decoder::new();
    let mut output = String::new();
    assert_eq!(decode_stub(&[0x90], 0, &mut output, &mut decoder), Ok(0));
    assert_eq!(output, "");
}

#[test]
fn family_decoder_writes_one_line() {
    let mut decoder = Decoder::new();
    let mut output = String::new();
    let r = decode_mov(&[0x89, 0xD9], 0, &mut output, &mut decoder);
    assert_eq!(r, Ok(2));
    assert_eq!(output, "mov cx, bx\n");
}

#[test]
fn register_names_cover_all_sixteen() {
    let byte_names = ["al", "cl", "dl", "bl", "ah", "ch", "dh", "bh"];
    let word_names = ["ax", "cx", "dx", "bx", "sp", "bp", "si", "di"];
    for reg in 0..8u8 {
        assert_eq!(get_register_name(reg, false), byte_names[reg as usize]);
        assert_eq!(get_register_name(reg, true), word_names[reg as usize]);
    }
}

#[test]
fn byte_or_word_reads_little_endian() {
    let bytes = [0xB8, 0x34, 0x12];
    let mut consumed: usize = 1;
    let value = get_byte_or_word(&bytes, 0, &mut consumed, true);
    assert_eq!(value, 0x1234);
    assert_eq!(consumed, 3);

    let mut consumed: usize = 1;
    let value = get_byte_or_word(&bytes, 0, &mut consumed, false);
    assert_eq!(value, 0x34);
    assert_eq!(consumed, 2);
}

#[test]
fn error_reports_its_offset() {
    let e = DecodeError::Truncated { offset: 7 };
    assert_eq!(e.offset(), 7);
}

#[test]
fn listing_of_mixed_families() {
    let bytes = [
        0x03, 0x18, // add bx, [bx + si]
        0x89, 0xD9, // mov cx, bx
        0x3B, 0x5E, 0x00, // cmp bx, [bp]
        0x75, 0xF7, // jne back to the start
    ];
    let lines = decode_lines(&bytes);
    assert_eq!(
        lines,
        vec![
            "bits 16\n\n".to_string(),
            "label0:\n".to_string(),
            "add bx, [bx + si]\n".to_string(),
            "mov cx, bx\n".to_string(),
            "cmp bx, [bp]\n".to_string(),
            "jne label0\n".to_string(),
        ]
    );
}
