use sim8086::decoder::{decode_bitstream, sign_extend, DecodeError, DecodedArgument, Mode};
use sim8086::instruction_table::{generate_instruction_table, InstructionLookup};
use sim8086::text::{decimal_string, decode_memory_address, decode_register};

fn decode_all(bytes: &[u8]) -> Vec<DecodedArgument> {
    decode_bitstream(bytes.to_vec()).expect("stream should decode")
}

fn expect_one(bytes: &[u8], mnemonic: &str, destination: &str, source: &str) {
    let decoded = decode_all(bytes);
    assert_eq!(decoded.len(), 1, "bytes {:?}", bytes);
    let d = &decoded[0];
    assert_eq!(d.operand, mnemonic, "bytes {:?}", bytes);
    assert_eq!(d.destination, destination, "bytes {:?}", bytes);
    assert_eq!(d.source, source, "bytes {:?}", bytes);
    assert_eq!(d.byte_count, bytes.len(), "bytes {:?}", bytes);
}

#[test]
fn scenario_mov_register_to_register() {
    expect_one(&[0x89, 0xD9], "mov", "cx", "bx");
}

#[test]
fn scenario_mov_immediate_to_byte_register() {
    expect_one(&[0xB1, 0x0C], "mov", "cl", "12");
}

#[test]
fn fixture_mov_register_forms() {
    expect_one(&[0x8B, 0xD9], "mov", "bx", "cx");
    expect_one(&[0x88, 0xE5], "mov", "ch", "ah");
    expect_one(&[0x89, 0xDE], "mov", "si", "bx");
}

#[test]
fn fixture_mov_memory_forms() {
    expect_one(&[0x8A, 0x00], "mov", "al", "[bx + si]");
    expect_one(&[0x8B, 0x1B], "mov", "bx", "[bp + di]");
    expect_one(&[0x8B, 0x56, 0x00], "mov", "dx", "[bp]");
    expect_one(&[0x8A, 0x60, 0x04], "mov", "ah", "[bx + si + 4]");
    expect_one(&[0x8A, 0x80, 0x87, 0x13], "mov", "al", "[bx + si + 4999]");
    expect_one(&[0x89, 0x09], "mov", "[bx + di]", "cx");
    expect_one(&[0x88, 0x6E, 0x00], "mov", "[bp]", "ch");
}

#[test]
fn fixture_mov_direct_address() {
    expect_one(&[0x8B, 0x2E, 0x05, 0x00], "mov", "bp", "5");
    expect_one(&[0x8B, 0x1E, 0x82, 0x0D], "mov", "bx", "3458");
}

#[test]
fn fixture_mov_immediate_forms() {
    expect_one(&[0xB9, 0x0C, 0x00], "mov", "cx", "12");
    expect_one(&[0xBA, 0x6C, 0x0F], "mov", "dx", "3948");
    expect_one(&[0xB5, 0xF4], "mov", "ch", "244");
    expect_one(&[0xC6, 0x03, 0x07], "mov", "[bp + di]", "7");
    expect_one(&[0xC7, 0x85, 0x85, 0x03, 0x5B, 0x01], "mov", "[di + 901]", "347");
}

#[test]
fn fixture_mov_accumulator_memory() {
    expect_one(&[0xA1, 0xFB, 0x09], "mov", "ax", "[2555]");
    expect_one(&[0xA0, 0x10, 0x00], "mov", "al", "[16]");
    expect_one(&[0xA3, 0xFA, 0x09], "mov", "[2554]", "ax");
    expect_one(&[0xA2, 0x0F, 0x00], "mov", "[15]", "al");
}

#[test]
fn fixture_add_forms() {
    expect_one(&[0x03, 0x18], "add", "bx", "[bx + si]");
    expect_one(&[0x03, 0x5E, 0x00], "add", "bx", "[bp]");
    expect_one(&[0x83, 0xC6, 0x02], "add", "si", "2");
    expect_one(&[0x05, 0xE8, 0x03], "add", "ax", "1000");
    expect_one(&[0x04, 0xE2], "add", "al", "226");
    expect_one(&[0x01, 0xD8], "add", "ax", "bx");
}

#[test]
fn fixture_sub_forms() {
    expect_one(&[0x2B, 0x5E, 0x00], "sub", "bx", "[bp]");
    expect_one(&[0x83, 0xEE, 0x02], "sub", "si", "2");
    expect_one(&[0x29, 0xD8], "sub", "ax", "bx");
    expect_one(&[0x2C, 0x09], "sub", "al", "9");
}

#[test]
fn fixture_cmp_forms() {
    expect_one(&[0x3B, 0x18], "cmp", "bx", "[bx + si]");
    expect_one(&[0x83, 0xFE, 0x02], "cmp", "si", "2");
    expect_one(&[0x3C, 0xE2], "cmp", "al", "226");
    expect_one(&[0x39, 0xD1], "cmp", "cx", "dx");
}

#[test]
fn fixture_jumps_and_loops() {
    expect_one(&[0x74, 0x02], "je", "2", "");
    expect_one(&[0x75, 0xFC], "jne", "252", "");
    expect_one(&[0x7C, 0x0A], "jl", "10", "");
    expect_one(&[0xE2, 0xFE], "loop", "254", "");
    expect_one(&[0xE1, 0x03], "loopz", "3", "");
    expect_one(&[0xE0, 0x03], "loopnz", "3", "");
    expect_one(&[0xE3, 0x01], "jcxz", "1", "");
}

#[test]
fn sign_extension_of_immediate_byte() {
    expect_one(&[0x83, 0xC0, 0x80], "add", "ax", "65408");
    expect_one(&[0x81, 0xC0, 0x80, 0x00], "add", "ax", "128");
    assert_eq!(sign_extend(0x80), 0xFF80);
    assert_eq!(sign_extend(0xFF), 0xFFFF);
    assert_eq!(sign_extend(0x7F), 0x007F);
}

#[test]
fn direction_flag_swaps_operands() {
    let with_d = decode_all(&[0x8B, 0xD9]);
    let without_d = decode_all(&[0x89, 0xD9]);
    assert_eq!(with_d[0].destination, without_d[0].source);
    assert_eq!(with_d[0].source, without_d[0].destination);
    assert_eq!(with_d[0].operand, without_d[0].operand);
}

#[test]
fn direction_flag_swaps_only_first_instruction() {
    let with_d = decode_all(&[0x03, 0x5E, 0x00, 0xB1, 0x0C]);
    let without_d = decode_all(&[0x01, 0x5E, 0x00, 0xB1, 0x0C]);
    assert_eq!(with_d.len(), 2);
    assert_eq!(without_d.len(), 2);
    assert_eq!(with_d[0].destination, "bx");
    assert_eq!(with_d[0].source, "[bp]");
    assert_eq!(without_d[0].destination, "[bp]");
    assert_eq!(without_d[0].source, "bx");
    assert_eq!(with_d[0].byte_count, without_d[0].byte_count);
    assert_eq!(with_d[1].destination, without_d[1].destination);
    assert_eq!(with_d[1].source, without_d[1].source);
}

#[test]
fn unrecognised_byte_is_skipped() {
    let decoded = decode_all(&[0x89, 0xD9, 0x0F, 0xB1, 0x0C]);
    assert_eq!(decoded.len(), 2);
    assert_eq!(decoded[0].operand, "mov");
    assert_eq!(decoded[0].destination, "cx");
    assert_eq!(decoded[0].source, "bx");
    assert_eq!(decoded[1].operand, "mov");
    assert_eq!(decoded[1].destination, "cl");
    assert_eq!(decoded[1].source, "12");
}

#[test]
fn several_instructions_in_order() {
    let decoded = decode_all(&[0x89, 0xD9, 0xB1, 0x0C, 0x74, 0x02]);
    assert_eq!(decoded.len(), 3);
    assert_eq!(decoded[0].operand, "mov");
    assert_eq!(decoded[1].source, "12");
    assert_eq!(decoded[2].operand, "je");
}

#[test]
fn empty_and_single_byte_streams() {
    assert!(decode_all(&[]).is_empty());
    assert!(decode_all(&[0x89]).is_empty());
    assert!(decode_all(&[0x0F, 0x0F]).is_empty());
}

#[test]
fn truncated_instruction_is_an_error() {
    assert!(matches!(decode_bitstream(vec![0xB9, 0x0C]), Err(DecodeError::Truncated)));
    assert!(matches!(decode_bitstream(vec![0x8A, 0x80, 0x87]), Err(DecodeError::Truncated)));
    assert!(matches!(decode_bitstream(vec![0x8B, 0x2E, 0x05]), Err(DecodeError::Truncated)));
    assert!(matches!(decode_bitstream(vec![0xA1, 0x00]), Err(DecodeError::Truncated)));
    assert!(matches!(decode_bitstream(vec![0xA2, 0x01]), Err(DecodeError::Truncated)));
}

#[test]
fn fixture_segment_register_moves() {
    expect_one(&[0x8E, 0x00], "mov", "es", "[bx + si]");
    expect_one(&[0x8C, 0x00], "mov", "[bx + si]", "es");
    expect_one(&[0x8E, 0x5E, 0x04], "mov", "ds", "[bp + 4]");
    expect_one(&[0x8C, 0x4F, 0x02], "mov", "[bx + 2]", "cs");
    expect_one(&[0x8E, 0x16, 0x10, 0x00], "mov", "ss", "16");
}

#[test]
fn segment_register_move_lacks_word_size() {
    assert!(matches!(decode_bitstream(vec![0x8E, 0xD8]), Err(DecodeError::MissingWordSize)));
}

#[test]
fn instruction_table_shape() {
    let table = generate_instruction_table();
    assert_eq!(table.len(), 34);
    assert_eq!(table[0].0, 0b10001000);
    assert_eq!(table[3].0, 0b10100000);
    assert_eq!(table[4].0, 0b10100010);
    for i in [3usize, 4] {
        match &table[i].1 {
            InstructionLookup::Instr(ins) => {
                assert_eq!(ins.offset, 7);
                assert_eq!(ins.flags.len(), 1);
            }
            InstructionLookup::MultiInstr(_) => panic!("accumulator entries are single encodings"),
        }
    }
    match &table[0].1 {
        InstructionLookup::Instr(ins) => {
            assert_eq!(ins.operand, "mov");
            assert_eq!(ins.offset, 6);
        }
        InstructionLookup::MultiInstr(_) => panic!("first entry is a single encoding"),
    }
    match &table[8].1 {
        InstructionLookup::MultiInstr(group) => {
            assert_eq!(group.len(), 3);
            assert_eq!(group[1].1.operand, "sub");
            assert_eq!(group[1].0.value, 0b101);
        }
        InstructionLookup::Instr(_) => panic!("entry 8 is a group"),
    }
}

#[test]
fn mode_parse_values() {
    assert_eq!(Mode::parse(0), Mode::MemoryModeNoDisplacement);
    assert_eq!(Mode::parse(1), Mode::MemoryModeByteDisplacement);
    assert_eq!(Mode::parse(2), Mode::MemoryModeWordDisplacement);
    assert_eq!(Mode::parse(3), Mode::RegisterMode);
    assert_eq!(Mode::parse(4), Mode::NoMode);
}

#[test]
fn text_helpers() {
    assert_eq!(decimal_string(0), "0");
    assert_eq!(decimal_string(7), "7");
    assert_eq!(decimal_string(4999), "4999");
    assert_eq!(decimal_string(65535), "65535");
    assert_eq!(decode_register(0, 1), "cl");
    assert_eq!(decode_register(1, 7), "di");
    assert_eq!(decode_memory_address(0, 0), "[bx + si]");
    assert_eq!(decode_memory_address(6, 12), "[bp + 12]");
}
