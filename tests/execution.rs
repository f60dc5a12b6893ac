use sim8086::decoder::{decode_bitstream, DecodedArgument};
use sim8086::simulator::{
    execute_instructions, execute_register_register_add, execute_register_register_cmp,
    execute_register_register_mov, execute_register_register_sub, get_parent_register,
    get_register_value, get_source_part, register_name_of_slot, set_flags, ConditionFlags,
    ExecError, Register, RegisterFile, RegisterMode, SimulationResult, REGISTER_COUNT,
};

fn program(lines: &[&str]) -> Vec<DecodedArgument> {
    lines
        .iter()
        .map(|l| DecodedArgument::parse(l).expect("line should parse"))
        .collect()
}

fn run(lines: &[&str]) -> SimulationResult {
    execute_instructions(&program(lines)).expect("program should run")
}

fn value(result: &SimulationResult, name: &str) -> u16 {
    result.final_status.value_of(name).expect("known register")
}

#[test]
fn register_aliasing_of_halves() {
    let r = run(&["mov al, 0x12", "mov ah, 0x34"]);
    assert_eq!(value(&r, "ax"), 0x3412);
}

#[test]
fn subtracting_a_register_from_itself_sets_zero() {
    let r = run(&["mov ax, 5", "sub ax, ax"]);
    assert_eq!(value(&r, "ax"), 0);
    assert!(r.flags.zero);
    assert!(!r.flags.sign);
}

#[test]
fn negative_result_sets_sign() {
    let r = run(&["mov ax, 1", "sub ax, 2"]);
    assert_eq!(value(&r, "ax"), 0xFFFF);
    assert!(r.flags.sign);
    assert!(!r.flags.zero);
}

#[test]
fn scenario_add_and_sub_sequence() {
    let r = run(&["mov ax, 5", "add ax, 10", "sub ax, 3"]);
    assert_eq!(value(&r, "ax"), 0x000C);
    assert!(!r.flags.zero);
    assert_eq!(r.steps.len(), 3);
    assert_eq!(r.steps[1].dest_reg, "ax");
    assert_eq!(r.steps[1].dest_start, 5);
    assert_eq!(r.steps[1].dest_end, 15);
}

#[test]
fn word_addition_carries_into_high_byte() {
    let r = run(&["mov ax, 0x00FF", "add ax, 1"]);
    assert_eq!(value(&r, "ax"), 0x0100);
    let r = run(&["mov bx, 0x0100", "sub bx, 1"]);
    assert_eq!(value(&r, "bx"), 0x00FF);
}

#[test]
fn byte_arithmetic_wraps_within_its_half() {
    let r = run(&["mov ax, 0x12FF", "add al, 1"]);
    assert_eq!(value(&r, "ax"), 0x1200);
    assert!(!r.flags.zero);
    let r = run(&["mov bh, 0", "sub bh, 1"]);
    assert_eq!(value(&r, "bx"), 0xFF00);
    assert!(r.flags.sign);
}

#[test]
fn cmp_leaves_register_unchanged() {
    let r = run(&["mov bx, 3", "cmp bx, 3"]);
    assert_eq!(value(&r, "bx"), 3);
    assert!(r.flags.zero);
    assert_eq!(r.steps[1].dest_start, 3);
    assert_eq!(r.steps[1].dest_end, 0);
}

#[test]
fn mov_leaves_flags_unchanged() {
    let r = run(&["mov ax, 1", "sub ax, 1", "mov ax, 7"]);
    assert!(r.flags.zero);
    assert_eq!(value(&r, "ax"), 7);
}

#[test]
fn byte_moves_between_registers() {
    let r = run(&["mov ax, 0x1234", "mov bl, ah", "mov ch, al"]);
    assert_eq!(value(&r, "bx"), 0x0012);
    assert_eq!(value(&r, "cx"), 0x3400);
}

#[test]
fn immediates_in_several_notations() {
    let r = run(&["mov ax, -1", "mov bx, 0xBEEF", "mov cx, 65408", "mov dx, -32768"]);
    assert_eq!(value(&r, "ax"), 0xFFFF);
    assert_eq!(value(&r, "bx"), 0xBEEF);
    assert_eq!(value(&r, "cx"), 0xFF80);
    assert_eq!(value(&r, "dx"), 0x8000);
}

#[test]
fn register_names_in_any_case() {
    let r = run(&["mov AX, 0x1234", "mov bL, AH", "add Cx, +7"]);
    assert_eq!(value(&r, "ax"), 0x1234);
    assert_eq!(value(&r, "BX"), 0x0012);
    assert_eq!(value(&r, "cx"), 7);
    assert_eq!(r.steps[0].dest_reg, "ax");
}

#[test]
fn immediate_with_plus_sign() {
    let r = run(&["mov ax, +5", "add ax, +10"]);
    assert_eq!(value(&r, "ax"), 15);
}

#[test]
fn segment_registers_are_addressable() {
    let r = run(&["mov es, 0x10", "mov ds, es"]);
    assert_eq!(value(&r, "ds"), 0x10);
    assert_eq!(value(&r, "es"), 0x10);
}

#[test]
fn jumps_are_not_executed() {
    let r = run(&["mov ax, 1", "je 2", "loop 254"]);
    assert_eq!(r.steps.len(), 1);
    assert_eq!(value(&r, "ax"), 1);
}

#[test]
fn final_registers_start_at_zero() {
    let r = run(&[]);
    for i in 0..REGISTER_COUNT {
        assert_eq!(get_register_value(&r.final_status.get(i)), 0);
    }
    assert_eq!(register_name_of_slot(0), "ax");
    assert_eq!(register_name_of_slot(11), "es");
    assert!(!r.flags.zero && !r.flags.sign);
}

#[test]
fn invalid_operands_are_errors() {
    assert!(matches!(execute_instructions(&program(&["mov ax, 0xZZ"])), Err(ExecError::InvalidImmediate)));
    assert!(matches!(execute_instructions(&program(&["mov ax, 70000"])), Err(ExecError::InvalidImmediate)));
    assert!(matches!(execute_instructions(&program(&["mov ax, foo"])), Err(ExecError::InvalidSource)));
    assert!(matches!(execute_instructions(&program(&["mov 5, ax"])), Err(ExecError::InvalidDestination)));
    assert!(matches!(execute_instructions(&program(&["add [bx], 1"])), Err(ExecError::InvalidDestination)));
}

#[test]
fn single_step_functions() {
    let mut regs = RegisterFile::new();
    let mut flags = ConditionFlags { zero: false, sign: false };
    let step = execute_register_register_mov(&program(&["mov cx, 300"])[0], &mut regs).unwrap();
    assert_eq!(step.dest_reg, "cx");
    assert_eq!(step.dest_end, 300);
    let step = execute_register_register_add(&program(&["add cl, 0x10"])[0], &mut regs, &mut flags).unwrap();
    assert_eq!(step.dest_start, 300);
    assert_eq!(step.dest_end, 316);
    let step = execute_register_register_sub(&program(&["sub cx, cx"])[0], &mut regs, &mut flags).unwrap();
    assert_eq!(step.dest_end, 0);
    assert!(flags.zero);
    let step = execute_register_register_cmp(&program(&["cmp cx, 1"])[0], &regs, &mut flags).unwrap();
    assert_eq!(step.dest_end, 0xFFFF);
    assert!(flags.sign && !flags.zero);
    assert_eq!(regs.value_of("cx"), Some(0));
}

#[test]
fn register_helpers() {
    let r = Register { low: 0x34, high: 0x12 };
    assert_eq!(get_register_value(&r), 0x1234);
    assert_eq!(get_source_part("ah", &r), 0x12);
    assert_eq!(get_source_part("al", &r), 0x34);
    assert_eq!(get_source_part("ax", &r), 0x34);
    assert_eq!(RegisterMode::parse("bh"), Some(RegisterMode::High));
    assert_eq!(RegisterMode::parse("dl"), Some(RegisterMode::Low));
    assert_eq!(RegisterMode::parse("si"), Some(RegisterMode::Universal));
    assert_eq!(RegisterMode::parse("xx"), None);
    assert_eq!(RegisterMode::parse("AH"), Some(RegisterMode::High));
    assert_eq!(RegisterMode::parse("Bl"), Some(RegisterMode::Low));
    assert_eq!(RegisterMode::parse("DS"), Some(RegisterMode::Universal));
    assert_eq!(get_parent_register("dl"), "dx");
    assert_eq!(get_parent_register("DL"), "DL");
    assert_eq!(get_parent_register("AX"), "AX");
    assert_eq!(get_parent_register("SI"), "SI");
    assert_eq!(get_parent_register("zz"), "zz");
    assert_eq!(get_parent_register("ch"), "cx");
    assert_eq!(get_parent_register("bp"), "bp");
    let mut flags = ConditionFlags { zero: false, sign: false };
    set_flags(0x8000, &mut flags);
    assert!(flags.sign && !flags.zero);
    set_flags(0, &mut flags);
    assert!(flags.zero && !flags.sign);
}

#[test]
fn decoded_program_executes() {
    let decoded = decode_bitstream(vec![0xB8, 0x05, 0x00, 0x83, 0xC0, 0x0A, 0x83, 0xE8, 0x03]).unwrap();
    let lines: Vec<String> = decoded.iter().map(|d| d.render()).collect();
    assert_eq!(lines, vec!["mov ax, 5", "add ax, 10", "sub ax, 3"]);
    let r = execute_instructions(&decoded).unwrap();
    assert_eq!(value(&r, "ax"), 12);
}
