use volttrace::error::VoltError;
use volttrace::run_script_bytes;
use volttrace::script::{compile_and_run, parse_program, Instruction};

#[test]
fn add_and_emit() {
    let data = [
        7u8, 0, 0, 0, 4, 0, //
        0x01, 0, 5, 0, 0, 0, //
        0x01, 1, 7, 0, 0, 0, //
        0x03, 2, 0, 1, //
        0x0a, 2, //
        0xff,
    ];
    let report = compile_and_run(&data).unwrap();
    assert_eq!(report.script_id, 7);
    assert_eq!(report.emitted, vec![12]);
    assert_eq!(report.steps, 5);
    assert_eq!(report.checksum, 52);
}

#[test]
fn empty_program_halts() {
    let program = parse_program(&[]).unwrap();
    assert_eq!(program.script_id, 0);
    assert_eq!(program.register_count, 16);
    assert_eq!(program.instructions.len(), 1);
    assert!(matches!(program.instructions[0], Instruction::Halt));
    let report = compile_and_run(&[]).unwrap();
    assert_eq!((report.steps, report.checksum), (1, 0));
    assert!(report.emitted.is_empty());
}

#[test]
fn endless_loop_stops_after_ten_thousand_steps() {
    let data = [0u8, 0, 0, 0, 4, 0, 0x02, 0, 1, 0, 0, 0, 0x06, 0, 0x00];
    let report = run_script_bytes(&data).unwrap();
    assert_eq!(report.steps, 10_000);
    assert!(report.emitted.is_empty());
}

#[test]
fn pinned_window_digest() {
    let data = [0u8, 0, 0, 0, 4, 0, 0x07, 0, 2, 0x02, 0, 5, 0, 0, 0, 0x09, 3, 1, 0x0a, 3];
    let report = compile_and_run(&data).unwrap();
    assert_eq!(report.emitted, vec![161]);
    assert_eq!(report.steps, 4);
    assert_eq!(report.checksum, 161);
}

#[test]
fn compare_and_jump() {
    let data = [
        1u8, 0, 0, 0, 4, 0, //
        0x01, 0, 3, 0, 0, 0, //
        0x01, 1, 2, 0, 0, 0, //
        0x05, 2, 0, 1, //
        0x06, 2, 2, //
        0x0a, 0, //
        0x0a, 1, //
        0xff,
    ];
    let report = compile_and_run(&data).unwrap();
    assert_eq!(report.emitted, vec![2]);
    assert_eq!(report.steps, 6);
    assert_eq!(report.checksum, 10);
}

#[test]
fn grow_adds_timestamp_registers() {
    let data = [0u8, 0, 0, 0, 4, 0, 0x08, 3, 0, 0x0a, 5, 0x0a, 9];
    let report = compile_and_run(&data).unwrap();
    assert_eq!(report.emitted, vec![4885, 0]);
    assert_eq!(report.steps, 3);
}

#[test]
fn register_count_is_clamped() {
    assert_eq!(parse_program(&[0, 0, 0, 0, 1, 0]).unwrap().register_count, 4);
    assert_eq!(parse_program(&[0, 0, 0, 0, 0xff, 0xff]).unwrap().register_count, 256);
}

#[test]
fn unknown_opcode_becomes_xor() {
    let program = parse_program(&[0, 0, 0, 0, 4, 0, 0x37]).unwrap();
    assert!(matches!(program.instructions[0], Instruction::Xor { dst: 7, a: 14, b: 11 }));
}

#[test]
fn truncated_instruction_is_an_error() {
    assert_eq!(
        compile_and_run(&[0, 0, 0, 0, 4, 0, 0x01, 0]).unwrap_err(),
        VoltError::Truncated { needed: 4, remaining: 0, context: "script program" }
    );
}
