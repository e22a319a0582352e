//! Tests for the VM command parser and the code generator.

use hack_toolchain::code_gen::{halt, translate, GenContext};
use hack_toolchain::errors::VmError;
use hack_toolchain::vm_command::{Command, Segment, VirtualMemoryAddr};

fn ctx() -> GenContext {
    GenContext::new("Prog").unwrap()
}

#[test]
fn nullary_commands_parse() {
    let cases = [
        ("add", Command::Add),
        ("sub", Command::Sub),
        ("neg", Command::Neg),
        ("eq", Command::Eq),
        ("gt", Command::Gt),
        ("lt", Command::Lt),
        ("and", Command::And),
        ("or", Command::Or),
        ("not", Command::Not),
    ];
    for (text, cmd) in cases {
        assert_eq!(Command::parse(text).unwrap(), cmd);
    }
}

#[test]
fn push_and_pop_parse() {
    assert_eq!(
        Command::parse("push constant 7").unwrap(),
        Command::Push {
            source: VirtualMemoryAddr { segment: Segment::Constant, index: 7 },
        },
    );
    assert_eq!(
        Command::parse("  pop local 0  ").unwrap(),
        Command::Pop { dest: VirtualMemoryAddr { segment: Segment::Local, index: 0 } },
    );
    for seg in ["argument", "local", "static", "constant", "this", "that", "pointer", "temp"] {
        assert!(Command::parse(&format!("push {seg} 1")).is_ok(), "for {seg}");
    }
}

#[test]
fn pop_constant_is_rejected_at_parse_time() {
    // No code generation is ever attempted for it.
    assert_eq!(Command::parse("pop constant 0").unwrap_err(), VmError::IllegalPop);
    assert_eq!(Command::parse("pop constant 3").unwrap_err(), VmError::IllegalPop);
}

#[test]
fn command_parse_errors() {
    assert_eq!(Command::parse("mul").unwrap_err(), VmError::UnrecognizedCommand);
    assert_eq!(Command::parse("push").unwrap_err(), VmError::UnrecognizedCommand);
    assert_eq!(Command::parse("shove local 1").unwrap_err(), VmError::UnrecognizedCommand);
    assert_eq!(Command::parse("push heap 1").unwrap_err(), VmError::UnrecognizedSegment);
    assert_eq!(Command::parse("push local x").unwrap_err(), VmError::BadIndex);
    assert_eq!(Command::parse("push local 32768").unwrap_err(), VmError::IndexOutOfRange);
    assert_eq!(Command::parse("push local 32767").is_ok(), true);
}

#[test]
fn eq() {
    let command = Command::Eq;
    let code = command.code_gen(&mut ctx()).unwrap();

    let expected = "\
// *** eq ***

// SP--
@SP
M=M-1

// D := *SP
A=M
D=M

// SP--
@SP
M=M-1

// D := *SP - D
A=M
D=M-D

// jump to 'true' case
@TRUE_0
D;JEQ

// *SP := false
@SP
A=M
M=0

// jump to end of comparison
@END_0
0;JMP

(TRUE_0)

// *SP := true
@SP
A=M
M=-1

(END_0)

// SP++
@SP
M=M+1



";
    assert_eq!(code, expected);
}

#[test]
fn consecutive_comparisons_never_share_labels() {
    let mut c = ctx();
    let first = Command::Eq.code_gen(&mut c).unwrap();
    let second = Command::Eq.code_gen(&mut c).unwrap();
    assert!(first.contains("@TRUE_0") && first.contains("@END_0"));
    assert!(second.contains("@TRUE_1") && second.contains("@END_1"));
    assert!(!second.contains("@TRUE_0") && !second.contains("@END_0"));
    let third = Command::Gt.code_gen(&mut c).unwrap();
    assert!(third.contains("@TRUE_2") && third.contains("D;JGT"));
}

#[test]
fn push_constant_text() {
    let code = Command::parse("push constant 7").unwrap().code_gen(&mut ctx()).unwrap();
    let expected = "\
// *** push constant 7 ***

// D := 7
@7
D=A

// *SP := D
@SP
A=M
M=D

// SP++
@SP
M=M+1



";
    assert_eq!(code, expected);
}

#[test]
fn pop_local_text() {
    let code = Command::parse("pop local 2").unwrap().code_gen(&mut ctx()).unwrap();
    let expected = "\
// *** pop local 2 ***

// SP--
@SP
M=M-1

// R13 := LCL + 2
@LCL
D=M
@2
D=D+A
@R13
M=D

// *R13 := *SP
@SP
A=M
D=M
@R13
A=M
M=D



";
    assert_eq!(code, expected);
}

#[test]
fn static_segment_uses_unit_name() {
    let mut c = ctx();
    let pushed = Command::parse("push static 5").unwrap().code_gen(&mut c).unwrap();
    assert!(pushed.contains("@Prog.5"));
    let popped = Command::parse("pop static 5").unwrap().code_gen(&mut c).unwrap();
    assert!(popped.contains("@Prog.5"));
}

#[test]
fn pointer_segment_addresses_this_and_that() {
    let mut c = ctx();
    let p0 = Command::parse("push pointer 0").unwrap().code_gen(&mut c).unwrap();
    assert!(p0.contains("@THIS"));
    let p1 = Command::parse("pop pointer 1").unwrap().code_gen(&mut c).unwrap();
    assert!(p1.contains("@THAT"));
    let bad = Command::parse("push pointer 2").unwrap().code_gen(&mut c).unwrap_err();
    assert_eq!(bad, VmError::InvalidPointerIndex);
}

#[test]
fn temp_segment_is_fixed_at_five() {
    let mut c = ctx();
    let t3 = Command::parse("push temp 3").unwrap().code_gen(&mut c).unwrap();
    assert!(t3.contains("@R8"));
    let t0 = Command::parse("pop temp 0").unwrap().code_gen(&mut c).unwrap();
    assert!(t0.contains("@R5"));
    let bad = Command::parse("pop temp 8").unwrap().code_gen(&mut c).unwrap_err();
    assert_eq!(bad, VmError::InvalidTempIndex);
}

#[test]
fn command_text_renders_surface_syntax() {
    assert_eq!(Command::parse("push temp 3").unwrap().text(), "push temp 3");
    assert_eq!(Command::parse("pop argument 21").unwrap().text(), "pop argument 21");
    assert_eq!(Command::Add.text(), "add");
    assert_eq!(Segment::Pointer.text(), "pointer");
}

#[test]
fn halt_fragment() {
    assert_eq!(halt(), "// Halt.\n(INFINITE_LOOP)\n@INFINITE_LOOP\n0;JMP\n");
}

#[test]
fn unit_name_must_be_a_valid_symbol() {
    assert_eq!(GenContext::new("").unwrap_err(), VmError::InvalidUnitName);
    assert_eq!(GenContext::new("1prog").unwrap_err(), VmError::InvalidUnitName);
    assert_eq!(GenContext::new("pro gram").unwrap_err(), VmError::InvalidUnitName);
    assert!(GenContext::new("Prog_2.part").is_ok());
}

#[test]
fn translate_reports_failing_line() {
    let src: Vec<String> =
        ["push constant 1", "pop constant 1", "add"].iter().map(|s| s.to_string()).collect();
    let e = translate(&src, &mut ctx()).unwrap_err();
    assert_eq!(e.error, VmError::IllegalPop);
    assert_eq!(e.line, 1);
}

#[test]
fn translate_concatenates_fragments() {
    let src: Vec<String> = ["push constant 1", "eq"].iter().map(|s| s.to_string()).collect();
    let mut c = ctx();
    let one = Command::parse("push constant 1").unwrap().code_gen(&mut ctx()).unwrap();
    let two = Command::parse("eq").unwrap().code_gen(&mut ctx()).unwrap();
    let whole = translate(&src, &mut c).unwrap();
    assert_eq!(whole, format!("{one}{two}"));
}
