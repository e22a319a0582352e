//! Tests for the assembly line parser, the symbol table, and the two-pass
//! assembler pipeline.

use hack_toolchain::assembler::{first_pass, remove_comments, second_pass, translate};
use hack_toolchain::errors::AsmError;
use hack_toolchain::instruction::Line;
use hack_toolchain::symbol_table::SymbolTable;

fn lines(v: &[&str]) -> Vec<String> {
    v.iter().map(|s| s.to_string()).collect()
}

#[test]
fn line_parse_classifies() {
    match Line::parse("(LOOP)").unwrap() {
        Line::Label(name) => assert_eq!(name, "LOOP"),
        other => panic!("expected a label, got {other:?}"),
    }
    match Line::parse("  @counter  ").unwrap() {
        Line::Instr(_) => {},
        other => panic!("expected an instruction, got {other:?}"),
    }
    match Line::parse("D=D+1").unwrap() {
        Line::Instr(_) => {},
        other => panic!("expected an instruction, got {other:?}"),
    }
}

#[test]
fn line_parse_rejects_bad_labels_and_symbols() {
    assert_eq!(Line::parse("(LOOP").unwrap_err(), AsmError::BadLabel);
    assert_eq!(Line::parse("(LO OP)").unwrap_err(), AsmError::InvalidSymbol);
    assert_eq!(Line::parse("(1LOOP)").unwrap_err(), AsmError::InvalidSymbol);
    assert_eq!(Line::parse("@na-me").unwrap_err(), AsmError::InvalidSymbol);
    // Symbols may hold letters, digits, `_ . $ :`, and not start with a digit.
    assert!(Line::parse("@a_b.c$d:e9").is_ok());
}

#[test]
fn predefined_symbols() {
    let table = SymbolTable::new();
    for (name, addr) in [
        ("R0", 0u16),
        ("R1", 1),
        ("R13", 13),
        ("R15", 15),
        ("SP", 0),
        ("LCL", 1),
        ("ARG", 2),
        ("THIS", 3),
        ("THAT", 4),
        ("SCREEN", 16384),
        ("KBD", 24576),
    ] {
        assert_eq!(table.lookup_symbol(name), Some(addr), "for {name}");
    }
    assert_eq!(table.lookup_symbol("LOOP"), None);
}

#[test]
fn binding_a_symbol_twice_fails() {
    let mut table = SymbolTable::new();
    table.new_label("LOOP".to_string(), 7).unwrap();
    // Re-binding fails whether or not the values match.
    assert_eq!(table.new_label("LOOP".to_string(), 7).unwrap_err(), AsmError::DuplicateSymbol);
    assert_eq!(table.new_label("LOOP".to_string(), 8).unwrap_err(), AsmError::DuplicateSymbol);
    assert_eq!(table.new_variable("LOOP".to_string()).unwrap_err(), AsmError::DuplicateSymbol);
    // The first binding is untouched.
    assert_eq!(table.lookup_symbol("LOOP"), Some(7));
    // Predefined names cannot be re-bound either.
    assert_eq!(table.new_label("SP".to_string(), 0).unwrap_err(), AsmError::DuplicateSymbol);
}

#[test]
fn variables_allocate_from_sixteen() {
    let mut table = SymbolTable::new();
    assert_eq!(table.new_variable("first".to_string()).unwrap(), 16);
    assert_eq!(table.new_variable("second".to_string()).unwrap(), 17);
    // Re-referencing the first yields 16 again, not a new allocation.
    assert_eq!(table.lookup_symbol("first"), Some(16));
    assert_eq!(table.new_variable("third".to_string()).unwrap(), 18);
}

#[test]
fn forward_label_reference_resolves() {
    // The label's address is the count of real instructions before it: 2.
    let src = lines(&["@END", "0;JMP", "(END)", "@END", "0;JMP"]);
    let out = translate(&src).unwrap();
    assert_eq!(out.len(), 4);
    assert_eq!(out[0], "0000000000000010");
    assert_eq!(out[2], "0000000000000010");
}

#[test]
fn variable_references_in_a_program() {
    let src = lines(&["@x", "@y", "@x"]);
    let out = translate(&src).unwrap();
    assert_eq!(out, vec!["0000000000010000", "0000000000010001", "0000000000010000"]);
}

#[test]
fn duplicate_label_aborts_run() {
    let src = lines(&["(A_LBL)", "0", "(A_LBL)", "0"]);
    let e = translate(&src).unwrap_err();
    assert_eq!(e.error, AsmError::DuplicateSymbol);
    assert_eq!(e.line, 2);
}

#[test]
fn parse_error_carries_line_position() {
    let src = lines(&["@1", "D=Q", "@2"]);
    let e = translate(&src).unwrap_err();
    assert_eq!(e.error, AsmError::UnknownComp);
    assert_eq!(e.line, 1);
}

#[test]
fn too_many_instructions_is_rejected() {
    let mut src: Vec<String> = Vec::new();
    for _ in 0..32768 {
        src.push("0".to_string());
    }
    let mut table = SymbolTable::new();
    let e = first_pass(&src, &mut table).unwrap_err();
    assert_eq!(e.error, AsmError::TooManyInstructions);
    assert_eq!(e.line, 32767);
}

#[test]
fn two_passes_share_one_table() {
    let src = lines(&["@var", "(MARK)", "M=1", "@MARK"]);
    let mut table = SymbolTable::new();
    first_pass(&src, &mut table).unwrap();
    assert_eq!(table.lookup_symbol("MARK"), Some(1));
    let out = second_pass(&src, &mut table).unwrap();
    // `var` is bound lazily during the second pass, after all labels.
    assert_eq!(table.lookup_symbol("var"), Some(16));
    assert_eq!(out.len(), 3);
    assert_eq!(out[0], "0000000000010000");
    assert_eq!(out[2], "0000000000000001");
}

#[test]
fn remove_comments_strips_and_drops() {
    let src = lines(&[
        "// whole-line comment",
        "",
        "   ",
        "@1 // trailing comment",
        "D=A",
        "   // indented comment",
    ]);
    let kept = remove_comments(&src);
    assert_eq!(kept, vec!["@1 ".to_string(), "D=A".to_string()]);
}

#[test]
fn assembled_words_are_sixteen_binary_digits() {
    let src = lines(&["@21845", "AD=M|D;JNE"]);
    let out = translate(&src).unwrap();
    assert_eq!(out.len(), 2);
    for line in &out {
        assert_eq!(line.len(), 16);
        assert!(line.chars().all(|c| c == '0' || c == '1'));
    }
    assert_eq!(out[0], "0101010101010101");
}
