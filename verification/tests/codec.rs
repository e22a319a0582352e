//! Tests for the instruction model and its bit-exact encoding.

use hack_toolchain::errors::AsmError;
use hack_toolchain::instr::{CInstr, Comp, Dest, Instr, Jump};

/// All 28 surface spellings of the computation table, canonical order.
const COMP_EXPRS: [&str; 28] = [
    "0", "1", "-1", "D", "A", "M", "!D", "!A", "!M", "-D", "-A", "-M", "D+1", "A+1", "M+1",
    "D-1", "A-1", "M-1", "D+A", "D+M", "D-A", "D-M", "A-D", "M-D", "D&A", "D&M", "D|A", "D|M",
];

#[test]
fn a_instruction_round_trip_examples() {
    for v in [0u16, 1, 2, 21845, 16384, 32767] {
        let i = Instr::parse(&format!("@{v}")).unwrap();
        let w = i.code_gen();
        assert!(w < 0x8000);
        assert_eq!(w, v);
        match Instr::decode(w) {
            Some(Instr::AInstr(a)) => assert_eq!(a.value, v),
            other => panic!("expected an A-instruction, got {other:?}"),
        }
    }
}

#[test]
fn comp_expressions_round_trip() {
    for expr in COMP_EXPRS {
        let comp = Comp::parse(expr).unwrap();
        let code = comp.code_gen();
        assert!(code < 128);
        assert_eq!(Comp::decode(code), Some(comp));
    }
}

#[test]
fn comp_codes_are_distinct() {
    let mut seen = Vec::new();
    for expr in COMP_EXPRS {
        let code = Comp::parse(expr).unwrap().code_gen();
        assert!(!seen.contains(&code), "computation code {code} appears twice");
        seen.push(code);
    }
}

#[test]
fn comp_commutative_spellings() {
    for (canonical, swapped) in
        [("D+A", "A+D"), ("D+M", "M+D"), ("D&A", "A&D"), ("D&M", "M&D"), ("D|A", "A|D"),
            ("D|M", "M|D")]
    {
        assert_eq!(Comp::parse(canonical).unwrap(), Comp::parse(swapped).unwrap());
    }
}

#[test]
fn comp_rejects_wrong_order_of_subtraction() {
    // Subtraction is not commutative: only the listed spellings parse.
    assert!(Comp::parse("A+B").is_err());
    assert!(Comp::parse("1+D").is_err());
    assert!(Comp::parse("M+A").is_err());
    assert!(Comp::parse("").is_err());
}

#[test]
fn full_instruction_round_trip() {
    let line = "AD=D+M;JNE";
    let i = Instr::parse(line).unwrap();
    let w = i.code_gen();
    assert_eq!(Instr::decode(w), Some(i));
}

#[test]
fn encode_known_words() {
    // The wire contract: known instructions and their exact 16-bit words.
    let cases = [
        ("@2", 0b0000_0000_0000_0010u16),
        ("@3", 0b0000_0000_0000_0011),
        ("@0", 0b0000_0000_0000_0000),
        ("D=A", 0b1110_1100_0001_0000),
        ("D=D+A", 0b1110_0000_1001_0000),
        ("M=D", 0b1110_0011_0000_1000),
        ("0;JMP", 0b1110_1010_1000_0111),
        ("D;JEQ", 0b1110_0011_0000_0010),
        ("ADM=M+1", 0b1111_1101_1111_1000),
    ];
    for (line, word) in cases {
        assert_eq!(Instr::parse(line).unwrap().code_gen(), word, "for {line}");
    }
}

#[test]
fn decode_rejects_non_instructions() {
    // Top bit set but the next two clear: no instruction.
    assert_eq!(Instr::decode(0b1000_0000_0000_0000), None);
    assert_eq!(Instr::decode(0b1100_0000_0000_0001), None);
    // A computation field outside the lookup table.
    assert_eq!(Instr::decode(0b1110_0000_0100_0000), None);
}

#[test]
fn dest_parse_accepts_subsets_without_repeats() {
    let d = Dest { a: false, d: true, m: true };
    assert_eq!(Dest::parse("DM").unwrap(), d);
    assert_eq!(Dest::parse("MD").unwrap(), d);
    assert_eq!(Dest::parse("ADM").unwrap(), Dest { a: true, d: true, m: true });
    assert!(Dest::parse("").is_err());
    assert!(Dest::parse("AA").is_err());
    assert!(Dest::parse("ADA").is_err());
    assert!(Dest::parse("X").is_err());
}

#[test]
fn jump_parse_and_codes() {
    let cases = [
        ("JGT", Jump::Greater, 1u16),
        ("JEQ", Jump::Equal, 2),
        ("JGE", Jump::GreaterEqual, 3),
        ("JLT", Jump::Less, 4),
        ("JNE", Jump::NotEqual, 5),
        ("JLE", Jump::LessEqual, 6),
        ("JMP", Jump::Always, 7),
    ];
    for (text, jump, code) in cases {
        assert_eq!(Jump::parse(text).unwrap(), jump);
        assert_eq!(jump.code_gen(), code);
    }
    assert_eq!(Jump::Never.code_gen(), 0);
    assert!(Jump::parse("JJJ").is_err());
    assert!(Jump::parse("").is_err());
}

#[test]
fn cinstr_parse_splits_fields() {
    let i = CInstr::parse("D=M-1;JLE").unwrap();
    assert_eq!(i.dest, Dest { a: false, d: true, m: false });
    assert_eq!(i.comp, Comp::MMinusOne);
    assert_eq!(i.jump, Jump::LessEqual);
    // Missing dest and jump default to "store nowhere" and "never".
    let bare = CInstr::parse("0").unwrap();
    assert_eq!(bare.dest, Dest { a: false, d: false, m: false });
    assert_eq!(bare.comp, Comp::Zero);
    assert_eq!(bare.jump, Jump::Never);
}

#[test]
fn default_dest_stores_nowhere() {
    assert_eq!(Dest::default(), Dest { a: false, d: false, m: false });
}

#[test]
fn resolved_parse_rejects_bad_literals() {
    assert_eq!(Instr::parse("@32768").unwrap_err(), AsmError::LiteralOutOfRange);
    assert_eq!(Instr::parse("@99999").unwrap_err(), AsmError::LiteralOutOfRange);
    assert_eq!(Instr::parse("@12x").unwrap_err(), AsmError::BadLiteral);
    assert_eq!(Instr::parse("@").unwrap_err(), AsmError::BadLiteral);
    assert_eq!(Instr::parse("@32767").unwrap().code_gen(), 32767);
}
