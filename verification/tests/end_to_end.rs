//! End-to-end tests: assemble programs to binary words and run them on a
//! small interpreter of the sixteen-bit machine.

use hack_toolchain::assembler::{remove_comments, translate as assemble};
use hack_toolchain::code_gen::{translate as vm_translate, GenContext};

/// A minimal machine: program memory of decoded words, data memory, the
/// address register, the data register, and a program counter.
struct Machine {
    ram: Vec<i16>,
    a: u16,
    d: i16,
    pc: usize,
}

impl Machine {
    fn new() -> Machine {
        Machine { ram: vec![0; 32768], a: 0, d: 0, pc: 0 }
    }

    /// Runs until the program counter leaves the program.
    fn run(&mut self, words: &[u16], max_steps: usize) {
        let mut steps = 0;
        while self.pc < words.len() {
            assert!(steps < max_steps, "program ran too long");
            steps += 1;
            let w = words[self.pc];
            self.pc += 1;
            if w & 0x8000 == 0 {
                self.a = w;
                continue;
            }
            let a_bit = w >> 12 & 1 == 1;
            let c_bits = w >> 6 & 0x3F;
            let dest = w >> 3 & 0x7;
            let jump = w & 0x7;
            let x = self.d;
            let y = if a_bit { self.ram[self.a as usize] } else { self.a as i16 };
            let out: i16 = match c_bits {
                0b101010 => 0,
                0b111111 => 1,
                0b111010 => -1,
                0b001100 => x,
                0b110000 => y,
                0b001101 => !x,
                0b110001 => !y,
                0b001111 => x.wrapping_neg(),
                0b110011 => y.wrapping_neg(),
                0b011111 => x.wrapping_add(1),
                0b110111 => y.wrapping_add(1),
                0b001110 => x.wrapping_sub(1),
                0b110010 => y.wrapping_sub(1),
                0b000010 => x.wrapping_add(y),
                0b010011 => x.wrapping_sub(y),
                0b000111 => y.wrapping_sub(x),
                0b000000 => x & y,
                0b010101 => x | y,
                other => panic!("invalid computation bits {other:#b}"),
            };
            let old_a = self.a;
            if dest & 0b100 != 0 {
                self.a = out as u16;
            }
            if dest & 0b010 != 0 {
                self.d = out;
            }
            if dest & 0b001 != 0 {
                self.ram[old_a as usize] = out;
            }
            let taken = match jump {
                0b000 => false,
                0b001 => out > 0,
                0b010 => out == 0,
                0b011 => out >= 0,
                0b100 => out < 0,
                0b101 => out != 0,
                0b110 => out <= 0,
                _ => true,
            };
            if taken {
                self.pc = self.a as usize;
            }
        }
    }
}

fn decode_words(binary_lines: &[String]) -> Vec<u16> {
    binary_lines
        .iter()
        .map(|line| {
            assert_eq!(line.len(), 16);
            u16::from_str_radix(line, 2).unwrap()
        })
        .collect()
}

#[test]
fn assembly_program_adds_two_and_three() {
    let src: Vec<String> =
        ["@2", "D=A", "@3", "D=D+A", "@0", "M=D"].iter().map(|s| s.to_string()).collect();
    let out = assemble(&src).unwrap();
    assert_eq!(
        out,
        vec![
            "0000000000000010",
            "1110110000010000",
            "0000000000000011",
            "1110000010010000",
            "0000000000000000",
            "1110001100001000",
        ],
    );
    let words = decode_words(&out);
    let mut machine = Machine::new();
    machine.run(&words, 100);
    assert_eq!(machine.ram[0], 5);
}

#[test]
fn vm_program_computes_seven_plus_eight_into_local_zero() {
    let src: Vec<String> = ["push constant 7", "push constant 8", "add", "pop local 0"]
        .iter()
        .map(|s| s.to_string())
        .collect();
    let mut ctx = GenContext::new("Prog").unwrap();
    let asm_text = vm_translate(&src, &mut ctx).unwrap();

    let asm_lines: Vec<String> = asm_text.lines().map(|s| s.to_string()).collect();
    let trimmed = remove_comments(&asm_lines);
    let words = decode_words(&assemble(&trimmed).unwrap());

    let mut machine = Machine::new();
    machine.ram[0] = 256;  // SP
    machine.ram[1] = 300;  // LCL
    machine.run(&words, 1000);
    assert_eq!(machine.ram[300], 15);
    // The stack pointer is back at its value before the first push.
    assert_eq!(machine.ram[0], 256);
}

#[test]
fn vm_comparison_pushes_true_and_false() {
    let src: Vec<String> =
        ["push constant 4", "push constant 4", "eq", "push constant 3", "push constant 5", "gt"]
            .iter()
            .map(|s| s.to_string())
            .collect();
    let mut ctx = GenContext::new("Prog").unwrap();
    let asm_text = vm_translate(&src, &mut ctx).unwrap();
    let asm_lines: Vec<String> = asm_text.lines().map(|s| s.to_string()).collect();
    let words = decode_words(&assemble(&remove_comments(&asm_lines)).unwrap());

    let mut machine = Machine::new();
    machine.ram[0] = 256;
    machine.run(&words, 10000);
    // eq on equal values leaves true (-1); gt on 3 > 5 leaves false (0).
    assert_eq!(machine.ram[0], 258);
    assert_eq!(machine.ram[256], -1);
    assert_eq!(machine.ram[257], 0);
}

#[test]
fn halt_fragment_assembles() {
    let halt_lines: Vec<String> =
        hack_toolchain::code_gen::halt().lines().map(|s| s.to_string()).collect();
    let out = assemble(&remove_comments(&halt_lines)).unwrap();
    // One label line and two instructions: load the loop address, jump.
    assert_eq!(out.len(), 2);
    assert_eq!(out[0], "0000000000000000");
    assert_eq!(out[1], "1110101010000111");
}
