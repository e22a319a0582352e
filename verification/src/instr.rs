//! The machine instruction model and its bit-exact encoding.
//!
//! An instruction is either an A-instruction holding a resolved fifteen-bit
//! value, or a C-instruction built from a destination, a computation and a
//! jump condition. `code_gen` encodes an instruction as a sixteen-bit word;
//! `decode` is its structural inverse.

use vstd::prelude::*;

use crate::errors::AsmError;
use crate::text::{find_first, trim_spec, all_digits, dec_val};
use crate::text::{find_char, read_dec15, str_eq, trim, DecRead};

verus! {

/// All resolved addresses are strictly below this limit, for both data
/// memory and instruction memory.
pub const ADDRESS_LIMIT: u16 = 0x8000;

/// Where a C-instruction stores its result: any subset of the address
/// register, the data register, and memory at the address register.
#[derive(Clone, Copy, PartialEq, Eq, Structural, Debug)]
pub struct Dest {
    /// Store to the address register.
    pub a: bool,
    /// Store to the data register.
    pub d: bool,
    /// Store to memory at the address held by the address register.
    pub m: bool,
}

impl Default for Dest {
    /// The default destination stores nowhere.
    fn default() -> (r: Dest)
        ensures
            r == (Dest { a: false, d: false, m: false }),
    {
        Dest { a: false, d: false, m: false }
    }
}

/// One of the computations the ALU can perform. Only these combinations of
/// the `a` bit and the six computation bits are constructible from syntax.
///
/// Operand order is canonical (`A` before `D` before `M`) except that the
/// commutative expressions also accept their swapped spelling when parsed.
#[derive(Clone, Copy, PartialEq, Eq, Structural, Debug)]
pub enum Comp {
    Zero,
    One,
    NegOne,
    D,
    A,
    M,
    NotD,
    NotA,
    NotM,
    NegD,
    NegA,
    NegM,
    DPlusOne,
    APlusOne,
    MPlusOne,
    DMinusOne,
    AMinusOne,
    MMinusOne,
    DPlusA,
    DPlusM,
    DMinusA,
    DMinusM,
    AMinusD,
    MMinusD,
    DAndA,
    DAndM,
    DOrA,
    DOrM,
}

/// The condition under which a C-instruction jumps, comparing the computed
/// value against zero.
#[derive(Clone, Copy, PartialEq, Eq, Structural, Debug)]
pub enum Jump {
    Never,
    Greater,
    Equal,
    GreaterEqual,
    Less,
    NotEqual,
    LessEqual,
    Always,
}

/// An A-instruction with an already-resolved value.
#[derive(Clone, Copy, PartialEq, Eq, Structural, Debug)]
pub struct AInstr {
    /// Always below `2^15`: the highest bit is never set.
    pub value: u16,
}

/// A C-instruction: compute, optionally store, optionally jump.
#[derive(Clone, Copy, PartialEq, Eq, Structural, Debug)]
pub struct CInstr {
    pub dest: Dest,
    pub comp: Comp,
    pub jump: Jump,
}

/// A fully resolved machine instruction.
#[derive(Clone, Copy, PartialEq, Eq, Structural, Debug)]
pub enum Instr {
    AInstr(AInstr),
    CInstr(CInstr),
}

/// Whether the computation reads memory instead of the address register:
/// the `a` bit of the encoding.
pub open spec fn comp_a_bit(c: Comp) -> bool {
    match c {
        Comp::M | Comp::NotM | Comp::NegM | Comp::MPlusOne | Comp::MMinusOne | Comp::DPlusM
            | Comp::DMinusM | Comp::MMinusD | Comp::DAndM | Comp::DOrM => true,
        _ => false,
    }
}

/// The six computation bits, as a value below 64, most significant bit
/// first.
pub open spec fn comp_c_bits(c: Comp) -> int {
    match c {
        Comp::Zero => 0b101010,
        Comp::One => 0b111111,
        Comp::NegOne => 0b111010,
        Comp::D => 0b001100,
        Comp::A | Comp::M => 0b110000,
        Comp::NotD => 0b001101,
        Comp::NotA | Comp::NotM => 0b110001,
        Comp::NegD => 0b001111,
        Comp::NegA | Comp::NegM => 0b110011,
        Comp::DPlusOne => 0b011111,
        Comp::APlusOne | Comp::MPlusOne => 0b110111,
        Comp::DMinusOne => 0b001110,
        Comp::AMinusOne | Comp::MMinusOne => 0b110010,
        Comp::DPlusA | Comp::DPlusM => 0b000010,
        Comp::DMinusA | Comp::DMinusM => 0b010011,
        Comp::AMinusD | Comp::MMinusD => 0b000111,
        Comp::DAndA | Comp::DAndM => 0b000000,
        Comp::DOrA | Comp::DOrM => 0b010101,
    }
}

/// The seven computation bits of the encoding: the `a` bit followed by the
/// six computation bits.
pub open spec fn comp_code(c: Comp) -> int {
    (if comp_a_bit(c) {
        64int
    } else {
        0int
    }) + comp_c_bits(c)
}

/// The computation a seven-bit field decodes to, if any.
pub open spec fn comp_of_code(x: int) -> Option<Comp> {
    if x == 0b0101010 { Some(Comp::Zero) }
    else if x == 0b0111111 { Some(Comp::One) }
    else if x == 0b0111010 { Some(Comp::NegOne) }
    else if x == 0b0001100 { Some(Comp::D) }
    else if x == 0b0110000 { Some(Comp::A) }
    else if x == 0b1110000 { Some(Comp::M) }
    else if x == 0b0001101 { Some(Comp::NotD) }
    else if x == 0b0110001 { Some(Comp::NotA) }
    else if x == 0b1110001 { Some(Comp::NotM) }
    else if x == 0b0001111 { Some(Comp::NegD) }
    else if x == 0b0110011 { Some(Comp::NegA) }
    else if x == 0b1110011 { Some(Comp::NegM) }
    else if x == 0b0011111 { Some(Comp::DPlusOne) }
    else if x == 0b0110111 { Some(Comp::APlusOne) }
    else if x == 0b1110111 { Some(Comp::MPlusOne) }
    else if x == 0b0001110 { Some(Comp::DMinusOne) }
    else if x == 0b0110010 { Some(Comp::AMinusOne) }
    else if x == 0b1110010 { Some(Comp::MMinusOne) }
    else if x == 0b0000010 { Some(Comp::DPlusA) }
    else if x == 0b1000010 { Some(Comp::DPlusM) }
    else if x == 0b0010011 { Some(Comp::DMinusA) }
    else if x == 0b1010011 { Some(Comp::DMinusM) }
    else if x == 0b0000111 { Some(Comp::AMinusD) }
    else if x == 0b1000111 { Some(Comp::MMinusD) }
    else if x == 0b0000000 { Some(Comp::DAndA) }
    else if x == 0b1000000 { Some(Comp::DAndM) }
    else if x == 0b0010101 { Some(Comp::DOrA) }
    else if x == 0b1010101 { Some(Comp::DOrM) }
    else { None }
}

/// The three destination bits: `a`, `d`, `m`, most significant first.
pub open spec fn dest_code(d: Dest) -> int {
    (if d.a { 4int } else { 0int })
    + (if d.d { 2int } else { 0int })
    + (if d.m { 1int } else { 0int })
}

/// The destination a three-bit field decodes to.
pub open spec fn dest_of_code(x: int) -> Dest {
    Dest { a: x / 4 % 2 == 1, d: x / 2 % 2 == 1, m: x % 2 == 1 }
}

/// The three jump bits.
pub open spec fn jump_code(j: Jump) -> int {
    match j {
        Jump::Never => 0b000,
        Jump::Greater => 0b001,
        Jump::Equal => 0b010,
        Jump::GreaterEqual => 0b011,
        Jump::Less => 0b100,
        Jump::NotEqual => 0b101,
        Jump::LessEqual => 0b110,
        Jump::Always => 0b111,
    }
}

/// The jump condition a three-bit field decodes to.
pub open spec fn jump_of_code(x: int) -> Jump {
    if x == 0b000 { Jump::Never }
    else if x == 0b001 { Jump::Greater }
    else if x == 0b010 { Jump::Equal }
    else if x == 0b011 { Jump::GreaterEqual }
    else if x == 0b100 { Jump::Less }
    else if x == 0b101 { Jump::NotEqual }
    else if x == 0b110 { Jump::LessEqual }
    else { Jump::Always }
}

/// The sixteen-bit encoding of a C-instruction: the three leading bits set,
/// then the computation, destination and jump fields.
pub open spec fn cinstr_code(ci: CInstr) -> int {
    0xE000 + comp_code(ci.comp) * 64 + dest_code(ci.dest) * 8 + jump_code(ci.jump)
}

/// The sixteen-bit encoding of an instruction.
pub open spec fn instr_code(i: Instr) -> int {
    match i {
        Instr::AInstr(a) => a.value as int,
        Instr::CInstr(c) => cinstr_code(c),
    }
}

/// The instruction a sixteen-bit word decodes to, if any. Words with the
/// top bit set but the next two bits clear encode no instruction, as do
/// computation fields outside the lookup table.
pub open spec fn decode_spec(w: int) -> Option<Instr> {
    if 0 <= w < 0x8000 {
        Some(Instr::AInstr(AInstr { value: w as u16 }))
    } else if 0xE000 <= w < 0x10000 {
        let rem = w - 0xE000;
        match comp_of_code(rem / 64) {
            None => None,
            Some(comp) => Some(
                Instr::CInstr(
                    CInstr {
                        dest: dest_of_code(rem / 8 % 8),
                        comp,
                        jump: jump_of_code(rem % 8),
                    },
                ),
            ),
        }
    } else {
        None
    }
}

/// The computation bits always fit in seven bits.
pub proof fn lemma_comp_code_bounds(c: Comp)
    ensures
        0 <= comp_code(c) < 128,
{
}

/// Decoding the computation field of any computation yields it back.
pub proof fn lemma_comp_code_inverse(c: Comp)
    ensures
        comp_of_code(comp_code(c)) == Some(c),
{
}

/// Decoding the jump field of any jump condition yields it back.
pub proof fn lemma_jump_code_inverse(j: Jump)
    ensures
        0 <= jump_code(j) < 8,
        jump_of_code(jump_code(j)) == j,
{
}

/// Decoding the destination field of any destination yields it back.
pub proof fn lemma_dest_code_inverse(d: Dest)
    ensures
        0 <= dest_code(d) < 8,
        dest_of_code(dest_code(d)) == d,
{
}

impl AInstr {
    /// Whether the resolved value fits in fifteen bits.
    pub open spec fn wf(self) -> bool {
        self.value < ADDRESS_LIMIT
    }
}

impl Instr {
    /// Whether all resolved values fit in fifteen bits.
    pub open spec fn wf(self) -> bool {
        match self {
            Instr::AInstr(a) => a.wf(),
            Instr::CInstr(_) => true,
        }
    }
}

/// Decoding the encoding of any well-formed instruction yields it back.
pub proof fn lemma_decode_encode(i: Instr)
    requires
        i.wf(),
    ensures
        decode_spec(instr_code(i)) == Some(i),
{
    match i {
        Instr::AInstr(a) => {
        }
        Instr::CInstr(ci) => {
            let c = comp_code(ci.comp);
            let d = dest_code(ci.dest);
            let j = jump_code(ci.jump);
            lemma_comp_code_bounds(ci.comp);
            lemma_dest_code_inverse(ci.dest);
            lemma_jump_code_inverse(ci.jump);
            let rem = c * 64 + d * 8 + j;
            assert(instr_code(i) == 0xE000 + rem);
            vstd::arithmetic::div_mod::lemma_fundamental_div_mod_converse(
                rem, 64, c, d * 8 + j);
            assert(rem / 64 == c);
            vstd::arithmetic::div_mod::lemma_fundamental_div_mod_converse(
                rem, 8, c * 8 + d, j);
            assert(rem / 8 == c * 8 + d);
            assert(rem % 8 == j);
            vstd::arithmetic::div_mod::lemma_fundamental_div_mod_converse(
                c * 8 + d, 8, c, d);
            assert(rem / 8 % 8 == d);
            lemma_comp_code_inverse(ci.comp);
        }
    }
}

proof fn lemma_push_contains(s: Seq<char>, v: char, x: char)
    ensures
        s.push(v).contains(x) <==> (s.contains(x) || x == v),
{
    if s.contains(x) {
        let j = choose|j: int| 0 <= j < s.len() && s[j] == x;
        assert(s.push(v)[j] == x);
    }
    if x == v {
        assert(s.push(v)[s.len() as int] == x);
    }
    if s.push(v).contains(x) && x != v {
        let j = choose|j: int| 0 <= j < s.push(v).len() && s.push(v)[j] == x;
        assert(s[j] == x);
    }
}

proof fn lemma_push_no_dup(s: Seq<char>, v: char)
    requires
        s.no_duplicates(),
        !s.contains(v),
    ensures
        s.push(v).no_duplicates(),
{
    let t = s.push(v);
    assert forall|p: int, q: int| 0 <= p < q < t.len() && p != q implies t[p] != t[q] by {
        if q < s.len() {
            assert(t[p] == s[p] && t[q] == s[q]);
        } else {
            assert(t[q] == v);
            if t[p] == v {
                assert(s[p] == v);
                assert(s.contains(v));
            }
        }
    }
}

impl Dest {
    /// Encodes the three destination flags as a three-bit field.
    pub fn code_gen(&self) -> (r: u16)
        ensures
            r as int == dest_code(*self),
            r < 8,
    {
        (if self.a { 4u16 } else { 0u16 })
        + (if self.d { 2u16 } else { 0u16 })
        + (if self.m { 1u16 } else { 0u16 })
    }

    /// Parses a destination field: a non-empty subset of `{A, D, M}`, in any
    /// order, with no repeats.
    pub fn parse(field: &str) -> (r: Result<Dest, AsmError>)
        ensures
            match r {
                Ok(dst) => dest_of_text(field@) == Some(dst),
                Err(e) => dest_of_text(field@) is None && e == AsmError::BadDest,
            },
    {
        let len = field.unicode_len();
        if len == 0 {
            return Err(AsmError::BadDest);
        }
        let mut a = false;
        let mut d = false;
        let mut m = false;
        let mut i: usize = 0;
        while i < len
            invariant
                len == field@.len(),
                i <= len,
                forall|j: int| 0 <= j < i ==> valid_dest_char(#[trigger] field@[j]),
                field@.take(i as int).no_duplicates(),
                a == field@.take(i as int).contains('A'),
                d == field@.take(i as int).contains('D'),
                m == field@.take(i as int).contains('M'),
            decreases len - i,
        {
            let c = field.get_char(i);
            let ghost pre = field@.take(i as int);
            proof {
                assert(field@.take(i + 1) =~= pre.push(field@[i as int]));
            }
            if c == 'A' {
                if a {
                    proof {
                        let j = choose|j: int| 0 <= j < pre.len() && pre[j] == 'A';
                        assert(field@[j] == 'A' && field@[i as int] == 'A');
                    }
                    return Err(AsmError::BadDest);
                }
                a = true;
            } else if c == 'D' {
                if d {
                    proof {
                        let j = choose|j: int| 0 <= j < pre.len() && pre[j] == 'D';
                        assert(field@[j] == 'D' && field@[i as int] == 'D');
                    }
                    return Err(AsmError::BadDest);
                }
                d = true;
            } else if c == 'M' {
                if m {
                    proof {
                        let j = choose|j: int| 0 <= j < pre.len() && pre[j] == 'M';
                        assert(field@[j] == 'M' && field@[i as int] == 'M');
                    }
                    return Err(AsmError::BadDest);
                }
                m = true;
            } else {
                return Err(AsmError::BadDest);
            }
            proof {
                let c0 = field@[i as int];
                assert(!pre.contains(c0));
                lemma_push_no_dup(pre, c0);
                lemma_push_contains(pre, c0, 'A');
                lemma_push_contains(pre, c0, 'D');
                lemma_push_contains(pre, c0, 'M');
            }
            i = i + 1;
        }
        proof {
            assert(field@.take(len as int) =~= field@);
        }
        Ok(Dest { a, d, m })
    }
}

/// Whether `c` may appear in a destination field.
pub open spec fn valid_dest_char(c: char) -> bool {
    c == 'A' || c == 'D' || c == 'M'
}

/// The destination a field of text denotes, if any.
pub open spec fn dest_of_text(s: Seq<char>) -> Option<Dest> {
    if s.len() > 0 && (forall|i: int| 0 <= i < s.len() ==> valid_dest_char(#[trigger] s[i]))
        && s.no_duplicates() {
        Some(Dest { a: s.contains('A'), d: s.contains('D'), m: s.contains('M') })
    } else {
        None
    }
}

/// The jump condition a mnemonic denotes, if any.
pub open spec fn jump_of_text(s: Seq<char>) -> Option<Jump> {
    if s == "JGT"@ { Some(Jump::Greater) }
    else if s == "JEQ"@ { Some(Jump::Equal) }
    else if s == "JGE"@ { Some(Jump::GreaterEqual) }
    else if s == "JLT"@ { Some(Jump::Less) }
    else if s == "JNE"@ { Some(Jump::NotEqual) }
    else if s == "JLE"@ { Some(Jump::LessEqual) }
    else if s == "JMP"@ { Some(Jump::Always) }
    else { None }
}

impl Jump {
    /// Encodes the jump condition as a three-bit field.
    pub fn code_gen(&self) -> (r: u16)
        ensures
            r as int == jump_code(*self),
            r < 8,
    {
        match self {
            Jump::Never => 0,
            Jump::Greater => 1,
            Jump::Equal => 2,
            Jump::GreaterEqual => 3,
            Jump::Less => 4,
            Jump::NotEqual => 5,
            Jump::LessEqual => 6,
            Jump::Always => 7,
        }
    }

    /// Parses one of the seven jump mnemonics.
    pub fn parse(field: &str) -> (r: Result<Jump, AsmError>)
        ensures
            match r {
                Ok(j) => jump_of_text(field@) == Some(j),
                Err(e) => jump_of_text(field@) is None && e == AsmError::UnknownJump,
            },
    {
        if str_eq(field, "JGT") { Ok(Jump::Greater) }
        else if str_eq(field, "JEQ") { Ok(Jump::Equal) }
        else if str_eq(field, "JGE") { Ok(Jump::GreaterEqual) }
        else if str_eq(field, "JLT") { Ok(Jump::Less) }
        else if str_eq(field, "JNE") { Ok(Jump::NotEqual) }
        else if str_eq(field, "JLE") { Ok(Jump::LessEqual) }
        else if str_eq(field, "JMP") { Ok(Jump::Always) }
        else { Err(AsmError::UnknownJump) }
    }
}

/// The computation an expression denotes, if any. Operands appear in
/// canonical alphabetical order; the commutative expressions also accept
/// their swapped spelling.
pub open spec fn comp_of_text(s: Seq<char>) -> Option<Comp> {
    if s == "0"@ { Some(Comp::Zero) }
    else if s == "1"@ { Some(Comp::One) }
    else if s == "-1"@ { Some(Comp::NegOne) }
    else if s == "D"@ { Some(Comp::D) }
    else if s == "A"@ { Some(Comp::A) }
    else if s == "M"@ { Some(Comp::M) }
    else if s == "!D"@ { Some(Comp::NotD) }
    else if s == "!A"@ { Some(Comp::NotA) }
    else if s == "!M"@ { Some(Comp::NotM) }
    else if s == "-D"@ { Some(Comp::NegD) }
    else if s == "-A"@ { Some(Comp::NegA) }
    else if s == "-M"@ { Some(Comp::NegM) }
    else if s == "D+1"@ { Some(Comp::DPlusOne) }
    else if s == "A+1"@ { Some(Comp::APlusOne) }
    else if s == "M+1"@ { Some(Comp::MPlusOne) }
    else if s == "D-1"@ { Some(Comp::DMinusOne) }
    else if s == "A-1"@ { Some(Comp::AMinusOne) }
    else if s == "M-1"@ { Some(Comp::MMinusOne) }
    else if s == "D+A"@ || s == "A+D"@ { Some(Comp::DPlusA) }
    else if s == "D+M"@ || s == "M+D"@ { Some(Comp::DPlusM) }
    else if s == "D-A"@ { Some(Comp::DMinusA) }
    else if s == "D-M"@ { Some(Comp::DMinusM) }
    else if s == "A-D"@ { Some(Comp::AMinusD) }
    else if s == "M-D"@ { Some(Comp::MMinusD) }
    else if s == "D&A"@ || s == "A&D"@ { Some(Comp::DAndA) }
    else if s == "D&M"@ || s == "M&D"@ { Some(Comp::DAndM) }
    else if s == "D|A"@ || s == "A|D"@ { Some(Comp::DOrA) }
    else if s == "D|M"@ || s == "M|D"@ { Some(Comp::DOrM) }
    else { None }
}

impl Comp {
    /// Encodes the computation as a seven-bit field: the `a` bit followed by
    /// the six computation bits.
    pub fn code_gen(&self) -> (r: u16)
        ensures
            r as int == comp_code(*self),
            r < 128,
    {
        match self {
            Comp::Zero => 0b0101010,
            Comp::One => 0b0111111,
            Comp::NegOne => 0b0111010,
            Comp::D => 0b0001100,
            Comp::A => 0b0110000,
            Comp::M => 0b1110000,
            Comp::NotD => 0b0001101,
            Comp::NotA => 0b0110001,
            Comp::NotM => 0b1110001,
            Comp::NegD => 0b0001111,
            Comp::NegA => 0b0110011,
            Comp::NegM => 0b1110011,
            Comp::DPlusOne => 0b0011111,
            Comp::APlusOne => 0b0110111,
            Comp::MPlusOne => 0b1110111,
            Comp::DMinusOne => 0b0001110,
            Comp::AMinusOne => 0b0110010,
            Comp::MMinusOne => 0b1110010,
            Comp::DPlusA => 0b0000010,
            Comp::DPlusM => 0b1000010,
            Comp::DMinusA => 0b0010011,
            Comp::DMinusM => 0b1010011,
            Comp::AMinusD => 0b0000111,
            Comp::MMinusD => 0b1000111,
            Comp::DAndA => 0b0000000,
            Comp::DAndM => 0b1000000,
            Comp::DOrA => 0b0010101,
            Comp::DOrM => 0b1010101,
        }
    }

    /// Decodes a seven-bit computation field.
    pub fn decode(x: u16) -> (r: Option<Comp>)
        ensures
            r == comp_of_code(x as int),
    {
        match x {
            0b0101010 => Some(Comp::Zero),
            0b0111111 => Some(Comp::One),
            0b0111010 => Some(Comp::NegOne),
            0b0001100 => Some(Comp::D),
            0b0110000 => Some(Comp::A),
            0b1110000 => Some(Comp::M),
            0b0001101 => Some(Comp::NotD),
            0b0110001 => Some(Comp::NotA),
            0b1110001 => Some(Comp::NotM),
            0b0001111 => Some(Comp::NegD),
            0b0110011 => Some(Comp::NegA),
            0b1110011 => Some(Comp::NegM),
            0b0011111 => Some(Comp::DPlusOne),
            0b0110111 => Some(Comp::APlusOne),
            0b1110111 => Some(Comp::MPlusOne),
            0b0001110 => Some(Comp::DMinusOne),
            0b0110010 => Some(Comp::AMinusOne),
            0b1110010 => Some(Comp::MMinusOne),
            0b0000010 => Some(Comp::DPlusA),
            0b1000010 => Some(Comp::DPlusM),
            0b0010011 => Some(Comp::DMinusA),
            0b1010011 => Some(Comp::DMinusM),
            0b0000111 => Some(Comp::AMinusD),
            0b1000111 => Some(Comp::MMinusD),
            0b0000000 => Some(Comp::DAndA),
            0b1000000 => Some(Comp::DAndM),
            0b0010101 => Some(Comp::DOrA),
            0b1010101 => Some(Comp::DOrM),
            _ => None,
        }
    }

    /// Parses a computation expression against the fixed lookup table.
    pub fn parse(expr: &str) -> (r: Result<Comp, AsmError>)
        ensures
            match r {
                Ok(c) => comp_of_text(expr@) == Some(c),
                Err(e) => comp_of_text(expr@) is None && e == AsmError::UnknownComp,
            },
    {
        if str_eq(expr, "0") { Ok(Comp::Zero) }
        else if str_eq(expr, "1") { Ok(Comp::One) }
        else if str_eq(expr, "-1") { Ok(Comp::NegOne) }
        else if str_eq(expr, "D") { Ok(Comp::D) }
        else if str_eq(expr, "A") { Ok(Comp::A) }
        else if str_eq(expr, "M") { Ok(Comp::M) }
        else if str_eq(expr, "!D") { Ok(Comp::NotD) }
        else if str_eq(expr, "!A") { Ok(Comp::NotA) }
        else if str_eq(expr, "!M") { Ok(Comp::NotM) }
        else if str_eq(expr, "-D") { Ok(Comp::NegD) }
        else if str_eq(expr, "-A") { Ok(Comp::NegA) }
        else if str_eq(expr, "-M") { Ok(Comp::NegM) }
        else if str_eq(expr, "D+1") { Ok(Comp::DPlusOne) }
        else if str_eq(expr, "A+1") { Ok(Comp::APlusOne) }
        else if str_eq(expr, "M+1") { Ok(Comp::MPlusOne) }
        else if str_eq(expr, "D-1") { Ok(Comp::DMinusOne) }
        else if str_eq(expr, "A-1") { Ok(Comp::AMinusOne) }
        else if str_eq(expr, "M-1") { Ok(Comp::MMinusOne) }
        else if str_eq(expr, "D+A") || str_eq(expr, "A+D") { Ok(Comp::DPlusA) }
        else if str_eq(expr, "D+M") || str_eq(expr, "M+D") { Ok(Comp::DPlusM) }
        else if str_eq(expr, "D-A") { Ok(Comp::DMinusA) }
        else if str_eq(expr, "D-M") { Ok(Comp::DMinusM) }
        else if str_eq(expr, "A-D") { Ok(Comp::AMinusD) }
        else if str_eq(expr, "M-D") { Ok(Comp::MMinusD) }
        else if str_eq(expr, "D&A") || str_eq(expr, "A&D") { Ok(Comp::DAndA) }
        else if str_eq(expr, "D&M") || str_eq(expr, "M&D") { Ok(Comp::DAndM) }
        else if str_eq(expr, "D|A") || str_eq(expr, "A|D") { Ok(Comp::DOrA) }
        else if str_eq(expr, "D|M") || str_eq(expr, "M|D") { Ok(Comp::DOrM) }
        else { Err(AsmError::UnknownComp) }
    }
}

/// The C-instruction a line of text denotes: an optional destination before
/// the first `=`, an optional jump after the first `;` of the remainder, and
/// a computation between the two.
pub open spec fn cinstr_of_text(s: Seq<char>) -> Result<CInstr, AsmError> {
    let (dest_field, after_dest) = match find_first(s, '=') {
        Some(i) => (Some(s.take(i)), s.skip(i + 1)),
        None => (None::<Seq<char>>, s),
    };
    let (comp_field, jump_field) = match find_first(after_dest, ';') {
        Some(i) => (after_dest.take(i), Some(after_dest.skip(i + 1))),
        None => (after_dest, None::<Seq<char>>),
    };
    let dest = match dest_field {
        Some(f) => dest_of_text(f),
        None => Some(Dest { a: false, d: false, m: false }),
    };
    let jump = match jump_field {
        Some(f) => jump_of_text(f),
        None => Some(Jump::Never),
    };
    match dest {
        None => Err(AsmError::BadDest),
        Some(dst) => match jump {
            None => Err(AsmError::UnknownJump),
            Some(jmp) => match comp_of_text(comp_field) {
                None => Err(AsmError::UnknownComp),
                Some(cmp) => Ok(CInstr { dest: dst, comp: cmp, jump: jmp }),
            },
        },
    }
}

impl CInstr {
    /// Encodes the C-instruction: three set bits, then the computation,
    /// destination and jump fields.
    pub fn code_gen(&self) -> (r: u16)
        ensures
            r as int == cinstr_code(*self),
    {
        let c = self.comp.code_gen();
        let d = self.dest.code_gen();
        let j = self.jump.code_gen();
        0xE000u16 + c * 64 + d * 8 + j
    }

    /// Parses a C-instruction line. The line must already be trimmed.
    pub fn parse(line: &str) -> (r: Result<CInstr, AsmError>)
        ensures
            r == cinstr_of_text(line@),
    {
        let len = line.unicode_len();
        let (dest, rest) = match find_char(line, '=') {
            Some(i) => {
                let dest_field = line.substring_char(0, i);
                let rest = line.substring_char(i + 1, len);
                proof {
                    assert(dest_field@ =~= line@.take(i as int));
                    assert(rest@ =~= line@.skip(i + 1));
                }
                match Dest::parse(dest_field) {
                    Ok(dst) => (dst, rest),
                    Err(e) => {
                        return Err(e);
                    },
                }
            },
            None => (Dest { a: false, d: false, m: false }, line),
        };
        let rest_len = rest.unicode_len();
        let (comp_field, jump) = match find_char(rest, ';') {
            Some(i) => {
                let comp_field = rest.substring_char(0, i);
                let jump_field = rest.substring_char(i + 1, rest_len);
                proof {
                    assert(comp_field@ =~= rest@.take(i as int));
                    assert(jump_field@ =~= rest@.skip(i + 1));
                }
                match Jump::parse(jump_field) {
                    Ok(jmp) => (comp_field, jmp),
                    Err(e) => {
                        return Err(e);
                    },
                }
            },
            None => (rest, Jump::Never),
        };
        let comp = match Comp::parse(comp_field) {
            Ok(c) => c,
            Err(e) => {
                return Err(e);
            },
        };
        Ok(CInstr { dest, comp, jump })
    }
}

/// The fully resolved instruction a line of text denotes: after trimming,
/// a line starting with `@` is an A-instruction whose remainder must be a
/// decimal literal below `2^15`; anything else is read as a C-instruction.
pub open spec fn resolved_instr_of_text(s: Seq<char>) -> Result<Instr, AsmError> {
    let t = trim_spec(s);
    if t.len() > 0 && t[0] == '@' {
        let w = t.skip(1);
        if w.len() == 0 || !all_digits(w) {
            Err(AsmError::BadLiteral)
        } else if dec_val(w) >= ADDRESS_LIMIT {
            Err(AsmError::LiteralOutOfRange)
        } else {
            Ok(Instr::AInstr(AInstr { value: dec_val(w) as u16 }))
        }
    } else {
        match cinstr_of_text(t) {
            Ok(c) => Ok(Instr::CInstr(c)),
            Err(e) => Err(e),
        }
    }
}

impl Instr {
    /// Parses a source line holding a fully resolved instruction: either
    /// `@literal` or a C-instruction.
    pub fn parse(line: &str) -> (r: Result<Instr, AsmError>)
        ensures
            r == resolved_instr_of_text(line@),
            r matches Ok(i) ==> i.wf(),
    {
        let t = trim(line);
        let len = t.unicode_len();
        if len > 0 && t.get_char(0) == '@' {
            let word = t.substring_char(1, len);
            proof {
                assert(word@ =~= trim_spec(line@).skip(1));
            }
            match read_dec15(word) {
                DecRead::NotNumeric => Err(AsmError::BadLiteral),
                DecRead::TooBig => Err(AsmError::LiteralOutOfRange),
                DecRead::Value(v) => Ok(Instr::AInstr(AInstr { value: v })),
            }
        } else {
            match CInstr::parse(t) {
                Ok(c) => Ok(Instr::CInstr(c)),
                Err(e) => Err(e),
            }
        }
    }

    /// Encodes a well-formed instruction as a sixteen-bit word.
    pub fn code_gen(&self) -> (r: u16)
        requires
            self.wf(),
        ensures
            r as int == instr_code(*self),
    {
        match self {
            Instr::AInstr(a) => a.value,
            Instr::CInstr(c) => c.code_gen(),
        }
    }

    /// Decodes a sixteen-bit word back into an instruction, the structural
    /// inverse of `code_gen`.
    pub fn decode(w: u16) -> (r: Option<Instr>)
        ensures
            r == decode_spec(w as int),
    {
        if w < 0x8000 {
            Some(Instr::AInstr(AInstr { value: w }))
        } else if w >= 0xE000 {
            let rem = w - 0xE000;
            match Comp::decode(rem / 64) {
                None => None,
                Some(comp) => {
                    let d3 = rem / 8 % 8;
                    let dest = Dest { a: d3 / 4 % 2 == 1, d: d3 / 2 % 2 == 1, m: d3 % 2 == 1 };
                    let j3 = rem % 8;
                    let jump = if j3 == 0 { Jump::Never }
                        else if j3 == 1 { Jump::Greater }
                        else if j3 == 2 { Jump::Equal }
                        else if j3 == 3 { Jump::GreaterEqual }
                        else if j3 == 4 { Jump::Less }
                        else if j3 == 5 { Jump::NotEqual }
                        else if j3 == 6 { Jump::LessEqual }
                        else { Jump::Always };
                    proof {
                        assert(d3 as int == (w - 0xE000) / 8 % 8);
                        assert(dest == dest_of_code(d3 as int));
                        assert(jump == jump_of_code(j3 as int));
                    }
                    Some(Instr::CInstr(CInstr { dest, comp, jump }))
                },
            }
        } else {
            None
        }
    }
}

/// Law: every fifteen-bit value loaded by an A-instruction survives an
/// encode/decode round trip.
pub proof fn lemma_a_instruction_round_trip(v: u16)
    requires
        v < ADDRESS_LIMIT,
    ensures
        decode_spec(instr_code(Instr::AInstr(AInstr { value: v })))
            == Some(Instr::AInstr(AInstr { value: v })),
{
    lemma_decode_encode(Instr::AInstr(AInstr { value: v }));
}

/// Every decodable word re-encodes to itself, and decodes to a well-formed
/// instruction.
pub proof fn lemma_encode_decode(w: int, i: Instr)
    requires
        decode_spec(w) == Some(i),
    ensures
        i.wf(),
        instr_code(i) == w,
{
    if 0 <= w < 0x8000 {
    } else {
        let rem = w - 0xE000;
        let c = rem / 64;
        let d = rem / 8 % 8;
        let j = rem % 8;
        vstd::arithmetic::div_mod::lemma_fundamental_div_mod(rem, 64);
        vstd::arithmetic::div_mod::lemma_fundamental_div_mod(rem, 8);
        vstd::arithmetic::div_mod::lemma_fundamental_div_mod(rem / 8, 8);
        assert(comp_of_code(c) == Some(i->CInstr_0.comp));
        assert(comp_code(i->CInstr_0.comp) == c) by {
            lemma_comp_code_inverse(i->CInstr_0.comp);
        }
        assert(dest_code(dest_of_code(d)) == d);
        assert(jump_code(jump_of_code(j)) == j);
        assert(rem == c * 64 + d * 8 + j) by (nonlinear_arith)
            requires
                rem == 64 * (rem / 64) + rem % 64,
                rem == 8 * (rem / 8) + rem % 8,
                rem / 8 == 8 * (rem / 8 / 8) + rem / 8 % 8,
                c == rem / 64,
                d == rem / 8 % 8,
                j == rem % 8,
                0 <= rem < 0x2000,
        ;
    }
}

} // verus!
