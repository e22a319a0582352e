//! The surface assembly line model: labels, and instructions whose
//! A-instructions may still name unresolved symbols.

use vstd::prelude::*;

use crate::errors::AsmError;
use crate::instr::{cinstr_of_text, cinstr_code, CInstr, ADDRESS_LIMIT};
use crate::symbol_table::{SymbolTable, FIRST_VARIABLE_ADDRESS};
use crate::text::{all_digits, dec_val, is_dec_digit, trim_spec};
use crate::text::{read_dec15, trim, DecRead};

verus! {

/// An A-instruction as written: a symbol to resolve later, or a literal.
#[derive(Debug)]
pub enum AInstr {
    Symbol(String),
    /// Always below `2^15`: the highest bit is never set.
    Literal(u16),
}

/// An instruction whose A-value may still be symbolic.
#[derive(Debug)]
pub enum Instr {
    AInstr(AInstr),
    CInstr(CInstr),
}

/// A parsed source line: an instruction, or a label pseudo-instruction.
#[derive(Debug)]
pub enum Line {
    Instr(Instr),
    Label(String),
}

/// The mathematical content of an A-instruction.
pub enum AInstrModel {
    Symbol(Seq<char>),
    Literal(u16),
}

/// The mathematical content of an instruction.
pub enum InstrModel {
    A(AInstrModel),
    C(CInstr),
}

/// The mathematical content of a source line.
pub enum LineModel {
    Ins(InstrModel),
    Label(Seq<char>),
}

impl View for AInstr {
    type V = AInstrModel;

    open spec fn view(&self) -> AInstrModel {
        match self {
            AInstr::Symbol(s) => AInstrModel::Symbol(s@),
            AInstr::Literal(v) => AInstrModel::Literal(*v),
        }
    }
}

impl View for Instr {
    type V = InstrModel;

    open spec fn view(&self) -> InstrModel {
        match self {
            Instr::AInstr(a) => InstrModel::A(a@),
            Instr::CInstr(c) => InstrModel::C(*c),
        }
    }
}

impl View for Line {
    type V = LineModel;

    open spec fn view(&self) -> LineModel {
        match self {
            Line::Instr(i) => LineModel::Ins(i@),
            Line::Label(s) => LineModel::Label(s@),
        }
    }
}

impl AInstrModel {
    /// Literals always fit in fifteen bits.
    pub open spec fn wf(self) -> bool {
        match self {
            AInstrModel::Symbol(_) => true,
            AInstrModel::Literal(v) => v < ADDRESS_LIMIT,
        }
    }
}

impl InstrModel {
    /// Literals always fit in fifteen bits.
    pub open spec fn wf(self) -> bool {
        match self {
            InstrModel::A(a) => a.wf(),
            InstrModel::C(_) => true,
        }
    }
}

impl LineModel {
    /// Literals always fit in fifteen bits.
    pub open spec fn wf(self) -> bool {
        match self {
            LineModel::Ins(i) => i.wf(),
            LineModel::Label(_) => true,
        }
    }
}

/// Whether `c` may appear in a symbol: ASCII letters, digits, and the four
/// punctuation marks `_ . $ :`.
pub open spec fn symbol_char(c: char) -> bool {
    ('a' <= c && c <= 'z') || ('A' <= c && c <= 'Z') || ('0' <= c && c <= '9') || c == '_'
        || c == '.' || c == '$' || c == ':'
}

/// Whether `s` is a valid symbol: made of symbol characters and not
/// starting with a digit.
pub open spec fn valid_symbol(s: Seq<char>) -> bool {
    (forall|i: int| 0 <= i < s.len() ==> symbol_char(#[trigger] s[i])) && (s.len() > 0
        ==> !is_dec_digit(s[0]))
}

/// The A-instruction the text after `@` denotes, if any: a decimal literal
/// below `2^15` when it starts with a digit, a symbol otherwise.
pub open spec fn a_instr_of_text(w: Seq<char>) -> Result<AInstrModel, AsmError> {
    if w.len() > 0 && is_dec_digit(w[0]) {
        if !all_digits(w) {
            Err(AsmError::BadLiteral)
        } else if dec_val(w) >= ADDRESS_LIMIT {
            Err(AsmError::LiteralOutOfRange)
        } else {
            Ok(AInstrModel::Literal(dec_val(w) as u16))
        }
    } else {
        if valid_symbol(w) {
            Ok(AInstrModel::Symbol(w))
        } else {
            Err(AsmError::InvalidSymbol)
        }
    }
}

/// The instruction a trimmed line denotes, if any.
pub open spec fn instr_of_text(t: Seq<char>) -> Result<InstrModel, AsmError> {
    if t.len() > 0 && t[0] == '@' {
        match a_instr_of_text(t.skip(1)) {
            Ok(a) => Ok(InstrModel::A(a)),
            Err(e) => Err(e),
        }
    } else {
        match cinstr_of_text(t) {
            Ok(c) => Ok(InstrModel::C(c)),
            Err(e) => Err(e),
        }
    }
}

/// The line a piece of source text denotes, if any. The text is trimmed
/// first; a line starting with `(` is a label whose name must be a valid
/// symbol, anything else is an instruction.
pub open spec fn line_of_text(s: Seq<char>) -> Result<LineModel, AsmError> {
    let t = trim_spec(s);
    if t.len() > 0 && t[0] == '(' {
        if t.len() < 2 || t.last() != ')' {
            Err(AsmError::BadLabel)
        } else {
            let name = t.subrange(1, t.len() - 1);
            if valid_symbol(name) {
                Ok(LineModel::Label(name))
            } else {
                Err(AsmError::InvalidSymbol)
            }
        }
    } else {
        match instr_of_text(t) {
            Ok(i) => Ok(LineModel::Ins(i)),
            Err(e) => Err(e),
        }
    }
}

/// Whether `c` may appear in a symbol.
fn is_valid_char(c: char) -> (r: bool)
    ensures
        r == symbol_char(c),
{
    ('a' <= c && c <= 'z') || ('A' <= c && c <= 'Z') || ('0' <= c && c <= '9') || c == '_'
        || c == '.' || c == '$' || c == ':'
}

/// Checks that `s` is a valid symbol.
pub(crate) fn validate_symbol(s: &str) -> (r: bool)
    ensures
        r == valid_symbol(s@),
{
    let len = s.unicode_len();
    let mut i: usize = 0;
    while i < len
        invariant
            len == s@.len(),
            i <= len,
            forall|j: int| 0 <= j < i ==> symbol_char(#[trigger] s@[j]),
        decreases len - i,
    {
        if !is_valid_char(s.get_char(i)) {
            return false;
        }
        i = i + 1;
    }
    if len > 0 {
        let c = s.get_char(0);
        if c >= '0' && c <= '9' {
            return false;
        }
    }
    true
}

/// Parses the inside of a label line. The argument is trimmed and starts
/// with `(`.
fn parse_label(t: &str) -> (r: Result<String, AsmError>)
    requires
        t@.len() > 0,
        t@[0] == '(',
    ensures
        match r {
            Ok(name) => t@.len() >= 2 && t@.last() == ')' && name@ == t@.subrange(
                1,
                t@.len() - 1,
            ) && valid_symbol(name@),
            Err(e) => (if t@.len() < 2 || t@.last() != ')' {
                e == AsmError::BadLabel
            } else {
                e == AsmError::InvalidSymbol && !valid_symbol(t@.subrange(1, t@.len() - 1))
            }),
        },
{
    let len = t.unicode_len();
    if len < 2 || t.get_char(len - 1) != ')' {
        return Err(AsmError::BadLabel);
    }
    let inner = t.substring_char(1, len - 1);
    proof {
        assert(inner@ =~= t@.subrange(1, t@.len() - 1));
    }
    if validate_symbol(inner) {
        Ok(inner.to_owned())
    } else {
        Err(AsmError::InvalidSymbol)
    }
}

impl AInstr {
    /// Parses the text after the leading `@` of an A-instruction.
    fn parse(word: &str) -> (r: Result<AInstr, AsmError>)
        ensures
            match r {
                Ok(a) => a_instr_of_text(word@) == Ok::<AInstrModel, AsmError>(a@) && a@.wf(),
                Err(e) => a_instr_of_text(word@) == Err::<AInstrModel, AsmError>(e),
            },
    {
        let len = word.unicode_len();
        let starts_digit = if len > 0 {
            let c = word.get_char(0);
            c >= '0' && c <= '9'
        } else {
            false
        };
        if starts_digit {
            match read_dec15(word) {
                DecRead::NotNumeric => Err(AsmError::BadLiteral),
                DecRead::TooBig => Err(AsmError::LiteralOutOfRange),
                DecRead::Value(v) => Ok(AInstr::Literal(v)),
            }
        } else {
            if validate_symbol(word) {
                Ok(AInstr::Symbol(word.to_owned()))
            } else {
                Err(AsmError::InvalidSymbol)
            }
        }
    }
}

impl Instr {
    /// Parses a trimmed line that is not a label.
    fn parse(t: &str) -> (r: Result<Instr, AsmError>)
        ensures
            match r {
                Ok(i) => instr_of_text(t@) == Ok::<InstrModel, AsmError>(i@) && i@.wf(),
                Err(e) => instr_of_text(t@) == Err::<InstrModel, AsmError>(e),
            },
    {
        let len = t.unicode_len();
        if len > 0 && t.get_char(0) == '@' {
            let word = t.substring_char(1, len);
            proof {
                assert(word@ =~= t@.skip(1));
            }
            match AInstr::parse(word) {
                Ok(a) => Ok(Instr::AInstr(a)),
                Err(e) => Err(e),
            }
        } else {
            match CInstr::parse(t) {
                Ok(c) => Ok(Instr::CInstr(c)),
                Err(e) => Err(e),
            }
        }
    }
}

impl Line {
    /// Parses one source line into a label or an instruction.
    pub fn parse(line: &str) -> (r: Result<Line, AsmError>)
        ensures
            match r {
                Ok(l) => line_of_text(line@) == Ok::<LineModel, AsmError>(l@) && l@.wf(),
                Err(e) => line_of_text(line@) == Err::<LineModel, AsmError>(e),
            },
    {
        let t = trim(line);
        let len = t.unicode_len();
        if len > 0 && t.get_char(0) == '(' {
            match parse_label(t) {
                Ok(name) => Ok(Line::Label(name)),
                Err(e) => Err(e),
            }
        } else {
            match Instr::parse(t) {
                Ok(i) => Ok(Line::Instr(i)),
                Err(e) => Err(e),
            }
        }
    }
}

/// What resolving and encoding one instruction does: the emitted word, and
/// the symbol table's map and variable count afterwards. A symbol already
/// in the table resolves to its address; an unknown one is bound as a fresh
/// variable; a literal and a C-instruction leave the table unchanged.
pub open spec fn instr_gen_outcome(
    m: Map<Seq<char>, u16>,
    vars: nat,
    im: InstrModel,
) -> Result<(u16, Map<Seq<char>, u16>, nat), AsmError> {
    match im {
        InstrModel::A(AInstrModel::Literal(v)) => Ok((v, m, vars)),
        InstrModel::A(AInstrModel::Symbol(name)) => {
            if m.dom().contains(name) {
                Ok((m[name], m, vars))
            } else if FIRST_VARIABLE_ADDRESS + vars < ADDRESS_LIMIT {
                let addr = (FIRST_VARIABLE_ADDRESS + vars) as u16;
                Ok((addr, m.insert(name, addr), vars + 1))
            } else {
                Err(AsmError::AddressSpaceExhausted)
            }
        },
        InstrModel::C(ci) => Ok((cinstr_code(ci) as u16, m, vars)),
    }
}

/// Law: resolving and encoding an instruction never changes or drops an
/// existing binding — it can only add a fresh variable. A label bound in
/// the first pass therefore resolves to the same address wherever in the
/// program it is referenced.
pub proof fn lemma_gen_preserves_bindings(
    m: Map<Seq<char>, u16>,
    vars: nat,
    im: InstrModel,
    name: Seq<char>,
)
    requires
        m.dom().contains(name),
        instr_gen_outcome(m, vars, im) is Ok,
    ensures
        instr_gen_outcome(m, vars, im)->Ok_0.1.dom().contains(name),
        instr_gen_outcome(m, vars, im)->Ok_0.1[name] == m[name],
{
}

/// Law: in a run that has allocated no variable yet, the first unresolved
/// symbol is bound at address 16 and the second distinct one at 17, while
/// resolving the first again yields 16 without a new allocation.
pub proof fn lemma_variable_allocation_order(
    m: Map<Seq<char>, u16>,
    n1: Seq<char>,
    n2: Seq<char>,
)
    requires
        !m.dom().contains(n1),
        !m.dom().contains(n2),
        n1 != n2,
    ensures
        instr_gen_outcome(m, 0, InstrModel::A(AInstrModel::Symbol(n1))) == Ok::<
            (u16, Map<Seq<char>, u16>, nat),
            AsmError,
        >((16u16, m.insert(n1, 16), 1nat)),
        instr_gen_outcome(m.insert(n1, 16), 1, InstrModel::A(AInstrModel::Symbol(n2))) == Ok::<
            (u16, Map<Seq<char>, u16>, nat),
            AsmError,
        >((17u16, m.insert(n1, 16).insert(n2, 17), 2nat)),
        instr_gen_outcome(
            m.insert(n1, 16).insert(n2, 17),
            2,
            InstrModel::A(AInstrModel::Symbol(n1)),
        ) == Ok::<(u16, Map<Seq<char>, u16>, nat), AsmError>(
            (16u16, m.insert(n1, 16).insert(n2, 17), 2nat),
        ),
{
}

impl Instr {
    /// Resolves and encodes one instruction. Unknown symbols are assumed to
    /// be new variables and are bound accordingly.
    pub fn code_gen(self, symbol_table: &mut SymbolTable) -> (r: Result<u16, AsmError>)
        requires
            old(symbol_table).wf(),
            self@.wf(),
        ensures
            final(symbol_table).wf(),
            match r {
                Ok(w) => instr_gen_outcome(old(symbol_table).map(), old(symbol_table).vars(), self@)
                    == Ok::<(u16, Map<Seq<char>, u16>, nat), AsmError>(
                    (w, final(symbol_table).map(), final(symbol_table).vars()),
                ),
                Err(e) => instr_gen_outcome(old(symbol_table).map(), old(symbol_table).vars(), self@)
                    == Err::<(u16, Map<Seq<char>, u16>, nat), AsmError>(e)
                    && *final(symbol_table) == *old(symbol_table),
            },
    {
        match self {
            Instr::AInstr(AInstr::Literal(v)) => Ok(v),
            Instr::AInstr(AInstr::Symbol(symbol)) => {
                match symbol_table.lookup_symbol(symbol.as_str()) {
                    Some(v) => Ok(v),
                    None => symbol_table.new_variable(symbol),
                }
            },
            Instr::CInstr(c) => Ok(c.code_gen()),
        }
    }
}

} // verus!
