//! The code generator: maps one VM command to an assembly-text fragment
//! implementing stack semantics.
//!
//! `SP` holds the address one past the current top of stack; `LCL`, `ARG`,
//! `THIS` and `THAT` hold segment base addresses; `R13` is scratch space
//! during a pop. The fragments for a sequence of commands, concatenated in
//! order, form a complete program with no further linking step. Comparison
//! commands draw two fresh labels from the generation context's counter,
//! so no two comparisons of one run share a label.

use vstd::prelude::*;

use crate::errors::{VmError, VmLineError};
use crate::instruction::{valid_symbol, validate_symbol};
use crate::text::{dec_text, to_decimal};
use crate::vm_command::{command_of_text, Command, Segment, VirtualMemoryAddr};

verus! {

/// The context of one generation run: the translation unit's name, which
/// keys the static segment, and the counter that keeps comparison labels
/// unique within the run.
#[derive(Debug)]
pub struct GenContext {
    unit: String,
    counter: u64,
}

impl GenContext {
    /// The translation unit's name.
    pub closed spec fn unit(self) -> Seq<char> {
        self.unit@
    }

    /// How many comparison label pairs have been handed out.
    pub closed spec fn counter(self) -> nat {
        self.counter as nat
    }

    /// The unit name is a non-empty valid symbol, so every static symbol
    /// derived from it is valid assembly.
    pub closed spec fn wf(self) -> bool {
        valid_symbol(self.unit@) && self.unit@.len() > 0
    }

    /// Creates a fresh context for one translation unit. The unit name
    /// must be a non-empty valid symbol.
    pub fn new(unit: &str) -> (r: Result<GenContext, VmError>)
        ensures
            match r {
                Ok(c) => c.wf() && c.unit() == unit@ && c.counter() == 0,
                Err(e) => e == VmError::InvalidUnitName && !(valid_symbol(unit@) && unit@.len()
                    > 0),
            },
    {
        if unit.unicode_len() == 0 || !validate_symbol(unit) {
            return Err(VmError::InvalidUnitName);
        }
        Ok(GenContext { unit: unit.to_owned(), counter: 0 })
    }
}

/// The lowercase surface name of a segment.
pub open spec fn segment_text(s: Segment) -> Seq<char> {
    match s {
        Segment::Argument => "argument"@,
        Segment::Local => "local"@,
        Segment::Static => "static"@,
        Segment::Constant => "constant"@,
        Segment::This => "this"@,
        Segment::That => "that"@,
        Segment::Pointer => "pointer"@,
        Segment::Temp => "temp"@,
    }
}

/// The surface text of a command, as it appears in VM source.
pub open spec fn command_text(c: Command) -> Seq<char> {
    match c {
        Command::Push { source } => "push "@ + segment_text(source.segment) + " "@ + dec_text(
            source.index as nat,
        ),
        Command::Pop { dest } => "pop "@ + segment_text(dest.segment) + " "@ + dec_text(
            dest.index as nat,
        ),
        Command::Add => "add"@,
        Command::Sub => "sub"@,
        Command::Neg => "neg"@,
        Command::Eq => "eq"@,
        Command::Gt => "gt"@,
        Command::Lt => "lt"@,
        Command::And => "and"@,
        Command::Or => "or"@,
        Command::Not => "not"@,
    }
}

impl Segment {
    /// The lowercase surface name of the segment.
    pub fn text(&self) -> (r: &'static str)
        ensures
            r@ == segment_text(*self),
    {
        match self {
            Segment::Argument => "argument",
            Segment::Local => "local",
            Segment::Static => "static",
            Segment::Constant => "constant",
            Segment::This => "this",
            Segment::That => "that",
            Segment::Pointer => "pointer",
            Segment::Temp => "temp",
        }
    }
}

impl Command {
    /// The surface text of the command.
    pub fn text(&self) -> (r: String)
        ensures
            r@ == command_text(*self),
    {
        match self {
            Command::Push { source } => {
                let mut s = String::from_str("push ");
                s.append(source.segment.text());
                s.append(" ");
                s.append(to_decimal(source.index as u64).as_str());
                proof {
                    assert(s@ =~= command_text(*self));
                }
                s
            },
            Command::Pop { dest } => {
                let mut s = String::from_str("pop ");
                s.append(dest.segment.text());
                s.append(" ");
                s.append(to_decimal(dest.index as u64).as_str());
                proof {
                    assert(s@ =~= command_text(*self));
                }
                s
            },
            Command::Add => String::from_str("add"),
            Command::Sub => String::from_str("sub"),
            Command::Neg => String::from_str("neg"),
            Command::Eq => String::from_str("eq"),
            Command::Gt => String::from_str("gt"),
            Command::Lt => String::from_str("lt"),
            Command::And => String::from_str("and"),
            Command::Or => String::from_str("or"),
            Command::Not => String::from_str("not"),
        }
    }
}

/// The base register symbol of an indirect segment.
pub open spec fn base_symbol(s: Segment) -> Seq<char> {
    match s {
        Segment::Local => "LCL"@,
        Segment::Argument => "ARG"@,
        Segment::This => "THIS"@,
        Segment::That => "THAT"@,
        _ => Seq::empty(),
    }
}

fn base_str(s: Segment) -> (r: &'static str)
    requires
        s == Segment::Local || s == Segment::Argument || s == Segment::This || s == Segment::That,
    ensures
        r@ == base_symbol(s),
{
    match s {
        Segment::Local => "LCL",
        Segment::Argument => "ARG",
        Segment::This => "THIS",
        _ => "THAT",
    }
}

/// The register the pointer segment addresses directly: `THIS` for index
/// 0, `THAT` for index 1.
pub open spec fn pointer_symbol(i: u16) -> Seq<char> {
    if i == 0 {
        "THIS"@
    } else {
        "THAT"@
    }
}

/// The fixed register holding temp slot `i`: the temp segment starts at
/// address 5.
pub open spec fn temp_symbol(i: u16) -> Seq<char> {
    "R"@ + dec_text((5 + i) as nat)
}

/// The stable symbol of static slot `i` of a translation unit. Distinct
/// units never collide because their names differ.
pub open spec fn static_symbol(unit: Seq<char>, i: u16) -> Seq<char> {
    unit + "."@ + dec_text(i as nat)
}

/// The head of a push: leave the source value in the data register.
pub open spec fn push_head_text(source: VirtualMemoryAddr, unit: Seq<char>) -> Seq<char> {
    match source.segment {
        Segment::Constant => "// D := "@ + dec_text(source.index as nat) + "\n@"@ + dec_text(
            source.index as nat,
        ) + "\nD=A\n\n"@,
        Segment::Pointer => "// D := "@ + pointer_symbol(source.index) + "\n@"@ + pointer_symbol(
            source.index,
        ) + "\nD=M\n\n"@,
        Segment::Temp => "// D := "@ + temp_symbol(source.index) + "\n@"@ + temp_symbol(
            source.index,
        ) + "\nD=M\n\n"@,
        Segment::Static => "// D := "@ + static_symbol(unit, source.index) + "\n@"@
            + static_symbol(unit, source.index) + "\nD=M\n\n"@,
        _ => "// D := *("@ + base_symbol(source.segment) + " + "@ + dec_text(source.index as nat)
            + ")\n@"@ + base_symbol(source.segment) + "\nD=M\n@"@ + dec_text(source.index as nat)
            + "\nA=D+A\nD=M\n\n"@,
    }
}

/// The tail of every push: store the value at `SP` and advance `SP`.
pub open spec fn push_tail_text() -> Seq<char> {
    "// *SP := D\n@SP\nA=M\nM=D\n\n// SP++\n@SP\nM=M+1\n"@
}

/// What generating a push yields: its text, or a rejected segment index.
pub open spec fn push_outcome(source: VirtualMemoryAddr, unit: Seq<char>) -> Result<
    Seq<char>,
    VmError,
> {
    if source.segment == Segment::Pointer && source.index > 1 {
        Err(VmError::InvalidPointerIndex)
    } else if source.segment == Segment::Temp && source.index > 7 {
        Err(VmError::InvalidTempIndex)
    } else {
        Ok(push_head_text(source, unit) + push_tail_text())
    }
}

/// The body of a pop: retreat `SP`, then move the value at `SP` into the
/// destination, through the scratch register for indirect segments.
pub open spec fn pop_body_text(dest: VirtualMemoryAddr, unit: Seq<char>) -> Seq<char> {
    "// SP--\n@SP\nM=M-1\n\n"@ + match dest.segment {
        Segment::Pointer => "// "@ + pointer_symbol(dest.index)
            + " := *SP\n@SP\nA=M\nD=M\n@"@ + pointer_symbol(dest.index) + "\nM=D\n"@,
        Segment::Temp => "// "@ + temp_symbol(dest.index) + " := *SP\n@SP\nA=M\nD=M\n@"@
            + temp_symbol(dest.index) + "\nM=D\n"@,
        Segment::Static => "// "@ + static_symbol(unit, dest.index)
            + " := *SP\n@SP\nA=M\nD=M\n@"@ + static_symbol(unit, dest.index) + "\nM=D\n"@,
        _ => "// R13 := "@ + base_symbol(dest.segment) + " + "@ + dec_text(dest.index as nat)
            + "\n@"@ + base_symbol(dest.segment) + "\nD=M\n@"@ + dec_text(dest.index as nat)
            + "\nD=D+A\n@R13\nM=D\n\n// *R13 := *SP\n@SP\nA=M\nD=M\n@R13\nA=M\nM=D\n"@,
    }
}

/// What generating a pop yields: its text, or a rejected segment index.
/// The destination is never the constant segment.
pub open spec fn pop_outcome(dest: VirtualMemoryAddr, unit: Seq<char>) -> Result<
    Seq<char>,
    VmError,
> {
    if dest.segment == Segment::Pointer && dest.index > 1 {
        Err(VmError::InvalidPointerIndex)
    } else if dest.segment == Segment::Temp && dest.index > 7 {
        Err(VmError::InvalidTempIndex)
    } else {
        Ok(pop_body_text(dest, unit))
    }
}

/// The body of `add`.
pub open spec fn add_text() -> Seq<char> {
    "// SP--\n@SP\nM=M-1\n\n// D := *SP\nA=M\nD=M\n\n// SP--\n@SP\nM=M-1\n\n// *SP += D\nA=M\nM=M+D\n\n// SP++\n@SP\nM=M+1\n"@
}

/// The body of `sub`.
pub open spec fn sub_text() -> Seq<char> {
    "// SP--\n@SP\nM=M-1\n\n// D := *SP\nA=M\nD=M\n\n// SP--\n@SP\nM=M-1\n\n// *SP -= D\nA=M\nM=M-D\n\n// SP++\n@SP\nM=M+1\n"@
}

/// The body of `neg`.
pub open spec fn neg_text() -> Seq<char> {
    "// SP--\n@SP\nM=M-1\n\n// *SP := -*SP\nA=M\nM=-M\n\n// SP++\n@SP\nM=M+1\n"@
}

/// The body of `and`.
pub open spec fn and_text() -> Seq<char> {
    "// SP--\n@SP\nM=M-1\n\n// D := *SP\nA=M\nD=M\n\n// SP--\n@SP\nM=M-1\n\n// *SP &= D\nA=M\nM=M&D\n\n// SP++\n@SP\nM=M+1\n"@
}

/// The body of `or`.
pub open spec fn or_text() -> Seq<char> {
    "// SP--\n@SP\nM=M-1\n\n// D := *SP\nA=M\nD=M\n\n// SP--\n@SP\nM=M-1\n\n// *SP |= D\nA=M\nM=M|D\n\n// SP++\n@SP\nM=M+1\n"@
}

/// The body of `not`.
pub open spec fn not_text() -> Seq<char> {
    "// SP--\n@SP\nM=M-1\n\n// *SP := !*SP\nA=M\nM=!M\n\n// SP++\n@SP\nM=M+1\n"@
}

/// The branch-taken label of the comparison generated at counter `n`.
pub open spec fn label_true(n: nat) -> Seq<char> {
    "TRUE_"@ + dec_text(n)
}

/// The join label of the comparison generated at counter `n`.
pub open spec fn label_end(n: nat) -> Seq<char> {
    "END_"@ + dec_text(n)
}

/// The jump mnemonic selecting a comparison's true case.
pub open spec fn cmp_jump(c: Command) -> Seq<char> {
    match c {
        Command::Eq => "JEQ"@,
        Command::Gt => "JGT"@,
        Command::Lt => "JLT"@,
        _ => Seq::empty(),
    }
}

/// Whether a command draws a label pair from the context's counter.
pub open spec fn uses_label(c: Command) -> bool {
    c == Command::Eq || c == Command::Gt || c == Command::Lt
}

/// The body of a comparison generated at counter `n`: compute the
/// difference of the two top elements, branch to a fresh `true` label,
/// write false or true to the new top, and join at a fresh `end` label.
pub open spec fn cmp_text(c: Command, n: nat) -> Seq<char> {
    "// SP--\n@SP\nM=M-1\n\n// D := *SP\nA=M\nD=M\n\n// SP--\n@SP\nM=M-1\n\n// D := *SP - D\nA=M\nD=M-D\n\n// jump to 'true' case\n@"@
        + label_true(n) + "\nD;"@ + cmp_jump(c)
        + "\n\n// *SP := false\n@SP\nA=M\nM=0\n\n// jump to end of comparison\n@"@ + label_end(n)
        + "\n0;JMP\n\n("@ + label_true(n) + ")\n\n// *SP := true\n@SP\nA=M\nM=-1\n\n("@
        + label_end(n) + ")\n\n// SP++\n@SP\nM=M+1\n"@
}

/// What generating one command yields: a header naming the command, the
/// command's body, and a blank separator — or the error its operand earns.
pub open spec fn command_gen_outcome(c: Command, unit: Seq<char>, n: nat) -> Result<
    Seq<char>,
    VmError,
> {
    let header = "// *** "@ + command_text(c) + " ***\n\n"@;
    let trailer = "\n\n\n"@;
    match c {
        Command::Push { source } => match push_outcome(source, unit) {
            Ok(b) => Ok(header + b + trailer),
            Err(e) => Err(e),
        },
        Command::Pop { dest } => match pop_outcome(dest, unit) {
            Ok(b) => Ok(header + b + trailer),
            Err(e) => Err(e),
        },
        Command::Add => Ok(header + add_text() + trailer),
        Command::Sub => Ok(header + sub_text() + trailer),
        Command::Neg => Ok(header + neg_text() + trailer),
        Command::And => Ok(header + and_text() + trailer),
        Command::Or => Ok(header + or_text() + trailer),
        Command::Not => Ok(header + not_text() + trailer),
        _ => Ok(header + cmp_text(c, n) + trailer),
    }
}

/// Generates the body of a push.
fn push(source: VirtualMemoryAddr, unit: &str) -> (r: Result<String, VmError>)
    ensures
        match r {
            Ok(s) => push_outcome(source, unit@) == Ok::<Seq<char>, VmError>(s@),
            Err(e) => push_outcome(source, unit@) == Err::<Seq<char>, VmError>(e),
        },
{
    let idx = to_decimal(source.index as u64);
    let mut s = String::new();
    match source.segment {
        Segment::Constant => {
            s.append("// D := ");
            s.append(idx.as_str());
            s.append("\n@");
            s.append(idx.as_str());
            s.append("\nD=A\n\n");
        },
        Segment::Pointer => {
            if source.index > 1 {
                return Err(VmError::InvalidPointerIndex);
            }
            let this_that = if source.index == 0 { "THIS" } else { "THAT" };
            s.append("// D := ");
            s.append(this_that);
            s.append("\n@");
            s.append(this_that);
            s.append("\nD=M\n\n");
        },
        Segment::Temp => {
            if source.index > 7 {
                return Err(VmError::InvalidTempIndex);
            }
            let slot = to_decimal(5 + source.index as u64);
            s.append("// D := ");
            s.append("R");
            s.append(slot.as_str());
            s.append("\n@");
            s.append("R");
            s.append(slot.as_str());
            s.append("\nD=M\n\n");
        },
        Segment::Static => {
            s.append("// D := ");
            s.append(unit);
            s.append(".");
            s.append(idx.as_str());
            s.append("\n@");
            s.append(unit);
            s.append(".");
            s.append(idx.as_str());
            s.append("\nD=M\n\n");
        },
        _ => {
            let base = base_str(source.segment);
            s.append("// D := *(");
            s.append(base);
            s.append(" + ");
            s.append(idx.as_str());
            s.append(")\n@");
            s.append(base);
            s.append("\nD=M\n@");
            s.append(idx.as_str());
            s.append("\nA=D+A\nD=M\n\n");
        },
    }
    proof {
        assert(s@ =~= push_head_text(source, unit@));
    }
    s.append("// *SP := D\n@SP\nA=M\nM=D\n\n// SP++\n@SP\nM=M+1\n");
    proof {
        assert(s@ =~= push_head_text(source, unit@) + push_tail_text());
    }
    Ok(s)
}

/// Generates the body of a pop. The destination is never the constant
/// segment.
fn pop(dest: VirtualMemoryAddr, unit: &str) -> (r: Result<String, VmError>)
    requires
        dest.segment != Segment::Constant,
    ensures
        match r {
            Ok(s) => pop_outcome(dest, unit@) == Ok::<Seq<char>, VmError>(s@),
            Err(e) => pop_outcome(dest, unit@) == Err::<Seq<char>, VmError>(e),
        },
{
    let idx = to_decimal(dest.index as u64);
    let mut s = String::from_str("// SP--\n@SP\nM=M-1\n\n");
    match dest.segment {
        Segment::Pointer => {
            if dest.index > 1 {
                return Err(VmError::InvalidPointerIndex);
            }
            let this_that = if dest.index == 0 { "THIS" } else { "THAT" };
            s.append("// ");
            s.append(this_that);
            s.append(" := *SP\n@SP\nA=M\nD=M\n@");
            s.append(this_that);
            s.append("\nM=D\n");
        },
        Segment::Temp => {
            if dest.index > 7 {
                return Err(VmError::InvalidTempIndex);
            }
            let slot = to_decimal(5 + dest.index as u64);
            s.append("// ");
            s.append("R");
            s.append(slot.as_str());
            s.append(" := *SP\n@SP\nA=M\nD=M\n@");
            s.append("R");
            s.append(slot.as_str());
            s.append("\nM=D\n");
        },
        Segment::Static => {
            s.append("// ");
            s.append(unit);
            s.append(".");
            s.append(idx.as_str());
            s.append(" := *SP\n@SP\nA=M\nD=M\n@");
            s.append(unit);
            s.append(".");
            s.append(idx.as_str());
            s.append("\nM=D\n");
        },
        _ => {
            let base = base_str(dest.segment);
            s.append("// R13 := ");
            s.append(base);
            s.append(" + ");
            s.append(idx.as_str());
            s.append("\n@");
            s.append(base);
            s.append("\nD=M\n@");
            s.append(idx.as_str());
            s.append("\nD=D+A\n@R13\nM=D\n\n// *R13 := *SP\n@SP\nA=M\nD=M\n@R13\nA=M\nM=D\n");
        },
    }
    proof {
        assert(s@ =~= pop_body_text(dest, unit@));
    }
    Ok(s)
}

/// Generates the body of `add`.
fn add() -> (r: String)
    ensures
        r@ == add_text(),
{
    String::from_str(
        "// SP--\n@SP\nM=M-1\n\n// D := *SP\nA=M\nD=M\n\n// SP--\n@SP\nM=M-1\n\n// *SP += D\nA=M\nM=M+D\n\n// SP++\n@SP\nM=M+1\n",
    )
}

/// Generates the body of `sub`.
fn sub() -> (r: String)
    ensures
        r@ == sub_text(),
{
    String::from_str(
        "// SP--\n@SP\nM=M-1\n\n// D := *SP\nA=M\nD=M\n\n// SP--\n@SP\nM=M-1\n\n// *SP -= D\nA=M\nM=M-D\n\n// SP++\n@SP\nM=M+1\n",
    )
}

/// Generates the body of `neg`.
fn neg() -> (r: String)
    ensures
        r@ == neg_text(),
{
    String::from_str(
        "// SP--\n@SP\nM=M-1\n\n// *SP := -*SP\nA=M\nM=-M\n\n// SP++\n@SP\nM=M+1\n",
    )
}

/// Generates the body of `and`.
fn and() -> (r: String)
    ensures
        r@ == and_text(),
{
    String::from_str(
        "// SP--\n@SP\nM=M-1\n\n// D := *SP\nA=M\nD=M\n\n// SP--\n@SP\nM=M-1\n\n// *SP &= D\nA=M\nM=M&D\n\n// SP++\n@SP\nM=M+1\n",
    )
}

/// Generates the body of `or`.
fn or() -> (r: String)
    ensures
        r@ == or_text(),
{
    String::from_str(
        "// SP--\n@SP\nM=M-1\n\n// D := *SP\nA=M\nD=M\n\n// SP--\n@SP\nM=M-1\n\n// *SP |= D\nA=M\nM=M|D\n\n// SP++\n@SP\nM=M+1\n",
    )
}

/// Generates the body of `not`.
fn not() -> (r: String)
    ensures
        r@ == not_text(),
{
    String::from_str(
        "// SP--\n@SP\nM=M-1\n\n// *SP := !*SP\nA=M\nM=!M\n\n// SP++\n@SP\nM=M+1\n",
    )
}

/// Generates the body of a comparison, with the label pair of counter `n`.
fn compare(c: Command, n: u64) -> (r: String)
    requires
        uses_label(c),
    ensures
        r@ == cmp_text(c, n as nat),
{
    let jump = match c {
        Command::Eq => "JEQ",
        Command::Gt => "JGT",
        _ => "JLT",
    };
    let num = to_decimal(n);
    let mut s = String::from_str(
        "// SP--\n@SP\nM=M-1\n\n// D := *SP\nA=M\nD=M\n\n// SP--\n@SP\nM=M-1\n\n// D := *SP - D\nA=M\nD=M-D\n\n// jump to 'true' case\n@",
    );
    s.append("TRUE_");
    s.append(num.as_str());
    s.append("\nD;");
    s.append(jump);
    s.append("\n\n// *SP := false\n@SP\nA=M\nM=0\n\n// jump to end of comparison\n@");
    s.append("END_");
    s.append(num.as_str());
    s.append("\n0;JMP\n\n(");
    s.append("TRUE_");
    s.append(num.as_str());
    s.append(")\n\n// *SP := true\n@SP\nA=M\nM=-1\n\n(");
    s.append("END_");
    s.append(num.as_str());
    s.append(")\n\n// SP++\n@SP\nM=M+1\n");
    proof {
        assert(s@ =~= cmp_text(c, n as nat));
    }
    s
}

impl Command {
    /// Generates the assembly fragment for one command, drawing fresh
    /// labels from the context for comparisons.
    pub fn code_gen(self, ctx: &mut GenContext) -> (r: Result<String, VmError>)
        requires
            old(ctx).wf(),
            self.wf(),
            old(ctx).counter() < u64::MAX,
        ensures
            final(ctx).wf(),
            final(ctx).unit() == old(ctx).unit(),
            final(ctx).counter() == old(ctx).counter() + (if uses_label(self) {
                1nat
            } else {
                0nat
            }),
            match r {
                Ok(s) => command_gen_outcome(self, old(ctx).unit(), old(ctx).counter()) == Ok::<
                    Seq<char>,
                    VmError,
                >(s@),
                Err(e) => command_gen_outcome(self, old(ctx).unit(), old(ctx).counter()) == Err::<
                    Seq<char>,
                    VmError,
                >(e),
            },
    {
        let mut s = String::from_str("// *** ");
        let name = self.text();
        s.append(name.as_str());
        s.append(" ***\n\n");
        let ghost header = "// *** "@ + command_text(self) + " ***\n\n"@;
        proof {
            assert(s@ =~= header);
        }
        let body = match self {
            Command::Push { source } => {
                match push(source, ctx.unit.as_str()) {
                    Ok(b) => b,
                    Err(e) => {
                        return Err(e);
                    },
                }
            },
            Command::Pop { dest } => {
                match pop(dest, ctx.unit.as_str()) {
                    Ok(b) => b,
                    Err(e) => {
                        return Err(e);
                    },
                }
            },
            Command::Add => crate::code_gen::add(),
            Command::Sub => crate::code_gen::sub(),
            Command::Neg => neg(),
            Command::And => and(),
            Command::Or => or(),
            Command::Not => not(),
            Command::Eq | Command::Gt | Command::Lt => {
                let body = compare(self, ctx.counter);
                ctx.counter = ctx.counter + 1;
                body
            },
        };
        s.append(body.as_str());
        s.append("\n\n\n");
        proof {
            assert(s@ =~= header + body@ + "\n\n\n"@);
        }
        Ok(s)
    }
}

/// The closing fragment of a program: an infinite loop that halts the
/// machine.
pub open spec fn halt_text() -> Seq<char> {
    "// Halt.\n(INFINITE_LOOP)\n@INFINITE_LOOP\n0;JMP\n"@
}

/// Generates the halt fragment that ends a program.
pub fn halt() -> (r: String)
    ensures
        r@ == halt_text(),
{
    String::from_str("// Halt.\n(INFINITE_LOOP)\n@INFINITE_LOOP\n0;JMP\n")
}

/// Law: comparisons generated at different counter values share no label:
/// the `true` labels differ, the `end` labels differ, and a `true` label
/// never equals an `end` label. Since every comparison advances the
/// counter by one, two comparisons of one run never reuse a label name.
pub proof fn lemma_comparison_labels_unique(a: nat, b: nat)
    requires
        a != b,
    ensures
        label_true(a) != label_true(b),
        label_end(a) != label_end(b),
        label_true(a) != label_end(b),
{
    reveal_strlit("TRUE_");
    reveal_strlit("END_");
    if label_true(a) == label_true(b) {
        crate::text::lemma_concat_left_cancel("TRUE_"@, dec_text(a), dec_text(b));
        crate::text::lemma_dec_text_injective(a, b);
    }
    if label_end(a) == label_end(b) {
        crate::text::lemma_concat_left_cancel("END_"@, dec_text(a), dec_text(b));
        crate::text::lemma_dec_text_injective(a, b);
    }
    if label_true(a) == label_end(b) {
        assert(label_true(a)[0] == 'T');
        assert(label_end(b)[0] == 'E');
    }
}

/// Law: every symbol the generator writes into a fragment — a comparison
/// label, a static symbol of a well-formed unit, a temp register or a
/// pointer register — is a non-empty valid assembly symbol, so the
/// assembler accepts the generated references and label lines.
pub proof fn lemma_generated_symbols_valid(unit: Seq<char>, i: u16, n: nat)
    requires
        valid_symbol(unit),
        unit.len() > 0,
    ensures
        valid_symbol(label_true(n)) && label_true(n).len() > 0,
        valid_symbol(label_end(n)) && label_end(n).len() > 0,
        valid_symbol(static_symbol(unit, i)) && static_symbol(unit, i).len() > 0,
        valid_symbol(temp_symbol(i)) && temp_symbol(i).len() > 0,
        valid_symbol(pointer_symbol(i)) && pointer_symbol(i).len() > 0,
{
    reveal_strlit("TRUE_");
    reveal_strlit("END_");
    reveal_strlit("R");
    reveal_strlit(".");
    reveal_strlit("THIS");
    reveal_strlit("THAT");
    crate::text::lemma_dec_text_digits(n);
    crate::text::lemma_dec_text_digits((5 + i) as nat);
    crate::text::lemma_dec_text_digits(i as nat);
    let lt = label_true(n);
    assert forall|j: int| 0 <= j < lt.len() implies crate::instruction::symbol_char(
        #[trigger] lt[j],
    ) by {
        if j >= 5 {
            assert(lt[j] == dec_text(n)[j - 5]);
            assert(crate::text::is_dec_digit(dec_text(n)[j - 5]));
        }
    }
    assert(lt[0] == 'T');
    let le = label_end(n);
    assert forall|j: int| 0 <= j < le.len() implies crate::instruction::symbol_char(
        #[trigger] le[j],
    ) by {
        if j >= 4 {
            assert(le[j] == dec_text(n)[j - 4]);
            assert(crate::text::is_dec_digit(dec_text(n)[j - 4]));
        }
    }
    assert(le[0] == 'E');
    let st = static_symbol(unit, i);
    assert forall|j: int| 0 <= j < st.len() implies crate::instruction::symbol_char(
        #[trigger] st[j],
    ) by {
        if j < unit.len() {
            assert(st[j] == unit[j]);
        } else if j == unit.len() {
            assert(st[j] == '.');
        } else {
            assert(st[j] == dec_text(i as nat)[j - unit.len() - 1]);
            assert(crate::text::is_dec_digit(dec_text(i as nat)[j - unit.len() - 1]));
        }
    }
    assert(st[0] == unit[0]);
    let tp = temp_symbol(i);
    assert forall|j: int| 0 <= j < tp.len() implies crate::instruction::symbol_char(
        #[trigger] tp[j],
    ) by {
        if j >= 1 {
            assert(tp[j] == dec_text((5 + i) as nat)[j - 1]);
            assert(crate::text::is_dec_digit(dec_text((5 + i) as nat)[j - 1]));
        }
    }
    assert(tp[0] == 'R');
    if i == 0 {
        assert(pointer_symbol(i) == "THIS"@);
        assert forall|j: int| 0 <= j < pointer_symbol(i).len()
            implies crate::instruction::symbol_char(#[trigger] pointer_symbol(i)[j]) by {}
    } else {
        assert(pointer_symbol(i) == "THAT"@);
        assert forall|j: int| 0 <= j < pointer_symbol(i).len()
            implies crate::instruction::symbol_char(#[trigger] pointer_symbol(i)[j]) by {}
    }
}

/// One translation run from line `i` on: parse each line, generate its
/// fragment, and append the fragments in order, threading the label
/// counter through.
pub open spec fn vm_gen_from(
    lines: Seq<Seq<char>>,
    i: int,
    unit: Seq<char>,
    n: nat,
    acc: Seq<char>,
) -> Result<(Seq<char>, nat), (int, VmError)>
    decreases lines.len() - i,
{
    if i < 0 || i >= lines.len() {
        Ok((acc, n))
    } else {
        match command_of_text(lines[i]) {
            Err(e) => Err((i, e)),
            Ok(c) => match command_gen_outcome(c, unit, n) {
                Err(e) => Err((i, e)),
                Ok(t) => vm_gen_from(
                    lines,
                    i + 1,
                    unit,
                    n + (if uses_label(c) {
                        1nat
                    } else {
                        0nat
                    }),
                    acc + t,
                ),
            },
        }
    }
}

/// Translates a ready sequence of VM source lines into one assembly text,
/// the concatenation of each command's fragment in order.
pub fn translate(lines: &Vec<String>, ctx: &mut GenContext) -> (r: Result<String, VmLineError>)
    requires
        old(ctx).wf(),
        old(ctx).counter() + lines@.len() <= u64::MAX,
    ensures
        final(ctx).wf(),
        final(ctx).unit() == old(ctx).unit(),
        match r {
            Ok(s) => vm_gen_from(
                lines.deep_view(),
                0,
                old(ctx).unit(),
                old(ctx).counter(),
                Seq::empty(),
            ) == Ok::<(Seq<char>, nat), (int, VmError)>((s@, final(ctx).counter())),
            Err(le) => vm_gen_from(
                lines.deep_view(),
                0,
                old(ctx).unit(),
                old(ctx).counter(),
                Seq::empty(),
            ) == Err::<(Seq<char>, nat), (int, VmError)>((le.line as int, le.error)),
        },
{
    let ghost dv = lines.deep_view();
    let ghost u0 = ctx.unit();
    let ghost n0 = ctx.counter();
    let n = lines.len();
    let mut out = String::new();
    proof {
        assert(out@ =~= Seq::<char>::empty());
    }
    let mut i: usize = 0;
    while i < n
        invariant
            n == lines@.len(),
            dv == lines.deep_view(),
            dv.len() == n,
            i <= n,
            ctx.wf(),
            u0 == old(ctx).unit(),
            n0 == old(ctx).counter(),
            ctx.unit() == u0,
            ctx.counter() <= n0 + i,
            n0 + n <= u64::MAX,
            vm_gen_from(dv, 0, u0, n0, Seq::empty()) == vm_gen_from(
                dv,
                i as int,
                u0,
                ctx.counter(),
                out@,
            ),
        decreases n - i,
    {
        proof {
            assert(dv[i as int] == lines@[i as int]@);
        }
        let c = match Command::parse(lines[i].as_str()) {
            Err(e) => {
                return Err(VmLineError { line: i, error: e });
            },
            Ok(c) => c,
        };
        match c.code_gen(ctx) {
            Err(e) => {
                return Err(VmLineError { line: i, error: e });
            },
            Ok(frag) => {
                out.append(frag.as_str());
            },
        }
        i = i + 1;
    }
    Ok(out)
}

} // verus!
