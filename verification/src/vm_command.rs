//! Data types for one command of the stack-machine VM language, and the
//! parser that reads a command from a source line.

use vstd::prelude::*;

use crate::errors::VmError;
use crate::text::{all_digits, dec_val, find_space_first, trim_spec};
use crate::text::{find_space, read_dec15, str_eq, trim, DecRead};

verus! {

/// Segment indices are always below this limit.
pub const INDEX_LIMIT: u16 = 0x8000;

/// One of the virtual memory segments of the VM.
#[derive(Clone, Copy, PartialEq, Eq, Structural, Debug)]
pub enum Segment {
    Argument,
    Local,
    Static,
    Constant,
    This,
    That,
    Pointer,
    Temp,
}

/// A location in the VM's virtual memory: a segment and an index into it.
#[derive(Clone, Copy, PartialEq, Eq, Structural, Debug)]
pub struct VirtualMemoryAddr {
    pub segment: Segment,
    /// Always below `2^15`.
    pub index: u16,
}

/// A command in the VM language.
#[derive(Clone, Copy, PartialEq, Eq, Structural, Debug)]
pub enum Command {
    /// Push a value onto the stack.
    Push { source: VirtualMemoryAddr },
    /// Pop the top of the stack into a location. The segment is never
    /// `Constant`.
    Pop { dest: VirtualMemoryAddr },
    Add,
    Sub,
    Neg,
    Eq,
    Gt,
    Lt,
    And,
    Or,
    Not,
}

impl Command {
    /// A pop never targets the constant segment, and indices fit in
    /// fifteen bits.
    pub open spec fn wf(self) -> bool {
        match self {
            Command::Push { source } => source.index < INDEX_LIMIT,
            Command::Pop { dest } => dest.segment != Segment::Constant && dest.index
                < INDEX_LIMIT,
            _ => true,
        }
    }
}

/// The segment a lowercase name denotes, if any.
pub open spec fn segment_of_text(s: Seq<char>) -> Option<Segment> {
    if s == "argument"@ { Some(Segment::Argument) }
    else if s == "local"@ { Some(Segment::Local) }
    else if s == "static"@ { Some(Segment::Static) }
    else if s == "constant"@ { Some(Segment::Constant) }
    else if s == "this"@ { Some(Segment::This) }
    else if s == "that"@ { Some(Segment::That) }
    else if s == "pointer"@ { Some(Segment::Pointer) }
    else if s == "temp"@ { Some(Segment::Temp) }
    else { None }
}

/// The virtual memory address two space-separated words denote, if any:
/// a segment name and a decimal index below `2^15`.
pub open spec fn vm_addr_of_text(s: Seq<char>) -> Result<VirtualMemoryAddr, VmError> {
    match find_space_first(s) {
        None => Err(VmError::BadIndex),
        Some(i) => {
            let seg_txt = s.take(i);
            let idx_txt = s.skip(i + 1);
            match segment_of_text(seg_txt) {
                None => Err(VmError::UnrecognizedSegment),
                Some(segment) => {
                    if idx_txt.len() == 0 || !all_digits(idx_txt) {
                        Err(VmError::BadIndex)
                    } else if dec_val(idx_txt) >= INDEX_LIMIT {
                        Err(VmError::IndexOutOfRange)
                    } else {
                        Ok(VirtualMemoryAddr { segment, index: dec_val(idx_txt) as u16 })
                    }
                },
            }
        },
    }
}

/// The command a trimmed-then-split source line denotes, if any. A line
/// without whitespace must be one of the nine nullary keywords; otherwise
/// the first word must be `push` or `pop` and the rest a virtual memory
/// address, where `pop constant` is rejected outright.
pub open spec fn command_of_text(s: Seq<char>) -> Result<Command, VmError> {
    let t = trim_spec(s);
    match find_space_first(t) {
        None => {
            if t == "add"@ { Ok(Command::Add) }
            else if t == "sub"@ { Ok(Command::Sub) }
            else if t == "neg"@ { Ok(Command::Neg) }
            else if t == "eq"@ { Ok(Command::Eq) }
            else if t == "gt"@ { Ok(Command::Gt) }
            else if t == "lt"@ { Ok(Command::Lt) }
            else if t == "and"@ { Ok(Command::And) }
            else if t == "or"@ { Ok(Command::Or) }
            else if t == "not"@ { Ok(Command::Not) }
            else { Err(VmError::UnrecognizedCommand) }
        },
        Some(i) => {
            let kw = t.take(i);
            let rest = t.skip(i + 1);
            match vm_addr_of_text(rest) {
                Err(e) => Err(e),
                Ok(addr) => {
                    if kw == "push"@ {
                        Ok(Command::Push { source: addr })
                    } else if kw == "pop"@ {
                        if addr.segment == Segment::Constant {
                            Err(VmError::IllegalPop)
                        } else {
                            Ok(Command::Pop { dest: addr })
                        }
                    } else {
                        Err(VmError::UnrecognizedCommand)
                    }
                },
            }
        },
    }
}

impl Segment {
    /// Parses one of the eight lowercase segment names.
    pub fn parse(s: &str) -> (r: Option<Segment>)
        ensures
            r == segment_of_text(s@),
    {
        if str_eq(s, "argument") { Some(Segment::Argument) }
        else if str_eq(s, "local") { Some(Segment::Local) }
        else if str_eq(s, "static") { Some(Segment::Static) }
        else if str_eq(s, "constant") { Some(Segment::Constant) }
        else if str_eq(s, "this") { Some(Segment::This) }
        else if str_eq(s, "that") { Some(Segment::That) }
        else if str_eq(s, "pointer") { Some(Segment::Pointer) }
        else if str_eq(s, "temp") { Some(Segment::Temp) }
        else { None }
    }
}

impl VirtualMemoryAddr {
    /// Parses a `segment index` pair.
    pub fn parse(s: &str) -> (r: Result<VirtualMemoryAddr, VmError>)
        ensures
            r == vm_addr_of_text(s@),
            r matches Ok(a) ==> a.index < INDEX_LIMIT,
    {
        let len = s.unicode_len();
        let i = match find_space(s) {
            None => {
                return Err(VmError::BadIndex);
            },
            Some(i) => i,
        };
        let seg_txt = s.substring_char(0, i);
        let idx_txt = s.substring_char(i + 1, len);
        proof {
            assert(seg_txt@ =~= s@.take(i as int));
            assert(idx_txt@ =~= s@.skip(i + 1));
        }
        let segment = match Segment::parse(seg_txt) {
            None => {
                return Err(VmError::UnrecognizedSegment);
            },
            Some(seg) => seg,
        };
        match read_dec15(idx_txt) {
            DecRead::NotNumeric => Err(VmError::BadIndex),
            DecRead::TooBig => Err(VmError::IndexOutOfRange),
            DecRead::Value(index) => Ok(VirtualMemoryAddr { segment, index }),
        }
    }
}

impl Command {
    /// Parses one source line into a VM command. `pop constant` is
    /// rejected here, before any code generation is attempted.
    pub fn parse(line: &str) -> (r: Result<Command, VmError>)
        ensures
            r == command_of_text(line@),
            r matches Ok(c) ==> c.wf(),
    {
        let t = trim(line);
        let len = t.unicode_len();
        let i = match find_space(t) {
            None => {
                let c = if str_eq(t, "add") { Some(Command::Add) }
                else if str_eq(t, "sub") { Some(Command::Sub) }
                else if str_eq(t, "neg") { Some(Command::Neg) }
                else if str_eq(t, "eq") { Some(Command::Eq) }
                else if str_eq(t, "gt") { Some(Command::Gt) }
                else if str_eq(t, "lt") { Some(Command::Lt) }
                else if str_eq(t, "and") { Some(Command::And) }
                else if str_eq(t, "or") { Some(Command::Or) }
                else if str_eq(t, "not") { Some(Command::Not) }
                else { None };
                return match c {
                    Some(c) => Ok(c),
                    None => Err(VmError::UnrecognizedCommand),
                };
            },
            Some(i) => i,
        };
        let kw = t.substring_char(0, i);
        let rest = t.substring_char(i + 1, len);
        proof {
            assert(kw@ =~= trim_spec(line@).take(i as int));
            assert(rest@ =~= trim_spec(line@).skip(i + 1));
        }
        let addr = match VirtualMemoryAddr::parse(rest) {
            Err(e) => {
                return Err(e);
            },
            Ok(addr) => addr,
        };
        if str_eq(kw, "push") {
            Ok(Command::Push { source: addr })
        } else if str_eq(kw, "pop") {
            match addr.segment {
                Segment::Constant => Err(VmError::IllegalPop),
                _ => Ok(Command::Pop { dest: addr }),
            }
        } else {
            Err(VmError::UnrecognizedCommand)
        }
    }
}

} // verus!
