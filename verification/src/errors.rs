//! Error types for the assembler and the VM translator.
//!
//! Any error aborts a whole translation run: there is no line-level recovery
//! and no partial output.

use vstd::prelude::*;

verus! {

/// An error raised while parsing or assembling symbolic assembly.
#[derive(Clone, Copy, PartialEq, Eq, Structural, Debug)]
pub enum AsmError {
    /// A label line does not end with `)`.
    BadLabel,
    /// A symbol holds an invalid character or starts with a digit.
    InvalidSymbol,
    /// A numeric literal holds a non-digit character or is empty.
    BadLiteral,
    /// A numeric literal does not fit in fifteen bits.
    LiteralOutOfRange,
    /// A destination field is empty, repeats a register, or names one that
    /// does not exist.
    BadDest,
    /// A jump mnemonic is not one of the seven defined ones.
    UnknownJump,
    /// A computation expression is not in the fixed lookup table.
    UnknownComp,
    /// A symbol was bound twice.
    DuplicateSymbol,
    /// No free variable address below `2^15` is left.
    AddressSpaceExhausted,
    /// The instruction counter would reach `2^15`.
    TooManyInstructions,
}

/// An assembler error together with the index of the offending source line.
#[derive(Clone, Copy, PartialEq, Eq, Structural, Debug)]
pub struct LineError {
    /// Index into the input line sequence.
    pub line: usize,
    /// What went wrong on that line.
    pub error: AsmError,
}

/// An error raised while parsing VM commands or generating code for them.
#[derive(Clone, Copy, PartialEq, Eq, Structural, Debug)]
pub enum VmError {
    /// The leading keyword is not a known command.
    UnrecognizedCommand,
    /// The segment name is not one of the eight defined ones.
    UnrecognizedSegment,
    /// A segment index holds a non-digit character or is missing.
    BadIndex,
    /// A segment index does not fit in fifteen bits.
    IndexOutOfRange,
    /// `pop constant` is meaningless and rejected at parse time.
    IllegalPop,
    /// The `pointer` segment only has indices 0 and 1.
    InvalidPointerIndex,
    /// The `temp` segment only has indices 0 through 7.
    InvalidTempIndex,
    /// A translation unit name must be a valid symbol.
    InvalidUnitName,
}

/// A VM translation error together with the index of the offending line.
#[derive(Clone, Copy, PartialEq, Eq, Structural, Debug)]
pub struct VmLineError {
    /// Index into the input line sequence.
    pub line: usize,
    /// What went wrong on that line.
    pub error: VmError,
}

} // verus!
