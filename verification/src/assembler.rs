//! The two-pass assembler pipeline.
//!
//! The first pass binds every label to the count of real instructions seen
//! before it; the second pass re-scans the same lines, resolves symbols
//! (binding unknown ones as fresh variables), encodes each instruction and
//! renders it as sixteen binary digits. Any error aborts the whole run.

use vstd::prelude::*;

use crate::errors::{AsmError, LineError};
use crate::instr::ADDRESS_LIMIT;
use crate::instruction::{instr_gen_outcome, line_of_text, Line, LineModel};
use crate::symbol_table::{predefined_map, SymbolTable};
use crate::text::{bin_text, comment_start, trim_spec};
use crate::text::{to_binary16, trim};

verus! {

/// `s` up to its first `//` comment marker.
pub open spec fn strip_comment(s: Seq<char>) -> Seq<char> {
    match comment_start(s) {
        Some(i) => s.take(i),
        None => s,
    }
}

/// The lines kept for parsing: comments removed, blank lines dropped.
pub open spec fn remove_comments_spec(lines: Seq<Seq<char>>) -> Seq<Seq<char>>
    decreases lines.len(),
{
    if lines.len() == 0 {
        Seq::empty()
    } else {
        let pre = remove_comments_spec(lines.drop_last());
        let t = strip_comment(lines.last());
        if trim_spec(t).len() == 0 {
            pre
        } else {
            pre.push(t)
        }
    }
}

/// Removes `//` comments and drops the lines that are left blank.
pub fn remove_comments(lines: &Vec<String>) -> (r: Vec<String>)
    ensures
        r.deep_view() == remove_comments_spec(lines.deep_view()),
{
    let mut out: Vec<String> = Vec::new();
    let n = lines.len();
    let mut i: usize = 0;
    while i < n
        invariant
            n == lines@.len(),
            i <= n,
            out.deep_view() == remove_comments_spec(lines.deep_view().take(i as int)),
        decreases n - i,
    {
        let ghost prefix = lines.deep_view().take(i as int);
        let line = lines[i].as_str();
        let kept = match crate::text::find_comment(line) {
            Some(j) => line.substring_char(0, j),
            None => line,
        };
        proof {
            assert(lines.deep_view().take(i + 1).drop_last() =~= prefix);
            assert(lines.deep_view()[i as int] == lines@[i as int]@);
            assert(kept@ =~= strip_comment(lines.deep_view()[i as int]));
        }
        let t = trim(kept);
        if t.unicode_len() > 0 {
            let ghost pre_out = out.deep_view();
            out.push(kept.to_owned());
            proof {
                assert(out.deep_view() =~= pre_out.push(kept@));
            }
        }
        i = i + 1;
    }
    proof {
        assert(lines.deep_view().take(n as int) =~= lines.deep_view());
    }
    out
}

/// The first pass from line `i` on: an instruction advances the counter,
/// failing when it would reach `2^15`; a label is bound to the counter;
/// a line that does not parse fails with its position.
pub open spec fn pass1_from(
    lines: Seq<Seq<char>>,
    i: int,
    m: Map<Seq<char>, u16>,
    count: nat,
) -> Result<(Map<Seq<char>, u16>, nat), (int, AsmError)>
    decreases lines.len() - i,
{
    if i < 0 || i >= lines.len() {
        Ok((m, count))
    } else {
        match line_of_text(lines[i]) {
            Err(e) => Err((i, e)),
            Ok(LineModel::Label(name)) => if m.dom().contains(name) {
                Err((i, AsmError::DuplicateSymbol))
            } else {
                pass1_from(lines, i + 1, m.insert(name, count as u16), count)
            },
            Ok(LineModel::Ins(_)) => if count >= ADDRESS_LIMIT - 1 {
                Err((i, AsmError::TooManyInstructions))
            } else {
                pass1_from(lines, i + 1, m, count + 1)
            },
        }
    }
}

/// Reads labels and binds them in the symbol table. The instruction
/// counter starts at zero; each label is bound to the count of real
/// instructions seen so far, which is the address of the next instruction.
/// On failure the table may hold the labels bound before the failing
/// line; the whole run is abandoned, so no caller reads it further.
pub fn first_pass(lines: &Vec<String>, symbol_table: &mut SymbolTable) -> (r: Result<
    (),
    LineError,
>)
    requires
        old(symbol_table).wf(),
    ensures
        final(symbol_table).wf(),
        final(symbol_table).vars() == old(symbol_table).vars(),
        match r {
            Ok(()) => pass1_from(lines.deep_view(), 0, old(symbol_table).map(), 0) matches Ok(p)
                && p.0 == final(symbol_table).map(),
            Err(le) => pass1_from(lines.deep_view(), 0, old(symbol_table).map(), 0) == Err::<
                (Map<Seq<char>, u16>, nat),
                (int, AsmError),
            >((le.line as int, le.error)),
        },
{
    let ghost dv = lines.deep_view();
    let ghost m0 = symbol_table.map();
    let n = lines.len();
    let mut count: u16 = 0;
    let mut i: usize = 0;
    while i < n
        invariant
            n == lines@.len(),
            dv == lines.deep_view(),
            dv.len() == n,
            i <= n,
            count < ADDRESS_LIMIT,
            m0 == old(symbol_table).map(),
            symbol_table.wf(),
            symbol_table.vars() == old(symbol_table).vars(),
            pass1_from(dv, 0, m0, 0) == pass1_from(
                dv,
                i as int,
                symbol_table.map(),
                count as nat,
            ),
        decreases n - i,
    {
        proof {
            assert(dv[i as int] == lines@[i as int]@);
        }
        match Line::parse(lines[i].as_str()) {
            Err(e) => {
                return Err(LineError { line: i, error: e });
            },
            Ok(Line::Label(name)) => {
                match symbol_table.new_label(name, count) {
                    Ok(()) => {},
                    Err(e) => {
                        return Err(LineError { line: i, error: e });
                    },
                }
            },
            Ok(Line::Instr(_)) => {
                if count >= ADDRESS_LIMIT - 1 {
                    return Err(
                        LineError { line: i, error: AsmError::TooManyInstructions },
                    );
                }
                count = count + 1;
            },
        }
        i = i + 1;
    }
    Ok(())
}

/// The second pass from line `i` on: labels emit nothing; instructions are
/// resolved against the table, encoded, and appended as sixteen binary
/// digits.
pub open spec fn pass2_from(
    lines: Seq<Seq<char>>,
    i: int,
    m: Map<Seq<char>, u16>,
    vars: nat,
    out: Seq<Seq<char>>,
) -> Result<Seq<Seq<char>>, (int, AsmError)>
    decreases lines.len() - i,
{
    if i < 0 || i >= lines.len() {
        Ok(out)
    } else {
        match line_of_text(lines[i]) {
            Err(e) => Err((i, e)),
            Ok(LineModel::Label(_)) => pass2_from(lines, i + 1, m, vars, out),
            Ok(LineModel::Ins(im)) => match instr_gen_outcome(m, vars, im) {
                Err(e) => Err((i, e)),
                Ok((w, m2, v2)) => pass2_from(
                    lines,
                    i + 1,
                    m2,
                    v2,
                    out.push(bin_text(w as nat, 16)),
                ),
            },
        }
    }
}

/// Re-scans the lines and emits one sixteen-digit binary word per
/// instruction, in input order. Unknown symbols are bound as variables.
/// On failure no output is returned and the run is abandoned.
pub fn second_pass(lines: &Vec<String>, symbol_table: &mut SymbolTable) -> (r: Result<
    Vec<String>,
    LineError,
>)
    requires
        old(symbol_table).wf(),
    ensures
        final(symbol_table).wf(),
        match r {
            Ok(out) => pass2_from(
                lines.deep_view(),
                0,
                old(symbol_table).map(),
                old(symbol_table).vars(),
                Seq::empty(),
            ) == Ok::<Seq<Seq<char>>, (int, AsmError)>(out.deep_view()),
            Err(le) => pass2_from(
                lines.deep_view(),
                0,
                old(symbol_table).map(),
                old(symbol_table).vars(),
                Seq::empty(),
            ) == Err::<Seq<Seq<char>>, (int, AsmError)>((le.line as int, le.error)),
        },
{
    let ghost dv = lines.deep_view();
    let ghost m0 = symbol_table.map();
    let ghost v0 = symbol_table.vars();
    let n = lines.len();
    let mut out: Vec<String> = Vec::new();
    proof {
        assert(out.deep_view() =~= Seq::<Seq<char>>::empty());
    }
    let mut i: usize = 0;
    while i < n
        invariant
            n == lines@.len(),
            dv == lines.deep_view(),
            dv.len() == n,
            i <= n,
            m0 == old(symbol_table).map(),
            v0 == old(symbol_table).vars(),
            symbol_table.wf(),
            pass2_from(dv, 0, m0, v0, Seq::empty()) == pass2_from(
                dv,
                i as int,
                symbol_table.map(),
                symbol_table.vars(),
                out.deep_view(),
            ),
        decreases n - i,
    {
        proof {
            assert(dv[i as int] == lines@[i as int]@);
        }
        match Line::parse(lines[i].as_str()) {
            Err(e) => {
                return Err(LineError { line: i, error: e });
            },
            Ok(Line::Label(_)) => {},
            Ok(Line::Instr(instr)) => {
                match instr.code_gen(symbol_table) {
                    Err(e) => {
                        return Err(LineError { line: i, error: e });
                    },
                    Ok(word) => {
                        let ghost pre_out = out.deep_view();
                        out.push(to_binary16(word));
                        proof {
                            assert(out.deep_view() =~= pre_out.push(
                                bin_text(word as nat, 16),
                            ));
                        }
                    },
                }
            },
        }
        i = i + 1;
    }
    Ok(out)
}

/// The number of lines among `lines[from..to)` that parse as instructions.
pub open spec fn instr_count(lines: Seq<Seq<char>>, from: int, to: int) -> nat
    decreases to - from,
{
    if from >= to {
        0
    } else {
        (match line_of_text(lines[from]) {
            Ok(LineModel::Ins(_)) => 1nat,
            _ => 0nat,
        }) + instr_count(lines, from + 1, to)
    }
}

/// A successful first pass never loses or changes an existing binding.
proof fn lemma_pass1_preserves(
    lines: Seq<Seq<char>>,
    i: int,
    m: Map<Seq<char>, u16>,
    count: nat,
    name: Seq<char>,
)
    requires
        pass1_from(lines, i, m, count) is Ok,
        m.dom().contains(name),
    ensures
        pass1_from(lines, i, m, count)->Ok_0.0.dom().contains(name),
        pass1_from(lines, i, m, count)->Ok_0.0[name] == m[name],
    decreases lines.len() - i,
{
    if 0 <= i < lines.len() {
        match line_of_text(lines[i]) {
            Err(_) => {},
            Ok(LineModel::Label(n2)) => {
                lemma_pass1_preserves(lines, i + 1, m.insert(n2, count as u16), count, name);
            },
            Ok(LineModel::Ins(_)) => {
                lemma_pass1_preserves(lines, i + 1, m, count + 1, name);
            },
        }
    }
}

/// A label whose name the table already holds makes the first pass fail.
proof fn lemma_pass1_dup_fails(
    lines: Seq<Seq<char>>,
    i: int,
    m: Map<Seq<char>, u16>,
    count: nat,
    j: int,
    name: Seq<char>,
)
    requires
        0 <= i <= j < lines.len(),
        m.dom().contains(name),
        line_of_text(lines[j]) == Ok::<LineModel, AsmError>(LineModel::Label(name)),
    ensures
        pass1_from(lines, i, m, count) is Err,
    decreases j - i,
{
    if i < j {
        match line_of_text(lines[i]) {
            Err(_) => {},
            Ok(LineModel::Label(n2)) => {
                if !m.dom().contains(n2) {
                    lemma_pass1_dup_fails(lines, i + 1, m.insert(n2, count as u16), count, j, name);
                }
            },
            Ok(LineModel::Ins(_)) => {
                if count < ADDRESS_LIMIT - 1 {
                    lemma_pass1_dup_fails(lines, i + 1, m, count + 1, j, name);
                }
            },
        }
    }
}

/// When the first pass from `i` succeeds, a label line at `j` leaves its
/// name bound to the running counter plus the instructions between.
proof fn lemma_pass1_label_binds(
    lines: Seq<Seq<char>>,
    i: int,
    m: Map<Seq<char>, u16>,
    count: nat,
    j: int,
    name: Seq<char>,
)
    requires
        pass1_from(lines, i, m, count) is Ok,
        0 <= i <= j < lines.len(),
        count < ADDRESS_LIMIT,
        line_of_text(lines[j]) == Ok::<LineModel, AsmError>(LineModel::Label(name)),
    ensures
        count + instr_count(lines, i, j) < ADDRESS_LIMIT,
        pass1_from(lines, i, m, count)->Ok_0.0.dom().contains(name),
        pass1_from(lines, i, m, count)->Ok_0.0[name] == count + instr_count(lines, i, j),
    decreases j - i,
{
    if i == j {
        // The label is bound here, to the current counter, and survives the
        // rest of the pass untouched.
        lemma_pass1_preserves(lines, i + 1, m.insert(name, count as u16), count, name);
    } else {
        match line_of_text(lines[i]) {
            Err(_) => {},
            Ok(LineModel::Label(n2)) => {
                if n2 == name {
                    lemma_pass1_dup_fails(
                        lines, i + 1, m.insert(n2, count as u16), count, j, name);
                } else {
                    lemma_pass1_label_binds(
                        lines, i + 1, m.insert(n2, count as u16), count, j, name);
                }
            },
            Ok(LineModel::Ins(_)) => {
                lemma_pass1_label_binds(lines, i + 1, m, count + 1, j, name);
            },
        }
    }
}

/// Law: when the first pass succeeds, every label is bound to exactly the
/// count of real instructions preceding its definition — the address of
/// the next instruction — so a reference to it, forward or backward,
/// resolves to that count.
pub proof fn lemma_label_address(lines: Seq<Seq<char>>, j: int, name: Seq<char>)
    requires
        pass1_from(lines, 0, predefined_map(), 0) is Ok,
        0 <= j < lines.len(),
        line_of_text(lines[j]) == Ok::<LineModel, AsmError>(LineModel::Label(name)),
    ensures
        pass1_from(lines, 0, predefined_map(), 0)->Ok_0.0.dom().contains(name),
        pass1_from(lines, 0, predefined_map(), 0)->Ok_0.0[name] == instr_count(lines, 0, j),
{
    lemma_pass1_label_binds(lines, 0, predefined_map(), 0, j, name);
}

/// What assembling a line sequence yields: the sixteen-digit binary words
/// of its instructions, or the position and kind of the first error.
pub open spec fn assemble_spec(lines: Seq<Seq<char>>) -> Result<Seq<Seq<char>>, (int, AsmError)> {
    match pass1_from(lines, 0, predefined_map(), 0) {
        Err(e) => Err(e),
        Ok((m, _count)) => pass2_from(lines, 0, m, 0, Seq::empty()),
    }
}

/// Assembles a ready sequence of source lines into binary words, two
/// passes over the same lines with a fresh symbol table. Any error aborts
/// the whole run with the position of the first failing line: there is no
/// partial output.
pub fn translate(lines: &Vec<String>) -> (r: Result<Vec<String>, LineError>)
    ensures
        match r {
            Ok(out) => assemble_spec(lines.deep_view()) == Ok::<
                Seq<Seq<char>>,
                (int, AsmError),
            >(out.deep_view()),
            Err(le) => assemble_spec(lines.deep_view()) == Err::<
                Seq<Seq<char>>,
                (int, AsmError),
            >((le.line as int, le.error)),
        },
{
    let mut symbol_table = SymbolTable::new();
    match first_pass(lines, &mut symbol_table) {
        Ok(()) => {},
        Err(le) => {
            return Err(le);
        },
    }
    second_pass(lines, &mut symbol_table)
}

} // verus!
