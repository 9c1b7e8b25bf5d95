//! An assembler for a 16-bit educational register machine.
//!
//! The assembler turns symbolic assembly text into fixed-width binary
//! machine words. It cleans the source lines, collects label addresses in a
//! first pass, resolves address operands (predefined symbols, labels,
//! register aliases and variables) in a second pass, decodes the
//! destination / computation / jump mnemonics of compute instructions, and
//! encodes every instruction as one 16-bit word.

pub mod encode;
pub mod mnemonic;
pub mod passes;
pub mod symbols;
pub mod text;

use vstd::prelude::*;

verus! {

/// The ways an assembly run can fail. A failure aborts the whole run:
/// no partial output is produced.
#[derive(Clone, Copy, Debug, PartialEq, Eq, Structural)]
pub enum AsmError {
    /// A label declaration line `(NAME` has no closing parenthesis.
    MalformedLabel,
    /// The computation mnemonic of a compute instruction matches none of
    /// the recognized forms.
    UnknownComp,
    /// A resolved address does not fit in the 15-bit address field.
    AddressOverflow,
}

/// The whole translation, as a function of the source text alone: split
/// the text into lines; fail if any label declaration is unterminated;
/// otherwise gather the label bindings and the executable lines, start
/// the symbol table from the labels with the variable counter at 16,
/// translate every executable line into its machine word, and render the
/// words as newline-terminated 16-character binary lines.
pub open spec fn assemble_spec(src: Seq<u8>) -> Result<Seq<u8>, AsmError> {
    let lines = text::split_lines(src, 0);
    if !passes::labels_ok(lines) {
        Err(AsmError::MalformedLabel)
    } else {
        let m0 = symbols::SymModel {
            table: passes::labels_from(lines, 0, 0, Map::empty()),
            next_var: 16nat,
        };
        match passes::words_from(passes::ops_from(lines, 0), 0, m0) {
            Ok(ws) => Ok(encode::text_of_words(ws, 0)),
            Err(e) => Err(e),
        }
    }
}

/// Assemble a complete source text into binary machine-code text: one
/// newline-terminated line of 16 `0`/`1` characters per executable
/// instruction, in source order, or the error that aborted the run.
pub fn assemble(src: &Vec<u8>) -> (r: Result<Vec<u8>, AsmError>)
    requires
        src@.len() < usize::MAX,
    ensures
        match r {
            Ok(out) => assemble_spec(src@) == Ok::<Seq<u8>, AsmError>(out@),
            Err(e) => assemble_spec(src@) == Err::<Seq<u8>, AsmError>(e),
        },
{
    let lines = text::split_source(src);
    match passes::first_pass(&lines) {
        Ok((st, ops)) => match passes::second_pass(st, &ops) {
            Ok(words) => Ok(encode::words_to_text(&words)),
            Err(e) => Err(e),
        },
        Err(e) => Err(e),
    }
}

/// Assembling the same source a second time yields identical output:
/// the translation depends on the source text alone, so two runs over
/// one source agree in every word.
pub proof fn lemma_assemble_deterministic(
    src: Seq<u8>,
    r1: Result<Seq<u8>, AsmError>,
    r2: Result<Seq<u8>, AsmError>,
)
    requires
        r1 == assemble_spec(src),
        r2 == assemble_spec(src),
    ensures
        r1 == r2,
{
}

} // verus!
