//! The whole pipeline: source bytes to the machine's final state.

use vstd::prelude::*;
use crate::checker::{Checker, spec_check, CheckedView};
use crate::codegen::{
    generate,
    initial_state,
    lemma_generated_code_computes_sum,
    spec_generate,
    state_after_code,
};
use crate::common::{Error, ErrorView, FileId, errors_view};
use crate::lexer::{spec_tokenize, tokenize};
use crate::parser::{parse, spec_parse_all};
use crate::vm::{Instruction, MEMORY_SIZE, VM, wrap_cell};

verus! {

/// The checked tree of a source text.
pub open spec fn spec_checked(file_id: FileId, source: Seq<u8>) -> CheckedView {
    spec_check(spec_parse_all(file_id, spec_tokenize(file_id, source).0).node).node
}

/// The diagnostics of the three front-end stages for a source text: the
/// lexical errors, then the syntax errors, then the semantic errors.
pub open spec fn spec_diagnostics(file_id: FileId, source: Seq<u8>) -> Seq<ErrorView> {
    let lexed = spec_tokenize(file_id, source);
    let parsed = spec_parse_all(file_id, lexed.0);
    lexed.1 + parsed.errors + spec_check(parsed.node).errors
}

/// The error for an expression nested deeper than the machine has cells,
/// about the whole expression.
pub open spec fn capacity_error(file_id: FileId, source: Seq<u8>) -> ErrorView {
    ErrorView::SemanticError(
        "expression needs more cells than the machine has"@,
        spec_checked(file_id, source).span(),
    )
}

/// The program a source text compiles to: it has one when no stage found
/// an error and the expression fits the machine's cells.
pub open spec fn spec_compile(file_id: FileId, source: Seq<u8>) -> Option<Seq<Instruction>> {
    if spec_diagnostics(file_id, source).len() == 0 {
        spec_generate(spec_checked(file_id, source), 0, MEMORY_SIZE as int)
    } else {
        None
    }
}

/// Everything reported for a source text: the front end's diagnostics, or
/// the capacity error when those are none and the expression still has no
/// program.
pub open spec fn spec_report(file_id: FileId, source: Seq<u8>) -> Seq<ErrorView> {
    if spec_diagnostics(file_id, source).len() == 0 && spec_compile(file_id, source) is None {
        seq![capacity_error(file_id, source)]
    } else {
        spec_diagnostics(file_id, source)
    }
}

fn append_errors(all: &mut Vec<Error>, more: Vec<Error>)
    ensures
        errors_view(final(all)@) == errors_view(old(all)@) + errors_view(more@),
{
    let ghost added = more@;
    let mut more = more;
    all.append(&mut more);
    assert(errors_view(all@) =~= errors_view(old(all)@) + errors_view(added));
}

/// Compiles a source text. Every stage runs whatever the stages before it
/// found, so the diagnostics are complete; a program is returned only when
/// there are none.
pub fn compile(source: &[u8], file_id: FileId) -> (r: (Option<Vec<Instruction>>, Vec<Error>))
    ensures
        match spec_compile(file_id, source@) {
            Some(code) => r.0 is Some && r.0->0@ == code,
            None => r.0 is None,
        },
        errors_view(r.1@) == spec_report(file_id, source@),
{
    let (tokens, lexical) = tokenize(file_id, source);
    let ghost lexed = spec_tokenize(file_id, source@);
    let ghost parsed = spec_parse_all(file_id, lexed.0);
    let (tree, syntactic) = parse(file_id, tokens);
    let mut diagnostics: Vec<Error> = lexical;
    append_errors(&mut diagnostics, syntactic);
    match Checker::check(tree) {
        Ok(checked) => {
            assert(errors_view(diagnostics@) =~= spec_diagnostics(file_id, source@));
            if diagnostics.len() > 0 {
                return (None, diagnostics);
            }
            match generate(&checked) {
                Some(code) => (Some(code), diagnostics),
                None => {
                    let message = String::from_str("expression needs more cells than the machine has");
                    diagnostics.push(Error::SemanticError(message, *checked.span()));
                    assert(errors_view(diagnostics@) =~= seq![capacity_error(file_id, source@)]);
                    (None, diagnostics)
                },
            }
        },
        Err(semantic) => {
            append_errors(&mut diagnostics, semantic);
            assert(errors_view(diagnostics@) =~= spec_diagnostics(file_id, source@));
            (None, diagnostics)
        },
    }
}

/// Compiles a source text and runs the program on a fresh machine.
///
/// With no diagnostic the machine is returned as the program left it: the
/// program has halted without a fault, and cell 0 holds the sum of the
/// expression's literals, wrapped to the width of a cell. With a
/// diagnostic nothing is run.
pub fn compile_and_run(source: &[u8], file_id: FileId) -> (r: (Option<VM>, Vec<Error>))
    ensures
        errors_view(r.1@) == spec_report(file_id, source@),
        r.0 is Some <==> spec_compile(file_id, source@) is Some,
        r.0 is Some <==> r.1@.len() == 0,
        r.0 is Some ==> {
            &&& r.0->0@ == state_after_code(spec_checked(file_id, source@), 0, initial_state())
            &&& r.0->0@.pc == spec_compile(file_id, source@)->0.len()
            &&& r.0->0@.memory[0] == wrap_cell(spec_checked(file_id, source@).value())
        },
{
    let (program, diagnostics) = compile(source, file_id);
    assert(errors_view(diagnostics@).len() == diagnostics@.len());
    match program {
        Some(code) => {
            let mut vm = VM::new();
            let steps: usize = code.len();
            proof {
                assert(vm@ == initial_state());
                lemma_generated_code_computes_sum(spec_checked(file_id, source@));
            }
            let _ = vm.run(&code, steps);
            (Some(vm), diagnostics)
        },
        None => (None, diagnostics),
    }
}

} // verus!
