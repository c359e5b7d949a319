//! From source text to a finished run.
use crate::bytecode::CompiledFunction;
use crate::compile::compile_program;
use crate::compile_spec::compile_program_spec;
use crate::diagnostic::{diagnostics_view, Diagnostic};
use crate::discipline::function_ok;
use crate::input_file::InputFile;
use crate::kernel::Kernel;
use crate::lex::{lex_file, lex_spec};
use crate::machine::{initial_state, spec_run, ControlFlow};
use crate::parse_spec::parse_spec;
use crate::parser::parse_tokens;
use crate::syntax::{stmts_view, Stmt};
use crate::text::text_width;
use crate::value::RuntimeError;
use crate::vm::VM;
use vstd::prelude::*;

verus! {

/// The program of a source text: the main function that its statements
/// compile to.
pub open spec fn program_of(text: Seq<char>) -> crate::bytecode::FunctionView {
    compile_program_spec(parse_spec(lex_spec(text)).0)
}

/// What the program of a source text prints in at most `steps` steps.
pub open spec fn program_output(text: Seq<char>, steps: nat) -> Seq<char> {
    spec_run(initial_state(program_of(text)), steps).printed
}

/// Determinism: two runs of one text for the same number of steps print
/// the same. Whatever the two kernels held before, what the runs added to
/// them is equal.
pub proof fn lemma_same_program_same_output(
    text: Seq<char>,
    steps: nat,
    before: Seq<char>,
    after: Seq<char>,
    other_before: Seq<char>,
    other_after: Seq<char>,
)
    requires
        after == before + program_output(text, steps),
        other_after == other_before + program_output(text, steps),
    ensures
        after.subrange(before.len() as int, after.len() as int) == other_after.subrange(
            other_before.len() as int,
            other_after.len() as int,
        ),
{
    assert(after.subrange(before.len() as int, after.len() as int) =~= program_output(
        text,
        steps,
    ));
    assert(other_after.subrange(other_before.len() as int, other_after.len() as int)
        =~= program_output(text, steps));
}

/// How an attempt to run a source file ended.
#[derive(Debug)]
pub enum Outcome {
    /// The text is too long for its byte offsets to fit in a `u32`.
    TooLong,
    /// The text is no program: here is what is wrong with it. Nothing was
    /// executed.
    Rejected(Vec<Diagnostic>),
    /// The program ran to its end.
    Finished,
    /// The program was still running when the steps ran out.
    OutOfSteps,
    /// The program failed.
    Failed(RuntimeError),
}

/// The statements of a source file and what is wrong with them. There are
/// none if the text is too long for its byte offsets to fit in a `u32`.
pub fn parse_file(input_file: &InputFile) -> (r: Option<(Vec<Stmt>, Vec<Diagnostic>)>)
    ensures
        match r {
            Some((stmts, diagnostics)) => text_width(input_file.source_text@) < u32::MAX && (
                stmts_view(stmts@),
                diagnostics_view(diagnostics@),
            ) == parse_spec(lex_spec(input_file.source_text@)),
            None => text_width(input_file.source_text@) >= u32::MAX,
        },
{
    match lex_file(input_file) {
        Some(tree) => Some(parse_tokens(&tree)),
        None => None,
    }
}

/// The main function of a source file, with what is wrong with the text.
/// The function is compiled from the statements that could be read.
pub fn compile_file(input_file: &InputFile) -> (r: Option<(CompiledFunction, Vec<Diagnostic>)>)
    ensures
        match r {
            Some((function, diagnostics)) => {
                let parsed = parse_spec(lex_spec(input_file.source_text@));
                &&& text_width(input_file.source_text@) < u32::MAX
                &&& function@ == program_of(input_file.source_text@)
                &&& diagnostics_view(diagnostics@) == parsed.1
                &&& function_ok(function@)
            },
            None => text_width(input_file.source_text@) >= u32::MAX,
        },
{
    match parse_file(input_file) {
        Some((stmts, diagnostics)) => Some((compile_program(&stmts), diagnostics)),
        None => None,
    }
}

/// Compiles the program in `input_file` and runs it for at most `steps`
/// steps. What it prints goes to `kernel`. A text with anything wrong in it
/// is not run.
pub fn execute_file<K: Kernel>(input_file: &InputFile, kernel: &mut K, steps: u64) -> (r: Outcome)
    ensures
        ({
            let text = input_file.source_text@;
            let parsed = parse_spec(lex_spec(text));
            let run = spec_run(initial_state(program_of(text)), steps as nat);
            if text_width(text) >= u32::MAX {
                r is TooLong && final(kernel).output() == old(kernel).output()
            } else if parsed.1.len() > 0 {
                r is Rejected && diagnostics_view(r->Rejected_0@) == parsed.1 && final(kernel).output() == old(kernel).output()
            } else {
                &&& final(kernel).output() == old(kernel).output() + program_output(
                    text,
                    steps as nat,
                )
                &&& match run.outcome {
                    Ok(ControlFlow::Done) => r is Finished,
                    Ok(ControlFlow::Next) => r is OutOfSteps,
                    Err(e) => r == Outcome::Failed(e),
                }
            }
        }),
{
    match compile_file(input_file) {
        None => Outcome::TooLong,
        Some((function, diagnostics)) => {
            if diagnostics.len() > 0 {
                Outcome::Rejected(diagnostics)
            } else {
                let mut vm = VM::new(function);
                match vm.run(kernel, steps) {
                    Ok(ControlFlow::Done) => Outcome::Finished,
                    Ok(ControlFlow::Next) => Outcome::OutOfSteps,
                    Err(e) => Outcome::Failed(e),
                }
            }
        },
    }
}

} // verus!
