//! A two-phase interpreter for a small line-oriented imperative language:
//! a static analyzer that builds the symbol tables, and a stack machine that
//! runs the program against a flat memory.
//!
//! A program is a text of lines, each of one of five shapes: `var <name>`,
//! `<name> = <integer>`, `func <name> {`, `}` and `<name>()`. The analyzer
//! reads the lines once and never stops at a fault; the machine then runs the
//! same lines with the tables that the analyzer built. Neither phase ever
//! fails: what is wrong with a program is collected as diagnostics.

pub mod agreement;
pub mod analyzer;
pub mod diagnostic;
pub mod executor;
pub mod literal;
pub mod machine;
pub mod run;
pub mod statement;
pub mod strings;
pub mod table;
pub mod text;

use crate::analyzer::{analysis_of, analyze_statements, no_errors, Analysis};
use crate::diagnostic::DiagnosticView;
use crate::executor::{execute_statements, outcome, setting, Execution, ExecutionOptions};
use crate::machine::{MachineView, UnresolvedCall};
use crate::run::run;
use crate::statement::{parse, program_of};
use vstd::prelude::*;

verus! {

/// How a program is interpreted.
#[derive(Debug, Clone, Copy, PartialEq, Eq)]
pub struct Options {
    /// How the run is bounded.
    pub execution: ExecutionOptions,
    /// Whether a program runs only if its analysis found no fault. Where this
    /// is not set, every program runs, with whatever tables the analysis
    /// could build.
    pub require_clean_analysis: bool,
}

impl Default for Options {
    /// The default bounds for the run; every program runs.
    fn default() -> (options: Options)
        ensures
            options == (Options {
                execution: ExecutionOptions {
                    max_call_depth: 256,
                    unresolved_call: UnresolvedCall::Skip,
                },
                require_clean_analysis: false,
            }),
    {
        Options { execution: ExecutionOptions::default(), require_clean_analysis: false }
    }
}

/// What the two phases gave.
#[derive(Debug, PartialEq, Eq)]
pub struct Interpretation {
    pub analysis: Analysis,
    /// What the run left behind, or `None` where the program did not run.
    pub execution: Option<Execution>,
}

/// Whether a program with these analysis diagnostics runs under `options`.
pub open spec fn may_run(diagnostics: Seq<DiagnosticView>, options: Options) -> bool {
    !options.require_clean_analysis || no_errors(diagnostics)
}

/// Analyzes a program text and then runs it with the tables of the analysis.
/// Where `options` ask for a clean analysis, a program whose analysis
/// reported a fault does not run; a report that only informs is no fault.
pub fn interpret(source: &str, options: &Options) -> (result: Interpretation)
    ensures
        result.analysis@ == analysis_of(program_of(source@)),
        result.analysis.wf(),
        result.execution is Some == may_run(result.analysis@.diagnostics, *options),
        result.execution matches Some(execution) ==> execution@ == outcome(
            run(
                MachineView::initial(result.analysis@.globals.len()),
                setting(
                    program_of(source@),
                    result.analysis@.globals,
                    result.analysis@.functions,
                    options.execution,
                ),
            ),
        ),
{
    let program = parse(source);
    let analysis = analyze_statements(&program);
    if options.require_clean_analysis && !analysis.is_clean() {
        Interpretation { analysis, execution: None }
    } else {
        let execution = execute_statements(
            &program,
            &analysis.globals,
            &analysis.functions,
            &options.execution,
        );
        Interpretation { analysis, execution: Some(execution) }
    }
}

} // verus!
