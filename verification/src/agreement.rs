//! Where the analyzer and the machine agree. The analyzer reads a program in
//! the order of its lines, the machine in the order in which it runs; for a
//! program that is well bracketed and passes the analysis without a fault,
//! the scopes that the one saw are the frames that the other builds. Such a
//! program assigns to no unknown variable, calls no unknown function and
//! ends no call that it did not begin; when it halts, no call is in progress
//! and the memory holds the cells of the globals and nothing else.

use crate::analyzer::{
    analysis_of, analyzer_after, lemma_analyzer_wf, lemma_function_lines, lemma_functions_grow,
    lemma_globals_grow, no_errors,
};
use crate::diagnostic::DiagnosticView;
use crate::machine::{
    bindings, lemma_bindings_push, lemma_body_end, MachineView, Setting, UnresolvedCall,
};
use crate::run::{lemma_step, run, steps_bound};
use crate::statement::{Statement, StatementView};
use crate::table::lemma_push_new_no_duplicates;
use vstd::prelude::*;

verus! {

/// Whether the function bodies of `program` are well bracketed: no header
/// stands inside a body, no closing line outside one, and the last body is
/// closed before the program ends.
pub open spec fn well_bracketed(program: Seq<StatementView>) -> bool {
    &&& forall|line: int|
        0 <= line < program.len() && #[trigger] program[line] is FuncStart ==> !analyzer_after(
            program,
            line as nat,
        ).inside_function
    &&& forall|line: int|
        0 <= line < program.len() && #[trigger] program[line] is FuncEnd ==> analyzer_after(
            program,
            line as nat,
        ).inside_function
    &&& !analyzer_after(program, program.len()).inside_function
}

/// Whether the function bodies of `program` are well bracketed.
pub fn is_well_bracketed(program: &Vec<Statement>) -> (well: bool)
    ensures
        well == well_bracketed(program.deep_view()),
{
    let ghost lines = program.deep_view();
    let mut inside = false;
    let mut line: usize = 0;
    while line < program.len()
        invariant
            line <= program.len(),
            lines == program.deep_view(),
            inside == analyzer_after(lines, line as nat).inside_function,
            forall|earlier: int|
                0 <= earlier < line && #[trigger] lines[earlier] is FuncStart ==> !analyzer_after(
                    lines,
                    earlier as nat,
                ).inside_function,
            forall|earlier: int|
                0 <= earlier < line && #[trigger] lines[earlier] is FuncEnd ==> analyzer_after(
                    lines,
                    earlier as nat,
                ).inside_function,
        decreases program.len() - line,
    {
        assert(lines[line as int] == program[line as int]@);
        match &program[line] {
            Statement::FuncStart { .. } => {
                if inside {
                    return false;
                }
                inside = true;
            },
            Statement::FuncEnd => {
                if !inside {
                    return false;
                }
                inside = false;
            },
            _ => {},
        }
        line += 1;
    }
    !inside
}

/// What a run of `program` reads when it runs with the tables that the
/// analysis of the program gave.
pub open spec fn analyzed_setting(
    program: Seq<StatementView>,
    max_call_depth: nat,
    unresolved_call: UnresolvedCall,
) -> Setting {
    Setting {
        program,
        globals: analysis_of(program).globals,
        functions: analysis_of(program).functions,
        max_call_depth,
        unresolved_call,
    }
}

/// Whether a run reported nothing but literals that are no cell and calls
/// that were refused at the depth limit.
pub open spec fn only_literals_and_depth(diagnostics: Seq<DiagnosticView>) -> bool {
    forall|i: int|
        0 <= i < diagnostics.len() ==> (#[trigger] diagnostics[i] is MalformedLiteral
            || diagnostics[i] is StackOverflow)
}

/// The names that a frame binds when the call that it belongs to stands
/// before line `line`: the locals that the analyzer holds there, but for
/// those that are globals of the program.
pub open spec fn locals_at(program: Seq<StatementView>, line: nat) -> Set<Seq<char>> {
    Set::new(
        |name: Seq<char>|
            analyzer_after(program, line).locals.contains(name) && !analysis_of(
                program,
            ).globals.contains(name),
    )
}

/// The line before which the call of frame `i` stands: the program counter for
/// the latest frame, and for an earlier one the line of the call that it waits
/// for.
pub open spec fn position(m: MachineView, i: int) -> nat {
    if i == m.frames.len() - 1 {
        m.pc
    } else {
        m.call_stack[i + 1]
    }
}

/// The state of the machine mirrors what the analyzer saw: a call is in
/// progress exactly where the analyzer was inside a body, every frame binds
/// the locals of its body up to the line where its call stands, and every
/// cell behind the globals belongs to one binding.
pub open spec fn mirrors(m: MachineView, program: Seq<StatementView>) -> bool {
    &&& m.call_stack.len() > 0 <==> analyzer_after(program, m.pc).inside_function
    &&& forall|i: int|
        0 <= i < m.call_stack.len() ==> (#[trigger] program[m.call_stack[i] as int]) is Call && (
        analyzer_after(program, m.call_stack[i]).inside_function <==> i > 0)
    &&& forall|i: int|
        0 <= i < m.frames.len() ==> (#[trigger] m.frames[i]).dom() == locals_at(
            program,
            position(m, i),
        )
    &&& m.memory.len() == analysis_of(program).globals.len() + bindings(m.frames)
    &&& only_literals_and_depth(m.diagnostics)
}

/// What the analyzer reported after some lines it has still reported after
/// more lines, in the same place.
pub proof fn lemma_diagnostics_grow(program: Seq<StatementView>, n: nat, m: nat)
    requires
        n <= m,
    ensures
        analyzer_after(program, n).diagnostics.len() <= analyzer_after(
            program,
            m,
        ).diagnostics.len(),
        forall|i: int|
            0 <= i < analyzer_after(program, n).diagnostics.len() ==> analyzer_after(
                program,
                m,
            ).diagnostics[i] == analyzer_after(program, n).diagnostics[i],
    decreases m,
{
    if n < m {
        lemma_diagnostics_grow(program, n, (m - 1) as nat);
    }
}

/// In a program that passes the analysis without a fault, every line is
/// what the analyzer accepts: a declaration of a name that is not in scope,
/// an assignment to one that is, a call of a function whose header has come,
/// a first header, or a line that reports nothing.
pub proof fn lemma_clean_line(program: Seq<StatementView>, line: nat)
    requires
        line < program.len(),
        no_errors(analysis_of(program).diagnostics),
    ensures
        ({
            let before = analyzer_after(program, line);
            match program[line as int] {
                StatementView::Declare { name } => !before.resolves(name),
                StatementView::Assign { name, .. } => before.resolves(name),
                StatementView::FuncStart { name } => !before.functions.contains_key(name),
                StatementView::Call { name } => before.functions.contains_key(name),
                StatementView::Invalid => false,
                _ => true,
            }
        }),
{
    let before = analyzer_after(program, line);
    let after = analyzer_after(program, line + 1);
    lemma_diagnostics_grow(program, line + 1, program.len());
    if after.diagnostics.len() > before.diagnostics.len() {
        assert(!analysis_of(program).diagnostics[after.diagnostics.len() - 1].is_error());
    }
}

/// A step of a well-formed machine on a well-bracketed program without
/// faults keeps the state a mirror of what the analyzer saw.
pub proof fn lemma_step_mirrors(m: MachineView, env: Setting)
    requires
        well_bracketed(env.program),
        no_errors(analysis_of(env.program).diagnostics),
        env.globals == analysis_of(env.program).globals,
        env.functions == analysis_of(env.program).functions,
        m.wf(env),
        mirrors(m, env.program),
        !m.halted(env),
    ensures
        mirrors(m.step(env), env.program),
{
    lemma_clean_line(env.program, m.pc);
    match env.program[m.pc as int] {
        StatementView::Declare { name } => {
            lemma_declare_mirrors(m, env, name);
        },
        StatementView::Assign { name, literal } => {
            lemma_assign_mirrors(m, env, name, literal);
        },
        StatementView::FuncStart { .. } => {
            lemma_body_end(env.program, m.pc);
        },
        StatementView::Call { name } => {
            lemma_call_mirrors(m, env, name);
        },
        _ => {},
    }
}

/// A declaration keeps the mirror: the analyzer and the machine take the
/// name for a local in the same cases.
proof fn lemma_declare_mirrors(m: MachineView, env: Setting, name: Seq<char>)
    requires
        well_bracketed(env.program),
        no_errors(analysis_of(env.program).diagnostics),
        env.globals == analysis_of(env.program).globals,
        env.functions == analysis_of(env.program).functions,
        m.wf(env),
        mirrors(m, env.program),
        !m.halted(env),
        env.program[m.pc as int] == (StatementView::Declare { name }),
    ensures
        mirrors(m.step(env), env.program),
{
    let program = env.program;
    let line = m.pc;
    let before = analyzer_after(program, line);
    let after = analyzer_after(program, line + 1);
    let next = m.step(env);
    let top = m.frames.len() - 1;
    lemma_clean_line(program, line);
    lemma_globals_grow(program, line + 1, program.len());
    lemma_analyzer_wf(program, line);
    if !before.inside_function {
        assert(after.globals[before.globals.len() as int] == name);
    } else if env.globals.contains(name) {
        lemma_push_new_no_duplicates(before.locals, name);
        assert(locals_at(program, line + 1) =~= locals_at(program, line));
    } else {
        let frame = m.frames[top].insert(name, m.memory.len());
        assert(frame.dom() =~= locals_at(program, line + 1)) by {
            assert forall|n: Seq<char>| frame.dom().contains(n) <==> locals_at(
                program,
                line + 1,
            ).contains(n) by {
                if before.locals.contains(n) {
                    assert(after.locals[before.locals.index_of(n)] == n);
                }
                if n == name {
                    assert(after.locals[before.locals.len() as int] == name);
                }
            }
        }
        assert(next.frames =~= m.frames.drop_last().push(frame));
        lemma_bindings_push(m.frames.drop_last(), frame);
    }
}

/// An assignment keeps the mirror, and finds its variable: what resolves for
/// the analyzer resolves for the machine.
proof fn lemma_assign_mirrors(m: MachineView, env: Setting, name: Seq<char>, literal: Seq<char>)
    requires
        well_bracketed(env.program),
        no_errors(analysis_of(env.program).diagnostics),
        env.globals == analysis_of(env.program).globals,
        env.functions == analysis_of(env.program).functions,
        m.wf(env),
        mirrors(m, env.program),
        !m.halted(env),
        env.program[m.pc as int] == (StatementView::Assign { name, literal }),
    ensures
        mirrors(m.step(env), env.program),
{
    lemma_clean_line(env.program, m.pc);
    lemma_globals_grow(env.program, m.pc, env.program.len());
}

/// A call keeps the mirror: it goes to a header, behind which the analyzer
/// held no locals, with a frame that binds none.
proof fn lemma_call_mirrors(m: MachineView, env: Setting, name: Seq<char>)
    requires
        well_bracketed(env.program),
        no_errors(analysis_of(env.program).diagnostics),
        env.globals == analysis_of(env.program).globals,
        env.functions == analysis_of(env.program).functions,
        m.wf(env),
        mirrors(m, env.program),
        !m.halted(env),
        env.program[m.pc as int] == (StatementView::Call { name }),
    ensures
        mirrors(m.step(env), env.program),
{
    let program = env.program;
    let next = m.step(env);
    lemma_clean_line(program, m.pc);
    if m.call_stack.len() < env.max_call_depth {
        lemma_functions_grow(program, m.pc, program.len());
        lemma_function_lines(program, m.pc, name);
        lemma_bindings_push(m.frames, Map::empty());
        assert forall|i: int| 0 <= i < next.frames.len() implies (#[trigger] next.frames[i]).dom()
            == locals_at(program, position(next, i)) by {}
        assert forall|i: int| 0 <= i < next.call_stack.len() implies (
        #[trigger] program[next.call_stack[i] as int]) is Call && (analyzer_after(
            program,
            next.call_stack[i],
        ).inside_function <==> i > 0) by {}
    }
}

/// The state at the end of a run mirrors what the analyzer saw if the state
/// at its start does.
pub proof fn lemma_run_mirrors(m: MachineView, env: Setting)
    requires
        well_bracketed(env.program),
        no_errors(analysis_of(env.program).diagnostics),
        env.globals == analysis_of(env.program).globals,
        env.functions == analysis_of(env.program).functions,
        m.wf(env),
        mirrors(m, env.program),
    ensures
        mirrors(run(m, env), env.program),
        run(m, env).wf(env),
        run(m, env).halted(env),
    decreases steps_bound(m, env),
{
    if !m.halted(env) {
        lemma_step(m, env);
        lemma_step_mirrors(m, env);
        lemma_run_mirrors(m.step(env), env);
    }
}

/// A program that is well bracketed and passes the analysis without a fault
/// runs without one, with the tables of its analysis, whatever the depth
/// limit. The run reports nothing but literals that are no cell and calls
/// refused at the depth limit. When it halts, no call is in progress: the call
/// stack and the stack of frames are empty, and the memory holds one cell for
/// each global and no other.
pub proof fn theorem_clean_programs_unwind(
    program: Seq<StatementView>,
    max_call_depth: nat,
    unresolved_call: UnresolvedCall,
)
    requires
        well_bracketed(program),
        no_errors(analysis_of(program).diagnostics),
    ensures
        ({
            let env = analyzed_setting(program, max_call_depth, unresolved_call);
            let end = run(MachineView::initial(env.globals.len()), env);
            &&& end.call_stack.len() == 0
            &&& end.frames.len() == 0
            &&& !end.inside_call
            &&& end.memory.len() == env.globals.len()
            &&& only_literals_and_depth(end.diagnostics)
        }),
{
    let env = analyzed_setting(program, max_call_depth, unresolved_call);
    let start = MachineView::initial(env.globals.len());
    lemma_run_mirrors(start, env);
}

} // verus!
