//! Runs of the machine: why every run comes to an end, the state in which it
//! does, and what holds at every point on the way.

use crate::diagnostic::DiagnosticView;
use crate::machine::{bindings, lemma_body_end, lemma_step_wf, MachineView, Setting};
use vstd::prelude::*;

verus! {

/// What one line counts for in a call that may itself hold `levels` levels of
/// calls: the number of lines plus one, to the power of `levels`.
pub open spec fn weight(lines: nat, levels: int) -> int
    decreases levels,
{
    if levels <= 0 {
        1
    } else {
        (lines + 1) * weight(lines, levels - 1)
    }
}

/// What the calls in progress add to the bound on the steps that are left:
/// each saved line counts for the lines after it, weighted by its depth.
pub open spec fn stack_bound(call_stack: Seq<nat>, lines: nat, max_call_depth: nat) -> int
    decreases call_stack.len(),
{
    if call_stack.len() == 0 {
        0
    } else {
        stack_bound(call_stack.drop_last(), lines, max_call_depth) + (lines - 1
            - call_stack.last()) * weight(lines, max_call_depth - call_stack.len() + 1)
    }
}

/// A bound on the steps that are left in a run. It reads the saved lines and
/// the program counter as the digits of a number in base "lines plus one",
/// the outermost call first: a step either moves the last digit on, or opens
/// a lower digit at the price of one unit of a higher one, or drops a digit.
pub open spec fn steps_bound(m: MachineView, env: Setting) -> int {
    stack_bound(m.call_stack, env.program.len(), env.max_call_depth) + (env.program.len() - m.pc)
        * weight(env.program.len(), env.max_call_depth - m.call_stack.len())
}

/// The state in which a run ends: the machine steps until it has halted.
pub open spec fn run(m: MachineView, env: Setting) -> MachineView
    decreases steps_bound(m, env),
    when m.wf(env)
    via run_decreases
{
    if m.halted(env) {
        m
    } else {
        run(m.step(env), env)
    }
}

#[via_fn]
proof fn run_decreases(m: MachineView, env: Setting) {
    if !m.halted(env) {
        lemma_step(m, env);
    }
}

/// The state after at most `n` steps of a run from `m`.
pub open spec fn run_for(m: MachineView, env: Setting, n: nat) -> MachineView
    decreases n,
{
    if n == 0 || m.halted(env) {
        m
    } else {
        run_for(m.step(env), env, (n - 1) as nat)
    }
}

/// A step keeps the state well-formed and brings the run nearer to its end.
pub proof fn lemma_step(m: MachineView, env: Setting)
    requires
        m.wf(env),
        !m.halted(env),
    ensures
        m.step(env).wf(env),
        0 <= steps_bound(m.step(env), env) < steps_bound(m, env),
{
    lemma_step_wf(m, env);
    lemma_step_bound(m, env);
}

/// Every run comes to an end: from a well-formed state the machine halts,
/// and it has done so after no more steps than the bound says.
pub proof fn theorem_run_halts(m: MachineView, env: Setting)
    requires
        m.wf(env),
    ensures
        run(m, env).halted(env),
        run(m, env).wf(env),
        0 <= steps_bound(m, env),
        forall|n: nat| n >= steps_bound(m, env) ==> #[trigger] run_for(m, env, n) == run(m, env),
    decreases steps_bound(m, env),
{
    lemma_bound_nonnegative(m, env);
    if !m.halted(env) {
        lemma_step(m, env);
        theorem_run_halts(m.step(env), env);
        assert forall|n: nat| n >= steps_bound(m, env) implies #[trigger] run_for(m, env, n)
            == run(m, env) by {
            assert(run_for(m, env, n) == run_for(m.step(env), env, (n - 1) as nat));
        }
    }
}

/// The cells of the globals are never given up: at every point of a run the
/// memory is at least as long as there are globals. On top of them it holds
/// at least one cell for each binding of the frames in progress.
pub proof fn theorem_globals_stay_in_memory(env: Setting, n: nat)
    ensures
        run_for(MachineView::initial(env.globals.len()), env, n).memory.len()
            >= env.globals.len(),
        run_for(MachineView::initial(env.globals.len()), env, n).memory.len() >= env.globals.len()
            + bindings(run_for(MachineView::initial(env.globals.len()), env, n).frames),
{
    lemma_run_for_wf(MachineView::initial(env.globals.len()), env, n);
}

/// Whether none of the diagnostics says that a call ended without a return
/// address.
pub open spec fn no_empty_call_stack(diagnostics: Seq<DiagnosticView>) -> bool {
    forall|i: int| 0 <= i < diagnostics.len() ==> !(#[trigger] diagnostics[i] is EmptyCallStack)
}

/// At every point of a run there are as many return addresses as frames, the
/// machine is inside a call exactly when there are any, and no call has ended
/// without a return address.
pub proof fn theorem_call_stack_matches_frames(env: Setting, n: nat)
    ensures
        ({
            let m = run_for(MachineView::initial(env.globals.len()), env, n);
            &&& m.call_stack.len() == m.frames.len()
            &&& m.inside_call == (m.frames.len() > 0)
            &&& m.call_stack.len() <= env.max_call_depth
            &&& no_empty_call_stack(m.diagnostics)
        }),
{
    let initial = MachineView::initial(env.globals.len());
    lemma_run_for_wf(initial, env, n);
    lemma_run_for_call_stack(initial, env, n);
}

/// Well-formed states lead to well-formed states.
pub proof fn lemma_run_for_wf(m: MachineView, env: Setting, n: nat)
    requires
        m.wf(env),
    ensures
        run_for(m, env, n).wf(env),
    decreases n,
{
    if n > 0 && !m.halted(env) {
        lemma_step(m, env);
        lemma_run_for_wf(m.step(env), env, (n - 1) as nat);
    }
}

/// No step from a well-formed state finds the call stack empty at the end
/// of a call.
proof fn lemma_run_for_call_stack(m: MachineView, env: Setting, n: nat)
    requires
        m.wf(env),
        no_empty_call_stack(m.diagnostics),
    ensures
        no_empty_call_stack(run_for(m, env, n).diagnostics),
    decreases n,
{
    if n > 0 && !m.halted(env) {
        lemma_step(m, env);
        let next = m.step(env);
        lemma_run_for_call_stack(next, env, (n - 1) as nat);
    }
}

/// A weight is positive, and one level more multiplies it by the base.
proof fn lemma_weight(lines: nat, levels: int)
    ensures
        0 < weight(lines, levels),
        levels > 0 ==> weight(lines, levels) == (lines + 1) * weight(lines, levels - 1),
    decreases levels,
{
    if levels > 0 {
        lemma_weight(lines, levels - 1);
        let below = weight(lines, levels - 1);
        assert(0 < (lines + 1) * below) by (nonlinear_arith)
            requires
                0 < below,
        ;
    }
}

/// Saved lines that lie in the program add nothing negative to the bound.
proof fn lemma_stack_bound_nonnegative(call_stack: Seq<nat>, lines: nat, max_call_depth: nat)
    requires
        forall|i: int| 0 <= i < call_stack.len() ==> #[trigger] call_stack[i] < lines,
    ensures
        0 <= stack_bound(call_stack, lines, max_call_depth),
    decreases call_stack.len(),
{
    if call_stack.len() > 0 {
        lemma_stack_bound_nonnegative(call_stack.drop_last(), lines, max_call_depth);
        let w = weight(lines, max_call_depth - call_stack.len() + 1);
        lemma_weight(lines, max_call_depth - call_stack.len() + 1);
        let digit = lines - 1 - call_stack.last();
        assert(0 <= digit * w) by (nonlinear_arith)
            requires
                0 <= digit,
                0 < w,
        ;
    }
}

/// The bound of a well-formed state is not negative.
proof fn lemma_bound_nonnegative(m: MachineView, env: Setting)
    requires
        m.wf(env),
    ensures
        0 <= steps_bound(m, env),
{
    let lines = env.program.len();
    let w = weight(lines, env.max_call_depth - m.call_stack.len());
    lemma_weight(lines, env.max_call_depth - m.call_stack.len());
    lemma_stack_bound_nonnegative(m.call_stack, lines, env.max_call_depth);
    assert(0 <= (lines - m.pc) * w) by (nonlinear_arith)
        requires
            0 <= lines - m.pc,
            0 < w,
    ;
}

/// A step lowers the bound.
proof fn lemma_step_bound(m: MachineView, env: Setting)
    requires
        m.wf(env),
        !m.halted(env),
    ensures
        0 <= steps_bound(m.step(env), env) < steps_bound(m, env),
{
    let lines = env.program.len();
    let depth = m.call_stack.len();
    let next = m.step(env);
    let unit = weight(lines, env.max_call_depth - depth);
    lemma_weight(lines, env.max_call_depth - depth);
    lemma_stack_bound_nonnegative(next.call_stack, lines, env.max_call_depth);
    lemma_weight(lines, env.max_call_depth - next.call_stack.len());
    let next_unit = weight(lines, env.max_call_depth - next.call_stack.len());
    assert(0 <= (lines - next.pc) * next_unit) by (nonlinear_arith)
        requires
            0 <= lines - next.pc,
            0 < next_unit,
    ;
    if next.call_stack == m.call_stack {
        lemma_body_end(env.program, m.pc);
        assert((lines - next.pc) * unit < (lines - m.pc) * unit) by (nonlinear_arith)
            requires
                m.pc < next.pc <= lines,
                0 < unit,
        ;
    } else if next.call_stack.len() == depth + 1 {
        assert(next.call_stack.drop_last() =~= m.call_stack);
        assert((lines - 1 - m.pc) * unit + (lines - next.pc) * next_unit < (lines - m.pc)
            * unit) by (nonlinear_arith)
            requires
                unit == (lines + 1) * next_unit,
                0 < next_unit,
                0 <= next.pc,
        ;
    } else {
        assert(0 < (lines - m.pc) * unit) by (nonlinear_arith)
            requires
                0 < lines - m.pc,
                0 < unit,
        ;
    }
}

} // verus!
