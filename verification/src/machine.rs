//! The stack machine as a mathematical object: its states, the step that
//! one line makes, and what holds of every state of a run.

use crate::diagnostic::{DiagnosticView, SymbolKind};
use crate::literal::literal_cell;
use crate::statement::StatementView;
use crate::table::address_of;
use vstd::prelude::*;

verus! {

/// What the machine does with a call of a function that the function table
/// does not hold. Either way the call opens its frame and is reported.
#[derive(Debug, Clone, Copy, PartialEq, Eq, Structural)]
pub enum UnresolvedCall {
    /// Go on with the line after the call.
    Skip,
    /// Stop the run at the call.
    Halt,
}

/// What a run reads and never changes.
pub struct Setting {
    /// The statements, each at its line index.
    pub program: Seq<StatementView>,
    /// The names of the globals, each at its address.
    pub globals: Seq<Seq<char>>,
    /// The line of the header of each function.
    pub functions: Map<Seq<char>, nat>,
    /// How many calls may be in progress at once.
    pub max_call_depth: nat,
    pub unresolved_call: UnresolvedCall,
}

/// A state of the machine.
pub struct MachineView {
    /// The index of the line to run next.
    pub pc: nat,
    /// The cells: first those of the globals, then those of the locals of
    /// the calls in progress, in the order in which they were declared.
    pub memory: Seq<i32>,
    /// The line of each call in progress, the latest last.
    pub call_stack: Seq<nat>,
    /// The frame of each call in progress, the latest last.
    pub frames: Seq<Map<Seq<char>, nat>>,
    pub inside_call: bool,
    /// What has been reported so far.
    pub diagnostics: Seq<DiagnosticView>,
}

/// The index of the first line at or after `from` that closes a body, or the
/// number of lines where none does.
pub open spec fn body_end(program: Seq<StatementView>, from: nat) -> nat
    decreases program.len() - from,
{
    if from >= program.len() {
        program.len()
    } else if program[from as int] is FuncEnd {
        from
    } else {
        body_end(program, from + 1)
    }
}

/// The line after `line`, or the end of a program of `lines` lines where
/// `line` is its last line or lies beyond it.
pub open spec fn line_after(line: nat, lines: nat) -> nat {
    if line < lines {
        line + 1
    } else {
        lines
    }
}

/// How many bindings the given frames hold, all together.
pub open spec fn bindings(frames: Seq<Map<Seq<char>, nat>>) -> nat
    decreases frames.len(),
{
    if frames.len() == 0 {
        0
    } else {
        bindings(frames.drop_last()) + frames.last().len()
    }
}

/// Every address that `frame` binds lies below `limit`.
pub open spec fn binds_below(frame: Map<Seq<char>, nat>, limit: int) -> bool {
    forall|name: Seq<char>| #[trigger] frame.contains_key(name) ==> frame[name] < limit
}

impl MachineView {
    /// The state in which a run starts: one zero cell for each of the
    /// `globals` globals, the first line next, and no call in progress.
    pub open spec fn initial(globals: nat) -> MachineView {
        MachineView {
            pc: 0,
            memory: Seq::new(globals, |i: int| 0i32),
            call_stack: Seq::empty(),
            frames: Seq::empty(),
            inside_call: false,
            diagnostics: Seq::empty(),
        }
    }

    /// The run is over: the program counter is past the last line.
    pub open spec fn halted(self, env: Setting) -> bool {
        self.pc >= env.program.len()
    }

    /// The state with one more diagnostic.
    pub open spec fn report(self, diagnostic: DiagnosticView) -> MachineView {
        MachineView { diagnostics: self.diagnostics.push(diagnostic), ..self }
    }

    /// The state with the program counter at `pc`.
    pub open spec fn goto(self, pc: nat) -> MachineView {
        MachineView { pc, ..self }
    }

    /// Whether a name is looked up in the frame of the latest call: inside a
    /// call, every name that is no global.
    pub open spec fn is_local(self, env: Setting, name: Seq<char>) -> bool {
        self.inside_call && !env.globals.contains(name)
    }

    /// The address that `name` stands for, if any.
    pub open spec fn resolve(self, env: Setting, name: Seq<char>) -> Option<nat> {
        if self.is_local(env, name) {
            if self.frames.len() > 0 && self.frames.last().contains_key(name) {
                Some(self.frames.last()[name])
            } else {
                None
            }
        } else {
            address_of(env.globals, name)
        }
    }

    /// `var name`. Inside a call, a name that is no global gets a new zero
    /// cell at the end of the memory and is bound to it in the latest frame.
    /// Anywhere else the line does nothing.
    pub open spec fn declare(self, env: Setting, name: Seq<char>) -> MachineView {
        if !self.is_local(env, name) {
            self
        } else if self.frames.len() > 0 {
            let top = self.frames.len() - 1;
            MachineView {
                memory: self.memory.push(0i32),
                frames: self.frames.update(
                    top,
                    self.frames[top].insert(name, self.memory.len()),
                ),
                ..self
            }
        } else {
            MachineView { memory: self.memory.push(0i32), ..self }.report(
                DiagnosticView::MissingActivationFrame { line: self.pc },
            )
        }
    }

    /// `name = literal`. The cell of `name` takes the value of the literal.
    /// Nothing is written where the name stands for no address, or the
    /// literal is no integer that fits a cell.
    pub open spec fn assign(self, env: Setting, name: Seq<char>, literal: Seq<char>) -> MachineView {
        match self.resolve(env, name) {
            Some(address) => match literal_cell(literal) {
                Some(cell) => MachineView {
                    memory: self.memory.update(address as int, cell),
                    ..self
                },
                None => self.report(DiagnosticView::MalformedLiteral { line: self.pc, literal }),
            },
            None => self.report(
                DiagnosticView::UnknownIdentifier {
                    line: self.pc,
                    kind: SymbolKind::Variable,
                    name,
                },
            ),
        }
    }

    /// `name()`. The call opens an empty frame and saves its own line, then
    /// control goes to the header of the function. A call beyond the depth
    /// limit is refused: it is reported and changes nothing else.
    pub open spec fn call(self, env: Setting, name: Seq<char>) -> MachineView {
        if self.call_stack.len() >= env.max_call_depth {
            self.report(DiagnosticView::StackOverflow { line: self.pc })
        } else {
            let entered = MachineView {
                call_stack: self.call_stack.push(self.pc),
                frames: self.frames.push(Map::empty()),
                inside_call: true,
                ..self
            };
            if env.functions.contains_key(name) {
                entered.goto(env.functions[name])
            } else {
                let reported = entered.report(
                    DiagnosticView::UnknownIdentifier {
                        line: self.pc,
                        kind: SymbolKind::Function,
                        name,
                    },
                );
                match env.unresolved_call {
                    UnresolvedCall::Skip => reported,
                    UnresolvedCall::Halt => reported.goto(env.program.len()),
                }
            }
        }
    }

    /// `}` while the program runs. The latest frame goes, and with it as
    /// many cells from the end of the memory as it holds bindings; control
    /// goes back to the line of the call.
    pub open spec fn end_call(self) -> MachineView {
        if self.frames.len() == 0 {
            MachineView { inside_call: false, ..self }.report(
                DiagnosticView::MissingActivationFrame { line: self.pc },
            )
        } else {
            let released = MachineView {
                memory: self.memory.take(self.memory.len() - self.frames.last().len()),
                frames: self.frames.drop_last(),
                ..self
            };
            if self.call_stack.len() == 0 {
                MachineView { inside_call: false, ..released }.report(
                    DiagnosticView::EmptyCallStack { line: self.pc },
                )
            } else {
                MachineView {
                    pc: self.call_stack.last(),
                    call_stack: self.call_stack.drop_last(),
                    inside_call: self.call_stack.len() > 1,
                    ..released
                }
            }
        }
    }

    /// What the line at the program counter does to the state, before the
    /// program counter moves on.
    pub open spec fn execute_line(self, env: Setting) -> MachineView {
        match env.program[self.pc as int] {
            StatementView::Declare { name } => self.declare(env, name),
            StatementView::Assign { name, literal } => self.assign(env, name, literal),
            StatementView::FuncStart { .. } => self.goto(body_end(env.program, self.pc)),
            StatementView::FuncEnd => self.end_call(),
            StatementView::Call { name } => self.call(env, name),
            StatementView::Blank => self,
            StatementView::Invalid => self.report(DiagnosticView::SyntaxError { line: self.pc }),
        }
    }

    /// One step of the machine: the line at the program counter runs, and
    /// the program counter moves to the line after the one it then points at.
    pub open spec fn step(self, env: Setting) -> MachineView {
        let done = self.execute_line(env);
        done.goto(line_after(done.pc, env.program.len()))
    }

    /// What holds of every state of a run.
    pub open spec fn wf(self, env: Setting) -> bool {
        &&& self.pc <= env.program.len()
        &&& self.frames.len() == self.call_stack.len()
        &&& self.call_stack.len() <= env.max_call_depth
        &&& self.inside_call == (self.call_stack.len() > 0)
        &&& forall|i: int|
            0 <= i < self.call_stack.len() ==> #[trigger] self.call_stack[i] < env.program.len()
        &&& forall|i: int| 0 <= i < self.frames.len() ==> (#[trigger] self.frames[i]).dom().finite()
        &&& env.globals.len() + bindings(self.frames) <= self.memory.len()
        &&& forall|i: int|
            0 <= i < self.frames.len() ==> binds_below(
                #[trigger] self.frames[i],
                self.memory.len() - bindings(self.frames.skip(i + 1)),
            )
    }
}

/// A step leads from a well-formed state to a well-formed state.
pub proof fn lemma_step_wf(m: MachineView, env: Setting)
    requires
        m.wf(env),
        !m.halted(env),
    ensures
        m.step(env).wf(env),
{
    match env.program[m.pc as int] {
        StatementView::Declare { name } => {
            lemma_declare_wf(m, env, name);
        },
        StatementView::FuncEnd => {
            lemma_end_call_wf(m, env);
        },
        StatementView::Call { name } => {
            lemma_call_wf(m, env, name);
        },
        _ => {},
    }
}

/// The memory changes at its end only, but for the one cell that an
/// assignment writes: a step either leaves the length as it is and changes at
/// most the cell that the assigned name stands for, or appends one zero cell,
/// or cuts cells off the end, never into the cells of the globals.
pub proof fn theorem_memory_changes_at_the_end(m: MachineView, env: Setting)
    requires
        m.wf(env),
        !m.halted(env),
    ensures
        ({
            let next = m.step(env);
            ||| next.memory == m.memory
            ||| env.program[m.pc as int] matches StatementView::Assign { name, .. }
                && m.resolve(env, name) matches Some(address) && address < m.memory.len()
                && next.memory == m.memory.update(address as int, next.memory[address as int])
            ||| next.memory == m.memory.push(0i32)
            ||| env.globals.len() <= next.memory.len() <= m.memory.len() && next.memory
                == m.memory.take(next.memory.len() as int)
        }),
{
    lemma_step_wf(m, env);
}

/// Where the body that is skipped from line `from` ends: at the first closing
/// line from there on, or at the end of the program.
pub proof fn lemma_body_end(program: Seq<StatementView>, from: nat)
    ensures
        from <= program.len() ==> from <= body_end(program, from) <= program.len(),
        body_end(program, from) < program.len() ==> program[body_end(program, from) as int]
            is FuncEnd,
        forall|i: int| from <= i < body_end(program, from) ==> !(#[trigger] program[i] is FuncEnd),
    decreases program.len() - from,
{
    if from < program.len() && !(program[from as int] is FuncEnd) {
        lemma_body_end(program, from + 1);
    }
}

/// One more frame adds its bindings to the count.
pub proof fn lemma_bindings_push(frames: Seq<Map<Seq<char>, nat>>, frame: Map<Seq<char>, nat>)
    ensures
        bindings(frames.push(frame)) == bindings(frames) + frame.len(),
{
    assert(frames.push(frame).drop_last() =~= frames);
}

/// One more frame adds its bindings to the count of every tail of the frames.
proof fn lemma_bindings_skip_push(
    frames: Seq<Map<Seq<char>, nat>>,
    frame: Map<Seq<char>, nat>,
    k: int,
)
    requires
        0 <= k <= frames.len(),
    ensures
        bindings(frames.push(frame).skip(k)) == bindings(frames.skip(k)) + frame.len(),
{
    assert(frames.push(frame).skip(k) =~= frames.skip(k).push(frame));
    lemma_bindings_push(frames.skip(k), frame);
}

/// The last frame counts in every tail of the frames that is not empty.
proof fn lemma_bindings_skip_last(frames: Seq<Map<Seq<char>, nat>>, k: int)
    requires
        0 <= k < frames.len(),
    ensures
        bindings(frames.skip(k)) == bindings(frames.drop_last().skip(k)) + frames.last().len(),
{
    assert(frames.skip(k).drop_last() =~= frames.drop_last().skip(k));
}

/// A declaration keeps the state well-formed: the new cell is the last, and
/// the frame that binds it is the latest.
proof fn lemma_declare_wf(m: MachineView, env: Setting, name: Seq<char>)
    requires
        m.wf(env),
        !m.halted(env),
    ensures
        m.declare(env, name).wf(env),
        m.declare(env, name).pc == m.pc,
{
    if m.is_local(env, name) {
        let top = m.frames.len() - 1;
        let frame = m.frames[top].insert(name, m.memory.len());
        let next = m.declare(env, name);
        assert(next.frames =~= m.frames.drop_last().push(frame));
        assert(m.frames =~= m.frames.drop_last().push(m.frames[top]));
        lemma_bindings_push(m.frames.drop_last(), frame);
        assert forall|i: int| 0 <= i < next.frames.len() implies binds_below(
            #[trigger] next.frames[i],
            next.memory.len() - bindings(next.frames.skip(i + 1)),
        ) by {
            if i < top {
                lemma_bindings_skip_push(m.frames.drop_last(), frame, i + 1);
                lemma_bindings_skip_push(m.frames.drop_last(), m.frames[top], i + 1);
            }
        }
    }
}

/// A call keeps the state well-formed: its frame is empty.
proof fn lemma_call_wf(m: MachineView, env: Setting, name: Seq<char>)
    requires
        m.wf(env),
        !m.halted(env),
    ensures
        m.call(env, name).goto(line_after(m.call(env, name).pc, env.program.len())).wf(env),
{
    let called = m.call(env, name);
    let next = called.goto(line_after(called.pc, env.program.len()));
    if m.call_stack.len() < env.max_call_depth {
        let empty = Map::<Seq<char>, nat>::empty();
        lemma_bindings_push(m.frames, empty);
        assert forall|i: int| 0 <= i < next.frames.len() implies binds_below(
            #[trigger] next.frames[i],
            next.memory.len() - bindings(next.frames.skip(i + 1)),
        ) by {
            if i < m.frames.len() {
                lemma_bindings_skip_push(m.frames, empty, i + 1);
            }
        }
    }
}

/// The end of a call keeps the state well-formed: the cells that go are at
/// least those that the frame bound, and no earlier frame binds one of them.
proof fn lemma_end_call_wf(m: MachineView, env: Setting)
    requires
        m.wf(env),
        !m.halted(env),
    ensures
        m.end_call().goto(line_after(m.end_call().pc, env.program.len())).wf(env),
{
    let ended = m.end_call();
    let next = ended.goto(line_after(ended.pc, env.program.len()));
    if m.frames.len() > 0 {
        assert forall|i: int| 0 <= i < next.frames.len() implies binds_below(
            #[trigger] next.frames[i],
            next.memory.len() - bindings(next.frames.skip(i + 1)),
        ) by {
            lemma_bindings_skip_last(m.frames, i + 1);
        }
    }
}

} // verus!
