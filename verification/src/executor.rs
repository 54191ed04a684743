//! The machine that runs a program: a flat memory, a call stack and a stack
//! of activation frames, driven by a program counter.

use crate::diagnostic::{Diagnostic, DiagnosticView, SymbolKind};
use crate::literal::parse_literal;
use crate::machine::{body_end, MachineView, Setting, UnresolvedCall};
use crate::run::{lemma_step, run, steps_bound};
use crate::statement::{parse, program_of, Statement, StatementView};
use crate::table::{ActivationFrame, FunctionTable, SymbolTable};
use vstd::prelude::*;

verus! {

/// How a run is bounded, and what it does where the language leaves a choice.
#[derive(Debug, Clone, Copy, PartialEq, Eq)]
pub struct ExecutionOptions {
    /// How many calls may be in progress at once. A call beyond that is
    /// refused and reported, and the run goes on with the next line.
    pub max_call_depth: usize,
    /// What becomes of a call of a function that is not in the function table.
    pub unresolved_call: UnresolvedCall,
}

impl Default for ExecutionOptions {
    /// Up to 256 calls in progress; a call of an unknown function is skipped.
    fn default() -> (options: ExecutionOptions)
        ensures
            options == (ExecutionOptions {
                max_call_depth: 256,
                unresolved_call: UnresolvedCall::Skip,
            }),
    {
        ExecutionOptions { max_call_depth: 256, unresolved_call: UnresolvedCall::Skip }
    }
}

/// What a run of `program` reads, as a mathematical value.
pub open spec fn setting(
    program: Seq<StatementView>,
    globals: Seq<Seq<char>>,
    functions: Map<Seq<char>, nat>,
    options: ExecutionOptions,
) -> Setting {
    Setting {
        program,
        globals,
        functions,
        max_call_depth: options.max_call_depth as nat,
        unresolved_call: options.unresolved_call,
    }
}

/// The saved lines of a call stack as natural numbers.
pub open spec fn saved_lines(stack: Seq<usize>) -> Seq<nat> {
    Seq::new(stack.len(), |i: int| stack[i] as nat)
}

/// What a run leaves behind.
#[derive(Debug, PartialEq, Eq)]
pub struct Execution {
    /// The cells at the end of the run.
    pub memory: Vec<i32>,
    /// The lines of the calls that were still in progress.
    pub call_stack: Vec<usize>,
    /// The frames of the calls that were still in progress.
    pub frames: Vec<ActivationFrame>,
    /// What the run reported, in the order in which it did.
    pub diagnostics: Vec<Diagnostic>,
}

/// What a run leaves behind, as a mathematical value.
pub struct ExecutionView {
    pub memory: Seq<i32>,
    pub call_stack: Seq<nat>,
    pub frames: Seq<Map<Seq<char>, nat>>,
    pub diagnostics: Seq<DiagnosticView>,
}

impl View for Execution {
    type V = ExecutionView;

    open spec fn view(&self) -> ExecutionView {
        ExecutionView {
            memory: self.memory@,
            call_stack: saved_lines(self.call_stack@),
            frames: self.frames.deep_view(),
            diagnostics: self.diagnostics.deep_view(),
        }
    }
}

/// What is left of a machine state when the run is over.
pub open spec fn outcome(m: MachineView) -> ExecutionView {
    ExecutionView {
        memory: m.memory,
        call_stack: m.call_stack,
        frames: m.frames,
        diagnostics: m.diagnostics,
    }
}

/// The machine: the state of a run, together with the program and the
/// tables that the run reads.
#[derive(Debug)]
pub struct Machine<'a> {
    program: &'a Vec<Statement>,
    globals: &'a SymbolTable,
    functions: &'a FunctionTable,
    options: ExecutionOptions,
    pc: usize,
    memory: Vec<i32>,
    call_stack: Vec<usize>,
    frames: Vec<ActivationFrame>,
    inside_call: bool,
    diagnostics: Vec<Diagnostic>,
}

impl<'a> View for Machine<'a> {
    type V = MachineView;

    /// The state of the run.
    closed spec fn view(&self) -> MachineView {
        MachineView {
            pc: self.pc as nat,
            memory: self.memory@,
            call_stack: saved_lines(self.call_stack@),
            frames: self.frames.deep_view(),
            inside_call: self.inside_call,
            diagnostics: self.diagnostics.deep_view(),
        }
    }
}

impl<'a> Machine<'a> {
    /// What the run reads.
    pub closed spec fn env(&self) -> Setting {
        setting(self.program.deep_view(), self.globals@, self.functions@, self.options)
    }

    /// The tables that the machine reads and the frames that it holds are
    /// well-formed.
    pub closed spec fn tables_wf(&self) -> bool {
        &&& self.globals.wf()
        &&& self.functions.wf()
        &&& forall|i: int| 0 <= i < self.frames.len() ==> (#[trigger] self.frames[i]).wf()
    }

    /// The machine is in a state that a run can be in.
    pub open spec fn wf(&self) -> bool {
        &&& self@.wf(self.env())
        &&& self.tables_wf()
    }

    /// The machine before the first step of a run of `program`, with one
    /// zero cell for each global.
    pub fn new(
        program: &'a Vec<Statement>,
        globals: &'a SymbolTable,
        functions: &'a FunctionTable,
        options: ExecutionOptions,
    ) -> (machine: Machine<'a>)
        requires
            globals.wf(),
            functions.wf(),
        ensures
            machine@ == MachineView::initial(globals@.len()),
            machine.env() == setting(program.deep_view(), globals@, functions@, options),
            machine.wf(),
    {
        let mut memory: Vec<i32> = Vec::new();
        let n = globals.len();
        while memory.len() < n
            invariant
                memory.len() <= n,
                forall|i: int| 0 <= i < memory.len() ==> memory[i] == 0i32,
            decreases n - memory.len(),
        {
            memory.push(0);
        }
        let machine = Machine {
            program,
            globals,
            functions,
            options,
            pc: 0,
            memory,
            call_stack: Vec::new(),
            frames: Vec::new(),
            inside_call: false,
            diagnostics: Vec::new(),
        };
        proof {
            let initial = MachineView::initial(globals@.len());
            assert(machine@.memory =~= initial.memory);
            assert(machine@.call_stack =~= initial.call_stack);
            assert(machine@.frames =~= initial.frames);
            assert(machine@.diagnostics =~= initial.diagnostics);
        }
        machine
    }

    /// The index of the line that runs next.
    pub fn pc(&self) -> (pc: usize)
        ensures
            pc == self@.pc,
    {
        self.pc
    }

    /// The cells.
    pub fn memory(&self) -> (memory: &Vec<i32>)
        ensures
            memory@ == self@.memory,
    {
        &self.memory
    }

    /// The lines of the calls in progress, the latest last.
    pub fn call_stack(&self) -> (call_stack: &Vec<usize>)
        ensures
            saved_lines(call_stack@) == self@.call_stack,
    {
        &self.call_stack
    }

    /// The frames of the calls in progress, the latest last.
    pub fn frames(&self) -> (frames: &Vec<ActivationFrame>)
        ensures
            frames.deep_view() == self@.frames,
            self.tables_wf() ==> forall|i: int|
                0 <= i < frames.len() ==> (#[trigger] frames[i]).wf(),
    {
        &self.frames
    }

    /// Whether a call is in progress.
    pub fn inside_call(&self) -> (inside: bool)
        ensures
            inside == self@.inside_call,
    {
        self.inside_call
    }

    /// What the machine has reported so far.
    pub fn diagnostics(&self) -> (diagnostics: &Vec<Diagnostic>)
        ensures
            diagnostics.deep_view() == self@.diagnostics,
    {
        &self.diagnostics
    }

    /// Whether the run is over.
    pub fn halted(&self) -> (halted: bool)
        ensures
            halted == self@.halted(self.env()),
    {
        self.pc >= self.program.len()
    }

    /// Records `diagnostic`.
    fn report(&mut self, diagnostic: Diagnostic)
        ensures
            final(self)@ == old(self)@.report(diagnostic@),
            final(self).env() == old(self).env(),
            final(self).tables_wf() == old(self).tables_wf(),
    {
        let ghost before = self.diagnostics.deep_view();
        self.diagnostics.push(diagnostic);
        assert(self.diagnostics.deep_view() =~= before.push(diagnostic@));
    }

    /// The address that `name` stands for, if any. It lies in the memory.
    fn resolve(&self, name: &str) -> (address: Option<usize>)
        requires
            self.wf(),
        ensures
            self@.resolve(self.env(), name@) == match address {
                Some(a) => Some(a as nat),
                None => None,
            },
            address matches Some(a) ==> a < self.memory.len(),
    {
        if self.inside_call && !self.globals.contains(name) {
            let depth = self.frames.len();
            if depth > 0 {
                self.frames[depth - 1].get(name)
            } else {
                None
            }
        } else {
            self.globals.address(name)
        }
    }

    /// Runs `var name`.
    fn declare(&mut self, name: &String)
        requires
            old(self).wf(),
        ensures
            final(self)@ == old(self)@.declare(old(self).env(), name@),
            final(self).env() == old(self).env(),
            final(self).tables_wf(),
    {
        if self.inside_call && !self.globals.contains(name.as_str()) {
            let depth = self.frames.len();
            let address = self.memory.len();
            self.memory.push(0);
            if depth > 0 {
                self.frames[depth - 1].insert(name.clone(), address);
                assert(self@.frames =~= old(self)@.frames.update(
                    depth - 1,
                    old(self)@.frames[depth - 1].insert(name@, address as nat),
                ));
            } else {
                let line = self.pc;
                self.report(Diagnostic::MissingActivationFrame { line });
            }
        }
    }

    /// Runs `name = literal`.
    fn assign(&mut self, name: &String, literal: &String)
        requires
            old(self).wf(),
        ensures
            final(self)@ == old(self)@.assign(old(self).env(), name@, literal@),
            final(self).env() == old(self).env(),
            final(self).tables_wf(),
    {
        let line = self.pc;
        match self.resolve(name.as_str()) {
            Some(address) => match parse_literal(literal.as_str()) {
                Some(cell) => {
                    self.memory.set(address, cell);
                },
                None => {
                    self.report(Diagnostic::MalformedLiteral { line, literal: literal.clone() });
                },
            },
            None => {
                self.report(
                    Diagnostic::UnknownIdentifier {
                        line,
                        kind: SymbolKind::Variable,
                        name: name.clone(),
                    },
                );
            },
        }
    }

    /// Runs `name()`.
    fn call(&mut self, name: &String)
        requires
            old(self).wf(),
        ensures
            final(self)@ == old(self)@.call(old(self).env(), name@),
            final(self).env() == old(self).env(),
            final(self).tables_wf(),
    {
        let line = self.pc;
        if self.call_stack.len() >= self.options.max_call_depth {
            self.report(Diagnostic::StackOverflow { line });
        } else {
            self.call_stack.push(line);
            self.frames.push(ActivationFrame::new());
            self.inside_call = true;
            assert(self@.call_stack =~= old(self)@.call_stack.push(line as nat));
            assert(self@.frames =~= old(self)@.frames.push(Map::empty()));
            match self.functions.get(name.as_str()) {
                Some(header) => {
                    self.pc = header;
                },
                None => {
                    self.report(
                        Diagnostic::UnknownIdentifier {
                            line,
                            kind: SymbolKind::Function,
                            name: name.clone(),
                        },
                    );
                    match self.options.unresolved_call {
                        UnresolvedCall::Skip => {},
                        UnresolvedCall::Halt => {
                            self.pc = self.program.len();
                        },
                    }
                },
            }
        }
    }

    /// Runs `}`.
    fn end_call(&mut self)
        requires
            old(self).wf(),
        ensures
            final(self)@ == old(self)@.end_call(),
            final(self).env() == old(self).env(),
            final(self).tables_wf(),
    {
        let line = self.pc;
        match self.frames.pop() {
            None => {
                self.inside_call = false;
                self.report(Diagnostic::MissingActivationFrame { line });
            },
            Some(frame) => {
                assert(self@.frames =~= old(self)@.frames.drop_last());
                let released = frame.len();
                let kept = self.memory.len() - released;
                self.memory.truncate(kept);
                match self.call_stack.pop() {
                    Some(saved) => {
                        self.pc = saved;
                        self.inside_call = self.call_stack.len() > 0;
                        assert(self@.call_stack =~= old(self)@.call_stack.drop_last());
                    },
                    None => {
                        self.inside_call = false;
                        self.report(Diagnostic::EmptyCallStack { line });
                    },
                }
            },
        }
    }

    /// Moves the program counter from a header to the line that closes its
    /// body, or to the end of the program where no line does.
    fn skip_body(&mut self)
        requires
            old(self)@.pc <= old(self).env().program.len(),
        ensures
            final(self)@ == old(self)@.goto(body_end(old(self).env().program, old(self)@.pc)),
            final(self).env() == old(self).env(),
            final(self).tables_wf() == old(self).tables_wf(),
    {
        let ghost from = self.pc as nat;
        let ghost lines = self.program.deep_view();
        while self.pc < self.program.len() && !matches!(self.program[self.pc], Statement::FuncEnd)
            invariant
                from <= self.pc <= self.program.len(),
                lines == self.program.deep_view(),
                body_end(lines, from) == body_end(lines, self.pc as nat),
                self@ == old(self)@.goto(self.pc as nat),
                self.env() == old(self).env(),
                self.tables_wf() == old(self).tables_wf(),
            decreases self.program.len() - self.pc,
        {
            self.pc += 1;
        }
    }

    /// Runs the line at the program counter and moves the program counter
    /// on. A machine that has halted stays as it is.
    pub fn step(&mut self)
        requires
            old(self).wf(),
        ensures
            final(self).env() == old(self).env(),
            final(self).wf(),
            final(self)@ == if old(self)@.halted(old(self).env()) {
                old(self)@
            } else {
                old(self)@.step(old(self).env())
            },
            !old(self)@.halted(old(self).env()) ==> 0 <= steps_bound(
                final(self)@,
                final(self).env(),
            ) < steps_bound(old(self)@, old(self).env()),
    {
        if self.pc >= self.program.len() {
            return ;
        }
        let ghost env = self.env();
        let program = self.program;
        match &program[self.pc] {
            Statement::Declare { name } => {
                self.declare(name);
            },
            Statement::Assign { name, literal } => {
                self.assign(name, literal);
            },
            Statement::FuncStart { .. } => {
                self.skip_body();
            },
            Statement::FuncEnd => {
                self.end_call();
            },
            Statement::Call { name } => {
                self.call(name);
            },
            Statement::Blank => {},
            Statement::Invalid => {
                let line = self.pc;
                self.report(Diagnostic::SyntaxError { line });
            },
        }
        if self.pc < self.program.len() {
            self.pc += 1;
        } else {
            self.pc = self.program.len();
        }
        proof {
            lemma_step(old(self)@, env);
        }
    }

    /// What the machine leaves behind.
    pub fn finish(self) -> (execution: Execution)
        ensures
            execution@ == outcome(self@),
            self.tables_wf() ==> forall|i: int|
                0 <= i < execution.frames.len() ==> (#[trigger] execution.frames[i]).wf(),
    {
        Execution {
            memory: self.memory,
            call_stack: self.call_stack,
            frames: self.frames,
            diagnostics: self.diagnostics,
        }
    }
}

/// Runs the statements of a program to the end, against the tables that the
/// analysis of the program gave.
pub fn execute_statements(
    program: &Vec<Statement>,
    globals: &SymbolTable,
    functions: &FunctionTable,
    options: &ExecutionOptions,
) -> (execution: Execution)
    requires
        globals.wf(),
        functions.wf(),
    ensures
        execution@ == outcome(
            run(
                MachineView::initial(globals@.len()),
                setting(program.deep_view(), globals@, functions@, *options),
            ),
        ),
        forall|i: int| 0 <= i < execution.frames.len() ==> (#[trigger] execution.frames[i]).wf(),
{
    let ghost env = setting(program.deep_view(), globals@, functions@, *options);
    let mut machine = Machine::new(program, globals, functions, *options);
    while !machine.halted()
        invariant
            machine.env() == env,
            machine.wf(),
            run(machine@, env) == run(MachineView::initial(globals@.len()), env),
        decreases steps_bound(machine@, env),
    {
        machine.step();
    }
    machine.finish()
}

/// Runs a program text to the end, against the tables that its analysis gave.
pub fn execute(
    source: &str,
    globals: &SymbolTable,
    functions: &FunctionTable,
    options: &ExecutionOptions,
) -> (execution: Execution)
    requires
        globals.wf(),
        functions.wf(),
    ensures
        execution@ == outcome(
            run(
                MachineView::initial(globals@.len()),
                setting(program_of(source@), globals@, functions@, *options),
            ),
        ),
        forall|i: int| 0 <= i < execution.frames.len() ==> (#[trigger] execution.frames[i]).wf(),
{
    let program = parse(source);
    execute_statements(&program, globals, functions, options)
}

} // verus!
