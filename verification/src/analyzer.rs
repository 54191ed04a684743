//! The analyzer: one pass over the lines of a program that builds the table
//! of globals and the table of functions, and reports what is declared twice
//! or used without a declaration.

use crate::diagnostic::{Diagnostic, DiagnosticView, SymbolKind};
use crate::statement::{parse, program_of, Statement, StatementView};
use crate::table::{
    address_of, lemma_index_of_unique, lemma_push_new_no_duplicates, FunctionTable, SymbolTable,
};
use vstd::prelude::*;

verus! {

/// A state of the analyzer between two lines.
pub struct AnalyzerView {
    /// The globals declared so far, each at its address.
    pub globals: Seq<Seq<char>>,
    /// The line of the header of each function declared so far.
    pub functions: Map<Seq<char>, nat>,
    /// The locals declared so far in the function body that is open.
    pub locals: Seq<Seq<char>>,
    /// Whether a function body is open.
    pub inside_function: bool,
    /// What has been reported so far.
    pub diagnostics: Seq<DiagnosticView>,
}

impl AnalyzerView {
    /// The state before the first line.
    pub open spec fn initial() -> AnalyzerView {
        AnalyzerView {
            globals: Seq::empty(),
            functions: Map::empty(),
            locals: Seq::empty(),
            inside_function: false,
            diagnostics: Seq::empty(),
        }
    }

    /// No global and no local is in its table twice.
    pub open spec fn wf(self) -> bool {
        &&& self.globals.no_duplicates()
        &&& self.locals.no_duplicates()
    }

    /// The state with one more diagnostic.
    pub open spec fn report(self, diagnostic: DiagnosticView) -> AnalyzerView {
        AnalyzerView { diagnostics: self.diagnostics.push(diagnostic), ..self }
    }

    /// Whether an assignment to `name` on the next line finds its variable:
    /// among the locals and the globals inside a function body, among the
    /// globals outside.
    pub open spec fn resolves(self, name: Seq<char>) -> bool {
        (self.inside_function && self.locals.contains(name)) || self.globals.contains(name)
    }

    /// `var name` on line `line`. The name joins the locals inside a function
    /// body, and the globals, at the next address, outside; a name that
    /// resolves already is reported and declares nothing.
    pub open spec fn declare(self, line: nat, name: Seq<char>) -> AnalyzerView {
        if self.resolves(name) {
            self.report(
                DiagnosticView::DuplicateDeclaration { line, kind: SymbolKind::Variable, name },
            )
        } else if self.inside_function {
            AnalyzerView { locals: self.locals.push(name), ..self }
        } else {
            AnalyzerView { globals: self.globals.push(name), ..self }
        }
    }

    /// `name = ...` on line `line`. A name that does not resolve is reported.
    pub open spec fn assign(self, line: nat, name: Seq<char>) -> AnalyzerView {
        if self.resolves(name) {
            self
        } else {
            self.report(
                DiagnosticView::UnknownIdentifier { line, kind: SymbolKind::Variable, name },
            )
        }
    }

    /// `func name {` on line `line`. A body opens without locals. The first
    /// header of a name enters the function table; a later one is reported.
    pub open spec fn open_function(self, line: nat, name: Seq<char>) -> AnalyzerView {
        let opened = AnalyzerView { inside_function: true, locals: Seq::empty(), ..self };
        if self.functions.contains_key(name) {
            opened.report(
                DiagnosticView::DuplicateDeclaration { line, kind: SymbolKind::Function, name },
            )
        } else {
            AnalyzerView { functions: self.functions.insert(name, line), ..opened }
        }
    }

    /// `}` on line `line`. The body closes and its locals go; where there
    /// were any, a diagnostic lists them for information.
    pub open spec fn close_function(self, line: nat) -> AnalyzerView {
        let closed = AnalyzerView { inside_function: false, locals: Seq::empty(), ..self };
        if self.locals.len() > 0 {
            closed.report(DiagnosticView::LocalsCleared { line, names: self.locals })
        } else {
            closed
        }
    }

    /// `name()` on line `line`. A function whose header has not come yet is
    /// reported, whether or not a later line declares it.
    pub open spec fn call(self, line: nat, name: Seq<char>) -> AnalyzerView {
        if self.functions.contains_key(name) {
            self
        } else {
            self.report(
                DiagnosticView::UnknownIdentifier { line, kind: SymbolKind::Function, name },
            )
        }
    }

    /// The state after the statement of line `line`.
    pub open spec fn feed(self, line: nat, statement: StatementView) -> AnalyzerView {
        match statement {
            StatementView::Declare { name } => self.declare(line, name),
            StatementView::Assign { name, .. } => self.assign(line, name),
            StatementView::FuncStart { name } => self.open_function(line, name),
            StatementView::FuncEnd => self.close_function(line),
            StatementView::Call { name } => self.call(line, name),
            StatementView::Blank => self,
            StatementView::Invalid => self.report(DiagnosticView::SyntaxError { line }),
        }
    }
}

/// The state of the analyzer after the first `n` lines of `program`.
pub open spec fn analyzer_after(program: Seq<StatementView>, n: nat) -> AnalyzerView
    decreases n,
{
    if n == 0 {
        AnalyzerView::initial()
    } else {
        analyzer_after(program, (n - 1) as nat).feed((n - 1) as nat, program[n - 1])
    }
}

/// What an analysis gives, as a mathematical value.
pub struct AnalysisView {
    pub globals: Seq<Seq<char>>,
    pub functions: Map<Seq<char>, nat>,
    pub diagnostics: Seq<DiagnosticView>,
}

/// What is left of an analyzer state when the analysis is over.
pub open spec fn result_of(state: AnalyzerView) -> AnalysisView {
    AnalysisView {
        globals: state.globals,
        functions: state.functions,
        diagnostics: state.diagnostics,
    }
}

/// The analysis of a program: what the analyzer holds after the last line.
pub open spec fn analysis_of(program: Seq<StatementView>) -> AnalysisView {
    result_of(analyzer_after(program, program.len()))
}

/// Whether none of the diagnostics reports a fault.
pub open spec fn no_errors(diagnostics: Seq<DiagnosticView>) -> bool {
    forall|i: int| 0 <= i < diagnostics.len() ==> !(#[trigger] diagnostics[i]).is_error()
}

/// The tables of the analyzer are free of duplicates after any number of lines.
pub proof fn lemma_analyzer_wf(program: Seq<StatementView>, n: nat)
    ensures
        analyzer_after(program, n).wf(),
    decreases n,
{
    if n > 0 {
        lemma_analyzer_wf(program, (n - 1) as nat);
    }
}

/// Whether line `header` is a header among the first `n` lines of `program`
/// with no closing line after it among them.
pub open spec fn opens_body(program: Seq<StatementView>, header: int, n: nat) -> bool {
    &&& 0 <= header < n
    &&& program[header] is FuncStart
    &&& forall|line: int| header < line < n ==> !(#[trigger] program[line] is FuncEnd)
}

/// A function body is open after the first `n` lines exactly when one of
/// them is a header with no closing line after it.
pub proof fn theorem_open_body(program: Seq<StatementView>, n: nat)
    ensures
        analyzer_after(program, n).inside_function <==> exists|header: int|
            opens_body(program, header, n),
    decreases n,
{
    if n > 0 {
        let last = n - 1;
        let before = last as nat;
        theorem_open_body(program, before);
        match program[last] {
            StatementView::FuncStart { .. } => {
                assert(opens_body(program, last, n));
            },
            StatementView::FuncEnd => {},
            _ => {
                assert(forall|header: int|
                    opens_body(program, header, n) <==> opens_body(program, header, before));
            },
        }
    }
}

/// Whether line `line` of `program` is a `var` line outside every function body.
pub open spec fn declares_global(program: Seq<StatementView>, line: nat) -> bool {
    &&& program[line as int] is Declare
    &&& !analyzer_after(program, line).inside_function
}

/// The names that the `var` lines outside function bodies declare among the
/// first `n` lines of `program`, in the order of the lines.
pub open spec fn global_declarations(program: Seq<StatementView>, n: nat) -> Seq<Seq<char>>
    decreases n,
{
    if n == 0 {
        Seq::empty()
    } else if declares_global(program, (n - 1) as nat) {
        global_declarations(program, (n - 1) as nat).push(program[n - 1]->Declare_name)
    } else {
        global_declarations(program, (n - 1) as nat)
    }
}

/// The lines on which `diagnostics` report that the variable `name` is
/// declared again, in the order of the reports.
pub open spec fn redeclarations(diagnostics: Seq<DiagnosticView>, name: Seq<char>) -> Seq<nat>
    decreases diagnostics.len(),
{
    if diagnostics.len() == 0 {
        Seq::empty()
    } else {
        let before = redeclarations(diagnostics.drop_last(), name);
        match diagnostics.last() {
            DiagnosticView::DuplicateDeclaration {
                line,
                kind: SymbolKind::Variable,
                name: reported,
            } => if reported == name {
                before.push(line)
            } else {
                before
            },
            _ => before,
        }
    }
}

/// Globals are never removed or moved: what the table holds after some
/// lines, it holds at the same addresses after more lines.
pub proof fn lemma_globals_grow(program: Seq<StatementView>, n: nat, m: nat)
    requires
        n <= m,
    ensures
        analyzer_after(program, n).globals.len() <= analyzer_after(program, m).globals.len(),
        forall|i: int|
            0 <= i < analyzer_after(program, n).globals.len() ==> analyzer_after(
                program,
                m,
            ).globals[i] == analyzer_after(program, n).globals[i],
    decreases m,
{
    if n < m {
        lemma_globals_grow(program, n, (m - 1) as nat);
    }
}

/// A function keeps the line that its first header gave it.
pub proof fn lemma_functions_grow(program: Seq<StatementView>, n: nat, m: nat)
    requires
        n <= m,
    ensures
        forall|name: Seq<char>| #[trigger]
            analyzer_after(program, n).functions.contains_key(name) ==> analyzer_after(
                program,
                m,
            ).functions.contains_key(name) && analyzer_after(program, m).functions[name]
                == analyzer_after(program, n).functions[name],
    decreases m,
{
    if n < m {
        lemma_functions_grow(program, n, (m - 1) as nat);
    }
}

/// In a program whose `var` lines outside function bodies declare each name
/// once, the table of globals holds exactly the declared names, and the
/// address of each is its place among the declarations: the first declared
/// has address zero, and every next one the next address.
pub proof fn theorem_globals_in_declaration_order(program: Seq<StatementView>)
    requires
        global_declarations(program, program.len()).no_duplicates(),
    ensures
        analysis_of(program).globals == global_declarations(program, program.len()),
        forall|i: int|
            0 <= i < analysis_of(program).globals.len() ==> address_of(
                analysis_of(program).globals,
                #[trigger] global_declarations(program, program.len())[i],
            ) == Some(i as nat),
{
    lemma_globals_are_declarations(program, program.len());
}

/// While no name is declared twice, the globals are the declared names.
proof fn lemma_globals_are_declarations(program: Seq<StatementView>, n: nat)
    requires
        global_declarations(program, n).no_duplicates(),
    ensures
        analyzer_after(program, n).globals == global_declarations(program, n),
    decreases n,
{
    if n > 0 {
        let before = global_declarations(program, (n - 1) as nat);
        let all = global_declarations(program, n);
        assert(before.no_duplicates()) by {
            assert forall|i: int, j: int|
                0 <= i < before.len() && 0 <= j < before.len() && i != j implies before[i]
                != before[j] by {
                assert(all[i] == before[i] && all[j] == before[j]);
            }
        }
        lemma_globals_are_declarations(program, (n - 1) as nat);
        if declares_global(program, (n - 1) as nat) {
            let name = program[n - 1]->Declare_name;
            if before.contains(name) {
                let i = before.index_of(name);
                assert(all[i] == name && all[before.len() as int] == name);
            }
        }
    }
}

/// Where a program declares a global on two lines and on no other line, the
/// first of the two gives the name the next free address and reports
/// nothing; the second changes no table and is the one line on which the
/// whole analysis reports the name as declared again; and at the end the name
/// still has the address that the first line gave it.
pub proof fn theorem_global_declared_twice(
    program: Seq<StatementView>,
    first: nat,
    second: nat,
    name: Seq<char>,
)
    requires
        first < second < program.len(),
        declares_global(program, first),
        declares_global(program, second),
        forall|line: int|
            0 <= line < program.len() ==> (#[trigger] program[line] == (StatementView::Declare {
                name,
            }) <==> line == first || line == second),
    ensures
        analyzer_after(program, first + 1).globals == analyzer_after(program, first).globals.push(
            name,
        ),
        analyzer_after(program, first + 1).diagnostics == analyzer_after(
            program,
            first,
        ).diagnostics,
        analyzer_after(program, second + 1).globals == analyzer_after(program, second).globals,
        analyzer_after(program, second + 1).functions == analyzer_after(
            program,
            second,
        ).functions,
        redeclarations(analysis_of(program).diagnostics, name) == seq![second],
        address_of(analysis_of(program).globals, name) == Some(
            analyzer_after(program, first).globals.len(),
        ),
{
    lemma_redeclarations(program, first, second, name, program.len());
    lemma_redeclarations(program, first, second, name, first);
    lemma_redeclarations(program, first, second, name, second);
    let address = analyzer_after(program, first).globals.len() as int;
    lemma_globals_grow(program, first + 1, program.len());
    lemma_analyzer_wf(program, program.len());
    lemma_index_of_unique(analysis_of(program).globals, address);
}

/// What the analyzer has seen of `name` after the first `n` lines of a
/// program that declares it on the lines `first` and `second` only.
proof fn lemma_redeclarations(
    program: Seq<StatementView>,
    first: nat,
    second: nat,
    name: Seq<char>,
    n: nat,
)
    requires
        first < second < program.len(),
        n <= program.len(),
        declares_global(program, first),
        declares_global(program, second),
        forall|line: int|
            0 <= line < program.len() ==> (#[trigger] program[line] == (StatementView::Declare {
                name,
            }) <==> line == first || line == second),
    ensures
        n <= first ==> !analyzer_after(program, n).resolves(name),
        n > first ==> analyzer_after(program, n).globals.contains(name),
        redeclarations(analyzer_after(program, n).diagnostics, name) == if n <= second {
            Seq::<nat>::empty()
        } else {
            seq![second]
        },
    decreases n,
{
    if n > 0 {
        let line = (n - 1) as nat;
        let before = analyzer_after(program, line);
        let after = analyzer_after(program, n);
        lemma_redeclarations(program, first, second, name, line);
        lemma_analyzer_wf(program, line);
        assert(program[line as int] == (StatementView::Declare { name }) <==> line == first || line
            == second);
        if line == first {
            assert(after.globals == before.globals.push(name));
            assert(after.globals[before.globals.len() as int] == name);
        } else if line == second {
            assert(after.diagnostics.drop_last() =~= before.diagnostics);
        } else {
            if line > first {
                lemma_globals_grow(program, line, n);
                let i = before.globals.index_of(name);
                assert(after.globals[i] == name);
            } else if program[line as int] is Declare {
                let other = program[line as int]->Declare_name;
                if !before.resolves(other) && !before.inside_function {
                    lemma_push_new_no_duplicates(before.globals, other);
                }
            }
            if after.diagnostics != before.diagnostics {
                assert(after.diagnostics.drop_last() =~= before.diagnostics);
            }
        }
    }
}

/// A local is out of scope once its function body has closed. Take a `var`
/// line for `name` inside a function body, a `}` line after it, and an
/// assignment to `name` after that, with no `var` line for `name` between
/// the `}` and the assignment. Unless `name` is a global by then, the
/// assignment is reported as one to an unknown variable.
pub proof fn theorem_local_out_of_scope(
    program: Seq<StatementView>,
    declaration: nat,
    closing: nat,
    assignment: nat,
    name: Seq<char>,
)
    requires
        declaration < closing < assignment < program.len(),
        program[declaration as int] == (StatementView::Declare { name }),
        analyzer_after(program, declaration).inside_function,
        program[closing as int] is FuncEnd,
        program[assignment as int] matches StatementView::Assign { name: assigned, .. }
            && assigned == name,
        forall|line: int|
            closing < line < assignment ==> #[trigger] program[line] != (StatementView::Declare {
                name,
            }),
        !analyzer_after(program, assignment).globals.contains(name),
    ensures
        analyzer_after(program, assignment + 1).diagnostics == analyzer_after(
            program,
            assignment,
        ).diagnostics.push(
            DiagnosticView::UnknownIdentifier {
                line: assignment,
                kind: SymbolKind::Variable,
                name,
            },
        ),
{
    lemma_no_local_after_closing(program, closing, assignment, name);
}

/// After a closing line, a name is no local until a line declares it.
proof fn lemma_no_local_after_closing(
    program: Seq<StatementView>,
    closing: nat,
    n: nat,
    name: Seq<char>,
)
    requires
        closing < n <= program.len(),
        program[closing as int] is FuncEnd,
        forall|line: int|
            closing < line < n ==> #[trigger] program[line] != (StatementView::Declare { name }),
    ensures
        !analyzer_after(program, n).locals.contains(name),
    decreases n,
{
    let line = (n - 1) as nat;
    if line > closing {
        lemma_no_local_after_closing(program, closing, line, name);
        lemma_analyzer_wf(program, line);
    }
}

/// Every function in the table stands at a line that holds a header for its
/// name, and it is the first such line: a header that comes later for the
/// same name changes nothing.
pub proof fn theorem_first_header_wins(program: Seq<StatementView>, name: Seq<char>)
    requires
        analysis_of(program).functions.contains_key(name),
    ensures
        analysis_of(program).functions[name] < program.len(),
        program[analysis_of(program).functions[name] as int] == (StatementView::FuncStart { name }),
        forall|line: int|
            0 <= line < analysis_of(program).functions[name] ==> #[trigger] program[line]
                != (StatementView::FuncStart { name }),
{
    lemma_function_lines(program, program.len(), name);
}

/// The function table after `n` lines holds the names of the headers among
/// them, each at the line of its first header.
pub proof fn lemma_function_lines(program: Seq<StatementView>, n: nat, name: Seq<char>)
    requires
        n <= program.len(),
    ensures
        analyzer_after(program, n).functions.contains_key(name) <==> exists|line: int|
            0 <= line < n && #[trigger] program[line] == (StatementView::FuncStart { name }),
        analyzer_after(program, n).functions.contains_key(name) ==> {
            let header = analyzer_after(program, n).functions[name];
            &&& header < n
            &&& program[header as int] == (StatementView::FuncStart { name })
            &&& forall|line: int|
                0 <= line < header ==> #[trigger] program[line] != (StatementView::FuncStart {
                    name,
                })
        },
    decreases n,
{
    if n > 0 {
        lemma_function_lines(program, (n - 1) as nat, name);
    }
}

/// Analysis has no memory of earlier runs: whatever two calls of `analyze`
/// give for one program text holds the same globals at the same addresses,
/// the same functions at the same lines, and the same diagnostics in the same
/// order.
pub proof fn theorem_analysis_repeats(source: Seq<char>, one: Analysis, other: Analysis)
    requires
        one@ == analysis_of(program_of(source)),
        other@ == analysis_of(program_of(source)),
    ensures
        one.globals@ == other.globals@,
        one.functions@ == other.functions@,
        one.diagnostics.deep_view() == other.diagnostics.deep_view(),
{
}

/// What an analysis gives: the two tables, and what was reported on the way.
#[derive(Debug, PartialEq, Eq)]
pub struct Analysis {
    /// The globals, each at its address.
    pub globals: SymbolTable,
    /// The line of the header of each function.
    pub functions: FunctionTable,
    /// What the analysis reported, in the order of the lines.
    pub diagnostics: Vec<Diagnostic>,
}

impl View for Analysis {
    type V = AnalysisView;

    open spec fn view(&self) -> AnalysisView {
        AnalysisView {
            globals: self.globals@,
            functions: self.functions@,
            diagnostics: self.diagnostics.deep_view(),
        }
    }
}

impl Analysis {
    /// Both tables are well-formed.
    pub open spec fn wf(&self) -> bool {
        &&& self.globals.wf()
        &&& self.functions.wf()
    }

    /// Whether the analysis found no fault: it reported nothing, or only
    /// for information.
    pub fn is_clean(&self) -> (clean: bool)
        ensures
            clean == no_errors(self@.diagnostics),
    {
        let mut i: usize = 0;
        while i < self.diagnostics.len()
            invariant
                i <= self.diagnostics.len(),
                forall|j: int| 0 <= j < i ==> !(#[trigger] self@.diagnostics[j]).is_error(),
            decreases self.diagnostics.len() - i,
        {
            if self.diagnostics[i].is_error() {
                assert(self@.diagnostics[i as int].is_error());
                return false;
            }
            i += 1;
        }
        true
    }
}

/// The analyzer: its tables, and the diagnostics it has collected.
#[derive(Debug)]
pub struct Analyzer {
    globals: SymbolTable,
    functions: FunctionTable,
    locals: SymbolTable,
    inside_function: bool,
    diagnostics: Vec<Diagnostic>,
}

impl View for Analyzer {
    type V = AnalyzerView;

    closed spec fn view(&self) -> AnalyzerView {
        AnalyzerView {
            globals: self.globals@,
            functions: self.functions@,
            locals: self.locals@,
            inside_function: self.inside_function,
            diagnostics: self.diagnostics.deep_view(),
        }
    }
}

impl Analyzer {
    /// The tables of the analyzer are well-formed.
    pub closed spec fn wf(&self) -> bool {
        &&& self.globals.wf()
        &&& self.locals.wf()
        &&& self.functions.wf()
    }

    /// The analyzer before the first line.
    pub fn new() -> (analyzer: Analyzer)
        ensures
            analyzer@ == AnalyzerView::initial(),
            analyzer.wf(),
    {
        let analyzer = Analyzer {
            globals: SymbolTable::new(),
            functions: FunctionTable::new(),
            locals: SymbolTable::new(),
            inside_function: false,
            diagnostics: Vec::new(),
        };
        assert(analyzer@.diagnostics =~= Seq::empty());
        analyzer
    }

    /// Records `diagnostic`.
    fn report(&mut self, diagnostic: Diagnostic)
        requires
            old(self).wf(),
        ensures
            final(self)@ == old(self)@.report(diagnostic@),
            final(self).wf(),
    {
        let ghost before = self.diagnostics.deep_view();
        self.diagnostics.push(diagnostic);
        assert(self.diagnostics.deep_view() =~= before.push(diagnostic@));
    }

    /// Whether an assignment to `name` on the next line finds its variable.
    fn resolves(&self, name: &str) -> (found: bool)
        requires
            self.wf(),
        ensures
            found == self@.resolves(name@),
    {
        (self.inside_function && self.locals.contains(name)) || self.globals.contains(name)
    }

    /// Takes in the statement of line `line`.
    pub fn feed(&mut self, line: usize, statement: &Statement)
        requires
            old(self).wf(),
        ensures
            final(self)@ == old(self)@.feed(line as nat, statement@),
            final(self).wf(),
    {
        match statement {
            Statement::Declare { name } => {
                if self.resolves(name.as_str()) {
                    self.report(
                        Diagnostic::DuplicateDeclaration {
                            line,
                            kind: SymbolKind::Variable,
                            name: name.clone(),
                        },
                    );
                } else if self.inside_function {
                    self.locals.append(name.clone());
                } else {
                    self.globals.append(name.clone());
                }
            },
            Statement::Assign { name, .. } => {
                if !self.resolves(name.as_str()) {
                    self.report(
                        Diagnostic::UnknownIdentifier {
                            line,
                            kind: SymbolKind::Variable,
                            name: name.clone(),
                        },
                    );
                }
            },
            Statement::FuncStart { name } => {
                self.inside_function = true;
                self.locals.clear();
                if self.functions.contains_key(name.as_str()) {
                    self.report(
                        Diagnostic::DuplicateDeclaration {
                            line,
                            kind: SymbolKind::Function,
                            name: name.clone(),
                        },
                    );
                } else {
                    self.functions.insert(name.clone(), line);
                }
            },
            Statement::FuncEnd => {
                self.inside_function = false;
                if !self.locals.is_empty() {
                    let names = self.locals.names();
                    self.locals.clear();
                    self.report(Diagnostic::LocalsCleared { line, names });
                }
                assert(self@.locals =~= Seq::empty());
            },
            Statement::Call { name } => {
                if !self.functions.contains_key(name.as_str()) {
                    self.report(
                        Diagnostic::UnknownIdentifier {
                            line,
                            kind: SymbolKind::Function,
                            name: name.clone(),
                        },
                    );
                }
            },
            Statement::Blank => {},
            Statement::Invalid => {
                self.report(Diagnostic::SyntaxError { line });
            },
        }
    }

    /// Ends the analysis and hands out what it gave.
    pub fn finish(self) -> (analysis: Analysis)
        requires
            self.wf(),
        ensures
            analysis@ == result_of(self@),
            analysis.wf(),
    {
        Analysis { globals: self.globals, functions: self.functions, diagnostics: self.diagnostics }
    }
}

/// Analyzes the statements of a program, line by line from the first.
pub fn analyze_statements(program: &Vec<Statement>) -> (analysis: Analysis)
    ensures
        analysis@ == analysis_of(program.deep_view()),
        analysis.wf(),
{
    let mut analyzer = Analyzer::new();
    let mut line: usize = 0;
    while line < program.len()
        invariant
            line <= program.len(),
            analyzer.wf(),
            analyzer@ == analyzer_after(program.deep_view(), line as nat),
        decreases program.len() - line,
    {
        analyzer.feed(line, &program[line]);
        line += 1;
    }
    analyzer.finish()
}

/// Analyzes a program text.
pub fn analyze(source: &str) -> (analysis: Analysis)
    ensures
        analysis@ == analysis_of(program_of(source@)),
        analysis.wf(),
{
    let program = parse(source);
    analyze_statements(&program)
}

} // verus!
