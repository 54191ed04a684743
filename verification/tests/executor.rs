use interpreter::agreement::is_well_bracketed;
use interpreter::analyzer::analyze;
use interpreter::diagnostic::{Diagnostic, SymbolKind};
use interpreter::executor::{execute, execute_statements, Execution, ExecutionOptions, Machine};
use interpreter::machine::UnresolvedCall;
use interpreter::statement::parse;
use interpreter::table::{FunctionTable, SymbolTable};
use interpreter::{interpret, Options};

const CANONICAL: &str = "
    var a
    func f {
        a = 5
        var b
        b = 6
    }
    func g {
        var c
        c = 7
        f()
    }
    g()
";

fn run(source: &str) -> Execution {
    let analysis = analyze(source);
    execute(source, &analysis.globals, &analysis.functions, &ExecutionOptions::default())
}

fn run_with(source: &str, max_call_depth: usize, unresolved_call: UnresolvedCall) -> Execution {
    let analysis = analyze(source);
    let options = ExecutionOptions { max_call_depth, unresolved_call };
    execute(source, &analysis.globals, &analysis.functions, &options)
}

fn unknown_variable(line: usize, name: &str) -> Diagnostic {
    Diagnostic::UnknownIdentifier { line, kind: SymbolKind::Variable, name: name.to_string() }
}

fn unknown_function(line: usize, name: &str) -> Diagnostic {
    Diagnostic::UnknownIdentifier { line, kind: SymbolKind::Function, name: name.to_string() }
}

#[test]
fn canonical_program_is_analyzed_and_run() {
    let analysis = analyze(CANONICAL);
    assert_eq!(analysis.globals.names(), vec!["a".to_string()]);
    assert_eq!(analysis.globals.address("a"), Some(0));
    assert_eq!(analysis.functions.len(), 2);
    assert_eq!(analysis.functions.get("f"), Some(1));
    assert_eq!(analysis.functions.get("g"), Some(6));
    assert!(analysis.is_clean());
    let execution = execute(
        CANONICAL,
        &analysis.globals,
        &analysis.functions,
        &ExecutionOptions::default(),
    );
    assert_eq!(execution.memory[0], 5);
    assert_eq!(execution.memory.len(), 1);
    assert!(execution.call_stack.is_empty());
    assert!(execution.frames.is_empty());
    assert!(execution.diagnostics.is_empty());
}

#[test]
fn headers_with_parentheses_run_the_same() {
    let source = "
        var a
        func f() {
            a = 5
            var b
            b = 6
        }
        func g() {
            var c
            c = 7
            f()
        }
        g()
    ";
    let analysis = analyze(source);
    assert_eq!(analysis, analyze(CANONICAL));
    assert_eq!(analysis.functions.get("f"), Some(1));
    assert_eq!(analysis.functions.get("g"), Some(6));
    let execution = run(source);
    assert_eq!(execution, run(CANONICAL));
    assert_eq!(execution.memory, vec![5]);
    assert!(execution.diagnostics.is_empty());
}

#[test]
fn canonical_program_step_by_step() {
    let program = parse(CANONICAL);
    let analysis = analyze(CANONICAL);
    let options = ExecutionOptions::default();
    let mut machine = Machine::new(&program, &analysis.globals, &analysis.functions, options);
    assert_eq!(machine.pc(), 0);
    assert_eq!(machine.memory(), &vec![0]);
    assert!(!machine.inside_call());
    let mut trace: Vec<(usize, usize, usize)> = Vec::new();
    while !machine.halted() {
        trace.push((machine.pc(), machine.memory().len(), machine.call_stack().len()));
        machine.step();
        assert!(machine.memory().len() >= analysis.globals.len());
        assert_eq!(machine.call_stack().len(), machine.frames().len());
        assert_eq!(machine.inside_call(), !machine.call_stack().is_empty());
    }
    assert_eq!(
        trace,
        vec![
            (0, 1, 0),
            (1, 1, 0),
            (6, 1, 0),
            (11, 1, 0),
            (7, 1, 1),
            (8, 2, 1),
            (9, 2, 1),
            (2, 2, 2),
            (3, 2, 2),
            (4, 3, 2),
            (5, 3, 2),
            (10, 2, 1),
        ]
    );
    assert_eq!(machine.pc(), 12);
    assert!(machine.diagnostics().is_empty());
    let execution = machine.finish();
    assert_eq!(execution.memory, vec![5]);
}

#[test]
fn the_state_inside_a_call_holds_the_frame_and_the_return_line() {
    let source = "var a\nfunc f {\nvar b\nb = 6\n}\nf()";
    let program = parse(source);
    let analysis = analyze(source);
    let options = ExecutionOptions::default();
    let mut machine = Machine::new(&program, &analysis.globals, &analysis.functions, options);
    for _ in 0..5 {
        machine.step();
    }
    assert_eq!(machine.pc(), 4);
    assert!(machine.inside_call());
    assert_eq!(machine.memory(), &vec![0, 6]);
    assert_eq!(machine.call_stack(), &vec![5]);
    assert_eq!(machine.frames().len(), 1);
    assert_eq!(machine.frames()[0].entries(), vec![("b".to_string(), 1)]);
    machine.step();
    assert!(machine.halted());
    assert!(!machine.inside_call());
    assert_eq!(machine.memory(), &vec![0]);
}

#[test]
fn a_halted_machine_stays_as_it_is() {
    let source = "var a\na = 1";
    let program = parse(source);
    let analysis = analyze(source);
    let options = ExecutionOptions::default();
    let mut machine = Machine::new(&program, &analysis.globals, &analysis.functions, options);
    assert!(!machine.halted());
    machine.step();
    machine.step();
    assert!(machine.halted());
    assert_eq!(machine.pc(), 2);
    machine.step();
    machine.step();
    assert!(machine.halted());
    assert_eq!(machine.pc(), 2);
    assert_eq!(machine.memory(), &vec![1]);
    assert!(machine.diagnostics().is_empty());
}

#[test]
fn a_machine_for_an_empty_program_has_halted() {
    let program = parse("");
    let globals = SymbolTable::new();
    let functions = FunctionTable::new();
    let machine = Machine::new(&program, &globals, &functions, ExecutionOptions::default());
    assert!(machine.halted());
    assert_eq!(machine.finish().memory, Vec::<i32>::new());
}

#[test]
fn the_memory_starts_with_a_zero_cell_for_each_global() {
    let execution = run("var a\nvar b\nvar c");
    assert_eq!(execution.memory, vec![0, 0, 0]);
    assert!(execution.diagnostics.is_empty());
}

#[test]
fn an_empty_program_runs_to_nothing() {
    let execution = run("");
    assert_eq!(execution.memory, Vec::<i32>::new());
    assert!(execution.call_stack.is_empty());
    assert!(execution.frames.is_empty());
    assert!(execution.diagnostics.is_empty());
}

#[test]
fn assignments_write_the_cell_of_the_global() {
    let execution = run("var a\nvar b\nb = 7\na = -3\nb = 8");
    assert_eq!(execution.memory, vec![-3, 8]);
}

#[test]
fn a_cell_takes_the_largest_and_the_smallest_integer() {
    let execution = run("var a\nvar b\na = 2147483647\nb = -2147483648");
    assert_eq!(execution.memory, vec![i32::MAX, i32::MIN]);
}

#[test]
fn a_malformed_literal_is_reported_and_writes_nothing() {
    let execution = run("var a\na = 4\na = four\na = 2147483648\na = 1.5");
    assert_eq!(execution.memory, vec![4]);
    assert_eq!(
        execution.diagnostics,
        vec![
            Diagnostic::MalformedLiteral { line: 2, literal: "four".to_string() },
            Diagnostic::MalformedLiteral { line: 3, literal: "2147483648".to_string() },
            Diagnostic::MalformedLiteral { line: 4, literal: "1.5".to_string() },
        ]
    );
}

#[test]
fn an_assignment_to_an_unknown_name_is_reported_before_its_literal_is_read() {
    let execution = run("var a\nb = 1\nb = what");
    assert_eq!(execution.memory, vec![0]);
    assert_eq!(execution.diagnostics, vec![unknown_variable(1, "b"), unknown_variable(2, "b")]);
}

#[test]
fn a_body_is_skipped_unless_it_is_called() {
    let execution = run("var a\nfunc f {\na = 1\n}\na = 2");
    assert_eq!(execution.memory, vec![2]);
    let execution = run("var a\nfunc f {\na = 1\n}");
    assert_eq!(execution.memory, vec![0]);
}

#[test]
fn a_body_without_a_closing_line_is_skipped_to_the_end() {
    let execution = run("var a\nfunc f {\na = 1\na = 2");
    assert_eq!(execution.memory, vec![0]);
    assert!(execution.diagnostics.is_empty());
    assert!(execution.call_stack.is_empty());
}

#[test]
fn a_call_runs_the_body_and_comes_back_behind_the_call() {
    let execution = run("var a\nvar b\nfunc f {\na = 1\n}\nf()\nb = 2");
    assert_eq!(execution.memory, vec![1, 2]);
    assert!(execution.call_stack.is_empty());
    assert!(execution.frames.is_empty());
}

#[test]
fn locals_live_behind_the_globals_and_go_with_their_call() {
    let execution = run("var a\nfunc f {\nvar x\nvar y\nx = 1\ny = 2\na = 3\n}\nf()");
    assert_eq!(execution.memory, vec![3]);
    assert!(execution.diagnostics.is_empty());
}

#[test]
fn a_second_call_gets_fresh_cells_at_the_same_addresses() {
    let source = "var a\nfunc f {\nvar x\nx = 9\n}\nf()\nf()\nf()";
    let execution = run(source);
    assert_eq!(execution.memory, vec![0]);
    assert!(execution.diagnostics.is_empty());
    let program = parse(source);
    let analysis = analyze(source);
    let options = ExecutionOptions::default();
    let mut machine = Machine::new(&program, &analysis.globals, &analysis.functions, options);
    let mut bound: Vec<Vec<(String, usize)>> = Vec::new();
    while !machine.halted() {
        machine.step();
        if machine.pc() == 4 {
            bound.push(machine.frames()[0].entries());
            assert_eq!(machine.memory(), &vec![0, 9]);
        }
    }
    assert_eq!(bound, vec![vec![("x".to_string(), 1)]; 3]);
}

#[test]
fn nested_calls_unwind_in_the_order_opposite_to_their_start() {
    let source = "var a\nfunc h {\nvar z\nz = 3\na = 30\n}\nfunc g {\nvar y\ny = 2\nh()\ny = 20\n}\nfunc f {\nvar x\nx = 1\ng()\nx = 10\n}\nf()";
    let execution = run(source);
    assert_eq!(execution.memory, vec![30]);
    assert!(execution.call_stack.is_empty());
    assert!(execution.frames.is_empty());
    assert!(execution.diagnostics.is_empty());
}

#[test]
fn a_callee_does_not_see_the_locals_of_its_caller() {
    let execution = run("func f {\nx = 1\n}\nfunc g {\nvar x\nf()\nx = 2\n}\ng()");
    assert_eq!(execution.diagnostics, vec![unknown_variable(1, "x")]);
    assert_eq!(execution.memory, Vec::<i32>::new());
}

#[test]
fn a_var_line_for_a_global_inside_a_call_declares_nothing() {
    let source = "var a\nfunc f {\nvar a\na = 5\n}\nf()";
    let program = parse(source);
    let analysis = analyze(source);
    let options = ExecutionOptions::default();
    let mut machine = Machine::new(&program, &analysis.globals, &analysis.functions, options);
    while machine.pc() != 4 {
        machine.step();
    }
    assert_eq!(machine.memory(), &vec![5]);
    assert_eq!(machine.frames()[0].len(), 0);
    assert!(machine.diagnostics().is_empty());
}

#[test]
fn a_var_line_outside_a_call_does_nothing_when_it_runs() {
    let source = "var a\nvar b";
    let program = parse(source);
    let mut globals = SymbolTable::new();
    globals.declare("a".to_string());
    let execution = execute_statements(
        &program,
        &globals,
        &FunctionTable::new(),
        &ExecutionOptions::default(),
    );
    assert_eq!(execution.memory, vec![0]);
    assert!(execution.diagnostics.is_empty());
}

#[test]
fn a_local_declared_twice_gets_a_second_cell_and_one_binding() {
    let source = "var a\nfunc f {\nvar x\nvar x\nx = 4\n}\nf()";
    let program = parse(source);
    let analysis = analyze(source);
    let options = ExecutionOptions::default();
    let mut machine = Machine::new(&program, &analysis.globals, &analysis.functions, options);
    while machine.pc() != 5 {
        machine.step();
    }
    assert_eq!(machine.memory(), &vec![0, 0, 4]);
    assert_eq!(machine.frames()[0].entries(), vec![("x".to_string(), 2)]);
    machine.step();
    assert_eq!(machine.memory(), &vec![0, 0]);
    assert!(machine.frames().is_empty());
    let execution = machine.finish();
    assert_eq!(execution.memory.len(), 2);
}

#[test]
fn a_closing_line_outside_a_call_is_reported() {
    let execution = run("var a\n}\na = 1");
    assert_eq!(execution.diagnostics, vec![Diagnostic::MissingActivationFrame { line: 1 }]);
    assert_eq!(execution.memory, vec![1]);
}

#[test]
fn a_line_of_no_shape_is_reported_and_the_run_goes_on() {
    let execution = run("var a\nwhat is this\n\na = 1");
    assert_eq!(execution.diagnostics, vec![Diagnostic::SyntaxError { line: 1 }]);
    assert_eq!(execution.memory, vec![1]);
}

#[test]
fn a_call_of_an_unknown_function_is_skipped_and_leaves_its_frame_open() {
    let execution = run_with("var a\nnowhere()\na = 1", 8, UnresolvedCall::Skip);
    assert_eq!(execution.diagnostics, vec![unknown_function(1, "nowhere")]);
    assert_eq!(execution.memory, vec![1]);
    assert_eq!(execution.call_stack, vec![1]);
    assert_eq!(execution.frames.len(), 1);
    assert_eq!(execution.frames[0].len(), 0);
}

#[test]
fn locals_declared_after_a_skipped_call_live_in_its_frame() {
    let program = parse("nowhere()\nvar x\nx = 3\n}\nx = 4");
    let options = ExecutionOptions { max_call_depth: 8, unresolved_call: UnresolvedCall::Skip };
    let globals = SymbolTable::new();
    let functions = FunctionTable::new();
    let mut machine = Machine::new(&program, &globals, &functions, options);
    for _ in 0..3 {
        machine.step();
    }
    assert_eq!(machine.pc(), 3);
    assert_eq!(machine.memory(), &vec![3]);
    assert_eq!(machine.call_stack(), &vec![0]);
    assert_eq!(machine.frames()[0].entries(), vec![("x".to_string(), 0)]);
    machine.step();
    assert_eq!(machine.pc(), 1);
    assert_eq!(machine.memory(), &Vec::<i32>::new());
    assert!(!machine.inside_call());
    let execution = execute_statements(&program, &globals, &functions, &options);
    assert_eq!(
        execution.diagnostics,
        vec![
            unknown_function(0, "nowhere"),
            unknown_variable(2, "x"),
            Diagnostic::MissingActivationFrame { line: 3 },
            unknown_variable(4, "x"),
        ]
    );
    assert_eq!(execution.memory, Vec::<i32>::new());
    assert!(execution.call_stack.is_empty());
}

#[test]
fn a_call_of_an_unknown_function_can_stop_the_run() {
    let execution = run_with("var a\na = 1\nnowhere()\na = 2", 8, UnresolvedCall::Halt);
    assert_eq!(execution.diagnostics, vec![unknown_function(2, "nowhere")]);
    assert_eq!(execution.memory, vec![1]);
    assert_eq!(execution.call_stack, vec![2]);
    assert_eq!(execution.frames.len(), 1);
}

#[test]
fn a_call_at_the_depth_limit_is_refused_and_the_run_goes_on() {
    let execution = run_with("var a\nfunc f {\na = 1\nf()\na = 2\n}\nf()", 3, UnresolvedCall::Skip);
    assert_eq!(execution.diagnostics, vec![Diagnostic::StackOverflow { line: 3 }]);
    assert_eq!(execution.memory, vec![2]);
    assert!(execution.call_stack.is_empty());
    assert!(execution.frames.is_empty());
}

#[test]
fn with_a_depth_limit_of_zero_no_call_is_made() {
    let execution = run_with("var a\nfunc f {\na = 1\n}\nf()\na = 2", 0, UnresolvedCall::Skip);
    assert_eq!(execution.diagnostics, vec![Diagnostic::StackOverflow { line: 4 }]);
    assert_eq!(execution.memory, vec![2]);
}

#[test]
fn mutual_recursion_ends_at_the_depth_limit() {
    let source = "var n\nfunc f {\nn = 1\ng()\n}\nfunc g {\nn = 2\nf()\n}\nf()";
    let execution = run_with(source, 5, UnresolvedCall::Skip);
    assert_eq!(execution.diagnostics, vec![Diagnostic::StackOverflow { line: 3 }]);
    assert_eq!(execution.memory, vec![1]);
    assert!(execution.call_stack.is_empty());
}

#[test]
fn a_function_that_calls_itself_twice_ends_too() {
    let source = "var n\nfunc f {\nf()\nf()\nn = 1\n}\nf()";
    let execution = run_with(source, 4, UnresolvedCall::Skip);
    assert_eq!(execution.diagnostics.len(), 16);
    assert_eq!(execution.memory, vec![1]);
    assert!(execution.call_stack.is_empty());
}

#[test]
fn the_default_options_allow_256_calls_and_skip_unknown_functions() {
    let options = ExecutionOptions::default();
    assert_eq!(options.max_call_depth, 256);
    assert_eq!(options.unresolved_call, UnresolvedCall::Skip);
    let execution = run("func f {\nf()\n}\nf()");
    assert_eq!(execution.diagnostics, vec![Diagnostic::StackOverflow { line: 1 }]);
}

#[test]
fn a_function_table_entry_beyond_the_program_ends_the_run() {
    let source = "var a\nf()\na = 1";
    let program = parse(source);
    let mut globals = SymbolTable::new();
    globals.declare("a".to_string());
    let mut functions = FunctionTable::new();
    functions.insert("f".to_string(), usize::MAX);
    let execution =
        execute_statements(&program, &globals, &functions, &ExecutionOptions::default());
    assert_eq!(execution.memory, vec![0]);
    assert_eq!(execution.call_stack, vec![1]);
    assert_eq!(execution.frames.len(), 1);
    assert!(execution.diagnostics.is_empty());
}

#[test]
fn a_run_with_tables_of_a_faulty_analysis_goes_on() {
    let source = "var a\nvar a\nb = 1\ng()\na = 3";
    let analysis = analyze(source);
    assert!(!analysis.is_clean());
    let execution = run(source);
    assert_eq!(execution.memory, vec![3]);
    assert_eq!(execution.diagnostics, vec![unknown_variable(2, "b"), unknown_function(3, "g")]);
}

#[test]
fn a_forward_call_runs_although_the_analysis_reported_it() {
    let source = "var a\nf()\nfunc f {\na = 1\n}";
    let analysis = analyze(source);
    assert_eq!(analysis.diagnostics, vec![unknown_function(1, "f")]);
    let execution = run(source);
    assert_eq!(execution.memory, vec![1]);
    assert!(execution.diagnostics.is_empty());
}

#[test]
fn the_text_and_its_statements_run_the_same() {
    let analysis = analyze(CANONICAL);
    let options = ExecutionOptions::default();
    let from_text = execute(CANONICAL, &analysis.globals, &analysis.functions, &options);
    let from_statements =
        execute_statements(&parse(CANONICAL), &analysis.globals, &analysis.functions, &options);
    assert_eq!(from_text, from_statements);
}

#[test]
fn interpreting_analyzes_and_runs() {
    let result = interpret(CANONICAL, &Options::default());
    assert_eq!(result.analysis, analyze(CANONICAL));
    assert_eq!(result.execution, Some(run(CANONICAL)));
}

#[test]
fn a_faulty_program_runs_unless_a_clean_analysis_is_required() {
    let source = "var a\nb = 1\na = 2";
    let lenient = interpret(source, &Options::default());
    assert_eq!(lenient.analysis.diagnostics, vec![unknown_variable(1, "b")]);
    assert_eq!(lenient.execution.map(|execution| execution.memory), Some(vec![2]));
    let strict = Options { require_clean_analysis: true, ..Options::default() };
    let refused = interpret(source, &strict);
    assert_eq!(refused.analysis.diagnostics, vec![unknown_variable(1, "b")]);
    assert_eq!(refused.execution, None);
}

#[test]
fn a_report_for_information_does_not_keep_a_program_from_running() {
    let strict = Options { require_clean_analysis: true, ..Options::default() };
    let result = interpret(CANONICAL, &strict);
    assert_eq!(result.analysis.diagnostics.len(), 2);
    assert!(result.analysis.is_clean());
    assert_eq!(result.execution.map(|execution| execution.memory), Some(vec![5]));
}

#[test]
fn the_default_options_run_every_program() {
    let options = Options::default();
    assert!(!options.require_clean_analysis);
    assert_eq!(options.execution, ExecutionOptions::default());
}

#[test]
fn brackets_are_checked() {
    assert!(is_well_bracketed(&parse("")));
    assert!(is_well_bracketed(&parse("var a\na = 1")));
    assert!(is_well_bracketed(&parse(CANONICAL)));
    assert!(is_well_bracketed(&parse("func f {\n}\nfunc g {\n}")));
    assert!(!is_well_bracketed(&parse("}")));
    assert!(!is_well_bracketed(&parse("func f {")));
    assert!(!is_well_bracketed(&parse("func f {\nvar a")));
    assert!(!is_well_bracketed(&parse("func f {\nfunc g {\n}\n}")));
    assert!(!is_well_bracketed(&parse("func f {\n}\n}")));
    assert!(!is_well_bracketed(&parse("var a\n}\nfunc f {\n}")));
}

fn unwinds_without_fault(source: &str, max_call_depth: usize) {
    let program = parse(source);
    let analysis = analyze(source);
    assert!(is_well_bracketed(&program), "{:?}", source);
    assert!(analysis.is_clean(), "{:?}", source);
    for unresolved_call in [UnresolvedCall::Skip, UnresolvedCall::Halt] {
        let options = ExecutionOptions { max_call_depth, unresolved_call };
        let execution = execute(source, &analysis.globals, &analysis.functions, &options);
        assert!(execution.call_stack.is_empty(), "{:?}", source);
        assert!(execution.frames.is_empty(), "{:?}", source);
        assert_eq!(execution.memory.len(), analysis.globals.len(), "{:?}", source);
        for diagnostic in &execution.diagnostics {
            assert!(
                matches!(
                    diagnostic,
                    Diagnostic::MalformedLiteral { .. } | Diagnostic::StackOverflow { .. }
                ),
                "{:?}",
                source
            );
        }
    }
}

#[test]
fn clean_and_well_bracketed_programs_unwind() {
    let sources = [
        "",
        "var a\na = 1",
        CANONICAL,
        "func f {\nvar x\nx = 1\nf()\nx = 2\n}\nf()\nf()",
        "var a\nfunc f {\nvar a2\na2 = x\na = 99999999999\n}\nf()\na = +7",
        "func f {\nvar x\nvar y\n}\nfunc g {\nvar x\nf()\nvar z\nf()\nz = 1\n}\ng()\ng()\nf()",
        "func f {\nvar late\nlate = 1\n}\nvar late\nf()\nlate = 2",
        "func f {\nf()\nf()\nf()\n}\nf()",
    ];
    for source in sources {
        for max_call_depth in [0, 1, 2, 5] {
            unwinds_without_fault(source, max_call_depth);
        }
    }
}

#[test]
fn a_local_that_is_declared_a_global_later_is_the_global_when_it_runs() {
    let source = "func f {\nvar late\nlate = 1\n}\nvar late\nf()";
    let analysis = analyze(source);
    assert!(analysis.is_clean());
    assert_eq!(analysis.globals.address("late"), Some(0));
    let execution = run(source);
    assert_eq!(execution.memory, vec![1]);
    assert!(execution.diagnostics.is_empty());
}
