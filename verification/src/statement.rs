//! The statements of the language, and how a line of tokens is read as one.

use crate::text::{source_lines, tokenize};
use vstd::prelude::*;
use vstd::string::*;

verus! {

/// One line of a program.
#[derive(Debug, PartialEq, Eq)]
pub enum Statement {
    /// `var <name>`: declares a variable in the scope that is open.
    Declare { name: String },
    /// `<name> = <literal>`: assigns to a declared variable.
    Assign { name: String, literal: String },
    /// `func <name> {` or `func <name>() {`: opens the body of a function.
    FuncStart { name: String },
    /// `}`: closes a function body, and ends a call when the body runs.
    FuncEnd,
    /// `<name>()`: calls a function.
    Call { name: String },
    /// A line without tokens.
    Blank,
    /// A line of any other shape.
    Invalid,
}

/// A statement as a mathematical value.
pub enum StatementView {
    Declare { name: Seq<char> },
    Assign { name: Seq<char>, literal: Seq<char> },
    FuncStart { name: Seq<char> },
    FuncEnd,
    Call { name: Seq<char> },
    Blank,
    Invalid,
}

impl View for Statement {
    type V = StatementView;

    open spec fn view(&self) -> StatementView {
        match self {
            Statement::Declare { name } => StatementView::Declare { name: name@ },
            Statement::Assign { name, literal } => StatementView::Assign {
                name: name@,
                literal: literal@,
            },
            Statement::FuncStart { name } => StatementView::FuncStart { name: name@ },
            Statement::FuncEnd => StatementView::FuncEnd,
            Statement::Call { name } => StatementView::Call { name: name@ },
            Statement::Blank => StatementView::Blank,
            Statement::Invalid => StatementView::Invalid,
        }
    }
}

impl DeepView for Statement {
    type V = StatementView;

    open spec fn deep_view(&self) -> StatementView {
        self@
    }
}

/// Whether `token` has the shape of a call: it ends in `()`.
pub open spec fn is_call(token: Seq<char>) -> bool {
    token.len() >= 2 && token[token.len() - 2] == '(' && token[token.len() - 1] == ')'
}

/// The name of the function that `token` speaks of, in a call or in a
/// header: the token without the `()` at its end, if it has one. So the
/// header may be written `func f {` or `func f() {`, and `f()` calls either.
pub open spec fn function_name(token: Seq<char>) -> Seq<char> {
    if is_call(token) {
        token.take(token.len() - 2)
    } else {
        token
    }
}

/// The statement that a line of tokens writes. The shapes are tried in the
/// order given here, so `var =` declares a variable named `=`, and
/// `func = {` assigns to a variable named `func`.
pub open spec fn classify(tokens: Seq<Seq<char>>) -> StatementView {
    if tokens.len() == 0 {
        StatementView::Blank
    } else if tokens.len() == 2 && tokens[0] == "var"@ {
        StatementView::Declare { name: tokens[1] }
    } else if tokens.len() == 3 && tokens[1] == "="@ {
        StatementView::Assign { name: tokens[0], literal: tokens[2] }
    } else if tokens.len() == 3 && tokens[0] == "func"@ && tokens[2] == "{"@ {
        StatementView::FuncStart { name: function_name(tokens[1]) }
    } else if tokens.len() == 1 && tokens[0] == "}"@ {
        StatementView::FuncEnd
    } else if tokens.len() == 1 && is_call(tokens[0]) {
        StatementView::Call { name: function_name(tokens[0]) }
    } else {
        StatementView::Invalid
    }
}

/// The statements of a program text, one for each line of the trimmed text.
pub open spec fn program_of(source: Seq<char>) -> Seq<StatementView> {
    classify_each(source_lines(source))
}

/// The statement of each of the given lines of tokens.
pub open spec fn classify_each(lines: Seq<Seq<Seq<char>>>) -> Seq<StatementView> {
    Seq::new(lines.len(), |i: int| classify(lines[i]))
}

/// Whether `token` ends in `()`.
fn has_call_shape(token: &str) -> (call: bool)
    ensures
        call == is_call(token@),
{
    let len = token.unicode_len();
    len >= 2 && token.get_char(len - 2) == '(' && token.get_char(len - 1) == ')'
}

/// The name of the function that `token` speaks of.
fn name_of_function(token: &str) -> (name: String)
    ensures
        name@ == function_name(token@),
{
    if has_call_shape(token) {
        let len = token.unicode_len();
        token.substring_char(0, len - 2).to_owned()
    } else {
        token.to_owned()
    }
}

/// Reads one line of tokens as a statement.
pub fn classify_line(tokens: &Vec<String>) -> (statement: Statement)
    ensures
        statement@ == classify(tokens.deep_view()),
{
    let n = tokens.len();
    if n == 0 {
        Statement::Blank
    } else if n == 2 && *tokens[0].as_str() == *"var" {
        Statement::Declare { name: tokens[1].clone() }
    } else if n == 3 && *tokens[1].as_str() == *"=" {
        Statement::Assign { name: tokens[0].clone(), literal: tokens[2].clone() }
    } else if n == 3 && *tokens[0].as_str() == *"func" && *tokens[2].as_str() == *"{" {
        Statement::FuncStart { name: name_of_function(tokens[1].as_str()) }
    } else if n == 1 && *tokens[0].as_str() == *"}" {
        Statement::FuncEnd
    } else if n == 1 && has_call_shape(tokens[0].as_str()) {
        Statement::Call { name: name_of_function(tokens[0].as_str()) }
    } else {
        Statement::Invalid
    }
}

/// Reads a program text as its statements.
pub fn parse(source: &str) -> (program: Vec<Statement>)
    ensures
        program.deep_view() == program_of(source@),
{
    let lines = tokenize(source);
    let mut program: Vec<Statement> = Vec::new();
    let mut i: usize = 0;
    while i < lines.len()
        invariant
            i <= lines.len(),
            lines.deep_view() == source_lines(source@),
            program.deep_view() == classify_each(lines.deep_view().take(i as int)),
        decreases lines.len() - i,
    {
        let statement = classify_line(&lines[i]);
        let ghost before = program.deep_view();
        program.push(statement);
        assert(program.deep_view() =~= before.push(statement@));
        i += 1;
    }
    program
}

} // verus!
