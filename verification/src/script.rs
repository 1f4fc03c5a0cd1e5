//! Running a script: source text in, printed lines and the first error out.
use crate::interpreter::{
    execute, line_views, run_stmts, Machine, RuntimeError, RuntimeErrorView,
};
use crate::lexer::{tokenize, tokens_from, LexError};
use crate::parser::{parse, parse_program, ParseError};
use vstd::prelude::*;

verus! {

/// Why a script stopped, by the stage that stopped it.
#[derive(Debug, PartialEq, Eq)]
pub enum ScriptError {
    /// The text holds a character that starts no token.
    Lex(LexError),
    /// The tokens do not form statements.
    Parse(ParseError),
    /// A statement failed while it ran.
    Runtime(RuntimeError),
}

/// The mathematical value of a [`ScriptError`].
pub enum ScriptErrorView {
    Lex(LexError),
    Parse(ParseError),
    Runtime(RuntimeErrorView),
}

impl View for ScriptError {
    type V = ScriptErrorView;

    open spec fn view(&self) -> ScriptErrorView {
        match self {
            ScriptError::Lex(e) => ScriptErrorView::Lex(*e),
            ScriptError::Parse(e) => ScriptErrorView::Parse(*e),
            ScriptError::Runtime(e) => ScriptErrorView::Runtime(e@),
        }
    }
}

impl ScriptError {
    /// The text of the error message: that of the stage's own error.
    pub open spec fn message_text(self) -> Seq<char> {
        match self {
            ScriptError::Lex(e) => e.message_text(),
            ScriptError::Parse(e) => e.message_text(),
            ScriptError::Runtime(e) => e.message_text(),
        }
    }

    /// The error message, as shown to the user.
    pub fn message(&self) -> (text: String)
        ensures
            text@ == self.message_text(),
    {
        match self {
            ScriptError::Lex(e) => e.message(),
            ScriptError::Parse(e) => e.message(),
            ScriptError::Runtime(e) => e.message(),
        }
    }
}

/// What running a script gave.
#[derive(Debug)]
pub struct Outcome {
    /// The lines printed, oldest first, without their line ends.
    pub output: Vec<String>,
    /// The error that stopped the script, if one did.
    pub error: Option<ScriptError>,
}

/// The mathematical value of an [`Outcome`].
pub struct OutcomeView {
    pub output: Seq<Seq<char>>,
    pub error: Option<ScriptErrorView>,
}

impl View for Outcome {
    type V = OutcomeView;

    open spec fn view(&self) -> OutcomeView {
        OutcomeView {
            output: line_views(self.output@),
            error: match self.error {
                Some(e) => Some(e@),
                None => None,
            },
        }
    }
}

/// What running the script `source` gives.
///
/// The whole text is lexed, then all its tokens are parsed, and only then do
/// the statements run, from the empty state. An error in lexing or parsing
/// therefore comes with no output; an error while running comes with the
/// lines printed before it.
pub open spec fn script_outcome(source: Seq<char>) -> OutcomeView {
    match tokens_from(source, 0) {
        Err(e) => OutcomeView { output: Seq::empty(), error: Some(ScriptErrorView::Lex(e)) },
        Ok(tokens) => match parse_program(tokens, 0).result {
            Err(e) => OutcomeView { output: Seq::empty(), error: Some(ScriptErrorView::Parse(e)) },
            Ok(stmts) => {
                let run = run_stmts(Machine::empty(), stmts);
                OutcomeView {
                    output: run.machine.output,
                    error: match run.error {
                        Some(e) => Some(ScriptErrorView::Runtime(e)),
                        None => None,
                    },
                }
            },
        },
    }
}

/// Lexes, parses and runs `source`.
pub fn run_script(source: &str) -> (outcome: Outcome)
    ensures
        outcome@ == script_outcome(source@),
{
    let tokens = match tokenize(source) {
        Ok(tokens) => tokens,
        Err(e) => {
            let outcome = Outcome { output: Vec::new(), error: Some(ScriptError::Lex(e)) };
            assert(outcome@.output =~= Seq::empty());
            return outcome;
        },
    };
    let stmts = match parse(tokens) {
        Ok(stmts) => stmts,
        Err(e) => {
            let outcome = Outcome { output: Vec::new(), error: Some(ScriptError::Parse(e)) };
            assert(outcome@.output =~= Seq::empty());
            return outcome;
        },
    };
    let (output, result) = execute(stmts);
    match result {
        Ok(_) => Outcome { output, error: None },
        Err(e) => Outcome { output, error: Some(ScriptError::Runtime(e)) },
    }
}

} // verus!
