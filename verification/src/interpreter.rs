//! The interpreter: runs statements in order against one flat environment and
//! collects the lines they print.
use crate::ast::{stmt_views, Expr, ExprView, Stmt, StmtView};
use crate::number::{add_wrapping, decimal_text, number_text, wrap_i64};
use vstd::hash_map::StringHashMap;
use vstd::prelude::*;
use vstd::string::StringExecFns;

verus! {

/// What an expression evaluates to.
#[derive(Debug, PartialEq, Eq)]
pub enum Value {
    /// A 64-bit signed integer.
    Number(i64),
    /// A piece of text.
    String(String),
}

/// The mathematical value of a [`Value`].
pub enum ValueView {
    Number(i64),
    String(Seq<char>),
}

impl View for Value {
    type V = ValueView;

    open spec fn view(&self) -> ValueView {
        match self {
            Value::Number(n) => ValueView::Number(*n),
            Value::String(text) => ValueView::String(text@),
        }
    }
}

impl Clone for Value {
    fn clone(&self) -> (copy: Value)
        ensures
            copy@ == self@,
    {
        match self {
            Value::Number(n) => Value::Number(*n),
            Value::String(text) => Value::String(text.clone()),
        }
    }
}

/// Why a run stopped.
#[derive(Debug, PartialEq, Eq)]
pub enum RuntimeError {
    /// The variable of this name was read before any `let` bound it.
    UndefinedVariable(String),
    /// An operand of `+` is not a number.
    TypeError,
}

/// The mathematical value of a [`RuntimeError`].
pub enum RuntimeErrorView {
    UndefinedVariable(Seq<char>),
    TypeError,
}

impl View for RuntimeError {
    type V = RuntimeErrorView;

    open spec fn view(&self) -> RuntimeErrorView {
        match self {
            RuntimeError::UndefinedVariable(name) => RuntimeErrorView::UndefinedVariable(name@),
            RuntimeError::TypeError => RuntimeErrorView::TypeError,
        }
    }
}

impl Clone for RuntimeError {
    fn clone(&self) -> (copy: RuntimeError)
        ensures
            copy@ == self@,
    {
        match self {
            RuntimeError::UndefinedVariable(name) => RuntimeError::UndefinedVariable(name.clone()),
            RuntimeError::TypeError => RuntimeError::TypeError,
        }
    }
}

impl RuntimeError {
    /// The text of the error message.
    pub open spec fn message_text(self) -> Seq<char> {
        match self {
            RuntimeError::UndefinedVariable(name) => "Undefined variable: "@ + name@,
            RuntimeError::TypeError => "Type error: only numbers can be added"@,
        }
    }

    /// The error message, as shown to the user.
    pub fn message(&self) -> (text: String)
        ensures
            text@ == self.message_text(),
    {
        match self {
            RuntimeError::UndefinedVariable(name) => {
                let mut text = "Undefined variable: ".to_owned();
                text.append(name.as_str());
                text
            },
            RuntimeError::TypeError => "Type error: only numbers can be added".to_owned(),
        }
    }
}

/// The state of a run: what the variables hold, and the lines printed so far,
/// oldest first.
pub struct Machine {
    /// The value of each variable that a `let` has bound.
    pub env: Map<Seq<char>, ValueView>,
    /// The printed lines, without their line ends.
    pub output: Seq<Seq<char>>,
}

impl Machine {
    /// The state before anything has run: no variables, no output.
    pub open spec fn empty() -> Machine {
        Machine { env: Map::empty(), output: Seq::empty() }
    }
}

/// The value of `expr` where the variables hold `env`.
///
/// A literal is its own value and a variable is what the environment holds
/// for it. Of a sum the left operand is evaluated first, then the right one;
/// only then are the two checked to be numbers, and their sum wraps to 64
/// bits.
pub open spec fn eval_expr(env: Map<Seq<char>, ValueView>, expr: ExprView) -> Result<
    ValueView,
    RuntimeErrorView,
>
    decreases expr,
{
    match expr {
        ExprView::Number(n) => Ok(ValueView::Number(n)),
        ExprView::String(text) => Ok(ValueView::String(text)),
        ExprView::Variable(name) => {
            if env.contains_key(name) {
                Ok(env[name])
            } else {
                Err(RuntimeErrorView::UndefinedVariable(name))
            }
        },
        ExprView::Binary(left, right) => {
            match eval_expr(env, *left) {
                Err(e) => Err(e),
                Ok(a) => match eval_expr(env, *right) {
                    Err(e) => Err(e),
                    Ok(b) => match (a, b) {
                        (ValueView::Number(x), ValueView::Number(y)) => Ok(
                            ValueView::Number(wrap_i64(x + y)),
                        ),
                        _ => Err(RuntimeErrorView::TypeError),
                    },
                },
            }
        },
    }
}

/// The line that printing `value` gives: the decimal form of a number, the
/// text of a string as it is.
pub open spec fn printed(value: ValueView) -> Seq<char> {
    match value {
        ValueView::Number(n) => decimal_text(n as int),
        ValueView::String(text) => text,
    }
}

/// The state after `stmt` has run in state `m`, or the error that stopped it.
///
/// `let` binds the name to the value, over any earlier binding;
/// `console.log` appends one line to the output.
pub open spec fn exec_stmt(m: Machine, stmt: StmtView) -> Result<Machine, RuntimeErrorView> {
    match stmt {
        StmtView::Let(name, expr) => match eval_expr(m.env, expr) {
            Err(e) => Err(e),
            Ok(value) => Ok(Machine { env: m.env.insert(name, value), output: m.output }),
        },
        StmtView::ConsoleLog(expr) => match eval_expr(m.env, expr) {
            Err(e) => Err(e),
            Ok(value) => Ok(Machine { env: m.env, output: m.output.push(printed(value)) }),
        },
    }
}

/// How a run ended: the state it reached, and the error if one stopped it.
pub struct Run {
    /// The state after the last statement that ran to its end.
    pub machine: Machine,
    /// The error of the statement that failed, if one did.
    pub error: Option<RuntimeErrorView>,
}

/// Runs `stmts` in order from state `m`. The first statement that fails ends
/// the run: it and the statements after it leave no trace.
pub open spec fn run_stmts(m: Machine, stmts: Seq<StmtView>) -> Run
    decreases stmts.len(),
{
    if stmts.len() == 0 {
        Run { machine: m, error: None }
    } else {
        match exec_stmt(m, stmts[0]) {
            Err(e) => Run { machine: m, error: Some(e) },
            Ok(next) => run_stmts(next, stmts.drop_first()),
        }
    }
}

/// Running one sequence of statements after another is running the two in a
/// row: the second starts where the first ended, and does not start at all
/// if the first failed.
pub proof fn lemma_run_in_sequence(m: Machine, first: Seq<StmtView>, second: Seq<StmtView>)
    ensures
        run_stmts(m, first + second) == if run_stmts(m, first).error is Some {
            run_stmts(m, first)
        } else {
            run_stmts(run_stmts(m, first).machine, second)
        },
    decreases first.len(),
{
    if first.len() == 0 {
        assert(first + second =~= second);
    } else {
        assert((first + second)[0] == first[0]);
        assert((first + second).drop_first() =~= first.drop_first() + second);
        match exec_stmt(m, first[0]) {
            Ok(next) => lemma_run_in_sequence(next, first.drop_first(), second),
            Err(_) => {},
        }
    }
}

/// A run never takes back or reorders what was printed: the output it starts
/// with is the beginning of the output it ends with.
pub proof fn lemma_output_only_grows(m: Machine, stmts: Seq<StmtView>)
    ensures
        m.output.is_prefix_of(run_stmts(m, stmts).machine.output),
    decreases stmts.len(),
{
    if stmts.len() > 0 {
        match exec_stmt(m, stmts[0]) {
            Ok(next) => {
                lemma_output_only_grows(next, stmts.drop_first());
                assert(m.output.is_prefix_of(next.output));
            },
            Err(_) => {},
        }
    }
}

/// The lines that `stmt` prints when it runs in state `m`: one line for a
/// `console.log`, none for a `let`.
pub open spec fn lines_of(m: Machine, stmt: StmtView) -> Seq<Seq<char>> {
    match stmt {
        StmtView::Let(_, _) => Seq::empty(),
        StmtView::ConsoleLog(expr) => match eval_expr(m.env, expr) {
            Ok(value) => seq![printed(value)],
            Err(_) => Seq::empty(),
        },
    }
}

/// The output comes in the order of the statements. In a program that runs
/// to its end, the statement at index `k` runs in the state that the `k`
/// statements before it have left; what it prints comes directly after all
/// that they have printed, and before all that the statements after it
/// print.
pub proof fn lemma_output_follows_statement_order(m: Machine, stmts: Seq<StmtView>, k: int)
    requires
        0 <= k < stmts.len(),
        run_stmts(m, stmts).error is None,
    ensures
        run_stmts(m, stmts.take(k)).error is None,
        run_stmts(m, stmts.take(k + 1)).error is None,
        exec_stmt(run_stmts(m, stmts.take(k)).machine, stmts[k]) == Ok::<Machine, RuntimeErrorView>(
            run_stmts(m, stmts.take(k + 1)).machine,
        ),
        run_stmts(m, stmts.take(k + 1)).machine.output == run_stmts(
            m,
            stmts.take(k),
        ).machine.output + lines_of(run_stmts(m, stmts.take(k)).machine, stmts[k]),
        run_stmts(m, stmts.take(k + 1)).machine.output.is_prefix_of(
            run_stmts(m, stmts).machine.output,
        ),
{
    let before = run_stmts(m, stmts.take(k));
    let one = seq![stmts[k]];
    assert(stmts =~= stmts.take(k) + stmts.skip(k));
    assert(stmts =~= stmts.take(k + 1) + stmts.skip(k + 1));
    assert(stmts.take(k + 1) =~= stmts.take(k) + one);
    lemma_run_in_sequence(m, stmts.take(k), stmts.skip(k));
    lemma_run_in_sequence(m, stmts.take(k + 1), stmts.skip(k + 1));
    lemma_run_in_sequence(m, stmts.take(k), one);
    assert(one.drop_first() =~= Seq::<StmtView>::empty());
    assert(run_stmts(before.machine, one) == match exec_stmt(before.machine, stmts[k]) {
        Ok(next) => Run { machine: next, error: None },
        Err(e) => Run { machine: before.machine, error: Some(e) },
    }) by {
        reveal_with_fuel(run_stmts, 2);
    }
    lemma_output_only_grows(run_stmts(m, stmts.take(k + 1)).machine, stmts.skip(k + 1));
    let after = run_stmts(m, stmts.take(k + 1)).machine;
    assert(after.output =~= before.machine.output + lines_of(before.machine, stmts[k]));
}

/// A program that runs to its end prints one line for each `console.log` in
/// it, and nothing else.
pub proof fn lemma_one_line_per_console_log(m: Machine, stmts: Seq<StmtView>)
    requires
        run_stmts(m, stmts).error is None,
    ensures
        run_stmts(m, stmts).machine.output.len() == m.output.len() + stmts.filter(
            |s: StmtView| s is ConsoleLog,
        ).len(),
    decreases stmts.len(),
{
    let is_log = |s: StmtView| s is ConsoleLog;
    if stmts.len() == 0 {
        assert(stmts.filter(is_log) =~= Seq::empty()) by {
            reveal(Seq::filter);
        }
    } else {
        let next = exec_stmt(m, stmts[0])->Ok_0;
        lemma_one_line_per_console_log(next, stmts.drop_first());
        assert(stmts =~= seq![stmts[0]] + stmts.drop_first());
        Seq::filter_distributes_over_add(seq![stmts[0]], stmts.drop_first(), is_log);
        assert(seq![stmts[0]].filter(is_log).len() == if is_log(stmts[0]) {
            1nat
        } else {
            0nat
        }) by {
            reveal_with_fuel(Seq::filter, 2);
            assert(seq![stmts[0]].drop_last() =~= Seq::<StmtView>::empty());
        }
    }
}

/// `let` binds its name to the value of its expression whether or not the
/// name was bound before, and touches nothing else.
pub proof fn lemma_let_rebinds(m: Machine, name: Seq<char>, expr: ExprView)
    requires
        eval_expr(m.env, expr) is Ok,
    ensures
        exec_stmt(m, StmtView::Let(name, expr)) matches Ok(next) && {
            &&& next.env.contains_key(name)
            &&& next.env[name] == eval_expr(m.env, expr)->Ok_0
            &&& forall|other: Seq<char>|
                other != name ==> next.env.contains_key(other) == m.env.contains_key(other)
                    && next.env[other] == m.env[other]
            &&& next.output == m.output
        },
{
}

/// Whether an evaluation result shows the outcome `expected`.
pub open spec fn shows_value(
    got: Result<Value, RuntimeError>,
    expected: Result<ValueView, RuntimeErrorView>,
) -> bool {
    match got {
        Ok(v) => expected == Ok::<ValueView, RuntimeErrorView>(v@),
        Err(e) => expected == Err::<ValueView, RuntimeErrorView>(e@),
    }
}

/// Whether the result of running something shows the error `expected`, or
/// none.
pub open spec fn shows_error(
    got: Result<(), RuntimeError>,
    expected: Option<RuntimeErrorView>,
) -> bool {
    match got {
        Ok(_) => expected is None,
        Err(e) => expected == Some(e@),
    }
}

/// The texts of a sequence of strings, in order.
pub open spec fn line_views(lines: Seq<String>) -> Seq<Seq<char>> {
    Seq::new(lines.len(), |i: int| lines[i]@)
}

/// A run in progress: the environment and the output so far.
pub struct Interpreter {
    vars: StringHashMap<Value>,
    output: Vec<String>,
}

impl View for Interpreter {
    type V = Machine;

    closed spec fn view(&self) -> Machine {
        Machine {
            env: Map::new(
                |name: Seq<char>| self.vars@.contains_key(name),
                |name: Seq<char>| self.vars@[name]@,
            ),
            output: line_views(self.output@),
        }
    }
}

impl Interpreter {
    /// An interpreter with no variables and no output.
    pub fn new() -> (interpreter: Interpreter)
        ensures
            interpreter@ == Machine::empty(),
    {
        let interpreter = Interpreter { vars: StringHashMap::new(), output: Vec::new() };
        assert(interpreter@.env =~= Map::empty());
        assert(interpreter@.output =~= Seq::empty());
        interpreter
    }

    /// The lines printed so far, oldest first, without their line ends.
    pub fn output(&self) -> (lines: &Vec<String>)
        ensures
            line_views(lines@) == self@.output,
    {
        &self.output
    }

    /// Ends the run and hands out the lines it printed, oldest first.
    pub fn into_output(self) -> (lines: Vec<String>)
        ensures
            line_views(lines@) == self@.output,
    {
        self.output
    }

    /// Runs `stmts` in order. The first statement that fails ends the run
    /// with its error; what the statements before it bound and printed stays.
    pub fn run(&mut self, stmts: Vec<Stmt>) -> (r: Result<(), RuntimeError>)
        ensures
            final(self)@ == run_stmts(old(self)@, stmt_views(stmts@)).machine,
            shows_error(r, run_stmts(old(self)@, stmt_views(stmts@)).error),
    {
        let ghost all = stmt_views(stmts@);
        assert(all.subrange(0, all.len() as int) =~= all);
        for stmt in it: stmts
            invariant
                it.seq() == stmts@,
                all == stmt_views(stmts@),
                run_stmts(old(self)@, all) == run_stmts(
                    self@,
                    all.subrange(it.index() as int, all.len() as int),
                ),
        {
            let ghost rest = all.subrange(it.index() as int, all.len() as int);
            assert(rest[0] == stmt@);
            assert(rest.drop_first() == all.subrange(it.index() + 1, all.len() as int));
            match self.exec(stmt) {
                Err(e) => {
                    return Err(e);
                },
                Ok(_) => {},
            }
        }
        assert(all.subrange(all.len() as int, all.len() as int) =~= Seq::empty());
        Ok(())
    }

    /// Runs one statement. If it fails, the state stays as it was.
    pub fn exec(&mut self, stmt: Stmt) -> (r: Result<(), RuntimeError>)
        ensures
            match exec_stmt(old(self)@, stmt@) {
                Ok(next) => r is Ok && final(self)@ == next,
                Err(e) => r is Err && r->Err_0@ == e && final(self)@ == old(self)@,
            },
    {
        match stmt {
            Stmt::Let(name, expr) => {
                let value = match self.eval(expr) {
                    Ok(value) => value,
                    Err(e) => {
                        return Err(e);
                    },
                };
                let ghost before = self@;
                self.vars.insert(name, value);
                assert(self@.env =~= before.env.insert(name@, value@));
                Ok(())
            },
            Stmt::ConsoleLog(expr) => {
                let value = match self.eval(expr) {
                    Ok(value) => value,
                    Err(e) => {
                        return Err(e);
                    },
                };
                let ghost before = self@;
                let line = match value {
                    Value::Number(n) => number_text(n),
                    Value::String(text) => text,
                };
                self.output.push(line);
                assert(self@.output =~= before.output.push(printed(value@)));
                assert(self@.env =~= before.env);
                Ok(())
            },
        }
    }

    /// The value of `expr` where the variables hold what this run has bound.
    pub fn eval(&self, expr: Expr) -> (r: Result<Value, RuntimeError>)
        ensures
            shows_value(r, eval_expr(self@.env, expr@)),
        decreases expr,
    {
        match expr {
            Expr::Number(n) => Ok(Value::Number(n)),
            Expr::String(text) => Ok(Value::String(text)),
            Expr::Variable(name) => {
                match self.vars.get(name.as_str()) {
                    Some(value) => Ok(value.clone()),
                    None => Err(RuntimeError::UndefinedVariable(name)),
                }
            },
            Expr::Binary(left, right) => {
                let a = match self.eval(*left) {
                    Ok(a) => a,
                    Err(e) => {
                        return Err(e);
                    },
                };
                let b = match self.eval(*right) {
                    Ok(b) => b,
                    Err(e) => {
                        return Err(e);
                    },
                };
                match (a, b) {
                    (Value::Number(x), Value::Number(y)) => Ok(Value::Number(add_wrapping(x, y))),
                    _ => Err(RuntimeError::TypeError),
                }
            },
        }
    }
}

/// Runs `stmts` from the empty state: the lines printed, and the error if a
/// statement failed. The lines printed before the failure are kept.
pub fn execute(stmts: Vec<Stmt>) -> (r: (Vec<String>, Result<(), RuntimeError>))
    ensures
        line_views(r.0@) == run_stmts(Machine::empty(), stmt_views(stmts@)).machine.output,
        shows_error(r.1, run_stmts(Machine::empty(), stmt_views(stmts@)).error),
{
    let mut interpreter = Interpreter::new();
    let result = interpreter.run(stmts);
    (interpreter.into_output(), result)
}

} // verus!
