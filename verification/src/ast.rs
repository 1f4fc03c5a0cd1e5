//! The syntax tree: expressions and statements.
use vstd::prelude::*;

verus! {

/// An expression. Each node owns its operands.
#[derive(Debug, PartialEq, Eq)]
pub enum Expr {
    /// A number literal.
    Number(i64),
    /// A string literal.
    String(String),
    /// A reference to a variable, by name.
    Variable(String),
    /// The sum of two operands, left and right.
    Binary(Box<Expr>, Box<Expr>),
}

/// A statement.
#[derive(Debug, PartialEq, Eq)]
pub enum Stmt {
    /// Bind the value of the expression to the name.
    Let(String, Expr),
    /// Print the value of the expression.
    ConsoleLog(Expr),
}

/// The mathematical value of an [`Expr`].
pub enum ExprView {
    Number(i64),
    String(Seq<char>),
    Variable(Seq<char>),
    Binary(Box<ExprView>, Box<ExprView>),
}

/// The mathematical value of a [`Stmt`].
pub enum StmtView {
    Let(Seq<char>, ExprView),
    ConsoleLog(ExprView),
}

impl View for Expr {
    type V = ExprView;

    open spec fn view(&self) -> ExprView
        decreases self,
    {
        match self {
            Expr::Number(n) => ExprView::Number(*n),
            Expr::String(text) => ExprView::String(text@),
            Expr::Variable(name) => ExprView::Variable(name@),
            Expr::Binary(left, right) => ExprView::Binary(
                Box::new((**left).view()),
                Box::new((**right).view()),
            ),
        }
    }
}

impl View for Stmt {
    type V = StmtView;

    open spec fn view(&self) -> StmtView {
        match self {
            Stmt::Let(name, value) => StmtView::Let(name@, value@),
            Stmt::ConsoleLog(value) => StmtView::ConsoleLog(value@),
        }
    }
}

/// The values of a sequence of statements, in order.
pub open spec fn stmt_views(stmts: Seq<Stmt>) -> Seq<StmtView> {
    Seq::new(stmts.len(), |i: int| stmts[i]@)
}

impl ExprView {
    /// A term is a literal or a variable: an expression without operands.
    pub open spec fn is_term(self) -> bool {
        !(self is Binary)
    }
}

} // verus!
