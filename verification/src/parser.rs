//! The parser: from tokens to statements, by recursive descent.
//!
//! ```text
//! program    := statement*
//! statement  := let_stmt | log_stmt
//! let_stmt   := LET IDENT EQUAL expression SEMICOLON
//! log_stmt   := CONSOLE DOT LOG LPAREN expression RPAREN SEMICOLON
//! expression := term (PLUS term)?
//! term       := NUMBER | STRING | IDENT
//! ```
//!
//! The parser looks at the token that starts a statement, at the name after
//! `let`, at the tokens of a term and at the `+` between two terms. The other
//! tokens of a statement (`.`, `log`, `=`, `;`, `(`, `)`) are stepped over
//! without being looked at, whatever stands in their place.
use crate::ast::{stmt_views, Expr, ExprView, Stmt, StmtView};
use crate::token::{token_views, Token, TokenView};
use vstd::prelude::*;

verus! {

/// Why parsing stopped.
#[derive(Debug, Clone, Copy, PartialEq, Eq)]
pub enum ParseError {
    /// The token can start no statement.
    InvalidStatement,
    /// The token can start no term, or the tokens ended where a term was due.
    InvalidExpression,
    /// `let` is not followed by an identifier.
    ExpectedIdentifier,
}

impl ParseError {
    /// The text of the error message.
    pub open spec fn message_text(self) -> Seq<char> {
        match self {
            ParseError::InvalidStatement => "Invalid statement"@,
            ParseError::InvalidExpression => "Invalid expression"@,
            ParseError::ExpectedIdentifier => "Expected identifier"@,
        }
    }

    /// The error message, as shown to the user.
    pub fn message(&self) -> (text: String)
        ensures
            text@ == self.message_text(),
    {
        match self {
            ParseError::InvalidStatement => "Invalid statement".to_owned(),
            ParseError::InvalidExpression => "Invalid expression".to_owned(),
            ParseError::ExpectedIdentifier => "Expected identifier".to_owned(),
        }
    }
}

/// The result of parsing one piece of the grammar, and where the cursor
/// stands after it. After an error the cursor stands where the error was
/// found.
pub struct Parsed<T> {
    /// What was parsed, or the error.
    pub result: Result<T, ParseError>,
    /// The position of the cursor afterwards.
    pub next: int,
}

/// The token at `pos`, if there is one.
pub open spec fn token_at(tokens: Seq<TokenView>, pos: int) -> Option<TokenView> {
    if 0 <= pos < tokens.len() {
        Some(tokens[pos])
    } else {
        None
    }
}

/// The position one token after `pos`; the end of the tokens is not passed.
pub open spec fn step(tokens: Seq<TokenView>, pos: int) -> int {
    if 0 <= pos < tokens.len() {
        pos + 1
    } else {
        pos
    }
}

/// `term := NUMBER | STRING | IDENT`
pub open spec fn parse_term(tokens: Seq<TokenView>, pos: int) -> Parsed<ExprView> {
    match token_at(tokens, pos) {
        Some(TokenView::Number(n)) => Parsed { result: Ok(ExprView::Number(n)), next: pos + 1 },
        Some(TokenView::String(text)) => Parsed {
            result: Ok(ExprView::String(text)),
            next: pos + 1,
        },
        Some(TokenView::Identifier(name)) => Parsed {
            result: Ok(ExprView::Variable(name)),
            next: pos + 1,
        },
        _ => Parsed { result: Err(ParseError::InvalidExpression), next: pos },
    }
}

/// `expression := term (PLUS term)?`
///
/// At most one `+` belongs to an expression: what follows the second term is
/// left for the statement around it.
pub open spec fn parse_expression(tokens: Seq<TokenView>, pos: int) -> Parsed<ExprView> {
    let left = parse_term(tokens, pos);
    match left.result {
        Err(_) => left,
        Ok(l) => {
            if token_at(tokens, left.next) == Some(TokenView::Plus) {
                let right = parse_term(tokens, left.next + 1);
                match right.result {
                    Err(_) => right,
                    Ok(r) => Parsed {
                        result: Ok(ExprView::Binary(Box::new(l), Box::new(r))),
                        next: right.next,
                    },
                }
            } else {
                left
            }
        },
    }
}

/// `let_stmt := LET IDENT EQUAL expression SEMICOLON`, for a cursor on `let`.
///
/// The token after `let` must be an identifier. The tokens in the places of
/// `=` and `;` are stepped over unseen.
pub open spec fn parse_let(tokens: Seq<TokenView>, pos: int) -> Parsed<StmtView> {
    let at_name = step(tokens, pos);
    match token_at(tokens, at_name) {
        Some(TokenView::Identifier(name)) => {
            let value = parse_expression(tokens, step(tokens, step(tokens, at_name)));
            match value.result {
                Err(e) => Parsed { result: Err(e), next: value.next },
                Ok(v) => Parsed {
                    result: Ok(StmtView::Let(name, v)),
                    next: step(tokens, value.next),
                },
            }
        },
        _ => Parsed { result: Err(ParseError::ExpectedIdentifier), next: at_name },
    }
}

/// `log_stmt := CONSOLE DOT LOG LPAREN expression RPAREN SEMICOLON`, for a
/// cursor on `console`.
///
/// The tokens in the places of `.`, `log`, `(`, `)` and `;` are stepped over
/// unseen.
pub open spec fn parse_console_log(tokens: Seq<TokenView>, pos: int) -> Parsed<StmtView> {
    let at_value = step(tokens, step(tokens, step(tokens, step(tokens, pos))));
    let value = parse_expression(tokens, at_value);
    match value.result {
        Err(e) => Parsed { result: Err(e), next: value.next },
        Ok(v) => Parsed {
            result: Ok(StmtView::ConsoleLog(v)),
            next: step(tokens, step(tokens, value.next)),
        },
    }
}

/// `statement := let_stmt | log_stmt`, chosen by the token under the cursor.
pub open spec fn parse_statement(tokens: Seq<TokenView>, pos: int) -> Parsed<StmtView> {
    match token_at(tokens, pos) {
        Some(TokenView::Let) => parse_let(tokens, pos),
        Some(TokenView::Console) => parse_console_log(tokens, pos),
        _ => Parsed { result: Err(ParseError::InvalidStatement), next: pos },
    }
}

/// `program := statement*`: the statements from `pos` to the end of the
/// tokens, or the first error.
pub open spec fn parse_program(tokens: Seq<TokenView>, pos: int) -> Parsed<Seq<StmtView>>
    decreases tokens.len() - pos,
{
    if 0 <= pos < tokens.len() {
        let first = parse_statement(tokens, pos);
        match first.result {
            Err(e) => Parsed { result: Err(e), next: first.next },
            Ok(stmt) => {
                if pos < first.next <= tokens.len() {
                    let rest = parse_program(tokens, first.next);
                    match rest.result {
                        Err(e) => rest,
                        Ok(more) => Parsed { result: Ok(seq![stmt] + more), next: rest.next },
                    }
                } else {
                    Parsed { result: Ok(seq![stmt]), next: first.next }
                }
            },
        }
    } else {
        Parsed { result: Ok(Seq::empty()), next: pos }
    }
}

/// A statement that parses takes at least one token, and no parse moves the
/// cursor back or past the end.
pub proof fn lemma_statement_advances(tokens: Seq<TokenView>, pos: int)
    requires
        0 <= pos < tokens.len(),
    ensures
        pos <= parse_statement(tokens, pos).next <= tokens.len(),
        parse_statement(tokens, pos).result is Ok ==> pos < parse_statement(tokens, pos).next,
{
}

/// Whether a term can be made of `token`.
pub open spec fn is_term_token(token: TokenView) -> bool {
    token is Number || token is String || token is Identifier
}

/// An expression never holds more than two terms: it is one term, made of
/// one token, or the sum of two terms, made of three tokens.
pub proof fn lemma_expression_has_at_most_two_terms(tokens: Seq<TokenView>, pos: int)
    ensures
        parse_expression(tokens, pos).result matches Ok(expr) ==> {
            ||| expr.is_term() && parse_expression(tokens, pos).next == pos + 1
            ||| expr matches ExprView::Binary(left, right) && left.is_term() && right.is_term()
                && parse_expression(tokens, pos).next == pos + 3
        },
{
}

/// A sum of three terms does not parse. In `let x = a + b + c`, the
/// expression ends after `b`; the second `+` is stepped over in the place of
/// the `;`, and `c` can start no statement.
pub proof fn lemma_third_term_is_rejected(tokens: Seq<TokenView>, pos: int)
    requires
        0 <= pos,
        pos + 8 <= tokens.len(),
        tokens[pos] is Let,
        tokens[pos + 1] is Identifier,
        is_term_token(tokens[pos + 3]),
        tokens[pos + 4] is Plus,
        is_term_token(tokens[pos + 5]),
        tokens[pos + 6] is Plus,
        is_term_token(tokens[pos + 7]),
    ensures
        parse_statement(tokens, pos).result is Ok,
        parse_statement(tokens, pos).next == pos + 7,
        parse_program(tokens, pos).result == Err::<Seq<StmtView>, ParseError>(
            ParseError::InvalidStatement,
        ),
{
    reveal_with_fuel(parse_program, 2);
}

/// A program is parsed to the end of its tokens, or not at all.
pub proof fn lemma_program_takes_all_tokens(tokens: Seq<TokenView>, pos: int)
    requires
        0 <= pos <= tokens.len(),
    ensures
        pos <= parse_program(tokens, pos).next <= tokens.len(),
        parse_program(tokens, pos).result is Ok ==> parse_program(tokens, pos).next
            == tokens.len(),
    decreases tokens.len() - pos,
{
    if pos < tokens.len() {
        lemma_statement_advances(tokens, pos);
        let first = parse_statement(tokens, pos);
        if first.result is Ok {
            lemma_program_takes_all_tokens(tokens, first.next);
        }
    }
}

/// The state of a parser: its tokens and where its cursor stands.
pub struct ParserView {
    /// All the tokens.
    pub tokens: Seq<TokenView>,
    /// The index of the next token to read.
    pub position: int,
}

/// A cursor over tokens that builds statements.
pub struct Parser {
    tokens: Vec<Token>,
    pos: usize,
}

impl View for Parser {
    type V = ParserView;

    closed spec fn view(&self) -> ParserView {
        ParserView { tokens: token_views(self.tokens@), position: self.pos as int }
    }
}

/// Whether a parsed expression shows the outcome `expected`.
pub open spec fn shows_expr(
    got: Result<Expr, ParseError>,
    expected: Result<ExprView, ParseError>,
) -> bool {
    match got {
        Ok(e) => expected == Ok::<ExprView, ParseError>(e@),
        Err(e) => expected == Err::<ExprView, ParseError>(e),
    }
}

/// Whether a parsed statement shows the outcome `expected`.
pub open spec fn shows_stmt(
    got: Result<Stmt, ParseError>,
    expected: Result<StmtView, ParseError>,
) -> bool {
    match got {
        Ok(s) => expected == Ok::<StmtView, ParseError>(s@),
        Err(e) => expected == Err::<StmtView, ParseError>(e),
    }
}

/// Whether a parsed program shows the outcome `expected`.
pub open spec fn shows_stmts(
    got: Result<Vec<Stmt>, ParseError>,
    expected: Result<Seq<StmtView>, ParseError>,
) -> bool {
    match got {
        Ok(stmts) => expected == Ok::<Seq<StmtView>, ParseError>(stmt_views(stmts@)),
        Err(e) => expected == Err::<Seq<StmtView>, ParseError>(e),
    }
}

impl Parser {
    /// The cursor never passes the end of the tokens.
    #[verifier::type_invariant]
    spec fn cursor_in_bounds(&self) -> bool {
        self.pos <= self.tokens.len()
    }

    /// A parser at the start of `tokens`.
    pub fn new(tokens: Vec<Token>) -> (parser: Parser)
        ensures
            parser@ == (ParserView { tokens: token_views(tokens@), position: 0 }),
    {
        Parser { tokens, pos: 0 }
    }

    /// The token under the cursor, if the tokens have not ended.
    fn current(&self) -> (token: Option<&Token>)
        ensures
            0 <= self@.position <= self@.tokens.len(),
            match token {
                Some(t) => token_at(self@.tokens, self@.position) == Some(t@),
                None => token_at(self@.tokens, self@.position) is None,
            },
    {
        proof {
            use_type_invariant(self);
        }
        if self.pos < self.tokens.len() {
            Some(&self.tokens[self.pos])
        } else {
            None
        }
    }

    /// Moves the cursor one token forward; at the end of the tokens it stays.
    fn advance(&mut self)
        ensures
            final(self)@.tokens == old(self)@.tokens,
            final(self)@.position == step(old(self)@.tokens, old(self)@.position),
    {
        proof {
            use_type_invariant(&*self);
        }
        if self.pos < self.tokens.len() {
            self.pos += 1;
        }
    }

    /// Parses all the tokens from the cursor on: the statements in order, or
    /// the first error. After success the cursor stands at the end.
    pub fn parse(&mut self) -> (r: Result<Vec<Stmt>, ParseError>)
        ensures
            final(self)@.tokens == old(self)@.tokens,
            final(self)@.position == parse_program(old(self)@.tokens, old(self)@.position).next,
            shows_stmts(r, parse_program(old(self)@.tokens, old(self)@.position).result),
            old(self)@.position <= final(self)@.position <= final(self)@.tokens.len(),
            r is Ok ==> final(self)@.position == final(self)@.tokens.len(),
    {
        let ghost tokens = self@.tokens;
        let ghost origin = self@.position;
        let mut stmts: Vec<Stmt> = Vec::new();
        proof {
            use_type_invariant(&*self);
            lemma_program_takes_all_tokens(tokens, origin);
        }
        loop
            invariant
                tokens == old(self)@.tokens,
                origin == old(self)@.position,
                self@.tokens == tokens,
                0 <= self@.position <= tokens.len(),
                origin <= parse_program(tokens, origin).next <= tokens.len(),
                parse_program(tokens, origin).result is Ok ==> parse_program(tokens, origin).next
                    == tokens.len(),
                parse_program(tokens, origin).next == parse_program(tokens, self@.position).next,
                parse_program(tokens, origin).result matches Ok(all) ==> parse_program(
                    tokens,
                    self@.position,
                ).result matches Ok(rest) && all == stmt_views(stmts@) + rest,
                parse_program(tokens, origin).result matches Err(e) ==> parse_program(
                    tokens,
                    self@.position,
                ).result == Err::<Seq<StmtView>, ParseError>(e),
            decreases tokens.len() - self@.position,
        {
            if self.current().is_none() {
                return Ok(stmts);
            }
            proof {
                lemma_statement_advances(tokens, self@.position);
            }
            match self.statement() {
                Err(e) => {
                    return Err(e);
                },
                Ok(stmt) => {
                    stmts.push(stmt);
                },
            }
        }
    }

    /// Parses one statement, chosen by the token under the cursor.
    fn statement(&mut self) -> (r: Result<Stmt, ParseError>)
        ensures
            final(self)@.tokens == old(self)@.tokens,
            final(self)@.position == parse_statement(old(self)@.tokens, old(self)@.position).next,
            shows_stmt(r, parse_statement(old(self)@.tokens, old(self)@.position).result),
    {
        match self.current() {
            Some(Token::Let) => self.let_stmt(),
            Some(Token::Console) => self.console_log_stmt(),
            _ => Err(ParseError::InvalidStatement),
        }
    }

    /// Parses a `let` statement; the cursor stands on `let`.
    fn let_stmt(&mut self) -> (r: Result<Stmt, ParseError>)
        ensures
            final(self)@.tokens == old(self)@.tokens,
            final(self)@.position == parse_let(old(self)@.tokens, old(self)@.position).next,
            shows_stmt(r, parse_let(old(self)@.tokens, old(self)@.position).result),
    {
        self.advance();
        let name = match self.current() {
            Some(Token::Identifier(n)) => n.clone(),
            _ => {
                return Err(ParseError::ExpectedIdentifier);
            },
        };
        self.advance();
        self.advance();
        let expr = match self.expression() {
            Ok(expr) => expr,
            Err(e) => {
                return Err(e);
            },
        };
        self.advance();
        Ok(Stmt::Let(name, expr))
    }

    /// Parses a `console.log` statement; the cursor stands on `console`.
    fn console_log_stmt(&mut self) -> (r: Result<Stmt, ParseError>)
        ensures
            final(self)@.tokens == old(self)@.tokens,
            final(self)@.position == parse_console_log(
                old(self)@.tokens,
                old(self)@.position,
            ).next,
            shows_stmt(r, parse_console_log(old(self)@.tokens, old(self)@.position).result),
    {
        self.advance();
        self.advance();
        self.advance();
        self.advance();
        let expr = match self.expression() {
            Ok(expr) => expr,
            Err(e) => {
                return Err(e);
            },
        };
        self.advance();
        self.advance();
        Ok(Stmt::ConsoleLog(expr))
    }

    /// Parses a term, and a second one if a `+` follows the first.
    fn expression(&mut self) -> (r: Result<Expr, ParseError>)
        ensures
            final(self)@.tokens == old(self)@.tokens,
            final(self)@.position == parse_expression(
                old(self)@.tokens,
                old(self)@.position,
            ).next,
            shows_expr(r, parse_expression(old(self)@.tokens, old(self)@.position).result),
    {
        let left = match self.term() {
            Ok(left) => left,
            Err(e) => {
                return Err(e);
            },
        };
        let plus_follows = match self.current() {
            Some(Token::Plus) => true,
            _ => false,
        };
        if plus_follows {
            self.advance();
            let right = match self.term() {
                Ok(right) => right,
                Err(e) => {
                    return Err(e);
                },
            };
            Ok(Expr::Binary(Box::new(left), Box::new(right)))
        } else {
            Ok(left)
        }
    }

    /// Parses a number, a string literal or a variable.
    fn term(&mut self) -> (r: Result<Expr, ParseError>)
        ensures
            final(self)@.tokens == old(self)@.tokens,
            final(self)@.position == parse_term(old(self)@.tokens, old(self)@.position).next,
            shows_expr(r, parse_term(old(self)@.tokens, old(self)@.position).result),
    {
        match self.current() {
            Some(Token::Number(n)) => {
                let v = *n;
                self.advance();
                Ok(Expr::Number(v))
            },
            Some(Token::String(s)) => {
                let v = s.clone();
                self.advance();
                Ok(Expr::String(v))
            },
            Some(Token::Identifier(s)) => {
                let v = s.clone();
                self.advance();
                Ok(Expr::Variable(v))
            },
            _ => Err(ParseError::InvalidExpression),
        }
    }
}

/// Parses a whole token sequence: its statements in order, or the first
/// error.
pub fn parse(tokens: Vec<Token>) -> (r: Result<Vec<Stmt>, ParseError>)
    ensures
        shows_stmts(r, parse_program(token_views(tokens@), 0).result),
{
    let mut parser = Parser::new(tokens);
    parser.parse()
}

} // verus!
