//! The lexer: from source text to tokens, one token per call.
use crate::number::{char_is_digit, decimal_value, is_digit, push_digit, wrap_i64};
use crate::token::{token_views, Token, TokenView};
use vstd::prelude::*;

verus! {

/// Why lexing stopped.
#[derive(Debug, Clone, Copy, PartialEq, Eq)]
pub enum LexError {
    /// The character can start no token and is not whitespace.
    UnexpectedCharacter(char),
}

impl LexError {
    /// The text of the error message.
    pub open spec fn message_text(self) -> Seq<char> {
        match self {
            LexError::UnexpectedCharacter(c) => "Unexpected character: "@.push(c),
        }
    }

    /// The error message, as shown to the user.
    pub fn message(&self) -> (text: String)
        ensures
            text@ == self.message_text(),
    {
        match self {
            LexError::UnexpectedCharacter(c) => {
                let mut text = "Unexpected character: ".to_owned();
                text.push(*c);
                text
            },
        }
    }
}

/// Whether `c` is whitespace between tokens: a space, a newline or a tab.
pub open spec fn is_blank(c: char) -> bool {
    c == ' ' || c == '\n' || c == '\t'
}

/// Whether `c` is a lowercase ASCII letter, the start of a word.
pub open spec fn is_lowercase(c: char) -> bool {
    'a' <= c && c <= 'z'
}

/// Whether `c` is an ASCII letter, which continues a word.
pub open spec fn is_letter(c: char) -> bool {
    is_lowercase(c) || ('A' <= c && c <= 'Z')
}

/// The sets of characters that the lexer reads in runs.
pub enum CharClass {
    /// Whitespace between tokens.
    Blank,
    /// Decimal digits, the body of a number.
    Digit,
    /// ASCII letters, the body of a word.
    Letter,
    /// Everything but the double quote, the body of a string literal.
    Unquoted,
}

impl CharClass {
    /// Whether `c` belongs to the class.
    pub open spec fn contains(self, c: char) -> bool {
        match self {
            CharClass::Blank => is_blank(c),
            CharClass::Digit => is_digit(c),
            CharClass::Letter => is_letter(c),
            CharClass::Unquoted => c != '"',
        }
    }
}

/// Where the longest run of characters of `class` that starts at `from` ends:
/// the index of the first character at or after `from` that is not in
/// `class`, or the length of `source` if there is none.
pub open spec fn run_end(source: Seq<char>, from: int, class: CharClass) -> int
    decreases source.len() - from,
{
    if 0 <= from < source.len() && class.contains(source[from]) {
        run_end(source, from + 1, class)
    } else {
        from
    }
}

/// The token that a single punctuation character stands for.
pub open spec fn punctuation(c: char) -> Option<TokenView> {
    if c == '+' {
        Some(TokenView::Plus)
    } else if c == '.' {
        Some(TokenView::Dot)
    } else if c == '=' {
        Some(TokenView::Equal)
    } else if c == ';' {
        Some(TokenView::Semicolon)
    } else if c == '(' {
        Some(TokenView::LParen)
    } else if c == ')' {
        Some(TokenView::RParen)
    } else {
        None
    }
}

/// The token that a word stands for: a keyword if it is one of `let`,
/// `console` and `log`, an identifier otherwise.
pub open spec fn word_token(word: Seq<char>) -> TokenView {
    if word == "let"@ {
        TokenView::Let
    } else if word == "console"@ {
        TokenView::Console
    } else if word == "log"@ {
        TokenView::Log
    } else {
        TokenView::Identifier(word)
    }
}

/// One step of lexing: what came out, and where the cursor stands after it.
pub struct LexStep {
    /// The token read, `None` at the end of the input, or the error.
    pub outcome: Result<Option<TokenView>, LexError>,
    /// The position of the cursor after the step.
    pub next: int,
}

/// The token that starts at `start`, the index of a character that is not
/// whitespace, and the position after it.
///
/// A string literal runs to the next double quote, which is consumed; one
/// that is never closed runs to the end of the input. A number is the longest
/// run of digits, and its value wraps to 64 bits. A word starts with a
/// lowercase letter and is the longest run of letters.
pub open spec fn token_at(source: Seq<char>, start: int) -> LexStep {
    let c = source[start];
    if punctuation(c) is Some {
        LexStep { outcome: Ok(punctuation(c)), next: start + 1 }
    } else if c == '"' {
        let close = run_end(source, start + 1, CharClass::Unquoted);
        LexStep {
            outcome: Ok(Some(TokenView::String(source.subrange(start + 1, close)))),
            next: if close < source.len() {
                close + 1
            } else {
                close
            },
        }
    } else if is_digit(c) {
        let end = run_end(source, start, CharClass::Digit);
        LexStep {
            outcome: Ok(
                Some(TokenView::Number(wrap_i64(decimal_value(source.subrange(start, end))))),
            ),
            next: end,
        }
    } else if is_lowercase(c) {
        let end = run_end(source, start, CharClass::Letter);
        LexStep { outcome: Ok(Some(word_token(source.subrange(start, end)))), next: end }
    } else {
        LexStep { outcome: Err(LexError::UnexpectedCharacter(c)), next: start }
    }
}

/// The next token of `source` for a cursor at `pos`: whitespace is skipped,
/// then a token is read. At an unexpected character the cursor stays on it.
pub open spec fn next_token_spec(source: Seq<char>, pos: int) -> LexStep {
    let start = run_end(source, pos, CharClass::Blank);
    if 0 <= start < source.len() {
        token_at(source, start)
    } else {
        LexStep { outcome: Ok(None), next: start }
    }
}

/// All the tokens of `source` from `pos` to the end, or the first error.
pub open spec fn tokens_from(source: Seq<char>, pos: int) -> Result<Seq<TokenView>, LexError>
    decreases source.len() - pos,
{
    let step = next_token_spec(source, pos);
    match step.outcome {
        Err(e) => Err(e),
        Ok(None) => Ok(Seq::empty()),
        Ok(Some(token)) => {
            if pos < step.next <= source.len() {
                match tokens_from(source, step.next) {
                    Ok(rest) => Ok(seq![token] + rest),
                    Err(e) => Err(e),
                }
            } else {
                Ok(seq![token])
            }
        },
    }
}

/// A run ends within the source, holds only characters of its class, and is
/// followed by a character outside the class or by the end of the source.
pub proof fn lemma_run_end(source: Seq<char>, from: int, class: CharClass)
    requires
        0 <= from <= source.len(),
    ensures
        from <= run_end(source, from, class) <= source.len(),
        forall|i: int| from <= i < run_end(source, from, class) ==> class.contains(source[i]),
        run_end(source, from, class) < source.len() ==> !class.contains(
            source[run_end(source, from, class)],
        ),
    decreases source.len() - from,
{
    if from < source.len() && class.contains(source[from]) {
        lemma_run_end(source, from + 1, class);
    }
}

/// A run that is entered in its middle ends where the whole run ends.
pub proof fn lemma_run_end_from_inside(source: Seq<char>, from: int, mid: int, class: CharClass)
    requires
        0 <= from <= mid <= source.len(),
        forall|i: int| from <= i < mid ==> class.contains(source[i]),
    ensures
        run_end(source, from, class) == run_end(source, mid, class),
    decreases mid - from,
{
    if from < mid {
        lemma_run_end_from_inside(source, from + 1, mid, class);
    }
}

/// Reading a token moves the cursor forward, and never past the end.
pub proof fn lemma_token_advances(source: Seq<char>, pos: int)
    requires
        0 <= pos <= source.len(),
    ensures
        pos <= next_token_spec(source, pos).next <= source.len(),
        next_token_spec(source, pos).outcome matches Ok(Some(_)) ==> pos < next_token_spec(
            source,
            pos,
        ).next,
{
    lemma_run_end(source, pos, CharClass::Blank);
    let start = run_end(source, pos, CharClass::Blank);
    if start < source.len() {
        lemma_run_end(source, start + 1, CharClass::Unquoted);
        lemma_run_end(source, start, CharClass::Digit);
        lemma_run_end(source, start, CharClass::Letter);
    }
}

/// Whether a token can start with `c`.
pub open spec fn starts_token(c: char) -> bool {
    punctuation(c) is Some || c == '"' || is_digit(c) || is_lowercase(c)
}

/// The first character after whitespace that is not whitespace and starts no
/// token is reported as unexpected, with the cursor left on it.
pub proof fn lemma_unexpected_character_is_reported(source: Seq<char>, pos: int, at: int)
    requires
        0 <= pos <= at < source.len(),
        forall|i: int| pos <= i < at ==> is_blank(source[i]),
        !is_blank(source[at]),
        !starts_token(source[at]),
    ensures
        next_token_spec(source, pos) == (LexStep {
            outcome: Err(LexError::UnexpectedCharacter(source[at])),
            next: at,
        }),
        tokens_from(source, pos) == Err::<Seq<TokenView>, LexError>(
            LexError::UnexpectedCharacter(source[at]),
        ),
{
    lemma_run_end_from_inside(source, pos, at, CharClass::Blank);
}

/// An error of lexing names a character that stands in the text, from the
/// cursor on, is not whitespace and starts no token.
pub proof fn lemma_lex_error_names_a_character(source: Seq<char>, pos: int)
    requires
        0 <= pos <= source.len(),
        tokens_from(source, pos) is Err,
    ensures
        tokens_from(source, pos) matches Err(LexError::UnexpectedCharacter(c)) && !is_blank(c)
            && !starts_token(c) && exists|i: int| pos <= i < source.len() && source[i] == c,
    decreases source.len() - pos,
{
    lemma_token_advances(source, pos);
    lemma_run_end(source, pos, CharClass::Blank);
    let step = next_token_spec(source, pos);
    match step.outcome {
        Err(LexError::UnexpectedCharacter(c)) => {
            let at = run_end(source, pos, CharClass::Blank);
            assert(pos <= at < source.len() && source[at] == c);
        },
        Ok(None) => {},
        Ok(Some(_)) => {
            lemma_lex_error_names_a_character(source, step.next);
            let c = tokens_from(source, pos)->Err_0->UnexpectedCharacter_0;
            let i = choose|i: int| step.next <= i < source.len() && source[i] == c;
            assert(pos <= i < source.len() && source[i] == c);
        },
    }
}

/// Lexing depends on the text alone: two results of lexing one text show the
/// same tokens, or the same error.
pub proof fn lemma_tokenize_is_deterministic(
    source: Seq<char>,
    first: Result<Vec<Token>, LexError>,
    second: Result<Vec<Token>, LexError>,
)
    requires
        shows_tokens(first, tokens_from(source, 0)),
        shows_tokens(second, tokens_from(source, 0)),
    ensures
        match (first, second) {
            (Ok(a), Ok(b)) => token_views(a@) == token_views(b@),
            (Err(a), Err(b)) => a == b,
            _ => false,
        },
{
}

/// The state of a lexer: the text it reads and where its cursor stands.
pub struct LexerView {
    /// The whole source text.
    pub source: Seq<char>,
    /// The index of the next character to read.
    pub position: int,
}

/// A cursor over source text that hands out one token per call.
pub struct Lexer {
    input: Vec<char>,
    pos: usize,
}

impl View for Lexer {
    type V = LexerView;

    closed spec fn view(&self) -> LexerView {
        LexerView { source: self.input@, position: self.pos as int }
    }
}

/// Whether the result of a lexing call shows the outcome `expected`.
pub open spec fn shows_token(
    got: Result<Option<Token>, LexError>,
    expected: Result<Option<TokenView>, LexError>,
) -> bool {
    match got {
        Ok(Some(token)) => expected == Ok::<Option<TokenView>, LexError>(Some(token@)),
        Ok(None) => expected == Ok::<Option<TokenView>, LexError>(None),
        Err(e) => expected == Err::<Option<TokenView>, LexError>(e),
    }
}

/// Whether the result of lexing a whole text shows the outcome `expected`.
pub open spec fn shows_tokens(
    got: Result<Vec<Token>, LexError>,
    expected: Result<Seq<TokenView>, LexError>,
) -> bool {
    match got {
        Ok(tokens) => expected == Ok::<Seq<TokenView>, LexError>(token_views(tokens@)),
        Err(e) => expected == Err::<Seq<TokenView>, LexError>(e),
    }
}

impl Lexer {
    /// The cursor never passes the end of the input.
    #[verifier::type_invariant]
    spec fn cursor_in_bounds(&self) -> bool {
        self.pos <= self.input.len()
    }

    /// A lexer at the start of `input`.
    pub fn new(input: &str) -> (lexer: Lexer)
        ensures
            lexer@ == (LexerView { source: input@, position: 0 }),
    {
        let mut chars: Vec<char> = Vec::new();
        for c in it: input.chars()
            invariant
                chars@ == it.seq().take(it.index() as int),
        {
            chars.push(c);
        }
        assert(chars@ =~= input@);
        Lexer { input: chars, pos: 0 }
    }

    /// The character under the cursor, if the input has not ended.
    fn current(&self) -> (c: Option<char>)
        ensures
            c == if self@.position < self@.source.len() {
                Some(self@.source[self@.position])
            } else {
                None
            },
            self@.position <= self@.source.len(),
    {
        proof {
            use_type_invariant(self);
        }
        if self.pos < self.input.len() {
            Some(self.input[self.pos])
        } else {
            None
        }
    }

    /// Moves the cursor one character forward; at the end of the input it
    /// stays.
    fn advance(&mut self)
        ensures
            final(self)@.source == old(self)@.source,
            final(self)@.position == if old(self)@.position < old(self)@.source.len() {
                old(self)@.position + 1
            } else {
                old(self)@.position
            },
    {
        proof {
            use_type_invariant(&*self);
        }
        if self.pos < self.input.len() {
            self.pos += 1;
        }
    }

    /// Reads the next token: `Ok(Some(..))` with the token, `Ok(None)` once
    /// only whitespace is left, or the error for a character that starts no
    /// token. The cursor moves past what was read; at an error it stays on
    /// the offending character.
    pub fn next_token(&mut self) -> (r: Result<Option<Token>, LexError>)
        ensures
            final(self)@.source == old(self)@.source,
            final(self)@.position == next_token_spec(old(self)@.source, old(self)@.position).next,
            shows_token(r, next_token_spec(old(self)@.source, old(self)@.position).outcome),
            old(self)@.position <= final(self)@.position <= final(self)@.source.len(),
    {
        let ghost source = self@.source;
        let ghost origin = self@.position;
        proof {
            use_type_invariant(&*self);
            lemma_token_advances(source, origin);
        }
        loop
            invariant
                source == old(self)@.source,
                origin == old(self)@.position,
                self@.source == source,
                origin <= self@.position <= source.len(),
                origin <= next_token_spec(source, origin).next <= source.len(),
                run_end(source, origin, CharClass::Blank) == run_end(
                    source,
                    self@.position,
                    CharClass::Blank,
                ),
            decreases source.len() - self@.position,
        {
            let c = match self.current() {
                Some(c) => c,
                None => {
                    return Ok(None);
                },
            };
            if c == ' ' || c == '\n' || c == '\t' {
                self.advance();
            } else if c == '+' {
                self.advance();
                return Ok(Some(Token::Plus));
            } else if c == '.' {
                self.advance();
                return Ok(Some(Token::Dot));
            } else if c == '=' {
                self.advance();
                return Ok(Some(Token::Equal));
            } else if c == ';' {
                self.advance();
                return Ok(Some(Token::Semicolon));
            } else if c == '(' {
                self.advance();
                return Ok(Some(Token::LParen));
            } else if c == ')' {
                self.advance();
                return Ok(Some(Token::RParen));
            } else if c == '"' {
                return Ok(Some(self.string()));
            } else if char_is_digit(c) {
                return Ok(Some(self.number()));
            } else if 'a' <= c && c <= 'z' {
                return Ok(Some(self.identifier()));
            } else {
                return Err(LexError::UnexpectedCharacter(c));
            }
        }
    }

    /// Reads the longest run of digits under the cursor as a number, wrapped
    /// to 64 bits.
    fn number(&mut self) -> (token: Token)
        ensures
            final(self)@.source == old(self)@.source,
            final(self)@.position == run_end(
                old(self)@.source,
                old(self)@.position,
                CharClass::Digit,
            ),
            token@ == TokenView::Number(
                wrap_i64(
                    decimal_value(
                        old(self)@.source.subrange(old(self)@.position, final(self)@.position),
                    ),
                ),
            ),
    {
        let ghost source = self@.source;
        let ghost origin = self@.position;
        let mut num: i64 = 0;
        proof {
            use_type_invariant(&*self);
            crate::number::lemma_wrap_identity(0);
        }
        loop
            invariant
                source == old(self)@.source,
                origin == old(self)@.position,
                self@.source == source,
                0 <= origin <= self@.position <= source.len(),
                run_end(source, origin, CharClass::Digit) == run_end(
                    source,
                    self@.position,
                    CharClass::Digit,
                ),
                num == wrap_i64(decimal_value(source.subrange(origin, self@.position))),
            ensures
                run_end(source, self@.position, CharClass::Digit) == self@.position,
            decreases source.len() - self@.position,
        {
            let c = match self.current() {
                Some(c) => c,
                None => {
                    break;
                },
            };
            if char_is_digit(c) {
                proof {
                    let before = source.subrange(origin, self@.position);
                    let after = source.subrange(origin, self@.position + 1);
                    assert(after.drop_last() == before);
                    assert(after.last() == c);
                    crate::number::lemma_wrap_push_digit(
                        decimal_value(before),
                        crate::number::digit_value(c),
                    );
                }
                num = push_digit(num, c);
                self.advance();
            } else {
                break;
            }
        }
        Token::Number(num)
    }

    /// Reads the longest run of letters under the cursor as a keyword or an
    /// identifier.
    fn identifier(&mut self) -> (token: Token)
        ensures
            final(self)@.source == old(self)@.source,
            final(self)@.position == run_end(
                old(self)@.source,
                old(self)@.position,
                CharClass::Letter,
            ),
            token@ == word_token(
                old(self)@.source.subrange(old(self)@.position, final(self)@.position),
            ),
    {
        let ghost source = self@.source;
        let ghost origin = self@.position;
        let mut word = String::new();
        proof {
            use_type_invariant(&*self);
        }
        loop
            invariant
                source == old(self)@.source,
                origin == old(self)@.position,
                self@.source == source,
                0 <= origin <= self@.position <= source.len(),
                run_end(source, origin, CharClass::Letter) == run_end(
                    source,
                    self@.position,
                    CharClass::Letter,
                ),
                word@ == source.subrange(origin, self@.position),
            ensures
                run_end(source, self@.position, CharClass::Letter) == self@.position,
            decreases source.len() - self@.position,
        {
            let c = match self.current() {
                Some(c) => c,
                None => {
                    break;
                },
            };
            if ('a' <= c && c <= 'z') || ('A' <= c && c <= 'Z') {
                word.push(c);
                self.advance();
            } else {
                break;
            }
        }
        if word == "let".to_owned() {
            Token::Let
        } else if word == "console".to_owned() {
            Token::Console
        } else if word == "log".to_owned() {
            Token::Log
        } else {
            Token::Identifier(word)
        }
    }

    /// Reads a string literal whose opening quote is under the cursor: the
    /// text up to the next double quote, which is consumed too, or up to the
    /// end of the input.
    fn string(&mut self) -> (token: Token)
        requires
            0 <= old(self)@.position < old(self)@.source.len(),
            old(self)@.source[old(self)@.position] == '"',
        ensures
            final(self)@.source == old(self)@.source,
            final(self)@.position == token_at(old(self)@.source, old(self)@.position).next,
            token_at(old(self)@.source, old(self)@.position).outcome == Ok::<
                Option<TokenView>,
                LexError,
            >(Some(token@)),
    {
        let ghost source = self@.source;
        let ghost origin = self@.position + 1;
        self.advance();
        let mut text = String::new();
        loop
            invariant
                source == old(self)@.source,
                origin == old(self)@.position + 1,
                self@.source == source,
                0 <= origin <= self@.position <= source.len(),
                run_end(source, origin, CharClass::Unquoted) == run_end(
                    source,
                    self@.position,
                    CharClass::Unquoted,
                ),
                text@ == source.subrange(origin, self@.position),
            ensures
                run_end(source, self@.position, CharClass::Unquoted) == self@.position,
            decreases source.len() - self@.position,
        {
            let c = match self.current() {
                Some(c) => c,
                None => {
                    break;
                },
            };
            if c == '"' {
                break;
            }
            text.push(c);
            self.advance();
        }
        self.advance();
        Token::String(text)
    }
}

/// Lexes a whole source text: all its tokens in order, or the first error.
pub fn tokenize(source: &str) -> (r: Result<Vec<Token>, LexError>)
    ensures
        shows_tokens(r, tokens_from(source@, 0)),
{
    let mut lexer = Lexer::new(source);
    let mut tokens: Vec<Token> = Vec::new();
    loop
        invariant
            lexer@.source == source@,
            0 <= lexer@.position <= source@.len(),
            tokens_from(source@, 0) matches Ok(all) ==> tokens_from(
                source@,
                lexer@.position,
            ) matches Ok(rest) && all == token_views(tokens@) + rest,
            tokens_from(source@, 0) matches Err(e) ==> tokens_from(source@, lexer@.position)
                == Err::<Seq<TokenView>, LexError>(e),
        decreases source@.len() - lexer@.position,
    {
        proof {
            lemma_token_advances(source@, lexer@.position);
        }
        match lexer.next_token() {
            Err(e) => {
                return Err(e);
            },
            Ok(None) => {
                return Ok(tokens);
            },
            Ok(Some(token)) => {
                tokens.push(token);
            },
        }
    }
}

} // verus!
