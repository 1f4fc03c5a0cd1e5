use delta::lexer::{tokenize, LexError, Lexer};
use delta::token::Token;

fn ident(name: &str) -> Token {
    Token::Identifier(name.to_string())
}

fn text(content: &str) -> Token {
    Token::String(content.to_string())
}

#[test]
fn empty_source_has_no_tokens() {
    assert_eq!(tokenize(""), Ok(vec![]));
    let mut lexer = Lexer::new("");
    assert_eq!(lexer.next_token(), Ok(None));
}

#[test]
fn whitespace_only_source_has_no_tokens() {
    assert_eq!(tokenize(" \n\t  \n"), Ok(vec![]));
}

#[test]
fn end_of_input_is_reported_again_and_again() {
    let mut lexer = Lexer::new("; ");
    assert_eq!(lexer.next_token(), Ok(Some(Token::Semicolon)));
    assert_eq!(lexer.next_token(), Ok(None));
    assert_eq!(lexer.next_token(), Ok(None));
}

#[test]
fn each_punctuation_character_is_one_token() {
    assert_eq!(
        tokenize("+.=;()"),
        Ok(vec![
            Token::Plus,
            Token::Dot,
            Token::Equal,
            Token::Semicolon,
            Token::LParen,
            Token::RParen,
        ])
    );
}

#[test]
fn whitespace_between_tokens_is_skipped() {
    assert_eq!(
        tokenize("  +\n\t.   = "),
        Ok(vec![Token::Plus, Token::Dot, Token::Equal])
    );
}

#[test]
fn carriage_return_is_not_whitespace() {
    assert_eq!(tokenize("+\r\n"), Err(LexError::UnexpectedCharacter('\r')));
}

#[test]
fn keywords_are_recognized() {
    assert_eq!(
        tokenize("let console log"),
        Ok(vec![Token::Let, Token::Console, Token::Log])
    );
}

#[test]
fn words_that_are_not_keywords_are_identifiers() {
    assert_eq!(
        tokenize("x lets logs consol letlog"),
        Ok(vec![
            ident("x"),
            ident("lets"),
            ident("logs"),
            ident("consol"),
            ident("letlog"),
        ])
    );
}

#[test]
fn uppercase_letters_continue_a_word() {
    assert_eq!(tokenize("undefinedVar"), Ok(vec![ident("undefinedVar")]));
    assert_eq!(tokenize("lET"), Ok(vec![ident("lET")]));
}

#[test]
fn uppercase_letter_cannot_start_a_word() {
    assert_eq!(tokenize("Let"), Err(LexError::UnexpectedCharacter('L')));
}

#[test]
fn digits_and_underscores_end_a_word() {
    assert_eq!(tokenize("ab12"), Ok(vec![ident("ab"), Token::Number(12)]));
    assert_eq!(tokenize("ab_c"), Err(LexError::UnexpectedCharacter('_')));
}

#[test]
fn letters_outside_ascii_do_not_continue_a_word() {
    let mut lexer = Lexer::new("x\u{e9}");
    assert_eq!(lexer.next_token(), Ok(Some(ident("x"))));
    assert_eq!(
        lexer.next_token(),
        Err(LexError::UnexpectedCharacter('\u{e9}'))
    );
}

#[test]
fn numbers_are_read_in_decimal() {
    assert_eq!(tokenize("0"), Ok(vec![Token::Number(0)]));
    assert_eq!(tokenize("5"), Ok(vec![Token::Number(5)]));
    assert_eq!(tokenize("1234567890"), Ok(vec![Token::Number(1234567890)]));
    assert_eq!(
        tokenize("9223372036854775807"),
        Ok(vec![Token::Number(i64::MAX)])
    );
}

#[test]
fn leading_zeros_do_not_change_a_number() {
    assert_eq!(tokenize("007"), Ok(vec![Token::Number(7)]));
}

#[test]
fn a_number_ends_at_the_first_non_digit() {
    assert_eq!(
        tokenize("12abc"),
        Ok(vec![Token::Number(12), ident("abc")])
    );
    assert_eq!(
        tokenize("1.5"),
        Ok(vec![Token::Number(1), Token::Dot, Token::Number(5)])
    );
}

#[test]
fn numbers_wrap_to_64_bits() {
    assert_eq!(
        tokenize("9223372036854775808"),
        Ok(vec![Token::Number(i64::MIN)])
    );
    assert_eq!(
        tokenize("18446744073709551615"),
        Ok(vec![Token::Number(-1)])
    );
    assert_eq!(
        tokenize("18446744073709551616"),
        Ok(vec![Token::Number(0)])
    );
    assert_eq!(
        tokenize("18446744073709551621"),
        Ok(vec![Token::Number(5)])
    );
    assert_eq!(
        tokenize("100000000000000000000000000000000000007"),
        Ok(vec![Token::Number(687399551400673287)])
    );
}

#[test]
fn there_are_no_negative_literals() {
    assert_eq!(tokenize("-1"), Err(LexError::UnexpectedCharacter('-')));
}

#[test]
fn string_literal_holds_the_text_between_the_quotes() {
    assert_eq!(tokenize("\"hi\""), Ok(vec![text("hi")]));
    assert_eq!(tokenize("\"\""), Ok(vec![text("")]));
    assert_eq!(
        tokenize("\"a b\n\tc @ 1 + let\""),
        Ok(vec![text("a b\n\tc @ 1 + let")])
    );
}

#[test]
fn string_literal_has_no_escapes() {
    assert_eq!(
        tokenize("\"a\\\"b"),
        Ok(vec![text("a\\"), ident("b")])
    );
}

#[test]
fn closing_quote_is_consumed() {
    assert_eq!(
        tokenize("\"a\"\"b\";"),
        Ok(vec![text("a"), text("b"), Token::Semicolon])
    );
}

#[test]
fn unterminated_string_runs_to_the_end_of_input() {
    let mut lexer = Lexer::new("\"abc; let");
    assert_eq!(lexer.next_token(), Ok(Some(text("abc; let"))));
    assert_eq!(lexer.next_token(), Ok(None));
    assert_eq!(lexer.next_token(), Ok(None));
    assert_eq!(tokenize("x \""), Ok(vec![ident("x"), text("")]));
}

#[test]
fn unexpected_character_is_reported() {
    assert_eq!(tokenize("@"), Err(LexError::UnexpectedCharacter('@')));
    assert_eq!(tokenize("  \n@"), Err(LexError::UnexpectedCharacter('@')));
    assert_eq!(
        tokenize("let x = 1 * 2;"),
        Err(LexError::UnexpectedCharacter('*'))
    );
    assert_eq!(tokenize("{"), Err(LexError::UnexpectedCharacter('{')));
    assert_eq!(tokenize("'a'"), Err(LexError::UnexpectedCharacter('\'')));
}

#[test]
fn tokens_before_an_unexpected_character_are_handed_out() {
    let mut lexer = Lexer::new("let x @ y");
    assert_eq!(lexer.next_token(), Ok(Some(Token::Let)));
    assert_eq!(lexer.next_token(), Ok(Some(ident("x"))));
    assert_eq!(lexer.next_token(), Err(LexError::UnexpectedCharacter('@')));
}

#[test]
fn cursor_stays_on_an_unexpected_character() {
    let mut lexer = Lexer::new(" @+");
    assert_eq!(lexer.next_token(), Err(LexError::UnexpectedCharacter('@')));
    assert_eq!(lexer.next_token(), Err(LexError::UnexpectedCharacter('@')));
}

#[test]
fn first_error_wins() {
    assert_eq!(tokenize("# @"), Err(LexError::UnexpectedCharacter('#')));
}

#[test]
fn let_statement_is_tokenized() {
    assert_eq!(
        tokenize("let x = 5;"),
        Ok(vec![
            Token::Let,
            ident("x"),
            Token::Equal,
            Token::Number(5),
            Token::Semicolon,
        ])
    );
}

#[test]
fn console_log_statement_is_tokenized() {
    assert_eq!(
        tokenize("console.log(a + \"b\");"),
        Ok(vec![
            Token::Console,
            Token::Dot,
            Token::Log,
            Token::LParen,
            ident("a"),
            Token::Plus,
            text("b"),
            Token::RParen,
            Token::Semicolon,
        ])
    );
}

#[test]
fn next_token_and_tokenize_agree() {
    let source = "let total = 12 + n; console.log(\"sum\");";
    let mut lexer = Lexer::new(source);
    let mut tokens = Vec::new();
    loop {
        match lexer.next_token() {
            Ok(Some(token)) => tokens.push(token),
            Ok(None) => break,
            Err(e) => panic!("unexpected error: {:?}", e),
        }
    }
    assert_eq!(tokenize(source), Ok(tokens));
}

#[test]
fn tokenizing_twice_gives_the_same_tokens() {
    let source = "let a = 2; let b = \"x y\"; console.log(a + b);";
    let first = tokenize(source);
    let second = tokenize(source);
    assert!(first.is_ok());
    assert_eq!(first, second);
    let bad = "let a = 2 ? 3;";
    assert_eq!(tokenize(bad), Err(LexError::UnexpectedCharacter('?')));
    assert_eq!(tokenize(bad), tokenize(bad));
}

#[test]
fn two_lexers_on_one_text_do_not_disturb_each_other() {
    let source = "let x = 1;";
    let mut first = Lexer::new(source);
    let mut second = Lexer::new(source);
    assert_eq!(first.next_token(), Ok(Some(Token::Let)));
    assert_eq!(first.next_token(), Ok(Some(ident("x"))));
    assert_eq!(second.next_token(), Ok(Some(Token::Let)));
    assert_eq!(first.next_token(), Ok(Some(Token::Equal)));
    assert_eq!(second.next_token(), Ok(Some(ident("x"))));
}

#[test]
fn token_clone_keeps_the_content() {
    let tokens = vec![ident("abc"), text("x y"), Token::Number(-3), Token::Let];
    assert_eq!(tokens.clone(), tokens);
}

#[test]
fn lex_error_message_names_the_character() {
    assert_eq!(
        LexError::UnexpectedCharacter('@').message(),
        "Unexpected character: @"
    );
    assert_eq!(
        LexError::UnexpectedCharacter('\u{e9}').message(),
        "Unexpected character: \u{e9}"
    );
}
