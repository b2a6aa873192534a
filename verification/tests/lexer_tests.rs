use slangc::lexer::{KeywordType, LexError, Lexer, OperatorType, TokenType};

fn lex(src: &str) -> Result<Vec<slangc::lexer::Token>, LexError> {
    Lexer::new(src.to_string()).lex()
}

fn kinds(src: &str) -> Vec<TokenType> {
    lex(src)
        .expect("lexing should succeed")
        .into_iter()
        .map(|t| t.token_type)
        .collect()
}

#[test]
fn lex_declaration() {
    let tokens = lex("looksmaxxing x = 5|").expect("lexing should succeed");
    let expected = vec![
        (TokenType::Keyword(KeywordType::VarDef), 0),
        (TokenType::Identifier("x".to_string()), 13),
        (TokenType::Assignment, 15),
        (TokenType::Integer(5), 17),
        (TokenType::Pipe, 18),
    ];
    let got: Vec<(TokenType, usize)> =
        tokens.into_iter().map(|t| (t.token_type, t.index)).collect();
    assert_eq!(got, expected);
}

#[test]
fn lex_keyword_table() {
    assert_eq!(
        kinds("sus sussy edge skibidi looksmaxxing sigma"),
        vec![
            TokenType::Keyword(KeywordType::If),
            TokenType::Keyword(KeywordType::Else),
            TokenType::Keyword(KeywordType::While),
            TokenType::Keyword(KeywordType::Function),
            TokenType::Keyword(KeywordType::VarDef),
            TokenType::Return,
        ]
    );
}

#[test]
fn lex_word_operators() {
    assert_eq!(
        kinds("rizz fanumtax gyatt mog"),
        vec![
            TokenType::Operator(OperatorType::Addition),
            TokenType::Operator(OperatorType::Subtraction),
            TokenType::Operator(OperatorType::Multiplication),
            TokenType::Operator(OperatorType::Division),
        ]
    );
}

#[test]
fn lex_lookahead_operators() {
    assert_eq!(
        kinds("== = != >> <<"),
        vec![
            TokenType::Operator(OperatorType::Equals),
            TokenType::Assignment,
            TokenType::Operator(OperatorType::NotEquals),
            TokenType::LeftBrack,
            TokenType::RightBrack,
        ]
    );
}

#[test]
fn lex_punctuation() {
    assert_eq!(
        kinds("(),|"),
        vec![
            TokenType::LeftParan,
            TokenType::RightParan,
            TokenType::Comma,
            TokenType::Pipe,
        ]
    );
}

#[test]
fn lex_unknown_spelling_is_identifier() {
    assert_eq!(
        kinds("susy skibid"),
        vec![
            TokenType::Identifier("susy".to_string()),
            TokenType::Identifier("skibid".to_string()),
        ]
    );
}

#[test]
fn lex_bare_bang_is_error() {
    assert_eq!(lex("!"), Err(LexError { index: 0, character: '!' }));
}

#[test]
fn lex_unpaired_brackets_are_errors() {
    assert_eq!(lex(">"), Err(LexError { index: 0, character: '>' }));
    assert_eq!(lex("ab <"), Err(LexError { index: 3, character: '<' }));
}

#[test]
fn lex_unrecognized_character_is_error() {
    assert_eq!(lex("x = @|"), Err(LexError { index: 4, character: '@' }));
}

#[test]
fn lex_skips_whitespace() {
    assert_eq!(
        kinds("  a \r\n b "),
        vec![
            TokenType::Identifier("a".to_string()),
            TokenType::Identifier("b".to_string()),
        ]
    );
}

#[test]
fn lex_empty_input() {
    assert_eq!(lex(""), Ok(vec![]));
}

#[test]
fn lex_integer_accumulates_decimally() {
    assert_eq!(kinds("1234567890"), vec![TokenType::Integer(1234567890)]);
}

#[test]
fn lex_integer_overflow_wraps() {
    // One past the largest signed value wraps around: literal accumulation
    // deliberately wraps in two's complement.
    assert_eq!(kinds("9223372036854775808"), vec![TokenType::Integer(i64::MIN)]);
    assert_eq!(kinds("18446744073709551616"), vec![TokenType::Integer(0)]);
}
