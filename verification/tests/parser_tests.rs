use slangc::lexer::{Lexer, OperatorType, Token, TokenType};
use slangc::parser::{
    AssignmentStmt, BinaryExpr, Expr, ParseError, Parser, Program, Stmt,
};

fn parse_src(src: &str) -> Result<Program, ParseError> {
    let tokens = Lexer::new(src.to_string()).lex().expect("lexing should succeed");
    Parser::new(tokens).parse()
}

fn var(name: &str) -> Expr {
    Expr::Variable(name.to_string())
}

fn binary(left: Expr, op: OperatorType, right: Expr) -> Expr {
    Expr::Binary(Box::new(BinaryExpr { left, right, op }))
}

fn assignment_expr(program: &Program) -> &Expr {
    match &program.statements[0] {
        Stmt::Assignment(a) => &a.expr,
        other => panic!("expected an assignment, got {:?}", other),
    }
}

// Precedence: equality binds tighter than multiplication and division.
#[test]
fn precedence_equality_tighter_than_multiplication() {
    let program = parse_src("x = a == b gyatt c|").expect("parse should succeed");
    let expected = binary(
        binary(var("a"), OperatorType::Equals, var("b")),
        OperatorType::Multiplication,
        var("c"),
    );
    assert_eq!(assignment_expr(&program), &expected);

    let program = parse_src("x = a gyatt b == c|").expect("parse should succeed");
    let expected = binary(
        var("a"),
        OperatorType::Multiplication,
        binary(var("b"), OperatorType::Equals, var("c")),
    );
    assert_eq!(assignment_expr(&program), &expected);
}

// Precedence: multiplication and division bind tighter than addition.
#[test]
fn precedence_addition_loosest() {
    let program = parse_src("x = a rizz b == c|").expect("parse should succeed");
    let expected = binary(
        var("a"),
        OperatorType::Addition,
        binary(var("b"), OperatorType::Equals, var("c")),
    );
    assert_eq!(assignment_expr(&program), &expected);

    let program = parse_src("x = a rizz b gyatt c|").expect("parse should succeed");
    let expected = binary(
        var("a"),
        OperatorType::Addition,
        binary(var("b"), OperatorType::Multiplication, var("c")),
    );
    assert_eq!(assignment_expr(&program), &expected);
}

#[test]
fn parentheses_override_precedence() {
    let program = parse_src("x = (a rizz b) gyatt c|").expect("parse should succeed");
    let expected = binary(
        binary(var("a"), OperatorType::Addition, var("b")),
        OperatorType::Multiplication,
        var("c"),
    );
    assert_eq!(assignment_expr(&program), &expected);
}

#[test]
fn left_associativity_at_one_level() {
    let program = parse_src("x = a rizz b fanumtax c|").expect("parse should succeed");
    let expected = binary(
        binary(var("a"), OperatorType::Addition, var("b")),
        OperatorType::Subtraction,
        var("c"),
    );
    assert_eq!(assignment_expr(&program), &expected);
}

#[test]
fn call_statement_binds_to_discard_name() {
    let program = parse_src("p(a)|").expect("parse should succeed");
    assert_eq!(
        program.statements[0],
        Stmt::Assignment(AssignmentStmt {
            definition: false,
            name: "_".to_string(),
            expr: Expr::Call("p".to_string(), vec![var("a")]),
        })
    );
}

#[test]
fn declaration_sets_definition_flag() {
    let program = parse_src("looksmaxxing x = 1|").expect("parse should succeed");
    match &program.statements[0] {
        Stmt::Assignment(a) => {
            assert!(a.definition);
            assert_eq!(a.name, "x");
            assert_eq!(a.expr, Expr::Number(1));
        },
        other => panic!("expected an assignment, got {:?}", other),
    }
}

#[test]
fn plain_assignment_is_not_definition() {
    let program = parse_src("x = 2|").expect("parse should succeed");
    match &program.statements[0] {
        Stmt::Assignment(a) => {
            assert!(!a.definition);
            assert_eq!(a.name, "x");
        },
        other => panic!("expected an assignment, got {:?}", other),
    }
}

#[test]
fn if_with_and_without_else() {
    let program = parse_src("sus a >> x = 1| << sussy >> x = 2| <<").expect("parse");
    match &program.statements[0] {
        Stmt::If(i) => {
            assert_eq!(i.condition, var("a"));
            assert_eq!(i.body.len(), 1);
            assert_eq!(i.else_body.len(), 1);
        },
        other => panic!("expected an if, got {:?}", other),
    }
    let program = parse_src("sus a >> x = 1| <<").expect("parse");
    match &program.statements[0] {
        Stmt::If(i) => assert!(i.else_body.is_empty()),
        other => panic!("expected an if, got {:?}", other),
    }
}

#[test]
fn while_loop() {
    let program = parse_src("edge a != b >> a = a rizz c| <<").expect("parse");
    match &program.statements[0] {
        Stmt::While(w) => {
            assert_eq!(
                w.condition,
                binary(var("a"), OperatorType::NotEquals, var("b"))
            );
            assert_eq!(w.body.len(), 1);
        },
        other => panic!("expected a while, got {:?}", other),
    }
}

#[test]
fn function_parameters_comma_or_space_separated() {
    for src in ["skibidi f(a, b, c) >> sigma| <<", "skibidi f(a b c) >> sigma| <<"] {
        let program = parse_src(src).expect("parse");
        match &program.statements[0] {
            Stmt::Function(f) => {
                assert_eq!(f.name, "f");
                assert_eq!(f.params, vec!["a", "b", "c"]);
                assert_eq!(f.body.len(), 1);
            },
            other => panic!("expected a function, got {:?}", other),
        }
    }
}

#[test]
fn return_with_and_without_value() {
    let program = parse_src("sigma| sigma a|").expect("parse");
    assert_eq!(program.statements[0], Stmt::Return(Box::new(None)));
    assert_eq!(program.statements[1], Stmt::Return(Box::new(Some(var("a")))));
}

#[test]
fn call_arguments_comma_or_space_separated() {
    for src in ["x = f(a, b)|", "x = f(a b)|"] {
        let program = parse_src(src).expect("parse");
        assert_eq!(
            assignment_expr(&program),
            &Expr::Call("f".to_string(), vec![var("a"), var("b")])
        );
    }
}

#[test]
fn unexpected_token_is_reported() {
    match parse_src("|") {
        Err(ParseError::Unexpected { found, index }) => {
            assert_eq!(found, TokenType::Pipe);
            assert_eq!(index, 0);
        },
        other => panic!("expected an unexpected-token error, got {:?}", other),
    }
}

#[test]
fn expected_token_is_reported() {
    match parse_src("x 5|") {
        Err(ParseError::Expected { expected, found, index }) => {
            assert_eq!(expected, TokenType::Assignment);
            assert_eq!(found, TokenType::Integer(5));
            assert_eq!(index, 2);
        },
        other => panic!("expected an expected-vs-found error, got {:?}", other),
    }
}

#[test]
fn truncated_input_is_reported() {
    assert_eq!(parse_src("x = 5"), Err(ParseError::UnexpectedEnd));
    assert_eq!(parse_src("sus a >> x = 1|"), Err(ParseError::UnexpectedEnd));
}

#[test]
fn expect_consumes_matching_variant() {
    let tokens = Lexer::new("|".to_string()).lex().expect("lex");
    let mut parser = Parser::new(tokens);
    assert_eq!(parser.expect(TokenType::Pipe), Ok(()));
    assert_eq!(parser.expect(TokenType::Pipe), Err(ParseError::UnexpectedEnd));
}

#[test]
fn expect_with_value_extracts_payload() {
    let tokens = vec![
        Token { token_type: TokenType::Identifier("foo".to_string()), index: 0 },
        Token { token_type: TokenType::Integer(7), index: 4 },
    ];
    let mut parser = Parser::new(tokens);
    let name: String = parser
        .expect_with_value(TokenType::Identifier(String::new()))
        .expect("an identifier stands first");
    assert_eq!(name, "foo");
    let value: i64 = parser
        .expect_with_value(TokenType::Integer(0))
        .expect("an integer stands second");
    assert_eq!(value, 7);
}

#[test]
fn expect_with_value_rejects_other_variants() {
    let tokens = vec![Token { token_type: TokenType::Pipe, index: 3 }];
    let mut parser = Parser::new(tokens);
    let r: Result<String, ParseError> =
        parser.expect_with_value(TokenType::Identifier(String::new()));
    assert_eq!(
        r,
        Err(ParseError::Expected {
            expected: TokenType::Identifier(String::new()),
            found: TokenType::Pipe,
            index: 3,
        })
    );
}
