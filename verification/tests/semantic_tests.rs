use slangc::lexer::Lexer;
use slangc::parser::{Parser, Program};
use slangc::semantic::{Semantic, SemanticError, SemanticErrorKind};

fn parse_src(src: &str) -> Program {
    let tokens = Lexer::new(src.to_string()).lex().expect("lexing should succeed");
    Parser::new(tokens).parse().expect("parsing should succeed")
}

fn analyze_src(src: &str) -> Result<(), SemanticError> {
    Semantic::new(parse_src(src)).analyze()
}

fn err(kind: SemanticErrorKind, identifier: &str) -> Result<(), SemanticError> {
    Err(SemanticError { kind, identifier: identifier.to_string() })
}

// Declaration/assignment invariant: assigning before declaring fails, and
// declaring first succeeds.
#[test]
fn assignment_before_declaration_fails() {
    assert_eq!(
        analyze_src("x = 1|"),
        err(SemanticErrorKind::ReassignUndeclared, "x")
    );
}

#[test]
fn assignment_after_declaration_succeeds() {
    assert_eq!(analyze_src("looksmaxxing x = 1| x = 2|"), Ok(()));
}

// Scope leakage invariant: a declaration inside an `if` body is invisible
// after the block ends.
#[test]
fn declaration_inside_if_does_not_leak() {
    assert_eq!(
        analyze_src("looksmaxxing x = 0| sus 1 >> looksmaxxing y = 2| << x = y|"),
        err(SemanticErrorKind::UndefinedVariable, "y")
    );
    assert_eq!(
        analyze_src("looksmaxxing x = 0| sus 1 >> looksmaxxing y = 2| << y = 3|"),
        err(SemanticErrorKind::ReassignUndeclared, "y")
    );
}

#[test]
fn declaration_inside_while_does_not_leak() {
    assert_eq!(
        analyze_src("edge 1 >> looksmaxxing y = 2| << looksmaxxing x = y|"),
        err(SemanticErrorKind::UndefinedVariable, "y")
    );
}

#[test]
fn declaration_visible_later_in_same_block() {
    assert_eq!(
        analyze_src("sus 1 >> looksmaxxing y = 2| y = 3| <<"),
        Ok(())
    );
}

// Arity invariant: a zero-parameter function called with one argument fails,
// called with none succeeds.
#[test]
fn zero_parameter_function_called_with_one_argument() {
    assert_eq!(
        analyze_src("skibidi f() >> sigma| << f(1)|"),
        err(SemanticErrorKind::ArityMismatch, "f")
    );
}

#[test]
fn zero_parameter_function_called_with_none() {
    assert_eq!(analyze_src("skibidi f() >> sigma| << f()|"), Ok(()));
}

// Recursion invariant: a function may call itself inside its own body.
#[test]
fn recursive_call_resolves() {
    assert_eq!(analyze_src("skibidi f(n) >> sigma f(n)| <<"), Ok(()));
}

#[test]
fn undefined_function_call_fails() {
    assert_eq!(
        analyze_src("g(1)|"),
        err(SemanticErrorKind::UndefinedFunction, "g")
    );
}

#[test]
fn undefined_variable_reference_fails() {
    assert_eq!(
        analyze_src("looksmaxxing x = y|"),
        err(SemanticErrorKind::UndefinedVariable, "y")
    );
}

#[test]
fn duplicate_function_fails() {
    assert_eq!(
        analyze_src("skibidi f() >> sigma| << skibidi f() >> sigma| <<"),
        err(SemanticErrorKind::DuplicateFunction, "f")
    );
}

#[test]
fn function_name_clashing_with_variable_fails() {
    assert_eq!(
        analyze_src("looksmaxxing f = 1| skibidi f() >> sigma| <<"),
        err(SemanticErrorKind::IdentifierKindClash, "f")
    );
}

#[test]
fn assignment_to_function_name_fails() {
    assert_eq!(
        analyze_src("skibidi f() >> sigma| << looksmaxxing f = 1|"),
        err(SemanticErrorKind::IdentifierKindClash, "f")
    );
}

#[test]
fn builtin_print_has_arity_one() {
    assert_eq!(analyze_src("print(5)|"), Ok(()));
    assert_eq!(
        analyze_src("print()|"),
        err(SemanticErrorKind::ArityMismatch, "print")
    );
}

#[test]
fn function_parameters_are_visible_in_body() {
    assert_eq!(
        analyze_src("skibidi add(a, b) >> sigma a rizz b| <<"),
        Ok(())
    );
}

#[test]
fn declaration_sees_its_own_name() {
    // The name is registered before the right-hand side is analyzed.
    assert_eq!(analyze_src("looksmaxxing x = x|"), Ok(()));
}
