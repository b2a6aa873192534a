use slangc::codegen::CodeGenerator;
use slangc::lexer::Lexer;
use slangc::parser::{Expr, Parser, Program};
use slangc::semantic::Semantic;

const PREAMBLE: &str = "#include <stdio.h>\n#define print(num) printf(\"%d\\n\", (num))\nint _ = 0;\nint main() {\n";

fn transpile(src: &str) -> String {
    let tokens = Lexer::new(src.to_string()).lex().expect("lexing should succeed");
    let program = Parser::new(tokens).parse().expect("parsing should succeed");
    Semantic::new(program.duplicate())
        .analyze()
        .expect("analysis should succeed");
    CodeGenerator::new(program)
        .generate()
        .expect("generation cannot fail")
}

#[test]
fn empty_program_is_just_the_preamble() {
    assert_eq!(transpile(""), format!("{}}}", PREAMBLE));
}

#[test]
fn declaration_emits_typed_local() {
    assert_eq!(
        transpile("looksmaxxing x = 5|"),
        format!("{}int x = 5;\n}}", PREAMBLE)
    );
}

#[test]
fn assignment_emits_bare_store() {
    assert_eq!(
        transpile("looksmaxxing x = 5| x = 6|"),
        format!("{}int x = 5;\nx = 6;\n}}", PREAMBLE)
    );
}

#[test]
fn operators_map_one_to_one() {
    assert_eq!(
        transpile("looksmaxxing x = 1 rizz 2 fanumtax 3|"),
        format!("{}int x = ((1) + (2)) - (3);\n}}", PREAMBLE)
    );
    assert_eq!(
        transpile("looksmaxxing x = 1 gyatt 2 mog 3|"),
        format!("{}int x = ((1) * (2)) / (3);\n}}", PREAMBLE)
    );
    assert_eq!(
        transpile("looksmaxxing x = 1 == 2|"),
        format!("{}int x = (1) == (2);\n}}", PREAMBLE)
    );
    assert_eq!(
        transpile("looksmaxxing x = 1 != 2|"),
        format!("{}int x = (1) != (2);\n}}", PREAMBLE)
    );
}

#[test]
fn if_without_else() {
    assert_eq!(
        transpile("looksmaxxing x = 0| sus x == 0 >> x = 1| <<"),
        format!("{}int x = 0;\nif ((x) == (0)) {{\nx = 1;\n}}\n}}", PREAMBLE)
    );
}

#[test]
fn if_with_else() {
    assert_eq!(
        transpile("looksmaxxing x = 0| sus x >> x = 1| << sussy >> x = 2| <<"),
        format!(
            "{}int x = 0;\nif (x) {{\nx = 1;\n}} else {{\nx = 2;\n}}\n}}",
            PREAMBLE
        )
    );
}

#[test]
fn while_loop_emits_guarded_loop() {
    assert_eq!(
        transpile("looksmaxxing x = 0| edge x != 3 >> x = x rizz 1| <<"),
        format!(
            "{}int x = 0;\nwhile ((x) != (3)) {{\nx = (x) + (1);\n}}\n}}",
            PREAMBLE
        )
    );
}

#[test]
fn call_statement_assigns_to_discard() {
    assert_eq!(
        transpile("print(5)|"),
        format!("{}_ = print(5);\n}}", PREAMBLE)
    );
}

#[test]
fn return_without_value_emits_zero() {
    assert_eq!(
        transpile("skibidi f() >> sigma| <<"),
        format!("{}int f() {{\nreturn 0;\n}}\n}}", PREAMBLE)
    );
}

#[test]
fn function_with_parameters() {
    assert_eq!(
        transpile("skibidi add(a, b) >> sigma a rizz b| <<"),
        format!("{}int add(int a, int b) {{\nreturn (a) + (b);\n}}\n}}", PREAMBLE)
    );
}

#[test]
fn negative_and_extreme_numbers() {
    // Negative literals cannot be lexed, but the emitter handles any value.
    let program = Program {
        statements: vec![slangc::parser::Stmt::Return(Box::new(Some(Expr::Number(
            i64::MIN,
        ))))],
    };
    let code = CodeGenerator::new(program).generate().expect("generation");
    assert_eq!(
        code,
        format!("{}return -9223372036854775808;\n}}", PREAMBLE)
    );
}

// End-to-end scenario: a recursive factorial-style function, transpiled to a
// complete C translation unit. Running the native compiler on it is the
// collaborator's job and out of scope here; the emitted text is checked
// exactly, and source-level semantics predict that printing fact(5) shows
// 120.
#[test]
fn factorial_end_to_end_text() {
    let src = "skibidi fact(n) >> sus n == 0 >> sigma 1| << sigma n gyatt fact(n fanumtax 1)| << print(fact(5))|";
    let expected = format!(
        "{}int fact(int n) {{\nif ((n) == (0)) {{\nreturn 1;\n}}\nreturn (n) * (fact((n) - (1)));\n}}\n_ = print(fact(5));\n}}",
        PREAMBLE
    );
    assert_eq!(transpile(src), expected);
}

#[test]
fn generated_text_has_balanced_braces() {
    let src = "skibidi fact(n) >> sus n == 0 >> sigma 1| << sigma n gyatt fact(n fanumtax 1)| << print(fact(5))|";
    let code = transpile(src);
    let opens = code.chars().filter(|c| *c == '{').count();
    let closes = code.chars().filter(|c| *c == '}').count();
    assert_eq!(opens, closes);
}

// The emitted parentheses keep the tree's grouping under C precedence: the
// language reads `1 == 2 gyatt 3` as `(1 == 2) * 3`, and so does the C text.
#[test]
fn parentheses_preserve_nonstandard_precedence() {
    assert_eq!(
        transpile("looksmaxxing x = 1 == 2 gyatt 3|"),
        format!("{}int x = ((1) == (2)) * (3);\n}}", PREAMBLE)
    );
    assert_eq!(
        transpile("looksmaxxing x = 1 rizz 2 == 3|"),
        format!("{}int x = (1) + ((2) == (3));\n}}", PREAMBLE)
    );
}
