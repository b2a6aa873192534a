//! Code emission: a validated program to one C translation unit as text.
//!
//! The executable emitter is specified against `generate_program_spec`, a
//! structural recursion over statement and expression views that describes
//! the emitted text character by character.
use vstd::prelude::*;

use crate::lexer::KeywordType;
use crate::lexer::OperatorType;
use crate::parser::Expr;
use crate::parser::ExprView;
use crate::parser::Program;
use crate::parser::ProgramView;
use crate::parser::Stmt;
use crate::parser::StmtView;
use crate::parser::stmts_view;
use crate::parser::strings_view;
use crate::lexer::TokenView;
use crate::lexer::TokenTypeView;
use crate::parser::BinaryExprView;
use crate::parser::ParseErrorView;
use crate::parser::expect_ident_spec;
use crate::parser::expect_spec;
use crate::parser::fuel_lb;
use crate::parser::op_at;
use crate::parser::parse_add_sub_more_spec;
use crate::parser::parse_add_sub_spec;
use crate::parser::parse_args_spec;
use crate::parser::parse_assign_stmt_spec;
use crate::parser::parse_block_spec;
use crate::parser::parse_call_stmt_spec;
use crate::parser::parse_equals_more_spec;
use crate::parser::parse_equals_spec;
use crate::parser::parse_expr_spec;
use crate::parser::parse_function_stmt_spec;
use crate::parser::parse_if_stmt_spec;
use crate::parser::parse_items_spec;
use crate::parser::parse_mul_div_more_spec;
use crate::parser::parse_mul_div_spec;
use crate::parser::parse_params_spec;
use crate::parser::parse_primary_spec;
use crate::parser::parse_program_spec;
use crate::parser::parse_return_stmt_spec;
use crate::parser::parse_stmt_spec;
use crate::parser::parse_vardef_stmt_spec;
use crate::parser::parse_while_stmt_spec;

verus! {

/// The C spelling of each binary operator.
pub open spec fn op_str(op: OperatorType) -> Seq<char> {
    match op {
        OperatorType::Addition => "+"@,
        OperatorType::Subtraction => "-"@,
        OperatorType::Multiplication => "*"@,
        OperatorType::Division => "/"@,
        OperatorType::Equals => "=="@,
        OperatorType::NotEquals => "!="@,
    }
}

/// The decimal digit character for a value below ten.
pub open spec fn dec_digit_char(d: int) -> char {
    if d == 0 {
        '0'
    } else if d == 1 {
        '1'
    } else if d == 2 {
        '2'
    } else if d == 3 {
        '3'
    } else if d == 4 {
        '4'
    } else if d == 5 {
        '5'
    } else if d == 6 {
        '6'
    } else if d == 7 {
        '7'
    } else if d == 8 {
        '8'
    } else {
        '9'
    }
}

/// The decimal spelling of an unsigned value.
pub open spec fn u64_dec(m: nat) -> Seq<char>
    decreases m,
{
    if m < 10 {
        seq![dec_digit_char(m as int)]
    } else {
        u64_dec(m / 10) + seq![dec_digit_char((m % 10) as int)]
    }
}

/// The decimal spelling of a signed value, with a leading minus sign when
/// negative.
pub open spec fn i64_dec(n: i64) -> Seq<char> {
    if n < 0 {
        seq!['-'] + u64_dec((-(n as int)) as nat)
    } else {
        u64_dec(n as nat)
    }
}

/// The C text of one expression. Each operand of a binary operator is
/// parenthesized, so the tree's grouping survives C's own precedence.
pub open spec fn generate_expr_spec(e: ExprView) -> Seq<char>
    decreases e, 0int,
{
    match e {
        ExprView::Binary(b) => "("@ + generate_expr_spec(b.left) + ") "@ + op_str(b.op)
            + " ("@ + generate_expr_spec(b.right) + ")"@,
        ExprView::Call(name, args) => name + "("@ + generate_args_spec(args, 0) + ")"@,
        ExprView::Number(n) => i64_dec(n),
        ExprView::Variable(name) => name,
    }
}

/// The C text of call arguments from index `k` on, comma-separated.
pub open spec fn generate_args_spec(args: Seq<ExprView>, k: int) -> Seq<char>
    decreases args, args.len() - k,
{
    if !(0 <= k < args.len()) {
        Seq::empty()
    } else {
        generate_expr_spec(args[k]) + (if k + 1 < args.len() {
            ", "@
        } else {
            Seq::empty()
        }) + generate_args_spec(args, k + 1)
    }
}

/// The C text of parameter declarations from index `k` on.
pub open spec fn generate_params_spec(params: Seq<Seq<char>>, k: int) -> Seq<char>
    decreases params.len() - k,
{
    if !(0 <= k < params.len()) {
        Seq::empty()
    } else {
        "int "@ + params[k] + (if k + 1 < params.len() {
            ", "@
        } else {
            Seq::empty()
        }) + generate_params_spec(params, k + 1)
    }
}

/// The C text of one statement.
pub open spec fn generate_stmt_spec(s: StmtView) -> Seq<char>
    decreases s, 0int,
{
    match s {
        StmtView::Assignment(a) => (if a.definition {
            "int "@
        } else {
            Seq::empty()
        }) + a.name + " = "@ + generate_expr_spec(a.expr) + ";\n"@,
        StmtView::Function(f) => "int "@ + f.name + "("@ + generate_params_spec(f.params, 0)
            + ") {\n"@ + generate_stmts_spec(f.body, 0) + "}\n"@,
        StmtView::If(i) => "if ("@ + generate_expr_spec(i.condition) + ") {\n"@ + generate_stmts_spec(
            i.body,
            0,
        ) + "}"@ + (if i.else_body.len() > 0 {
            " else {\n"@ + generate_stmts_spec(i.else_body, 0) + "}"@
        } else {
            Seq::empty()
        }) + "\n"@,
        StmtView::While(w) => "while ("@ + generate_expr_spec(w.condition) + ") {\n"@ + generate_stmts_spec(
            w.body,
            0,
        ) + "}\n"@,
        StmtView::Return(o) => match o {
            None => "return 0;\n"@,
            Some(e) => "return "@ + generate_expr_spec(e) + ";\n"@,
        },
    }
}

/// The C text of a statement sequence from index `k` on.
pub open spec fn generate_stmts_spec(stmts: Seq<StmtView>, k: int) -> Seq<char>
    decreases stmts, stmts.len() - k,
{
    if !(0 <= k < stmts.len()) {
        Seq::empty()
    } else {
        generate_stmt_spec(stmts[k]) + generate_stmts_spec(stmts, k + 1)
    }
}

/// The fixed preamble: standard I/O, the print macro, the discard variable,
/// and the opening of the program entry function.
pub open spec fn preamble_spec() -> Seq<char> {
    "#include <stdio.h>\n"@ + "#define print(num) printf(\"%d\\n\", (num))\n"@ + "int _ = 0;\n"@
        + "int main() {\n"@
}

/// The whole translation unit for a program.
pub open spec fn generate_program_spec(p: ProgramView) -> Seq<char> {
    preamble_spec() + generate_stmts_spec(p.statements, 0) + "}"@
}

/// The decimal digit text for a value below ten.
fn digit_text(d: u64) -> (r: &'static str)
    requires
        d < 10,
    ensures
        r@ == seq![dec_digit_char(d as int)],
{
    proof {
        reveal_strlit("0");
        reveal_strlit("1");
        reveal_strlit("2");
        reveal_strlit("3");
        reveal_strlit("4");
        reveal_strlit("5");
        reveal_strlit("6");
        reveal_strlit("7");
        reveal_strlit("8");
        reveal_strlit("9");
        assert("0"@ =~= seq!['0']);
        assert("1"@ =~= seq!['1']);
        assert("2"@ =~= seq!['2']);
        assert("3"@ =~= seq!['3']);
        assert("4"@ =~= seq!['4']);
        assert("5"@ =~= seq!['5']);
        assert("6"@ =~= seq!['6']);
        assert("7"@ =~= seq!['7']);
        assert("8"@ =~= seq!['8']);
        assert("9"@ =~= seq!['9']);
    }
    match d {
        0 => "0",
        1 => "1",
        2 => "2",
        3 => "3",
        4 => "4",
        5 => "5",
        6 => "6",
        7 => "7",
        8 => "8",
        _ => "9",
    }
}

/// The decimal spelling of an unsigned value.
fn u64_text(m: u64) -> (r: String)
    ensures
        r@ == u64_dec(m as nat),
    decreases m,
{
    if m < 10 {
        String::from_str(digit_text(m))
    } else {
        let mut s = u64_text(m / 10);
        s.append(digit_text(m % 10));
        s
    }
}

/// The decimal spelling of a signed value.
fn i64_text(n: i64) -> (r: String)
    ensures
        r@ == i64_dec(n),
{
    if n >= 0 {
        u64_text(n as u64)
    } else {
        let m: u64 = (-(n as i128)) as u64;
        let mut s = String::from_str("-");
        proof {
            reveal_strlit("-");
            assert("-"@ =~= seq!['-']);
        }
        s.append(u64_text(m).as_str());
        s
    }
}

/// The C spelling of one operator.
fn op_text(op: OperatorType) -> (r: &'static str)
    ensures
        r@ == op_str(op),
{
    match op {
        OperatorType::Addition => "+",
        OperatorType::Subtraction => "-",
        OperatorType::Multiplication => "*",
        OperatorType::Division => "/",
        OperatorType::Equals => "==",
        OperatorType::NotEquals => "!=",
    }
}

/// The C text of one expression.
fn generate_expr(e: &Expr) -> (r: String)
    ensures
        r@ == generate_expr_spec(e@),
    decreases e, 0int,
{
    match e {
        Expr::Binary(b) => {
            let mut s = String::from_str("(");
            let left = generate_expr(&b.left);
            s.append(left.as_str());
            s.append(") ");
            s.append(op_text(b.op));
            s.append(" (");
            let right = generate_expr(&b.right);
            s.append(right.as_str());
            s.append(")");
            s
        },
        Expr::Call(name, args) => {
            let mut s = name.clone();
            s.append("(");
            let inner = generate_args(args, 0);
            s.append(inner.as_str());
            s.append(")");
            s
        },
        Expr::Number(n) => i64_text(*n),
        Expr::Variable(name) => name.clone(),
    }
}

/// The C text of call arguments from index `k` on.
fn generate_args(args: &Vec<Expr>, k: usize) -> (r: String)
    ensures
        r@ == generate_args_spec(crate::parser::exprs_view(args@), k as int),
    decreases args, args@.len() - k,
{
    let ghost av = crate::parser::exprs_view(args@);
    proof {
        crate::parser::lemma_exprs_view_len(args@);
    }
    if k >= args.len() {
        return String::new();
    }
    proof {
        crate::parser::lemma_exprs_view_index(args@, k as int);
        assert(decreases_to!(args => args@));
        assert(decreases_to!(args@ => args@[k as int]));
    }
    let mut s = generate_expr(&args[k]);
    if k + 1 < args.len() {
        s.append(", ");
    }
    let rest = generate_args(args, k + 1);
    s.append(rest.as_str());
    s
}

/// The C text of parameter declarations from index `k` on.
fn generate_params(params: &Vec<String>, k: usize) -> (r: String)
    ensures
        r@ == generate_params_spec(strings_view(params@), k as int),
    decreases params@.len() - k,
{
    if k >= params.len() {
        return String::new();
    }
    let mut s = String::from_str("int ");
    s.append(params[k].as_str());
    if k + 1 < params.len() {
        s.append(", ");
    }
    let rest = generate_params(params, k + 1);
    s.append(rest.as_str());
    s
}

/// Emits the C text of one statement onto `out`.
fn generate_stmt(out: &mut String, s: &Stmt)
    ensures
        final(out)@ == old(out)@ + generate_stmt_spec(s@),
    decreases s, 0int,
{
    let ghost base = old(out)@;
    match s {
        Stmt::Assignment(a) => {
            if a.definition {
                out.append("int ");
            }
            out.append(a.name.as_str());
            out.append(" = ");
            let es = generate_expr(&a.expr);
            out.append(es.as_str());
            out.append(";\n");
            proof {
                assert(final(out)@ =~= base + generate_stmt_spec(s@));
            }
        },
        Stmt::Function(f) => {
            out.append("int ");
            out.append(f.name.as_str());
            out.append("(");
            let ps = generate_params(&f.params, 0);
            out.append(ps.as_str());
            out.append(") {\n");
            generate_stmts(out, &f.body, 0);
            out.append("}\n");
            proof {
                assert(final(out)@ =~= base + generate_stmt_spec(s@));
            }
        },
        Stmt::If(i) => {
            out.append("if (");
            let cs = generate_expr(&i.condition);
            out.append(cs.as_str());
            out.append(") {\n");
            generate_stmts(out, &i.body, 0);
            out.append("}");
            if !i.else_body.is_empty() {
                out.append(" else {\n");
                generate_stmts(out, &i.else_body, 0);
                out.append("}");
            }
            out.append("\n");
            proof {
                crate::parser::lemma_stmts_view_len(i.else_body@);
                assert(final(out)@ =~= base + generate_stmt_spec(s@));
            }
        },
        Stmt::While(w) => {
            out.append("while (");
            let cs = generate_expr(&w.condition);
            out.append(cs.as_str());
            out.append(") {\n");
            generate_stmts(out, &w.body, 0);
            out.append("}\n");
            proof {
                assert(final(out)@ =~= base + generate_stmt_spec(s@));
            }
        },
        Stmt::Return(o) => {
            match &**o {
                None => {
                    out.append("return 0;\n");
                },
                Some(e) => {
                    out.append("return ");
                    let es = generate_expr(e);
                    out.append(es.as_str());
                    out.append(";\n");
                },
            }
            proof {
                assert(final(out)@ =~= base + generate_stmt_spec(s@));
            }
        },
    }
}

/// Emits the C text of a statement sequence from index `k` on onto `out`.
fn generate_stmts(out: &mut String, stmts: &Vec<Stmt>, k: usize)
    ensures
        final(out)@ == old(out)@ + generate_stmts_spec(stmts_view(stmts@), k as int),
    decreases stmts, stmts@.len() - k,
{
    let ghost base = old(out)@;
    let ghost sv = stmts_view(stmts@);
    proof {
        crate::parser::lemma_stmts_view_len(stmts@);
    }
    if k >= stmts.len() {
        proof {
            assert(base + generate_stmts_spec(sv, k as int) =~= base);
        }
        return ;
    }
    proof {
        crate::parser::lemma_stmts_view_index(stmts@, k as int);
        assert(decreases_to!(stmts => stmts@));
        assert(decreases_to!(stmts@ => stmts@[k as int]));
    }
    generate_stmt(out, &stmts[k]);
    generate_stmts(out, stmts, k + 1);
    proof {
        assert(final(out)@ =~= base + generate_stmts_spec(sv, k as int));
    }
}

/// Mathematical image of the code generator's state.
pub ghost struct CodeGeneratorView {
    pub program: ProgramView,
    pub code: Seq<char>,
}

/// Walks a validated program and emits the complete C translation unit.
pub struct CodeGenerator {
    program: Program,
    code: String,
}

impl View for CodeGenerator {
    type V = CodeGeneratorView;

    closed spec fn view(&self) -> CodeGeneratorView {
        CodeGeneratorView { program: self.program@, code: self.code@ }
    }
}

impl CodeGenerator {
    pub fn new(program: Program) -> (g: CodeGenerator)
        ensures
            g@.program == program@,
            g@.code == Seq::<char>::empty(),
    {
        Self { program, code: String::new() }
    }

    /// Emits the whole translation unit, exactly as `generate_program_spec`
    /// says; emission cannot fail.
    pub fn generate(&mut self) -> (r: Result<String, String>)
        ensures
            final(self)@.program == old(self)@.program,
            match r {
                Ok(code) => code@ == generate_program_spec(old(self)@.program) && final(self)@.code
                    == code@,
                Err(_) => false,
            },
    {
        let mut out = String::new();
        out.append("#include <stdio.h>\n");
        out.append("#define print(num) printf(\"%d\\n\", (num))\n");
        out.append("int _ = 0;\n");
        out.append("int main() {\n");
        generate_stmts(&mut out, &self.program.statements, 0);
        out.append("}");
        proof {
            assert(out@ =~= generate_program_spec(self@.program));
        }
        self.code = out.clone();
        Ok(out)
    }
}

/// Occurrences of one character in a text.
pub open spec fn count_char(s: Seq<char>, c: char) -> int
    decreases s.len(),
{
    if s.len() == 0 {
        0
    } else {
        (if s[0] == c {
            1int
        } else {
            0int
        }) + count_char(s.subrange(1, s.len() as int), c)
    }
}

pub proof fn lemma_count_concat(a: Seq<char>, b: Seq<char>, c: char)
    ensures
        count_char(a + b, c) == count_char(a, c) + count_char(b, c),
    decreases a.len(),
{
    if a.len() == 0 {
        assert(a + b =~= b);
        assert(count_char(a, c) == 0);
    } else {
        let rest = a.subrange(1, a.len() as int);
        assert((a + b).subrange(1, (a + b).len() as int) =~= rest + b);
        assert(count_char(a + b, c) == (if (a + b)[0] == c {
            1int
        } else {
            0int
        }) + count_char(rest + b, c));
        lemma_count_concat(rest, b, c);
    }
}

proof fn lemma_count_singleton(x: char, c: char)
    ensures
        count_char(seq![x], c) == (if x == c {
            1int
        } else {
            0int
        }),
{
    reveal_with_fuel(count_char, 2);
    assert(seq![x].subrange(1, 1) =~= Seq::<char>::empty());
    assert(count_char(Seq::<char>::empty(), c) == 0);
}

/// Whether a name is free of brace characters. Every name the lexer can
/// produce is, since identifiers are runs of lowercase letters, and so is
/// the reserved discard name.
pub open spec fn name_ok(nm: Seq<char>) -> bool {
    count_char(nm, '{') == 0 && count_char(nm, '}') == 0
}

/// All names inside an expression are brace-free.
pub open spec fn expr_names_ok(e: ExprView) -> bool
    decreases e, 0int,
{
    match e {
        ExprView::Binary(b) => expr_names_ok(b.left) && expr_names_ok(b.right),
        ExprView::Call(name, args) => name_ok(name) && exprs_names_ok(args, 0),
        ExprView::Variable(name) => name_ok(name),
        ExprView::Number(_) => true,
    }
}

pub open spec fn exprs_names_ok(args: Seq<ExprView>, k: int) -> bool
    decreases args, args.len() - k,
{
    if !(0 <= k < args.len()) {
        true
    } else {
        expr_names_ok(args[k]) && exprs_names_ok(args, k + 1)
    }
}

/// All names inside a statement are brace-free.
pub open spec fn stmt_names_ok(s: StmtView) -> bool
    decreases s, 0int,
{
    match s {
        StmtView::Assignment(a) => name_ok(a.name) && expr_names_ok(a.expr),
        StmtView::Function(f) => name_ok(f.name) && (forall|j: int|
            0 <= j < f.params.len() ==> name_ok(#[trigger] f.params[j])) && stmts_names_ok(
            f.body,
            0,
        ),
        StmtView::If(i) => expr_names_ok(i.condition) && stmts_names_ok(i.body, 0)
            && stmts_names_ok(i.else_body, 0),
        StmtView::While(w) => expr_names_ok(w.condition) && stmts_names_ok(w.body, 0),
        StmtView::Return(o) => match o {
            Some(e) => expr_names_ok(e),
            None => true,
        },
    }
}

pub open spec fn stmts_names_ok(stmts: Seq<StmtView>, k: int) -> bool
    decreases stmts, stmts.len() - k,
{
    if !(0 <= k < stmts.len()) {
        true
    } else {
        stmt_names_ok(stmts[k]) && stmts_names_ok(stmts, k + 1)
    }
}

/// All names inside a program are brace-free.
pub open spec fn prog_names_ok(p: ProgramView) -> bool {
    stmts_names_ok(p.statements, 0)
}

proof fn lemma_digit_no_brace(d: int, c: char)
    requires
        c == '{' || c == '}',
    ensures
        dec_digit_char(d) != c,
{
}

proof fn lemma_u64_dec_no_brace(m: nat, c: char)
    requires
        c == '{' || c == '}',
    ensures
        count_char(u64_dec(m), c) == 0,
    decreases m,
{
    if m < 10 {
        lemma_count_singleton(dec_digit_char(m as int), c);
        lemma_digit_no_brace(m as int, c);
    } else {
        lemma_u64_dec_no_brace(m / 10, c);
        lemma_count_singleton(dec_digit_char((m % 10) as int), c);
        lemma_digit_no_brace((m % 10) as int, c);
        lemma_count_concat(u64_dec(m / 10), seq![dec_digit_char((m % 10) as int)], c);
    }
}

proof fn lemma_i64_dec_no_brace(n: i64, c: char)
    requires
        c == '{' || c == '}',
    ensures
        count_char(i64_dec(n), c) == 0,
{
    if n < 0 {
        lemma_count_singleton('-', c);
        lemma_u64_dec_no_brace((-(n as int)) as nat, c);
        lemma_count_concat(seq!['-'], u64_dec((-(n as int)) as nat), c);
    } else {
        lemma_u64_dec_no_brace(n as nat, c);
    }
}

proof fn lemma_op_no_brace(op: OperatorType, c: char)
    requires
        c == '{' || c == '}',
    ensures
        count_char(op_str(op), c) == 0,
{
    reveal_strlit("+");
    reveal_strlit("-");
    reveal_strlit("*");
    reveal_strlit("/");
    reveal_strlit("==");
    reveal_strlit("!=");
    reveal_with_fuel(count_char, 4);
    assert("+"@.subrange(1, 1) =~= Seq::<char>::empty());
    assert("-"@.subrange(1, 1) =~= Seq::<char>::empty());
    assert("*"@.subrange(1, 1) =~= Seq::<char>::empty());
    assert("/"@.subrange(1, 1) =~= Seq::<char>::empty());
    assert("=="@.subrange(1, 2).subrange(1, 1) =~= Seq::<char>::empty());
    assert("=="@.subrange(1, 2) =~= seq!['=']);
    assert("!="@.subrange(1, 2) =~= seq!['=']);
    assert(count_char(seq!['='], c) == 0) by {
        lemma_count_singleton('=', c);
    }
}

/// The emitted text of an expression holds no brace at all, provided its
/// names hold none.
proof fn lemma_gen_expr_no_brace(e: ExprView, c: char)
    requires
        c == '{' || c == '}',
        expr_names_ok(e),
    ensures
        count_char(generate_expr_spec(e), c) == 0,
    decreases e, 0int,
{
    reveal_strlit("(");
    reveal_strlit(")");
    reveal_strlit(", ");
    match e {
        ExprView::Binary(b) => {
            lemma_gen_expr_no_brace(b.left, c);
            lemma_gen_expr_no_brace(b.right, c);
            lemma_op_no_brace(b.op, c);
            reveal_strlit(") ");
            reveal_strlit(" (");
            reveal_with_fuel(count_char, 4);
            assert(count_char("("@, c) == 0);
            assert(count_char(") "@, c) == 0);
            assert(count_char(" ("@, c) == 0);
            assert(count_char(")"@, c) == 0);
            let t1 = "("@ + generate_expr_spec(b.left);
            let t2 = t1 + ") "@;
            let t3 = t2 + op_str(b.op);
            let t4 = t3 + " ("@;
            let t5 = t4 + generate_expr_spec(b.right);
            lemma_count_concat("("@, generate_expr_spec(b.left), c);
            lemma_count_concat(t1, ") "@, c);
            lemma_count_concat(t2, op_str(b.op), c);
            lemma_count_concat(t3, " ("@, c);
            lemma_count_concat(t4, generate_expr_spec(b.right), c);
            lemma_count_concat(t5, ")"@, c);
        },
        ExprView::Call(name, args) => {
            lemma_gen_args_no_brace(args, 0, c);
            assert("("@ =~= seq!['(']);
            assert(")"@ =~= seq![')']);
            lemma_count_singleton('(', c);
            lemma_count_singleton(')', c);
            lemma_count_concat(name, "("@, c);
            lemma_count_concat(name + "("@, generate_args_spec(args, 0), c);
            lemma_count_concat(name + "("@ + generate_args_spec(args, 0), ")"@, c);
        },
        ExprView::Number(n) => {
            lemma_i64_dec_no_brace(n, c);
        },
        ExprView::Variable(_) => {
        },
    }
}

proof fn lemma_gen_args_no_brace(args: Seq<ExprView>, k: int, c: char)
    requires
        c == '{' || c == '}',
        exprs_names_ok(args, k),
    ensures
        count_char(generate_args_spec(args, k), c) == 0,
    decreases args, args.len() - k,
{
    if 0 <= k < args.len() {
        lemma_gen_expr_no_brace(args[k], c);
        lemma_gen_args_no_brace(args, k + 1, c);
        reveal_strlit(", ");
        let sep: Seq<char> = if k + 1 < args.len() {
            ", "@
        } else {
            Seq::<char>::empty()
        };
        assert(count_char(sep, c) == 0) by {
            assert(", "@.subrange(1, 2) =~= seq![' ']);
            lemma_count_singleton(' ', c);
            reveal_with_fuel(count_char, 3);
        }
        lemma_count_concat(generate_expr_spec(args[k]), sep, c);
        lemma_count_concat(generate_expr_spec(args[k]) + sep, generate_args_spec(args, k + 1), c);
    }
}

proof fn lemma_stmt_lit_counts(c: char)
    requires
        c == '{' || c == '}',
    ensures
        count_char("int "@, c) == 0,
        count_char(" = "@, c) == 0,
        count_char(";\n"@, c) == 0,
        count_char("("@, c) == 0,
        count_char(") {\n"@, c) == (if c == '{' {
            1int
        } else {
            0int
        }),
        count_char("}"@, c) == (if c == '}' {
            1int
        } else {
            0int
        }),
        count_char("}\n"@, c) == (if c == '}' {
            1int
        } else {
            0int
        }),
        count_char("if ("@, c) == 0,
        count_char(" else {\n"@, c) == (if c == '{' {
            1int
        } else {
            0int
        }),
        count_char("\n"@, c) == 0,
        count_char("while ("@, c) == 0,
        count_char("return 0;\n"@, c) == 0,
        count_char("return "@, c) == 0,
{
    reveal_strlit("int ");
    reveal_strlit(" = ");
    reveal_strlit(";\n");
    reveal_strlit("(");
    reveal_strlit(") {\n");
    reveal_strlit("}");
    reveal_strlit("}\n");
    reveal_strlit("if (");
    reveal_strlit(" else {\n");
    reveal_strlit("\n");
    reveal_strlit("while (");
    reveal_strlit("return 0;\n");
    reveal_strlit("return ");
    reveal_with_fuel(count_char, 15);
}

proof fn lemma_gen_params_no_brace(params: Seq<Seq<char>>, k: int, c: char)
    requires
        c == '{' || c == '}',
        forall|j: int| 0 <= j < params.len() ==> name_ok(#[trigger] params[j]),
    ensures
        count_char(generate_params_spec(params, k), c) == 0,
    decreases params.len() - k,
{
    if 0 <= k < params.len() {
        lemma_gen_params_no_brace(params, k + 1, c);
        lemma_stmt_lit_counts(c);
        let sep: Seq<char> = if k + 1 < params.len() {
            ", "@
        } else {
            Seq::<char>::empty()
        };
        assert(count_char(sep, c) == 0) by {
            reveal_strlit(", ");
            reveal_with_fuel(count_char, 4);
        }
        lemma_count_concat("int "@, params[k], c);
        lemma_count_concat("int "@ + params[k], sep, c);
        lemma_count_concat("int "@ + params[k] + sep, generate_params_spec(params, k + 1), c);
    }
}

/// The brace count of one statement's text, for one brace character: equal
/// to the number of blocks the statement opens (and closes).
proof fn lemma_gen_stmt_braces_one(s: StmtView, c: char)
    requires
        c == '{' || c == '}',
        stmt_names_ok(s),
    ensures
        count_char(generate_stmt_spec(s), c) == stmt_block_count(s),
    decreases s, 1int,
{
    lemma_stmt_lit_counts(c);
    match s {
        StmtView::Assignment(a) => {
            lemma_gen_expr_no_brace(a.expr, c);
            let pre: Seq<char> = if a.definition {
                "int "@
            } else {
                Seq::<char>::empty()
            };
            lemma_count_concat(pre, a.name, c);
            lemma_count_concat(pre + a.name, " = "@, c);
            lemma_count_concat(pre + a.name + " = "@, generate_expr_spec(a.expr), c);
            lemma_count_concat(pre + a.name + " = "@ + generate_expr_spec(a.expr), ";\n"@, c);
        },
        StmtView::Function(f) => {
            lemma_gen_params_no_brace(f.params, 0, c);
            lemma_gen_stmts_braces_one(f.body, 0, c);
            let t1 = "int "@ + f.name;
            let t2 = t1 + "("@;
            let t3 = t2 + generate_params_spec(f.params, 0);
            let t4 = t3 + ") {\n"@;
            let t5 = t4 + generate_stmts_spec(f.body, 0);
            lemma_count_concat("int "@, f.name, c);
            lemma_count_concat(t1, "("@, c);
            lemma_count_concat(t2, generate_params_spec(f.params, 0), c);
            lemma_count_concat(t3, ") {\n"@, c);
            lemma_count_concat(t4, generate_stmts_spec(f.body, 0), c);
            lemma_count_concat(t5, "}\n"@, c);
        },
        StmtView::If(i) => {
            lemma_gen_expr_no_brace(i.condition, c);
            lemma_gen_stmts_braces_one(i.body, 0, c);
            let els: Seq<char> = if i.else_body.len() > 0 {
                " else {\n"@ + generate_stmts_spec(i.else_body, 0) + "}"@
            } else {
                Seq::<char>::empty()
            };
            if i.else_body.len() > 0 {
                lemma_gen_stmts_braces_one(i.else_body, 0, c);
                lemma_count_concat(" else {\n"@, generate_stmts_spec(i.else_body, 0), c);
                lemma_count_concat(" else {\n"@ + generate_stmts_spec(i.else_body, 0), "}"@, c);
            }
            let t1 = "if ("@ + generate_expr_spec(i.condition);
            let t2 = t1 + ") {\n"@;
            let t3 = t2 + generate_stmts_spec(i.body, 0);
            let t4 = t3 + "}"@;
            let t5 = t4 + els;
            lemma_count_concat("if ("@, generate_expr_spec(i.condition), c);
            lemma_count_concat(t1, ") {\n"@, c);
            lemma_count_concat(t2, generate_stmts_spec(i.body, 0), c);
            lemma_count_concat(t3, "}"@, c);
            lemma_count_concat(t4, els, c);
            lemma_count_concat(t5, "\n"@, c);
        },
        StmtView::While(w) => {
            lemma_gen_expr_no_brace(w.condition, c);
            lemma_gen_stmts_braces_one(w.body, 0, c);
            let t1 = "while ("@ + generate_expr_spec(w.condition);
            let t2 = t1 + ") {\n"@;
            let t3 = t2 + generate_stmts_spec(w.body, 0);
            lemma_count_concat("while ("@, generate_expr_spec(w.condition), c);
            lemma_count_concat(t1, ") {\n"@, c);
            lemma_count_concat(t2, generate_stmts_spec(w.body, 0), c);
            lemma_count_concat(t3, "}\n"@, c);
        },
        StmtView::Return(o) => {
            match o {
                Some(e) => {
                    lemma_gen_expr_no_brace(e, c);
                    lemma_count_concat("return "@, generate_expr_spec(e), c);
                    lemma_count_concat("return "@ + generate_expr_spec(e), ";\n"@, c);
                },
                None => {
                },
            }
        },
    }
}

/// The number of brace-delimited blocks a statement's text opens.
pub open spec fn stmt_block_count(s: StmtView) -> int
    decreases s, 0int,
{
    match s {
        StmtView::Assignment(_) => 0,
        StmtView::Function(f) => 1 + stmts_block_count(f.body, 0),
        StmtView::If(i) => 1 + stmts_block_count(i.body, 0) + (if i.else_body.len() > 0 {
            1 + stmts_block_count(i.else_body, 0)
        } else {
            0int
        }),
        StmtView::While(w) => 1 + stmts_block_count(w.body, 0),
        StmtView::Return(_) => 0,
    }
}

pub open spec fn stmts_block_count(stmts: Seq<StmtView>, k: int) -> int
    decreases stmts, stmts.len() - k,
{
    if !(0 <= k < stmts.len()) {
        0
    } else {
        stmt_block_count(stmts[k]) + stmts_block_count(stmts, k + 1)
    }
}

proof fn lemma_gen_stmts_braces_one(stmts: Seq<StmtView>, k: int, c: char)
    requires
        c == '{' || c == '}',
        stmts_names_ok(stmts, k),
    ensures
        count_char(generate_stmts_spec(stmts, k), c) == stmts_block_count(stmts, k),
    decreases stmts, stmts.len() - k, 2int,
{
    if 0 <= k < stmts.len() {
        lemma_gen_stmt_braces_one(stmts[k], c);
        lemma_gen_stmts_braces_one(stmts, k + 1, c);
        lemma_count_concat(generate_stmt_spec(stmts[k]), generate_stmts_spec(stmts, k + 1), c);
    }
}

proof fn lemma_preamble_counts(c: char)
    requires
        c == '{' || c == '}',
    ensures
        count_char(preamble_spec(), c) == (if c == '{' {
            1int
        } else {
            0int
        }),
{
    reveal_strlit("#include <stdio.h>\n");
    reveal_strlit("#define print(num) printf(\"%d\\n\", (num))\n");
    reveal_strlit("int _ = 0;\n");
    reveal_strlit("int main() {\n");
    reveal_with_fuel(count_char, 45);
    assert(count_char("#include <stdio.h>\n"@, c) == 0);
    assert(count_char("#define print(num) printf(\"%d\\n\", (num))\n"@, c) == 0);
    assert(count_char("int _ = 0;\n"@, c) == 0);
    assert(count_char("int main() {\n"@, c) == (if c == '{' {
        1int
    } else {
        0int
    }));
    lemma_count_concat("#include <stdio.h>\n"@, "#define print(num) printf(\"%d\\n\", (num))\n"@, c);
    lemma_count_concat(
        "#include <stdio.h>\n"@ + "#define print(num) printf(\"%d\\n\", (num))\n"@,
        "int _ = 0;\n"@,
        c,
    );
    lemma_count_concat(
        "#include <stdio.h>\n"@ + "#define print(num) printf(\"%d\\n\", (num))\n"@
            + "int _ = 0;\n"@,
        "int main() {\n"@,
        c,
    );
}

/// Law: the emitted translation unit never has dangling braces. For any
/// program whose names are brace-free, as every name the lexer can produce
/// is, the emitted text opens exactly as many braces as it closes.
pub proof fn lemma_generated_braces_balanced(p: ProgramView)
    requires
        prog_names_ok(p),
    ensures
        count_char(generate_program_spec(p), '{') == count_char(generate_program_spec(p), '}'),
{
    lemma_preamble_counts('{');
    lemma_preamble_counts('}');
    lemma_gen_stmts_braces_one(p.statements, 0, '{');
    lemma_gen_stmts_braces_one(p.statements, 0, '}');
    lemma_stmt_lit_counts('{');
    lemma_stmt_lit_counts('}');
    lemma_count_concat(preamble_spec(), generate_stmts_spec(p.statements, 0), '{');
    lemma_count_concat(preamble_spec() + generate_stmts_spec(p.statements, 0), "}"@, '{');
    lemma_count_concat(preamble_spec(), generate_stmts_spec(p.statements, 0), '}');
    lemma_count_concat(preamble_spec() + generate_stmts_spec(p.statements, 0), "}"@, '}');
}

/// Law: a name of lowercase letters only, as the lexer produces, is
/// brace-free, so `lemma_generated_braces_balanced` applies to it.
pub proof fn lemma_lower_names_brace_free(w: Seq<char>)
    requires
        crate::lexer::all_lower(w),
    ensures
        name_ok(w),
    decreases w.len(),
{
    if w.len() > 0 {
        let rest = w.subrange(1, w.len() as int);
        assert(crate::lexer::is_lower_ascii(w[0]));
        assert(w[0] != '{' && w[0] != '}') by {
            if w[0] == '{' || w[0] == '}' {
                assert(w[0] as u32 > 'z' as u32);
            }
        }
        assert(forall|i: int| 0 <= i < rest.len() ==> crate::lexer::is_lower_ascii(
            #[trigger] rest[i],
        ));
        lemma_lower_names_brace_free(rest);
        assert(count_char(w, '{') == 0);
        assert(count_char(w, '}') == 0);
    } else {
        assert(count_char(w, '{') == 0);
        assert(count_char(w, '}') == 0);
    }
}

/// Whether every identifier token in a sequence carries a lowercase name.
pub open spec fn toks_names_lower(toks: Seq<TokenView>) -> bool {
    forall|j: int| 0 <= j < toks.len() ==> crate::lexer::token_name_lower(#[trigger] toks[j])
}

proof fn lemma_discard_name_ok()
    ensures
        name_ok("_"@),
{
    reveal_strlit("_");
    reveal_with_fuel(count_char, 3);
}

proof fn lemma_token_name_ok(toks: Seq<TokenView>, i: int, nm: Seq<char>)
    requires
        toks_names_lower(toks),
        0 <= i < toks.len(),
        toks[i].token_type == TokenTypeView::Identifier(nm),
    ensures
        name_ok(nm),
{
    assert(crate::lexer::token_name_lower(toks[i]));
    lemma_lower_names_brace_free(nm);
}

proof fn lemma_exprs_names_shift(e0: ExprView, rest: Seq<ExprView>, k: int)
    requires
        0 <= k,
        exprs_names_ok(rest, k),
    ensures
        exprs_names_ok(seq![e0] + rest, k + 1),
    decreases rest.len() - k,
{
    let s = seq![e0] + rest;
    if k < rest.len() {
        assert(s[k + 1] == rest[k]);
        lemma_exprs_names_shift(e0, rest, k + 1);
    }
}

proof fn lemma_stmts_names_shift(s0: StmtView, rest: Seq<StmtView>, k: int)
    requires
        0 <= k,
        stmts_names_ok(rest, k),
    ensures
        stmts_names_ok(seq![s0] + rest, k + 1),
    decreases rest.len() - k,
{
    let s = seq![s0] + rest;
    if k < rest.len() {
        assert(s[k + 1] == rest[k]);
        lemma_stmts_names_shift(s0, rest, k + 1);
    }
}

proof fn lemma_names_primary(toks: Seq<TokenView>, i: int, f: nat, e: ExprView, j: int)
    requires
        toks_names_lower(toks),
        f >= fuel_lb(toks, i),
        parse_primary_spec(toks, i, f) == Ok::<(ExprView, int), ParseErrorView>((e, j)),
    ensures
        expr_names_ok(e),
        i < j <= toks.len(),
    decreases f, 0int,
{
    match toks[i].token_type {
        TokenTypeView::Identifier(name) => {
            lemma_token_name_ok(toks, i, name);
            if i + 1 < toks.len() && toks[i + 1].token_type == TokenTypeView::LeftParan {
                match parse_args_spec(toks, i + 2, (f - 1) as nat) {
                    Ok((args, j2)) => {
                        lemma_names_args(toks, i + 2, (f - 1) as nat, args, j2);
                    },
                    Err(_) => {},
                }
            }
        },
        TokenTypeView::LeftParan => {
            match parse_expr_spec(toks, i + 1, (f - 1) as nat) {
                Ok((e0, j0)) => {
                    lemma_names_expr(toks, i + 1, (f - 1) as nat, e0, j0);
                },
                Err(_) => {},
            }
        },
        _ => {},
    }
}

proof fn lemma_names_args(toks: Seq<TokenView>, i: int, f: nat, args: Seq<ExprView>, j: int)
    requires
        toks_names_lower(toks),
        f >= fuel_lb(toks, i),
        parse_args_spec(toks, i, f) == Ok::<(Seq<ExprView>, int), ParseErrorView>((args, j)),
    ensures
        exprs_names_ok(args, 0),
        i < j <= toks.len(),
    decreases f, 8int,
{
    if 0 <= i < toks.len() && !(toks[i].token_type == TokenTypeView::RightParan) {
        match parse_expr_spec(toks, i, f) {
            Ok((e0, j0)) => {
                lemma_names_expr(toks, i, f, e0, j0);
                let j2 = if 0 <= j0 < toks.len() && toks[j0].token_type == TokenTypeView::Comma {
                    j0 + 1
                } else {
                    j0
                };
                match parse_args_spec(toks, j2, (f - 1) as nat) {
                    Ok((rest, jr)) => {
                        lemma_names_args(toks, j2, (f - 1) as nat, rest, jr);
                        assert(args == seq![e0] + rest);
                        assert(args[0] == e0);
                        lemma_exprs_names_shift(e0, rest, 0);
                    },
                    Err(_) => {},
                }
            },
            Err(_) => {},
        }
    }
}

proof fn lemma_names_equals_more(
    toks: Seq<TokenView>,
    left: ExprView,
    i: int,
    f: nat,
    e: ExprView,
    j: int,
)
    requires
        toks_names_lower(toks),
        f >= fuel_lb(toks, i),
        expr_names_ok(left),
        parse_equals_more_spec(toks, left, i, f) == Ok::<(ExprView, int), ParseErrorView>((e, j)),
    ensures
        expr_names_ok(e),
        i <= j,
        j <= toks.len() || j == i,
    decreases f, 1int,
{
    match op_at(toks, i) {
        Some(op) => {
            if op == OperatorType::Equals || op == OperatorType::NotEquals {
                match parse_primary_spec(toks, i + 1, f) {
                    Ok((right, j0)) => {
                        lemma_names_primary(toks, i + 1, f, right, j0);
                        let nl = ExprView::Binary(
                            Box::new(BinaryExprView { left, right, op }),
                        );
                        lemma_names_equals_more(toks, nl, j0, (f - 1) as nat, e, j);
                    },
                    Err(_) => {},
                }
            }
        },
        None => {},
    }
}

proof fn lemma_names_equals(toks: Seq<TokenView>, i: int, f: nat, e: ExprView, j: int)
    requires
        toks_names_lower(toks),
        f >= fuel_lb(toks, i),
        parse_equals_spec(toks, i, f) == Ok::<(ExprView, int), ParseErrorView>((e, j)),
    ensures
        expr_names_ok(e),
        i < j <= toks.len(),
    decreases f, 2int,
{
    match parse_primary_spec(toks, i, f) {
        Ok((left, j0)) => {
            lemma_names_primary(toks, i, f, left, j0);
            lemma_names_equals_more(toks, left, j0, f, e, j);
        },
        Err(_) => {},
    }
}

proof fn lemma_names_mul_div_more(
    toks: Seq<TokenView>,
    left: ExprView,
    i: int,
    f: nat,
    e: ExprView,
    j: int,
)
    requires
        toks_names_lower(toks),
        f >= fuel_lb(toks, i),
        expr_names_ok(left),
        parse_mul_div_more_spec(toks, left, i, f) == Ok::<(ExprView, int), ParseErrorView>((e, j)),
    ensures
        expr_names_ok(e),
        i <= j,
        j <= toks.len() || j == i,
    decreases f, 3int,
{
    match op_at(toks, i) {
        Some(op) => {
            if op == OperatorType::Multiplication || op == OperatorType::Division {
                match parse_equals_spec(toks, i + 1, f) {
                    Ok((right, j0)) => {
                        lemma_names_equals(toks, i + 1, f, right, j0);
                        let nl = ExprView::Binary(
                            Box::new(BinaryExprView { left, right, op }),
                        );
                        lemma_names_mul_div_more(toks, nl, j0, (f - 1) as nat, e, j);
                    },
                    Err(_) => {},
                }
            }
        },
        None => {},
    }
}

proof fn lemma_names_mul_div(toks: Seq<TokenView>, i: int, f: nat, e: ExprView, j: int)
    requires
        toks_names_lower(toks),
        f >= fuel_lb(toks, i),
        parse_mul_div_spec(toks, i, f) == Ok::<(ExprView, int), ParseErrorView>((e, j)),
    ensures
        expr_names_ok(e),
        i < j <= toks.len(),
    decreases f, 4int,
{
    match parse_equals_spec(toks, i, f) {
        Ok((left, j0)) => {
            lemma_names_equals(toks, i, f, left, j0);
            lemma_names_mul_div_more(toks, left, j0, f, e, j);
        },
        Err(_) => {},
    }
}

proof fn lemma_names_add_sub_more(
    toks: Seq<TokenView>,
    left: ExprView,
    i: int,
    f: nat,
    e: ExprView,
    j: int,
)
    requires
        toks_names_lower(toks),
        f >= fuel_lb(toks, i),
        expr_names_ok(left),
        parse_add_sub_more_spec(toks, left, i, f) == Ok::<(ExprView, int), ParseErrorView>((e, j)),
    ensures
        expr_names_ok(e),
        i <= j,
        j <= toks.len() || j == i,
    decreases f, 5int,
{
    match op_at(toks, i) {
        Some(op) => {
            if op == OperatorType::Addition || op == OperatorType::Subtraction {
                match parse_mul_div_spec(toks, i + 1, f) {
                    Ok((right, j0)) => {
                        lemma_names_mul_div(toks, i + 1, f, right, j0);
                        let nl = ExprView::Binary(
                            Box::new(BinaryExprView { left, right, op }),
                        );
                        lemma_names_add_sub_more(toks, nl, j0, (f - 1) as nat, e, j);
                    },
                    Err(_) => {},
                }
            }
        },
        None => {},
    }
}

proof fn lemma_names_expr(toks: Seq<TokenView>, i: int, f: nat, e: ExprView, j: int)
    requires
        toks_names_lower(toks),
        f >= fuel_lb(toks, i),
        parse_expr_spec(toks, i, f) == Ok::<(ExprView, int), ParseErrorView>((e, j)),
    ensures
        expr_names_ok(e),
        i < j <= toks.len(),
    decreases f, 7int,
{
    match parse_mul_div_spec(toks, i, f) {
        Ok((left, j0)) => {
            lemma_names_mul_div(toks, i, f, left, j0);
            lemma_names_add_sub_more(toks, left, j0, f, e, j);
        },
        Err(_) => {},
    }
}

proof fn lemma_names_params(toks: Seq<TokenView>, i: int, f: nat, params: Seq<Seq<char>>, j: int)
    requires
        toks_names_lower(toks),
        f >= fuel_lb(toks, i),
        parse_params_spec(toks, i, f) == Ok::<(Seq<Seq<char>>, int), ParseErrorView>((params, j)),
    ensures
        forall|t: int| 0 <= t < params.len() ==> name_ok(#[trigger] params[t]),
        i < j <= toks.len(),
    decreases f, 8int,
{
    if 0 <= i < toks.len() && !(toks[i].token_type == TokenTypeView::RightParan) {
        let j0 = if toks[i].token_type == TokenTypeView::Comma {
            i + 1
        } else {
            i
        };
        match expect_ident_spec(toks, j0) {
            Ok((name, j1)) => {
                lemma_token_name_ok(toks, j0, name);
                match parse_params_spec(toks, j1, (f - 1) as nat) {
                    Ok((rest, jr)) => {
                        lemma_names_params(toks, j1, (f - 1) as nat, rest, jr);
                        assert(params == seq![name] + rest);
                        assert forall|t: int| 0 <= t < params.len() implies name_ok(
                            #[trigger] params[t],
                        ) by {
                            if t > 0 {
                                assert(params[t] == rest[t - 1]);
                            }
                        }
                    },
                    Err(_) => {},
                }
            },
            Err(_) => {},
        }
    }
}

proof fn lemma_names_call_stmt(toks: Seq<TokenView>, i: int, f: nat, s: StmtView, j: int)
    requires
        toks_names_lower(toks),
        f >= fuel_lb(toks, i),
        parse_call_stmt_spec(toks, i, f) == Ok::<(StmtView, int), ParseErrorView>((s, j)),
    ensures
        stmt_names_ok(s),
        i < j <= toks.len(),
    decreases f, 8int,
{
    lemma_discard_name_ok();
    match parse_expr_spec(toks, i, f) {
        Ok((e, j0)) => {
            lemma_names_expr(toks, i, f, e, j0);
        },
        Err(_) => {},
    }
}

proof fn lemma_names_assign_stmt(
    toks: Seq<TokenView>,
    name: Seq<char>,
    i: int,
    f: nat,
    s: StmtView,
    j: int,
)
    requires
        toks_names_lower(toks),
        f >= fuel_lb(toks, i),
        name_ok(name),
        parse_assign_stmt_spec(toks, name, i, f) == Ok::<(StmtView, int), ParseErrorView>((s, j)),
    ensures
        stmt_names_ok(s),
        i < j <= toks.len(),
    decreases f, 8int,
{
    match expect_spec(toks, i + 1, TokenTypeView::Assignment) {
        Ok(j0) => {
            match parse_expr_spec(toks, j0, f) {
                Ok((e, j1)) => {
                    lemma_names_expr(toks, j0, f, e, j1);
                },
                Err(_) => {},
            }
        },
        Err(_) => {},
    }
}

proof fn lemma_names_return_stmt(toks: Seq<TokenView>, i: int, f: nat, s: StmtView, j: int)
    requires
        toks_names_lower(toks),
        f >= fuel_lb(toks, i),
        parse_return_stmt_spec(toks, i, f) == Ok::<(StmtView, int), ParseErrorView>((s, j)),
    ensures
        stmt_names_ok(s),
        i < j <= toks.len(),
    decreases f, 8int,
{
    if i + 1 < toks.len() && toks[i + 1].token_type == TokenTypeView::Pipe {
    } else {
        match parse_expr_spec(toks, i + 1, f) {
            Ok((e, j1)) => {
                lemma_names_expr(toks, i + 1, f, e, j1);
            },
            Err(_) => {},
        }
    }
}

proof fn lemma_names_vardef_stmt(toks: Seq<TokenView>, i: int, f: nat, s: StmtView, j: int)
    requires
        toks_names_lower(toks),
        f >= fuel_lb(toks, i),
        parse_vardef_stmt_spec(toks, i, f) == Ok::<(StmtView, int), ParseErrorView>((s, j)),
    ensures
        stmt_names_ok(s),
        i < j <= toks.len(),
    decreases f, 8int,
{
    match expect_ident_spec(toks, i + 1) {
        Ok((name, j0)) => {
            lemma_token_name_ok(toks, i + 1, name);
            match expect_spec(toks, j0, TokenTypeView::Assignment) {
                Ok(j1) => {
                    match parse_expr_spec(toks, j1, f) {
                        Ok((e, j2)) => {
                            lemma_names_expr(toks, j1, f, e, j2);
                        },
                        Err(_) => {},
                    }
                },
                Err(_) => {},
            }
        },
        Err(_) => {},
    }
}

proof fn lemma_names_if_stmt(toks: Seq<TokenView>, i: int, f: nat, s: StmtView, j: int)
    requires
        toks_names_lower(toks),
        f >= fuel_lb(toks, i),
        parse_if_stmt_spec(toks, i, f) == Ok::<(StmtView, int), ParseErrorView>((s, j)),
    ensures
        stmt_names_ok(s),
        i < j <= toks.len(),
    decreases f, 8int,
{
    match parse_expr_spec(toks, i + 1, f) {
        Ok((cond, j0)) => {
            lemma_names_expr(toks, i + 1, f, cond, j0);
            match expect_spec(toks, j0, TokenTypeView::LeftBrack) {
                Ok(j1) => {
                    match parse_block_spec(toks, j1, (f - 1) as nat) {
                        Ok((body, j2)) => {
                            lemma_names_block(toks, j1, (f - 1) as nat, body, j2);
                            if 0 <= j2 < toks.len() && toks[j2].token_type
                                == TokenTypeView::Keyword(KeywordType::Else) {
                                match expect_spec(toks, j2 + 1, TokenTypeView::LeftBrack) {
                                    Ok(j3) => {
                                        match parse_block_spec(toks, j3, (f - 1) as nat) {
                                            Ok((eb, j4)) => {
                                                lemma_names_block(
                                                    toks,
                                                    j3,
                                                    (f - 1) as nat,
                                                    eb,
                                                    j4,
                                                );
                                            },
                                            Err(_) => {},
                                        }
                                    },
                                    Err(_) => {},
                                }
                            }
                        },
                        Err(_) => {},
                    }
                },
                Err(_) => {},
            }
        },
        Err(_) => {},
    }
}

proof fn lemma_names_while_stmt(toks: Seq<TokenView>, i: int, f: nat, s: StmtView, j: int)
    requires
        toks_names_lower(toks),
        f >= fuel_lb(toks, i),
        parse_while_stmt_spec(toks, i, f) == Ok::<(StmtView, int), ParseErrorView>((s, j)),
    ensures
        stmt_names_ok(s),
        i < j <= toks.len(),
    decreases f, 8int,
{
    match parse_expr_spec(toks, i + 1, f) {
        Ok((cond, j0)) => {
            lemma_names_expr(toks, i + 1, f, cond, j0);
            match expect_spec(toks, j0, TokenTypeView::LeftBrack) {
                Ok(j1) => {
                    match parse_block_spec(toks, j1, (f - 1) as nat) {
                        Ok((body, j2)) => {
                            lemma_names_block(toks, j1, (f - 1) as nat, body, j2);
                        },
                        Err(_) => {},
                    }
                },
                Err(_) => {},
            }
        },
        Err(_) => {},
    }
}

proof fn lemma_names_function_stmt(toks: Seq<TokenView>, i: int, f: nat, s: StmtView, j: int)
    requires
        toks_names_lower(toks),
        f >= fuel_lb(toks, i),
        parse_function_stmt_spec(toks, i, f) == Ok::<(StmtView, int), ParseErrorView>((s, j)),
    ensures
        stmt_names_ok(s),
        i < j <= toks.len(),
    decreases f, 8int,
{
    match expect_ident_spec(toks, i + 1) {
        Ok((name, j0)) => {
            lemma_token_name_ok(toks, i + 1, name);
            match expect_spec(toks, j0, TokenTypeView::LeftParan) {
                Ok(j1) => {
                    match parse_params_spec(toks, j1, (f - 1) as nat) {
                        Ok((params, j2)) => {
                            lemma_names_params(toks, j1, (f - 1) as nat, params, j2);
                            match expect_spec(toks, j2, TokenTypeView::LeftBrack) {
                                Ok(j3) => {
                                    match parse_block_spec(toks, j3, (f - 1) as nat) {
                                        Ok((body, j4)) => {
                                            lemma_names_block(toks, j3, (f - 1) as nat, body, j4);
                                        },
                                        Err(_) => {},
                                    }
                                },
                                Err(_) => {},
                            }
                        },
                        Err(_) => {},
                    }
                },
                Err(_) => {},
            }
        },
        Err(_) => {},
    }
}

proof fn lemma_names_stmt(toks: Seq<TokenView>, i: int, f: nat, s: StmtView, j: int)
    requires
        toks_names_lower(toks),
        f >= fuel_lb(toks, i),
        parse_stmt_spec(toks, i, f) == Ok::<(StmtView, int), ParseErrorView>((s, j)),
    ensures
        stmt_names_ok(s),
        i < j <= toks.len(),
    decreases f, 9int,
{
    if 0 <= i < toks.len() {
        match toks[i].token_type {
            TokenTypeView::Identifier(name) => {
                if i + 1 >= toks.len() {
                } else if toks[i + 1].token_type == TokenTypeView::LeftParan {
                    lemma_names_call_stmt(toks, i, f, s, j);
                } else {
                    lemma_token_name_ok(toks, i, name);
                    lemma_names_assign_stmt(toks, name, i, f, s, j);
                }
            },
            TokenTypeView::Return => {
                lemma_names_return_stmt(toks, i, f, s, j);
            },
            TokenTypeView::Keyword(k) => match k {
                KeywordType::VarDef => lemma_names_vardef_stmt(toks, i, f, s, j),
                KeywordType::If => lemma_names_if_stmt(toks, i, f, s, j),
                KeywordType::While => lemma_names_while_stmt(toks, i, f, s, j),
                KeywordType::Function => lemma_names_function_stmt(toks, i, f, s, j),
                _ => {},
            },
            _ => {},
        }
    }
}

proof fn lemma_names_block(toks: Seq<TokenView>, i: int, f: nat, body: Seq<StmtView>, j: int)
    requires
        toks_names_lower(toks),
        f >= fuel_lb(toks, i),
        parse_block_spec(toks, i, f) == Ok::<(Seq<StmtView>, int), ParseErrorView>((body, j)),
    ensures
        stmts_names_ok(body, 0),
        i < j <= toks.len(),
    decreases f, 10int,
{
    if 0 <= i < toks.len() && !(toks[i].token_type == TokenTypeView::RightBrack) {
        match parse_stmt_spec(toks, i, f) {
            Ok((s0, j0)) => {
                lemma_names_stmt(toks, i, f, s0, j0);
                match parse_block_spec(toks, j0, (f - 1) as nat) {
                    Ok((rest, jr)) => {
                        lemma_names_block(toks, j0, (f - 1) as nat, rest, jr);
                        assert(body == seq![s0] + rest);
                        assert(body[0] == s0);
                        lemma_stmts_names_shift(s0, rest, 0);
                    },
                    Err(_) => {},
                }
            },
            Err(_) => {},
        }
    }
}

proof fn lemma_names_items(toks: Seq<TokenView>, i: int, f: nat, items: Seq<StmtView>)
    requires
        toks_names_lower(toks),
        f >= fuel_lb(toks, i),
        parse_items_spec(toks, i, f) == Ok::<Seq<StmtView>, ParseErrorView>(items),
    ensures
        stmts_names_ok(items, 0),
    decreases f, 10int,
{
    if i < toks.len() {
        match parse_stmt_spec(toks, i, f) {
            Ok((s0, j0)) => {
                lemma_names_stmt(toks, i, f, s0, j0);
                match parse_items_spec(toks, j0, (f - 1) as nat) {
                    Ok(rest) => {
                        lemma_names_items(toks, j0, (f - 1) as nat, rest);
                        assert(items == seq![s0] + rest);
                        assert(items[0] == s0);
                        lemma_stmts_names_shift(s0, rest, 0);
                    },
                    Err(_) => {},
                }
            },
            Err(_) => {},
        }
    }
}

/// Law: a lexed and parsed program has brace-free names throughout, so for
/// any source text the lexer accepts and whose tokens the parser accepts,
/// the emitted translation unit opens exactly as many braces as it closes.
pub proof fn lemma_pipeline_braces_balanced(
    src: Seq<char>,
    toks: Seq<TokenView>,
    p: ProgramView,
)
    requires
        crate::lexer::lex_from(src, 0) == Ok::<Seq<TokenView>, crate::lexer::LexError>(toks),
        parse_program_spec(toks) == Ok::<ProgramView, ParseErrorView>(p),
    ensures
        prog_names_ok(p),
        count_char(generate_program_spec(p), '{') == count_char(generate_program_spec(p), '}'),
{
    crate::lexer::lemma_lex_identifiers_lower(src, 0, toks);
    assert(toks_names_lower(toks));
    match parse_items_spec(toks, 0, (toks.len() + 1) as nat) {
        Ok(ss) => {
            lemma_names_items(toks, 0, (toks.len() + 1) as nat, ss);
            assert(p.statements == ss);
        },
        Err(_) => {},
    }
    lemma_generated_braces_balanced(p);
}

} // verus!
