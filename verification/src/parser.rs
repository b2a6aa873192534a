//! Recursive-descent parsing: token sequence to abstract syntax tree.
//!
//! The executable parser is specified against a family of recursive spec
//! functions (`parse_stmt_spec` and friends) over token views. Those spec
//! functions carry a fuel argument for termination; every contract quantifies
//! over all sufficiently large fuels, so the fuel never leaks into what a
//! caller must know.
use vstd::prelude::*;

use crate::lexer::KeywordType;
use crate::lexer::OperatorType;
use crate::lexer::Token;
use crate::lexer::TokenType;
use crate::lexer::TokenTypeView;
use crate::lexer::TokenView;
use crate::lexer::views_of;

verus! {

/// An expression: a pure value tree.
#[derive(Debug, PartialEq)]
pub enum Expr {
    Binary(Box<BinaryExpr>),
    Number(i64),
    Variable(String),
    Call(String, Vec<Expr>),
}

#[derive(Debug, PartialEq)]
pub struct BinaryExpr {
    pub left: Expr,
    pub right: Expr,
    pub op: OperatorType,
}

/// A statement.
#[derive(Debug, PartialEq)]
pub enum Stmt {
    Assignment(AssignmentStmt),
    If(IfStmt),
    While(WhileStmt),
    Function(FunctionStmt),
    Return(Box<Option<Expr>>),
}

/// `definition` distinguishes introducing a binding from mutating one.
#[derive(Debug, PartialEq)]
pub struct AssignmentStmt {
    pub definition: bool,
    pub name: String,
    pub expr: Expr,
}

/// An empty `else_body` means the `if` has no else clause.
#[derive(Debug, PartialEq)]
pub struct IfStmt {
    pub condition: Expr,
    pub body: Vec<Stmt>,
    pub else_body: Vec<Stmt>,
}

#[derive(Debug, PartialEq)]
pub struct WhileStmt {
    pub condition: Expr,
    pub body: Vec<Stmt>,
}

#[derive(Debug, PartialEq)]
pub struct FunctionStmt {
    pub name: String,
    pub params: Vec<String>,
    pub body: Vec<Stmt>,
}

/// An ordered sequence of top-level statements.
#[derive(Debug, PartialEq)]
pub struct Program {
    pub statements: Vec<Stmt>,
}

/// Mathematical image of an expression: names become character sequences.
pub ghost enum ExprView {
    Binary(Box<BinaryExprView>),
    Number(i64),
    Variable(Seq<char>),
    Call(Seq<char>, Seq<ExprView>),
}

pub ghost struct BinaryExprView {
    pub left: ExprView,
    pub right: ExprView,
    pub op: OperatorType,
}

/// Mathematical image of a statement.
pub ghost enum StmtView {
    Assignment(AssignmentStmtView),
    If(IfStmtView),
    While(WhileStmtView),
    Function(FunctionStmtView),
    Return(Option<ExprView>),
}

pub ghost struct AssignmentStmtView {
    pub definition: bool,
    pub name: Seq<char>,
    pub expr: ExprView,
}

pub ghost struct IfStmtView {
    pub condition: ExprView,
    pub body: Seq<StmtView>,
    pub else_body: Seq<StmtView>,
}

pub ghost struct WhileStmtView {
    pub condition: ExprView,
    pub body: Seq<StmtView>,
}

pub ghost struct FunctionStmtView {
    pub name: Seq<char>,
    pub params: Seq<Seq<char>>,
    pub body: Seq<StmtView>,
}

pub ghost struct ProgramView {
    pub statements: Seq<StmtView>,
}

/// The views of a parameter-name vector.
pub open spec fn strings_view(s: Seq<String>) -> Seq<Seq<char>> {
    s.map_values(|x: String| x@)
}

/// The views of an expression sequence, element by element.
pub open spec fn exprs_view(s: Seq<Expr>) -> Seq<ExprView>
    decreases s,
{
    if s.len() == 0 {
        Seq::empty()
    } else {
        seq![s[0]@] + exprs_view(s.subrange(1, s.len() as int))
    }
}

/// The views of a statement sequence, element by element.
pub open spec fn stmts_view(s: Seq<Stmt>) -> Seq<StmtView>
    decreases s,
{
    if s.len() == 0 {
        Seq::empty()
    } else {
        seq![s[0]@] + stmts_view(s.subrange(1, s.len() as int))
    }
}

impl View for Expr {
    type V = ExprView;

    open spec fn view(&self) -> ExprView
        decreases self,
    {
        match self {
            Expr::Binary(b) => ExprView::Binary(
                Box::new(BinaryExprView { left: b.left@, right: b.right@, op: b.op }),
            ),
            Expr::Number(n) => ExprView::Number(*n),
            Expr::Variable(s) => ExprView::Variable(s@),
            Expr::Call(name, args) => ExprView::Call(name@, exprs_view(args@)),
        }
    }
}

impl View for Stmt {
    type V = StmtView;

    open spec fn view(&self) -> StmtView
        decreases self,
    {
        match self {
            Stmt::Assignment(a) => StmtView::Assignment(
                AssignmentStmtView { definition: a.definition, name: a.name@, expr: a.expr@ },
            ),
            Stmt::If(i) => StmtView::If(
                IfStmtView {
                    condition: i.condition@,
                    body: stmts_view(i.body@),
                    else_body: stmts_view(i.else_body@),
                },
            ),
            Stmt::While(w) => StmtView::While(
                WhileStmtView { condition: w.condition@, body: stmts_view(w.body@) },
            ),
            Stmt::Function(f) => StmtView::Function(
                FunctionStmtView {
                    name: f.name@,
                    params: strings_view(f.params@),
                    body: stmts_view(f.body@),
                },
            ),
            Stmt::Return(o) => StmtView::Return(
                match &**o {
                    Some(e) => Some(e@),
                    None => None,
                },
            ),
        }
    }
}

impl View for Program {
    type V = ProgramView;

    open spec fn view(&self) -> ProgramView {
        ProgramView { statements: stmts_view(self.statements@) }
    }
}

pub proof fn lemma_exprs_view_len(s: Seq<Expr>)
    ensures
        exprs_view(s).len() == s.len(),
    decreases s.len(),
{
    if s.len() > 0 {
        assert(exprs_view(s) == seq![s[0]@] + exprs_view(s.subrange(1, s.len() as int)));
        lemma_exprs_view_len(s.subrange(1, s.len() as int));
    } else {
        assert(exprs_view(s) == Seq::<ExprView>::empty());
    }
}

pub proof fn lemma_exprs_view_index(s: Seq<Expr>, i: int)
    requires
        0 <= i < s.len(),
    ensures
        exprs_view(s).len() == s.len(),
        exprs_view(s)[i] == s[i]@,
    decreases i,
{
    lemma_exprs_view_len(s);
    let rest = s.subrange(1, s.len() as int);
    assert(exprs_view(s) == seq![s[0]@] + exprs_view(rest));
    if i > 0 {
        lemma_exprs_view_index(rest, i - 1);
        assert(rest[i - 1] == s[i]);
    }
}

pub proof fn lemma_stmts_view_len(s: Seq<Stmt>)
    ensures
        stmts_view(s).len() == s.len(),
    decreases s.len(),
{
    if s.len() > 0 {
        assert(stmts_view(s) == seq![s[0]@] + stmts_view(s.subrange(1, s.len() as int)));
        lemma_stmts_view_len(s.subrange(1, s.len() as int));
    } else {
        assert(stmts_view(s) == Seq::<StmtView>::empty());
    }
}

pub proof fn lemma_stmts_view_index(s: Seq<Stmt>, i: int)
    requires
        0 <= i < s.len(),
    ensures
        stmts_view(s).len() == s.len(),
        stmts_view(s)[i] == s[i]@,
    decreases i,
{
    lemma_stmts_view_len(s);
    let rest = s.subrange(1, s.len() as int);
    assert(stmts_view(s) == seq![s[0]@] + stmts_view(rest));
    if i > 0 {
        lemma_stmts_view_index(rest, i - 1);
        assert(rest[i - 1] == s[i]);
    }
}

/// Element views determine the sequence view.
pub proof fn lemma_stmts_view_ext(a: Seq<Stmt>, b: Seq<StmtView>)
    requires
        b.len() == a.len(),
        forall|i: int| 0 <= i < a.len() ==> b[i] == #[trigger] a[i]@,
    ensures
        stmts_view(a) == b,
{
    lemma_stmts_view_len(a);
    assert forall|i: int| 0 <= i < a.len() implies stmts_view(a)[i] == b[i] by {
        lemma_stmts_view_index(a, i);
    }
    assert(stmts_view(a) =~= b);
}

pub proof fn lemma_exprs_view_ext(a: Seq<Expr>, b: Seq<ExprView>)
    requires
        b.len() == a.len(),
        forall|i: int| 0 <= i < a.len() ==> b[i] == #[trigger] a[i]@,
    ensures
        exprs_view(a) == b,
{
    lemma_exprs_view_len(a);
    assert forall|i: int| 0 <= i < a.len() implies exprs_view(a)[i] == b[i] by {
        lemma_exprs_view_index(a, i);
    }
    assert(exprs_view(a) =~= b);
}

impl Expr {
    /// An explicit copy whose view provably equals the original's.
    pub fn duplicate(&self) -> (r: Expr)
        ensures
            r@ == self@,
        decreases self,
    {
        match self {
            Expr::Binary(b) => Expr::Binary(
                Box::new(
                    BinaryExpr {
                        left: b.left.duplicate(),
                        right: b.right.duplicate(),
                        op: b.op,
                    },
                ),
            ),
            Expr::Number(n) => Expr::Number(*n),
            Expr::Variable(s) => Expr::Variable(s.clone()),
            Expr::Call(name, args) => Expr::Call(name.clone(), duplicate_exprs(args)),
        }
    }
}

/// An element-wise copy of an expression vector.
fn duplicate_exprs(v: &Vec<Expr>) -> (r: Vec<Expr>)
    ensures
        exprs_view(r@) == exprs_view(v@),
        r@.len() == v@.len(),
    decreases v,
{
    let mut out: Vec<Expr> = Vec::new();
    let mut i: usize = 0;
    while i < v.len()
        invariant
            i <= v.len(),
            out@.len() == i,
            forall|j: int| 0 <= j < i ==> out@[j]@ == #[trigger] v@[j]@,
        decreases v.len() - i,
    {
        proof {
            assert(decreases_to!(v => v@));
            assert(decreases_to!(v@ => v@[i as int]));
        }
        out.push(v[i].duplicate());
        i += 1;
    }
    proof {
        lemma_exprs_view_len(v@);
        assert forall|j: int| 0 <= j < out@.len() implies exprs_view(v@)[j] == #[trigger] out@[
            j
        ]@ by {
            lemma_exprs_view_index(v@, j);
        }
        lemma_exprs_view_ext(out@, exprs_view(v@));
    }
    out
}

impl Stmt {
    /// An explicit copy whose view provably equals the original's.
    pub fn duplicate(&self) -> (r: Stmt)
        ensures
            r@ == self@,
        decreases self,
    {
        match self {
            Stmt::Assignment(a) => Stmt::Assignment(
                AssignmentStmt {
                    definition: a.definition,
                    name: a.name.clone(),
                    expr: a.expr.duplicate(),
                },
            ),
            Stmt::If(i) => Stmt::If(
                IfStmt {
                    condition: i.condition.duplicate(),
                    body: duplicate_stmts(&i.body),
                    else_body: duplicate_stmts(&i.else_body),
                },
            ),
            Stmt::While(w) => Stmt::While(
                WhileStmt { condition: w.condition.duplicate(), body: duplicate_stmts(&w.body) },
            ),
            Stmt::Function(f) => Stmt::Function(
                FunctionStmt {
                    name: f.name.clone(),
                    params: duplicate_strings(&f.params),
                    body: duplicate_stmts(&f.body),
                },
            ),
            Stmt::Return(o) => Stmt::Return(
                Box::new(
                    match &**o {
                        Some(e) => Some(e.duplicate()),
                        None => None,
                    },
                ),
            ),
        }
    }
}

/// An element-wise copy of a statement vector.
fn duplicate_stmts(v: &Vec<Stmt>) -> (r: Vec<Stmt>)
    ensures
        stmts_view(r@) == stmts_view(v@),
        r@.len() == v@.len(),
    decreases v,
{
    let mut out: Vec<Stmt> = Vec::new();
    let mut i: usize = 0;
    while i < v.len()
        invariant
            i <= v.len(),
            out@.len() == i,
            forall|j: int| 0 <= j < i ==> out@[j]@ == #[trigger] v@[j]@,
        decreases v.len() - i,
    {
        proof {
            assert(decreases_to!(v => v@));
            assert(decreases_to!(v@ => v@[i as int]));
        }
        out.push(v[i].duplicate());
        i += 1;
    }
    proof {
        lemma_stmts_view_len(v@);
        assert forall|j: int| 0 <= j < out@.len() implies stmts_view(v@)[j] == #[trigger] out@[
            j
        ]@ by {
            lemma_stmts_view_index(v@, j);
        }
        lemma_stmts_view_ext(out@, stmts_view(v@));
    }
    out
}

/// An element-wise copy of a name vector.
fn duplicate_strings(v: &Vec<String>) -> (r: Vec<String>)
    ensures
        strings_view(r@) == strings_view(v@),
        r@.len() == v@.len(),
{
    let mut out: Vec<String> = Vec::new();
    let mut i: usize = 0;
    while i < v.len()
        invariant
            i <= v.len(),
            out@.len() == i,
            forall|j: int| 0 <= j < i ==> out@[j]@ == #[trigger] v@[j]@,
        decreases v.len() - i,
    {
        out.push(v[i].clone());
        i += 1;
    }
    proof {
        assert(strings_view(out@) =~= strings_view(v@));
    }
    out
}

impl Program {
    /// An explicit copy whose view provably equals the original's.
    pub fn duplicate(&self) -> (r: Program)
        ensures
            r@ == self@,
    {
        Program { statements: duplicate_stmts(&self.statements) }
    }
}

/// Failure of the parser: what was expected against what was found, or an
/// input that ended too early.
#[derive(Debug, PartialEq)]
pub enum ParseError {
    Expected { expected: TokenType, found: TokenType, index: usize },
    Unexpected { found: TokenType, index: usize },
    UnexpectedEnd,
}

/// Mathematical image of a `ParseError`.
pub ghost enum ParseErrorView {
    Expected { expected: TokenTypeView, found: TokenTypeView, index: int },
    Unexpected { found: TokenTypeView, index: int },
    UnexpectedEnd,
}

impl View for ParseError {
    type V = ParseErrorView;

    open spec fn view(&self) -> ParseErrorView {
        match self {
            ParseError::Expected { expected, found, index } => ParseErrorView::Expected {
                expected: expected@,
                found: found@,
                index: *index as int,
            },
            ParseError::Unexpected { found, index } => ParseErrorView::Unexpected {
                found: found@,
                index: *index as int,
            },
            ParseError::UnexpectedEnd => ParseErrorView::UnexpectedEnd,
        }
    }
}

/// Whether two token payloads are the same variant, ignoring the payload
/// values themselves.
pub open spec fn same_variant(a: TokenTypeView, b: TokenTypeView) -> bool {
    match (a, b) {
        (TokenTypeView::Identifier(_), TokenTypeView::Identifier(_)) => true,
        (TokenTypeView::Integer(_), TokenTypeView::Integer(_)) => true,
        (TokenTypeView::Keyword(_), TokenTypeView::Keyword(_)) => true,
        (TokenTypeView::Operator(_), TokenTypeView::Operator(_)) => true,
        (TokenTypeView::LeftParan, TokenTypeView::LeftParan) => true,
        (TokenTypeView::RightParan, TokenTypeView::RightParan) => true,
        (TokenTypeView::LeftBrack, TokenTypeView::LeftBrack) => true,
        (TokenTypeView::RightBrack, TokenTypeView::RightBrack) => true,
        (TokenTypeView::Assignment, TokenTypeView::Assignment) => true,
        (TokenTypeView::Return, TokenTypeView::Return) => true,
        (TokenTypeView::Comma, TokenTypeView::Comma) => true,
        (TokenTypeView::Pipe, TokenTypeView::Pipe) => true,
        _ => false,
    }
}

/// Executable variant comparison, the parser's one-token test.
fn variant_eq(a: &TokenType, b: &TokenType) -> (r: bool)
    ensures
        r == same_variant(a@, b@),
{
    match (a, b) {
        (TokenType::Identifier(_), TokenType::Identifier(_)) => true,
        (TokenType::Integer(_), TokenType::Integer(_)) => true,
        (TokenType::Keyword(_), TokenType::Keyword(_)) => true,
        (TokenType::Operator(_), TokenType::Operator(_)) => true,
        (TokenType::LeftParan, TokenType::LeftParan) => true,
        (TokenType::RightParan, TokenType::RightParan) => true,
        (TokenType::LeftBrack, TokenType::LeftBrack) => true,
        (TokenType::RightBrack, TokenType::RightBrack) => true,
        (TokenType::Assignment, TokenType::Assignment) => true,
        (TokenType::Return, TokenType::Return) => true,
        (TokenType::Comma, TokenType::Comma) => true,
        (TokenType::Pipe, TokenType::Pipe) => true,
        _ => false,
    }
}

/// What consuming one token of the expected variant yields: the next offset,
/// or the error the parser reports.
pub open spec fn expect_spec(toks: Seq<TokenView>, i: int, expected: TokenTypeView) -> Result<
    int,
    ParseErrorView,
> {
    if !(0 <= i < toks.len()) {
        Err(ParseErrorView::UnexpectedEnd)
    } else if same_variant(toks[i].token_type, expected) {
        Ok(i + 1)
    } else {
        Err(
            ParseErrorView::Expected {
                expected: expected,
                found: toks[i].token_type,
                index: toks[i].index,
            },
        )
    }
}

/// What consuming one identifier token yields: its name and the next offset,
/// or the error the parser reports.
pub open spec fn expect_ident_spec(toks: Seq<TokenView>, i: int) -> Result<
    (Seq<char>, int),
    ParseErrorView,
> {
    if !(0 <= i < toks.len()) {
        Err(ParseErrorView::UnexpectedEnd)
    } else {
        match toks[i].token_type {
            TokenTypeView::Identifier(name) => Ok((name, i + 1)),
            k => Err(
                ParseErrorView::Expected {
                    expected: TokenTypeView::Identifier(Seq::empty()),
                    found: k,
                    index: toks[i].index,
                },
            ),
        }
    }
}

/// The operator at offset `i`, if one stands there.
pub open spec fn op_at(toks: Seq<TokenView>, i: int) -> Option<OperatorType> {
    if 0 <= i < toks.len() {
        match toks[i].token_type {
            TokenTypeView::Operator(op) => Some(op),
            _ => None,
        }
    } else {
        None
    }
}

/// Fuel that always suffices for the parsing spec functions from offset `i`:
/// one unit more than the number of remaining tokens.
pub open spec fn fuel_lb(toks: Seq<TokenView>, i: int) -> int {
    toks.len() - i + 1
}

/// A primary expression: an integer literal, a variable or call, or a
/// parenthesized subexpression.
pub open spec fn parse_primary_spec(toks: Seq<TokenView>, i: int, f: nat) -> Result<
    (ExprView, int),
    ParseErrorView,
>
    decreases f, 0int,
{
    if !(0 <= i < toks.len()) {
        Err(ParseErrorView::UnexpectedEnd)
    } else {
        match toks[i].token_type {
            TokenTypeView::Integer(value) => Ok((ExprView::Number(value), i + 1)),
            TokenTypeView::Identifier(name) => {
                if i + 1 < toks.len() && toks[i + 1].token_type == TokenTypeView::LeftParan {
                    if f == 0 {
                        vstd::pervasive::arbitrary()
                    } else {
                        match parse_args_spec(toks, i + 2, (f - 1) as nat) {
                            Ok((args, j)) => Ok((ExprView::Call(name, args), j)),
                            Err(e) => Err(e),
                        }
                    }
                } else {
                    Ok((ExprView::Variable(name), i + 1))
                }
            },
            TokenTypeView::LeftParan => {
                if f == 0 {
                    vstd::pervasive::arbitrary()
                } else {
                    match parse_expr_spec(toks, i + 1, (f - 1) as nat) {
                        Ok((e, j)) => match expect_spec(toks, j, TokenTypeView::RightParan) {
                            Ok(j2) => Ok((e, j2)),
                            Err(e2) => Err(e2),
                        },
                        Err(e) => Err(e),
                    }
                }
            },
            k => Err(ParseErrorView::Unexpected { found: k, index: toks[i].index }),
        }
    }
}

/// Call arguments after the opening parenthesis, through the closing one.
/// A comma immediately after an argument is skipped.
pub open spec fn parse_args_spec(toks: Seq<TokenView>, i: int, f: nat) -> Result<
    (Seq<ExprView>, int),
    ParseErrorView,
>
    decreases f, 8int,
{
    if !(0 <= i < toks.len()) {
        Err(ParseErrorView::UnexpectedEnd)
    } else if toks[i].token_type == TokenTypeView::RightParan {
        Ok((Seq::empty(), i + 1))
    } else if f == 0 {
        vstd::pervasive::arbitrary()
    } else {
        match parse_expr_spec(toks, i, f) {
            Err(e) => Err(e),
            Ok((e0, j)) => {
                let j2 = if 0 <= j < toks.len() && toks[j].token_type == TokenTypeView::Comma {
                    j + 1
                } else {
                    j
                };
                match parse_args_spec(toks, j2, (f - 1) as nat) {
                    Ok((rest, jr)) => Ok((seq![e0] + rest, jr)),
                    Err(e) => Err(e),
                }
            },
        }
    }
}

/// The equality level, after its first operand.
pub open spec fn parse_equals_more_spec(
    toks: Seq<TokenView>,
    left: ExprView,
    i: int,
    f: nat,
) -> Result<(ExprView, int), ParseErrorView>
    decreases f, 1int,
{
    match op_at(toks, i) {
        Some(op) => {
            if op == OperatorType::Equals || op == OperatorType::NotEquals {
                if f == 0 {
                    vstd::pervasive::arbitrary()
                } else {
                    match parse_primary_spec(toks, i + 1, f) {
                        Err(e) => Err(e),
                        Ok((right, j)) => parse_equals_more_spec(
                            toks,
                            ExprView::Binary(Box::new(BinaryExprView { left, right, op })),
                            j,
                            (f - 1) as nat,
                        ),
                    }
                }
            } else {
                Ok((left, i))
            }
        },
        None => Ok((left, i)),
    }
}

/// The equality level: `==` and `!=`, binding tightest of the binary
/// operators, left-associated.
pub open spec fn parse_equals_spec(toks: Seq<TokenView>, i: int, f: nat) -> Result<
    (ExprView, int),
    ParseErrorView,
>
    decreases f, 2int,
{
    match parse_primary_spec(toks, i, f) {
        Err(e) => Err(e),
        Ok((left, j)) => parse_equals_more_spec(toks, left, j, f),
    }
}

/// The multiplicative level, after its first operand.
pub open spec fn parse_mul_div_more_spec(
    toks: Seq<TokenView>,
    left: ExprView,
    i: int,
    f: nat,
) -> Result<(ExprView, int), ParseErrorView>
    decreases f, 3int,
{
    match op_at(toks, i) {
        Some(op) => {
            if op == OperatorType::Multiplication || op == OperatorType::Division {
                if f == 0 {
                    vstd::pervasive::arbitrary()
                } else {
                    match parse_equals_spec(toks, i + 1, f) {
                        Err(e) => Err(e),
                        Ok((right, j)) => parse_mul_div_more_spec(
                            toks,
                            ExprView::Binary(Box::new(BinaryExprView { left, right, op })),
                            j,
                            (f - 1) as nat,
                        ),
                    }
                }
            } else {
                Ok((left, i))
            }
        },
        None => Ok((left, i)),
    }
}

/// The multiplicative level: `*` and `/`, left-associated.
pub open spec fn parse_mul_div_spec(toks: Seq<TokenView>, i: int, f: nat) -> Result<
    (ExprView, int),
    ParseErrorView,
>
    decreases f, 4int,
{
    match parse_equals_spec(toks, i, f) {
        Err(e) => Err(e),
        Ok((left, j)) => parse_mul_div_more_spec(toks, left, j, f),
    }
}

/// The additive level, after its first operand.
pub open spec fn parse_add_sub_more_spec(
    toks: Seq<TokenView>,
    left: ExprView,
    i: int,
    f: nat,
) -> Result<(ExprView, int), ParseErrorView>
    decreases f, 5int,
{
    match op_at(toks, i) {
        Some(op) => {
            if op == OperatorType::Addition || op == OperatorType::Subtraction {
                if f == 0 {
                    vstd::pervasive::arbitrary()
                } else {
                    match parse_mul_div_spec(toks, i + 1, f) {
                        Err(e) => Err(e),
                        Ok((right, j)) => parse_add_sub_more_spec(
                            toks,
                            ExprView::Binary(Box::new(BinaryExprView { left, right, op })),
                            j,
                            (f - 1) as nat,
                        ),
                    }
                }
            } else {
                Ok((left, i))
            }
        },
        None => Ok((left, i)),
    }
}

/// The additive level: `+` and `-`, left-associated, binding loosest.
pub open spec fn parse_add_sub_spec(toks: Seq<TokenView>, i: int, f: nat) -> Result<
    (ExprView, int),
    ParseErrorView,
>
    decreases f, 6int,
{
    match parse_mul_div_spec(toks, i, f) {
        Err(e) => Err(e),
        Ok((left, j)) => parse_add_sub_more_spec(toks, left, j, f),
    }
}

/// A full expression: entry at the loosest-binding level.
pub open spec fn parse_expr_spec(toks: Seq<TokenView>, i: int, f: nat) -> Result<
    (ExprView, int),
    ParseErrorView,
>
    decreases f, 7int,
{
    parse_add_sub_spec(toks, i, f)
}

/// A parenthesized parameter-name list, through the closing parenthesis.
/// A comma immediately before a name is skipped.
pub open spec fn parse_params_spec(toks: Seq<TokenView>, i: int, f: nat) -> Result<
    (Seq<Seq<char>>, int),
    ParseErrorView,
>
    decreases f, 8int,
{
    if !(0 <= i < toks.len()) {
        Err(ParseErrorView::UnexpectedEnd)
    } else if toks[i].token_type == TokenTypeView::RightParan {
        Ok((Seq::empty(), i + 1))
    } else if f == 0 {
        vstd::pervasive::arbitrary()
    } else {
        let j0 = if toks[i].token_type == TokenTypeView::Comma {
            i + 1
        } else {
            i
        };
        match expect_ident_spec(toks, j0) {
            Err(e) => Err(e),
            Ok((name, j1)) => match parse_params_spec(toks, j1, (f - 1) as nat) {
                Ok((rest, jr)) => Ok((seq![name] + rest, jr)),
                Err(e) => Err(e),
            },
        }
    }
}

/// A call in statement position, bound to the discard name. `i` is the
/// offset of the called identifier.
pub open spec fn parse_call_stmt_spec(toks: Seq<TokenView>, i: int, f: nat) -> Result<
    (StmtView, int),
    ParseErrorView,
>
    decreases f, 8int,
{
    match parse_expr_spec(toks, i, f) {
        Err(e) => Err(e),
        Ok((e, j)) => match expect_spec(toks, j, TokenTypeView::Pipe) {
            Err(e2) => Err(e2),
            Ok(j2) => Ok(
                (
                    StmtView::Assignment(
                        AssignmentStmtView { definition: false, name: "_"@, expr: e },
                    ),
                    j2,
                ),
            ),
        },
    }
}

/// A plain assignment. `i` is the offset of the assigned identifier.
pub open spec fn parse_assign_stmt_spec(
    toks: Seq<TokenView>,
    name: Seq<char>,
    i: int,
    f: nat,
) -> Result<(StmtView, int), ParseErrorView>
    decreases f, 8int,
{
    match expect_spec(toks, i + 1, TokenTypeView::Assignment) {
        Err(e) => Err(e),
        Ok(j0) => match parse_expr_spec(toks, j0, f) {
            Err(e) => Err(e),
            Ok((e, j)) => match expect_spec(toks, j, TokenTypeView::Pipe) {
                Err(e2) => Err(e2),
                Ok(j2) => Ok(
                    (
                        StmtView::Assignment(
                            AssignmentStmtView { definition: false, name: name, expr: e },
                        ),
                        j2,
                    ),
                ),
            },
        },
    }
}

/// A return statement. `i` is the offset of the return keyword; a terminator
/// right after it means "return without a value".
pub open spec fn parse_return_stmt_spec(toks: Seq<TokenView>, i: int, f: nat) -> Result<
    (StmtView, int),
    ParseErrorView,
>
    decreases f, 8int,
{
    if i + 1 < toks.len() && toks[i + 1].token_type == TokenTypeView::Pipe {
        Ok((StmtView::Return(None), i + 2))
    } else {
        match parse_expr_spec(toks, i + 1, f) {
            Err(e) => Err(e),
            Ok((e, j)) => match expect_spec(toks, j, TokenTypeView::Pipe) {
                Err(e2) => Err(e2),
                Ok(j2) => Ok((StmtView::Return(Some(e)), j2)),
            },
        }
    }
}

/// A declaration. `i` is the offset of the declaration keyword.
pub open spec fn parse_vardef_stmt_spec(toks: Seq<TokenView>, i: int, f: nat) -> Result<
    (StmtView, int),
    ParseErrorView,
>
    decreases f, 8int,
{
    match expect_ident_spec(toks, i + 1) {
        Err(e) => Err(e),
        Ok((name, j0)) => match expect_spec(toks, j0, TokenTypeView::Assignment) {
            Err(e) => Err(e),
            Ok(j1) => match parse_expr_spec(toks, j1, f) {
                Err(e) => Err(e),
                Ok((e, j)) => match expect_spec(toks, j, TokenTypeView::Pipe) {
                    Err(e2) => Err(e2),
                    Ok(j2) => Ok(
                        (
                            StmtView::Assignment(
                                AssignmentStmtView { definition: true, name: name, expr: e },
                            ),
                            j2,
                        ),
                    ),
                },
            },
        },
    }
}

/// A conditional. `i` is the offset of the `if` keyword; an else keyword
/// directly after the body opens the optional else block.
pub open spec fn parse_if_stmt_spec(toks: Seq<TokenView>, i: int, f: nat) -> Result<
    (StmtView, int),
    ParseErrorView,
>
    decreases f, 8int,
{
    match parse_expr_spec(toks, i + 1, f) {
        Err(e) => Err(e),
        Ok((cond, j)) => match expect_spec(toks, j, TokenTypeView::LeftBrack) {
            Err(e) => Err(e),
            Ok(j1) => {
                if f == 0 {
                    vstd::pervasive::arbitrary()
                } else {
                    match parse_block_spec(toks, j1, (f - 1) as nat) {
                        Err(e) => Err(e),
                        Ok((body, j2)) => {
                            if 0 <= j2 < toks.len() && toks[j2].token_type
                                == TokenTypeView::Keyword(KeywordType::Else) {
                                match expect_spec(toks, j2 + 1, TokenTypeView::LeftBrack) {
                                    Err(e) => Err(e),
                                    Ok(j3) => match parse_block_spec(toks, j3, (f - 1) as nat) {
                                        Err(e) => Err(e),
                                        Ok((eb, j4)) => Ok(
                                            (
                                                StmtView::If(
                                                    IfStmtView {
                                                        condition: cond,
                                                        body: body,
                                                        else_body: eb,
                                                    },
                                                ),
                                                j4,
                                            ),
                                        ),
                                    },
                                }
                            } else {
                                Ok(
                                    (
                                        StmtView::If(
                                            IfStmtView {
                                                condition: cond,
                                                body: body,
                                                else_body: Seq::empty(),
                                            },
                                        ),
                                        j2,
                                    ),
                                )
                            }
                        },
                    }
                }
            },
        },
    }
}

/// A loop. `i` is the offset of the `while` keyword.
pub open spec fn parse_while_stmt_spec(toks: Seq<TokenView>, i: int, f: nat) -> Result<
    (StmtView, int),
    ParseErrorView,
>
    decreases f, 8int,
{
    match parse_expr_spec(toks, i + 1, f) {
        Err(e) => Err(e),
        Ok((cond, j)) => match expect_spec(toks, j, TokenTypeView::LeftBrack) {
            Err(e) => Err(e),
            Ok(j1) => {
                if f == 0 {
                    vstd::pervasive::arbitrary()
                } else {
                    match parse_block_spec(toks, j1, (f - 1) as nat) {
                        Err(e) => Err(e),
                        Ok((body, j2)) => Ok(
                            (StmtView::While(WhileStmtView { condition: cond, body: body }), j2),
                        ),
                    }
                }
            },
        },
    }
}

/// A function declaration. `i` is the offset of the function keyword.
pub open spec fn parse_function_stmt_spec(toks: Seq<TokenView>, i: int, f: nat) -> Result<
    (StmtView, int),
    ParseErrorView,
>
    decreases f, 8int,
{
    match expect_ident_spec(toks, i + 1) {
        Err(e) => Err(e),
        Ok((name, j0)) => match expect_spec(toks, j0, TokenTypeView::LeftParan) {
            Err(e) => Err(e),
            Ok(j1) => {
                if f == 0 {
                    vstd::pervasive::arbitrary()
                } else {
                    match parse_params_spec(toks, j1, (f - 1) as nat) {
                        Err(e) => Err(e),
                        Ok((params, j2)) => match expect_spec(toks, j2, TokenTypeView::LeftBrack) {
                            Err(e) => Err(e),
                            Ok(j3) => match parse_block_spec(toks, j3, (f - 1) as nat) {
                                Err(e) => Err(e),
                                Ok((body, j4)) => Ok(
                                    (
                                        StmtView::Function(
                                            FunctionStmtView {
                                                name: name,
                                                params: params,
                                                body: body,
                                            },
                                        ),
                                        j4,
                                    ),
                                ),
                            },
                        },
                    }
                }
            },
        },
    }
}

/// One statement, starting at offset `i`: dispatch on the first token.
pub open spec fn parse_stmt_spec(toks: Seq<TokenView>, i: int, f: nat) -> Result<
    (StmtView, int),
    ParseErrorView,
>
    decreases f, 9int,
{
    if !(0 <= i < toks.len()) {
        Err(ParseErrorView::UnexpectedEnd)
    } else {
        match toks[i].token_type {
            TokenTypeView::Identifier(name) => {
                if i + 1 >= toks.len() {
                    Err(ParseErrorView::UnexpectedEnd)
                } else if toks[i + 1].token_type == TokenTypeView::LeftParan {
                    parse_call_stmt_spec(toks, i, f)
                } else {
                    parse_assign_stmt_spec(toks, name, i, f)
                }
            },
            TokenTypeView::Return => parse_return_stmt_spec(toks, i, f),
            TokenTypeView::Keyword(k) => match k {
                KeywordType::VarDef => parse_vardef_stmt_spec(toks, i, f),
                KeywordType::If => parse_if_stmt_spec(toks, i, f),
                KeywordType::While => parse_while_stmt_spec(toks, i, f),
                KeywordType::Function => parse_function_stmt_spec(toks, i, f),
                _ => Err(
                    ParseErrorView::Unexpected {
                        found: toks[i].token_type,
                        index: toks[i].index,
                    },
                ),
            },
            k => Err(ParseErrorView::Unexpected { found: k, index: toks[i].index }),
        }
    }
}

/// A brace-delimited statement block, through the closing bracket.
pub open spec fn parse_block_spec(toks: Seq<TokenView>, i: int, f: nat) -> Result<
    (Seq<StmtView>, int),
    ParseErrorView,
>
    decreases f, 10int,
{
    if !(0 <= i < toks.len()) {
        Err(ParseErrorView::UnexpectedEnd)
    } else if toks[i].token_type == TokenTypeView::RightBrack {
        Ok((Seq::empty(), i + 1))
    } else {
        match parse_stmt_spec(toks, i, f) {
            Err(e) => Err(e),
            Ok((s, j)) => {
                if f == 0 {
                    vstd::pervasive::arbitrary()
                } else {
                    match parse_block_spec(toks, j, (f - 1) as nat) {
                        Err(e) => Err(e),
                        Ok((rest, j2)) => Ok((seq![s] + rest, j2)),
                    }
                }
            },
        }
    }
}

/// All statements from offset `i` to the end of the input.
pub open spec fn parse_items_spec(toks: Seq<TokenView>, i: int, f: nat) -> Result<
    Seq<StmtView>,
    ParseErrorView,
>
    decreases f, 10int,
{
    if i >= toks.len() {
        Ok(Seq::empty())
    } else {
        match parse_stmt_spec(toks, i, f) {
            Err(e) => Err(e),
            Ok((s, j)) => {
                if f == 0 {
                    vstd::pervasive::arbitrary()
                } else {
                    match parse_items_spec(toks, j, (f - 1) as nat) {
                        Err(e) => Err(e),
                        Ok(rest) => Ok(seq![s] + rest),
                    }
                }
            },
        }
    }
}

/// The whole-input parse: every token consumed, from the first offset, with
/// fuel that always suffices.
pub open spec fn parse_program_spec(toks: Seq<TokenView>) -> Result<ProgramView, ParseErrorView> {
    match parse_items_spec(toks, 0, (toks.len() + 1) as nat) {
        Ok(ss) => Ok(ProgramView { statements: ss }),
        Err(e) => Err(e),
    }
}

/// Concatenation distributes over statement views.
pub proof fn lemma_stmts_view_concat(a: Seq<Stmt>, b: Seq<Stmt>)
    ensures
        stmts_view(a + b) == stmts_view(a) + stmts_view(b),
{
    lemma_stmts_view_len(a);
    lemma_stmts_view_len(b);
    assert forall|i: int| 0 <= i < (a + b).len() implies (stmts_view(a) + stmts_view(b))[i] == #[trigger] (a + b)[i]@ by {
        if i < a.len() {
            lemma_stmts_view_index(a, i);
        } else {
            lemma_stmts_view_index(b, i - a.len());
        }
    }
    lemma_stmts_view_ext(a + b, stmts_view(a) + stmts_view(b));
}

/// Extracting the payload out of a token variant that carries one.
pub trait EnumExtractor<T>: View<V = TokenTypeView> + Sized {
    /// Whether this kind of token carries a payload of this type at all.
    spec fn extractable(kind: TokenTypeView) -> bool;

    /// Whether this kind of token extracts to exactly the value `v`.
    spec fn extracts_to(kind: TokenTypeView, v: &T) -> bool;

    /// The payload, when the variant carries one of type `T`.
    fn extract(&self) -> (r: Option<T>)
        ensures
            match r {
                Some(v) => Self::extracts_to(self@, &v) && Self::extractable(self@),
                None => !Self::extractable(self@),
            },
    ;
}

impl EnumExtractor<String> for TokenType {
    open spec fn extractable(kind: TokenTypeView) -> bool {
        kind is Identifier
    }

    open spec fn extracts_to(kind: TokenTypeView, v: &String) -> bool {
        match kind {
            TokenTypeView::Identifier(s) => s == v@,
            _ => false,
        }
    }

    fn extract(&self) -> (r: Option<String>) {
        match self {
            TokenType::Identifier(value) => Some(value.clone()),
            _ => None,
        }
    }
}

impl EnumExtractor<i64> for TokenType {
    open spec fn extractable(kind: TokenTypeView) -> bool {
        kind is Integer
    }

    open spec fn extracts_to(kind: TokenTypeView, v: &i64) -> bool {
        match kind {
            TokenTypeView::Integer(n) => n == *v,
            _ => false,
        }
    }

    fn extract(&self) -> (r: Option<i64>) {
        match self {
            TokenType::Integer(value) => Some(*value),
            _ => None,
        }
    }
}

/// Mathematical image of the parser's state.
pub ghost struct ParserView {
    pub program: ProgramView,
    pub tokens: Seq<TokenView>,
    pub idx: int,
}

/// Single-pass recursive-descent parser with one token of lookahead.
pub struct Parser {
    pub program: Program,
    tokens: Vec<Token>,
    idx: usize,
}

impl View for Parser {
    type V = ParserView;

    closed spec fn view(&self) -> ParserView {
        ParserView {
            program: self.program@,
            tokens: views_of(self.tokens@),
            idx: self.idx as int,
        }
    }
}

impl Parser {
    pub fn new(tokens: Vec<Token>) -> (p: Parser)
        ensures
            p@.tokens == views_of(tokens@),
            p@.idx == 0,
            p@.program.statements == Seq::<StmtView>::empty(),
    {
        let p = Parser { program: Program { statements: Vec::new() }, tokens, idx: 0 };
        proof {
            assert(stmts_view(Seq::<Stmt>::empty()) == Seq::<StmtView>::empty());
        }
        p
    }

    /// Consumes one token of the expected variant, as `expect_spec` says.
    pub fn expect(&mut self, expected: TokenType) -> (r: Result<(), ParseError>)
        ensures
            final(self)@.tokens == old(self)@.tokens,
            final(self)@.program == old(self)@.program,
            match r {
                Ok(_) => expect_spec(old(self)@.tokens, old(self)@.idx, expected@) == Ok::<
                    int,
                    ParseErrorView,
                >(final(self)@.idx),
                Err(e) => final(self)@.idx == old(self)@.idx && expect_spec(
                    old(self)@.tokens,
                    old(self)@.idx,
                    expected@,
                ) == Err::<int, ParseErrorView>(e@),
            },
    {
        if self.idx >= self.tokens.len() {
            return Err(ParseError::UnexpectedEnd);
        }
        if variant_eq(&self.tokens[self.idx].token_type, &expected) {
            self.idx += 1;
            Ok(())
        } else {
            let found = self.tokens[self.idx].token_type.duplicate();
            let index = self.tokens[self.idx].index;
            Err(ParseError::Expected { expected, found, index })
        }
    }

    /// Consumes one token of the expected variant and hands its payload out.
    pub fn expect_with_value<T: Clone>(&mut self, expected: TokenType) -> (r: Result<
        T,
        ParseError,
    >) where TokenType: EnumExtractor<T>
        ensures
            final(self)@.tokens == old(self)@.tokens,
            final(self)@.program == old(self)@.program,
            match r {
                Ok(v) => {
                    &&& 0 <= old(self)@.idx < old(self)@.tokens.len()
                    &&& final(self)@.idx == old(self)@.idx + 1
                    &&& <TokenType as EnumExtractor<T>>::extracts_to(
                        old(self)@.tokens[old(self)@.idx].token_type,
                        &v,
                    )
                    &&& same_variant(old(self)@.tokens[old(self)@.idx].token_type, expected@)
                },
                Err(e) => {
                    &&& final(self)@.idx == old(self)@.idx
                    &&& e@ == (if !(0 <= old(self)@.idx < old(self)@.tokens.len()) {
                        ParseErrorView::UnexpectedEnd
                    } else {
                        ParseErrorView::Expected {
                            expected: expected@,
                            found: old(self)@.tokens[old(self)@.idx].token_type,
                            index: old(self)@.tokens[old(self)@.idx].index,
                        }
                    })
                    &&& (0 <= old(self)@.idx < old(self)@.tokens.len() ==> !(
                    <TokenType as EnumExtractor<T>>::extractable(
                        old(self)@.tokens[old(self)@.idx].token_type,
                    ) && same_variant(old(self)@.tokens[old(self)@.idx].token_type, expected@)))
                },
            },
    {
        if self.idx >= self.tokens.len() {
            return Err(ParseError::UnexpectedEnd);
        }
        let extracted: Option<T> = self.tokens[self.idx].token_type.extract();
        match extracted {
            Some(inner) => {
                if variant_eq(&self.tokens[self.idx].token_type, &expected) {
                    self.idx += 1;
                    Ok(inner)
                } else {
                    let found = self.tokens[self.idx].token_type.duplicate();
                    let index = self.tokens[self.idx].index;
                    Err(ParseError::Expected { expected, found, index })
                }
            },
            None => {
                let found = self.tokens[self.idx].token_type.duplicate();
                let index = self.tokens[self.idx].index;
                Err(ParseError::Expected { expected, found, index })
            },
        }
    }

    /// The operator under the cursor, left unconsumed.
    fn parse_operator(&self) -> (r: Option<OperatorType>)
        ensures
            r == op_at(self@.tokens, self@.idx),
    {
        if self.idx < self.tokens.len() {
            match &self.tokens[self.idx].token_type {
                TokenType::Operator(op) => Some(*op),
                _ => None,
            }
        } else {
            None
        }
    }

    fn parse_primary_expr(&mut self) -> (r: Result<Expr, ParseError>)
        ensures
            final(self)@.tokens == old(self)@.tokens,
            final(self)@.program == old(self)@.program,
            match r {
                Ok(_) => old(self)@.idx < final(self)@.idx <= old(self)@.tokens.len(),
                Err(_) => true,
            },
            forall|f: nat|
                f >= fuel_lb(old(self)@.tokens, old(self)@.idx) ==> parse_primary_spec(
                    old(self)@.tokens,
                    old(self)@.idx,
                    f,
                ) == (match r {
                    Ok(e) => Ok::<(ExprView, int), ParseErrorView>((e@, final(self)@.idx)),
                    Err(pe) => Err::<(ExprView, int), ParseErrorView>(pe@),
                }),
        decreases self.tokens@.len() - self.idx, 0int,
    {
        let ghost toks = self@.tokens;
        let ghost i0 = self@.idx;
        if self.idx >= self.tokens.len() {
            return Err(ParseError::UnexpectedEnd);
        }
        let tok = self.tokens[self.idx].duplicate();
        match tok.token_type {
            TokenType::Integer(value) => {
                self.idx += 1;
                Ok(Expr::Number(value))
            },
            TokenType::Identifier(name) => {
                self.idx += 1;
                // One token of lookahead: a call if an opening parenthesis follows.
                if self.idx < self.tokens.len() && matches!(
                    self.tokens[self.idx].token_type,
                    TokenType::LeftParan,
                ) {
                    self.idx += 1;
                    let args = match self.parse_args() {
                        Ok(v) => v,
                        Err(e) => {
                            proof {
                                assert forall|f: nat|
                                    f >= fuel_lb(toks, i0) implies parse_primary_spec(
                                    toks,
                                    i0,
                                    f,
                                ) == Err::<(ExprView, int), ParseErrorView>(e@) by {
                                    assert((f - 1) as nat >= fuel_lb(toks, i0 + 2));
                                    assert(parse_args_spec(toks, i0 + 2, (f - 1) as nat) == Err::<
                                        (Seq<ExprView>, int),
                                        ParseErrorView,
                                    >(e@));
                                }
                            }
                            return Err(e);
                        },
                    };
                    let ghost argsv = exprs_view(args@);
                    let r: Result<Expr, ParseError> = Ok(Expr::Call(name, args));
                    proof {
                        assert forall|f: nat| f >= fuel_lb(toks, i0) implies parse_primary_spec(
                            toks,
                            i0,
                            f,
                        ) == (match r {
                            Ok(e) => Ok::<(ExprView, int), ParseErrorView>((e@, self@.idx)),
                            Err(pe) => Err::<(ExprView, int), ParseErrorView>(pe@),
                        }) by {
                            assert((f - 1) as nat >= fuel_lb(toks, i0 + 2));
                            assert(parse_args_spec(toks, i0 + 2, (f - 1) as nat) == Ok::<
                                (Seq<ExprView>, int),
                                ParseErrorView,
                            >((argsv, self@.idx)));
                        }
                    }
                    r
                } else {
                    Ok(Expr::Variable(name))
                }
            },
            TokenType::LeftParan => {
                self.idx += 1;
                let e = match self.parse_expr() {
                    Ok(e) => e,
                    Err(e) => {
                        proof {
                            assert forall|f: nat| f >= fuel_lb(toks, i0) implies parse_primary_spec(
                                toks,
                                i0,
                                f,
                            ) == Err::<(ExprView, int), ParseErrorView>(e@) by {
                                assert((f - 1) as nat >= fuel_lb(toks, i0 + 1));
                                assert(parse_expr_spec(toks, i0 + 1, (f - 1) as nat) == Err::<
                                    (ExprView, int),
                                    ParseErrorView,
                                >(e@));
                            }
                        }
                        return Err(e);
                    },
                };
                let ghost ev = e@;
                let ghost j = self@.idx;
                match self.expect(TokenType::RightParan) {
                    Ok(_) => {},
                    Err(e2) => {
                        proof {
                            assert forall|f: nat| f >= fuel_lb(toks, i0) implies parse_primary_spec(
                                toks,
                                i0,
                                f,
                            ) == Err::<(ExprView, int), ParseErrorView>(e2@) by {
                                assert((f - 1) as nat >= fuel_lb(toks, i0 + 1));
                                assert(parse_expr_spec(toks, i0 + 1, (f - 1) as nat) == Ok::<
                                    (ExprView, int),
                                    ParseErrorView,
                                >((ev, j)));
                            }
                        }
                        return Err(e2);
                    },
                }
                let r: Result<Expr, ParseError> = Ok(e);
                proof {
                    assert forall|f: nat| f >= fuel_lb(toks, i0) implies parse_primary_spec(
                        toks,
                        i0,
                        f,
                    ) == (match r {
                        Ok(e) => Ok::<(ExprView, int), ParseErrorView>((e@, self@.idx)),
                        Err(pe) => Err::<(ExprView, int), ParseErrorView>(pe@),
                    }) by {
                        assert((f - 1) as nat >= fuel_lb(toks, i0 + 1));
                        assert(parse_expr_spec(toks, i0 + 1, (f - 1) as nat) == Ok::<
                            (ExprView, int),
                            ParseErrorView,
                        >((ev, j)));
                    }
                }
                r
            },
            other => {
                let index = self.tokens[self.idx].index;
                Err(ParseError::Unexpected { found: other, index })
            },
        }
    }

    fn parse_args(&mut self) -> (r: Result<Vec<Expr>, ParseError>)
        ensures
            final(self)@.tokens == old(self)@.tokens,
            final(self)@.program == old(self)@.program,
            match r {
                Ok(_) => old(self)@.idx < final(self)@.idx <= old(self)@.tokens.len(),
                Err(_) => true,
            },
            forall|f: nat|
                f >= fuel_lb(old(self)@.tokens, old(self)@.idx) ==> parse_args_spec(
                    old(self)@.tokens,
                    old(self)@.idx,
                    f,
                ) == (match r {
                    Ok(v) => Ok::<(Seq<ExprView>, int), ParseErrorView>(
                        (exprs_view(v@), final(self)@.idx),
                    ),
                    Err(pe) => Err::<(Seq<ExprView>, int), ParseErrorView>(pe@),
                }),
        decreases self.tokens@.len() - self.idx, 8int,
    {
        let ghost toks = self@.tokens;
        let ghost i0 = self@.idx;
        if self.idx >= self.tokens.len() {
            return Err(ParseError::UnexpectedEnd);
        }
        if matches!(self.tokens[self.idx].token_type, TokenType::RightParan) {
            self.idx += 1;
            let out: Vec<Expr> = Vec::new();
            proof {
                assert(exprs_view(out@) == Seq::<ExprView>::empty());
            }
            return Ok(out);
        }
        let first = match self.parse_expr() {
            Ok(e) => e,
            Err(e) => {
                proof {
                    assert forall|f: nat| f >= fuel_lb(toks, i0) implies parse_args_spec(
                        toks,
                        i0,
                        f,
                    ) == Err::<(Seq<ExprView>, int), ParseErrorView>(e@) by {
                        assert(parse_expr_spec(toks, i0, f) == Err::<
                            (ExprView, int),
                            ParseErrorView,
                        >(e@));
                    }
                }
                return Err(e);
            },
        };
        let ghost firstv = first@;
        let ghost first_snap = first;
        let ghost j = self@.idx;
        if self.idx < self.tokens.len() && matches!(
            self.tokens[self.idx].token_type,
            TokenType::Comma,
        ) {
            self.idx += 1;
        }
        let ghost j2 = self@.idx;
        let mut rest = match self.parse_args() {
            Ok(v) => v,
            Err(e) => {
                proof {
                    assert forall|f: nat| f >= fuel_lb(toks, i0) implies parse_args_spec(
                        toks,
                        i0,
                        f,
                    ) == Err::<(Seq<ExprView>, int), ParseErrorView>(e@) by {
                        assert(parse_expr_spec(toks, i0, f) == Ok::<
                            (ExprView, int),
                            ParseErrorView,
                        >((firstv, j)));
                        assert((f - 1) as nat >= fuel_lb(toks, j2));
                        assert(parse_args_spec(toks, j2, (f - 1) as nat) == Err::<
                            (Seq<ExprView>, int),
                            ParseErrorView,
                        >(e@));
                    }
                }
                return Err(e);
            },
        };
        let ghost rest_seq = rest@;
        let ghost restv = exprs_view(rest@);
        let mut out: Vec<Expr> = Vec::new();
        out.push(first);
        out.append(&mut rest);
        proof {
            assert(out@ =~= seq![first_snap] + rest_seq);
            assert(exprs_view(out@) == seq![out@[0]@] + exprs_view(
                out@.subrange(1, out@.len() as int),
            ));
            assert(out@.subrange(1, out@.len() as int) =~= rest_seq);
            assert(exprs_view(out@) == seq![firstv] + restv);
        }
        let r: Result<Vec<Expr>, ParseError> = Ok(out);
        proof {
            assert forall|f: nat| f >= fuel_lb(toks, i0) implies parse_args_spec(toks, i0, f)
                == (match r {
                Ok(v) => Ok::<(Seq<ExprView>, int), ParseErrorView>(
                    (exprs_view(v@), self@.idx),
                ),
                Err(pe) => Err::<(Seq<ExprView>, int), ParseErrorView>(pe@),
            }) by {
                assert(parse_expr_spec(toks, i0, f) == Ok::<(ExprView, int), ParseErrorView>(
                    (firstv, j),
                ));
                assert((f - 1) as nat >= fuel_lb(toks, j2));
                assert(parse_args_spec(toks, j2, (f - 1) as nat) == Ok::<
                    (Seq<ExprView>, int),
                    ParseErrorView,
                >((restv, self@.idx)));
            }
        }
        r
    }

    fn parse_expr(&mut self) -> (r: Result<Expr, ParseError>)
        ensures
            final(self)@.tokens == old(self)@.tokens,
            final(self)@.program == old(self)@.program,
            match r {
                Ok(_) => old(self)@.idx < final(self)@.idx <= old(self)@.tokens.len(),
                Err(_) => true,
            },
            forall|f: nat|
                f >= fuel_lb(old(self)@.tokens, old(self)@.idx) ==> parse_expr_spec(
                    old(self)@.tokens,
                    old(self)@.idx,
                    f,
                ) == (match r {
                    Ok(e) => Ok::<(ExprView, int), ParseErrorView>((e@, final(self)@.idx)),
                    Err(pe) => Err::<(ExprView, int), ParseErrorView>(pe@),
                }),
        decreases self.tokens@.len() - self.idx, 7int,
    {
        let ghost toks = self@.tokens;
        let ghost i0 = self@.idx;
        let r = self.parse_add_sub_expr();
        proof {
            assert forall|f: nat| f >= fuel_lb(toks, i0) implies parse_expr_spec(toks, i0, f)
                == (match r {
                Ok(e) => Ok::<(ExprView, int), ParseErrorView>((e@, self@.idx)),
                Err(pe) => Err::<(ExprView, int), ParseErrorView>(pe@),
            }) by {
                assert(parse_add_sub_spec(toks, i0, f) == (match r {
                    Ok(e) => Ok::<(ExprView, int), ParseErrorView>((e@, self@.idx)),
                    Err(pe) => Err::<(ExprView, int), ParseErrorView>(pe@),
                }));
            }
        }
        r
    }

    fn parse_add_sub_expr(&mut self) -> (r: Result<Expr, ParseError>)
        ensures
            final(self)@.tokens == old(self)@.tokens,
            final(self)@.program == old(self)@.program,
            match r {
                Ok(_) => old(self)@.idx < final(self)@.idx <= old(self)@.tokens.len(),
                Err(_) => true,
            },
            forall|f: nat|
                f >= fuel_lb(old(self)@.tokens, old(self)@.idx) ==> parse_add_sub_spec(
                    old(self)@.tokens,
                    old(self)@.idx,
                    f,
                ) == (match r {
                    Ok(e) => Ok::<(ExprView, int), ParseErrorView>((e@, final(self)@.idx)),
                    Err(pe) => Err::<(ExprView, int), ParseErrorView>(pe@),
                }),
        decreases self.tokens@.len() - self.idx, 6int,
    {
        let ghost toks = self@.tokens;
        let ghost i0 = self@.idx;
        let left = match self.parse_mul_div_expr() {
            Ok(e) => e,
            Err(e) => {
                proof {
                    assert forall|f: nat| f >= fuel_lb(toks, i0) implies parse_add_sub_spec(
                        toks,
                        i0,
                        f,
                    ) == Err::<(ExprView, int), ParseErrorView>(e@) by {
                        assert(parse_mul_div_spec(toks, i0, f) == Err::<(ExprView, int), ParseErrorView>(
                            e@,
                        ));
                    }
                }
                return Err(e);
            },
        };
        let ghost leftv = left@;
        let ghost j = self@.idx;
        let r = self.parse_add_sub_more(left);
        proof {
            assert forall|f: nat| f >= fuel_lb(toks, i0) implies parse_add_sub_spec(toks, i0, f)
                == (match r {
                Ok(e) => Ok::<(ExprView, int), ParseErrorView>((e@, self@.idx)),
                Err(pe) => Err::<(ExprView, int), ParseErrorView>(pe@),
            }) by {
                assert(parse_mul_div_spec(toks, i0, f) == Ok::<(ExprView, int), ParseErrorView>(
                    (leftv, j),
                ));
                assert(f >= fuel_lb(toks, j));
                assert(parse_add_sub_more_spec(toks, leftv, j, f) == (match r {
                    Ok(e) => Ok::<(ExprView, int), ParseErrorView>((e@, self@.idx)),
                    Err(pe) => Err::<(ExprView, int), ParseErrorView>(pe@),
                }));
            }
        }
        r
    }

    fn parse_add_sub_more(&mut self, left: Expr) -> (r: Result<Expr, ParseError>)
        ensures
            final(self)@.tokens == old(self)@.tokens,
            final(self)@.program == old(self)@.program,
            match r {
                Ok(_) => old(self)@.idx <= final(self)@.idx && (final(self)@.idx <= old(
                    self,
                )@.tokens.len() || final(self)@.idx == old(self)@.idx),
                Err(_) => true,
            },
            forall|f: nat|
                f >= fuel_lb(old(self)@.tokens, old(self)@.idx) ==> parse_add_sub_more_spec(
                    old(self)@.tokens,
                    left@,
                    old(self)@.idx,
                    f,
                ) == (match r {
                    Ok(e) => Ok::<(ExprView, int), ParseErrorView>((e@, final(self)@.idx)),
                    Err(pe) => Err::<(ExprView, int), ParseErrorView>(pe@),
                }),
        decreases self.tokens@.len() - self.idx, 5int,
    {
        let ghost toks = self@.tokens;
        let ghost i0 = self@.idx;
        let ghost leftv = left@;
        match self.parse_operator() {
            Some(op) => match op {
                OperatorType::Addition | OperatorType::Subtraction => {
                    let n = self.tokens.len();
                    proof {
                        assert(0 <= i0 < toks.len());
                        assert(toks.len() == self.tokens@.len());
                    }
                    self.idx += 1;
                    let right = match self.parse_mul_div_expr() {
                        Ok(e) => e,
                        Err(e) => {
                            proof {
                                assert forall|f: nat| f >= fuel_lb(toks, i0) implies parse_add_sub_more_spec(
                                    toks,
                                    leftv,
                                    i0,
                                    f,
                                ) == Err::<(ExprView, int), ParseErrorView>(e@) by {
                                    assert(parse_mul_div_spec(toks, i0 + 1, f) == Err::<
                                        (ExprView, int),
                                        ParseErrorView,
                                    >(e@));
                                }
                            }
                            return Err(e);
                        },
                    };
                    let ghost rightv = right@;
                    let ghost j = self@.idx;
                    let new_left = Expr::Binary(Box::new(BinaryExpr { left, right, op }));
                    let ghost nlv = new_left@;
                    let r = self.parse_add_sub_more(new_left);
                    proof {
                        assert forall|f: nat| f >= fuel_lb(toks, i0) implies parse_add_sub_more_spec(
                            toks,
                            leftv,
                            i0,
                            f,
                        ) == (match r {
                            Ok(e) => Ok::<(ExprView, int), ParseErrorView>((e@, self@.idx)),
                            Err(pe) => Err::<(ExprView, int), ParseErrorView>(pe@),
                        }) by {
                            assert(parse_mul_div_spec(toks, i0 + 1, f) == Ok::<
                                (ExprView, int),
                                ParseErrorView,
                            >((rightv, j)));
                            assert((f - 1) as nat >= fuel_lb(toks, j));
                            assert(parse_add_sub_more_spec(toks, nlv, j, (f - 1) as nat) == (match r {
                                Ok(e) => Ok::<(ExprView, int), ParseErrorView>((e@, self@.idx)),
                                Err(pe) => Err::<(ExprView, int), ParseErrorView>(pe@),
                            }));
                        }
                    }
                    r
                },
                _ => {
                    proof {
                        assert forall|f: nat| f >= fuel_lb(toks, i0) implies parse_add_sub_more_spec(
                            toks,
                            leftv,
                            i0,
                            f,
                        ) == Ok::<(ExprView, int), ParseErrorView>((leftv, i0)) by {}
                    }
                    Ok(left)
                },
            },
            None => {
                proof {
                    assert forall|f: nat| f >= fuel_lb(toks, i0) implies parse_add_sub_more_spec(
                        toks,
                        leftv,
                        i0,
                        f,
                    ) == Ok::<(ExprView, int), ParseErrorView>((leftv, i0)) by {}
                }
                Ok(left)
            },
        }
    }

    fn parse_mul_div_expr(&mut self) -> (r: Result<Expr, ParseError>)
        ensures
            final(self)@.tokens == old(self)@.tokens,
            final(self)@.program == old(self)@.program,
            match r {
                Ok(_) => old(self)@.idx < final(self)@.idx <= old(self)@.tokens.len(),
                Err(_) => true,
            },
            forall|f: nat|
                f >= fuel_lb(old(self)@.tokens, old(self)@.idx) ==> parse_mul_div_spec(
                    old(self)@.tokens,
                    old(self)@.idx,
                    f,
                ) == (match r {
                    Ok(e) => Ok::<(ExprView, int), ParseErrorView>((e@, final(self)@.idx)),
                    Err(pe) => Err::<(ExprView, int), ParseErrorView>(pe@),
                }),
        decreases self.tokens@.len() - self.idx, 4int,
    {
        let ghost toks = self@.tokens;
        let ghost i0 = self@.idx;
        let left = match self.parse_equals_expr() {
            Ok(e) => e,
            Err(e) => {
                proof {
                    assert forall|f: nat| f >= fuel_lb(toks, i0) implies parse_mul_div_spec(
                        toks,
                        i0,
                        f,
                    ) == Err::<(ExprView, int), ParseErrorView>(e@) by {
                        assert(parse_equals_spec(toks, i0, f) == Err::<(ExprView, int), ParseErrorView>(
                            e@,
                        ));
                    }
                }
                return Err(e);
            },
        };
        let ghost leftv = left@;
        let ghost j = self@.idx;
        let r = self.parse_mul_div_more(left);
        proof {
            assert forall|f: nat| f >= fuel_lb(toks, i0) implies parse_mul_div_spec(toks, i0, f)
                == (match r {
                Ok(e) => Ok::<(ExprView, int), ParseErrorView>((e@, self@.idx)),
                Err(pe) => Err::<(ExprView, int), ParseErrorView>(pe@),
            }) by {
                assert(parse_equals_spec(toks, i0, f) == Ok::<(ExprView, int), ParseErrorView>(
                    (leftv, j),
                ));
                assert(f >= fuel_lb(toks, j));
                assert(parse_mul_div_more_spec(toks, leftv, j, f) == (match r {
                    Ok(e) => Ok::<(ExprView, int), ParseErrorView>((e@, self@.idx)),
                    Err(pe) => Err::<(ExprView, int), ParseErrorView>(pe@),
                }));
            }
        }
        r
    }

    fn parse_mul_div_more(&mut self, left: Expr) -> (r: Result<Expr, ParseError>)
        ensures
            final(self)@.tokens == old(self)@.tokens,
            final(self)@.program == old(self)@.program,
            match r {
                Ok(_) => old(self)@.idx <= final(self)@.idx && (final(self)@.idx <= old(
                    self,
                )@.tokens.len() || final(self)@.idx == old(self)@.idx),
                Err(_) => true,
            },
            forall|f: nat|
                f >= fuel_lb(old(self)@.tokens, old(self)@.idx) ==> parse_mul_div_more_spec(
                    old(self)@.tokens,
                    left@,
                    old(self)@.idx,
                    f,
                ) == (match r {
                    Ok(e) => Ok::<(ExprView, int), ParseErrorView>((e@, final(self)@.idx)),
                    Err(pe) => Err::<(ExprView, int), ParseErrorView>(pe@),
                }),
        decreases self.tokens@.len() - self.idx, 3int,
    {
        let ghost toks = self@.tokens;
        let ghost i0 = self@.idx;
        let ghost leftv = left@;
        match self.parse_operator() {
            Some(op) => match op {
                OperatorType::Multiplication | OperatorType::Division => {
                    let n = self.tokens.len();
                    proof {
                        assert(0 <= i0 < toks.len());
                        assert(toks.len() == self.tokens@.len());
                    }
                    self.idx += 1;
                    let right = match self.parse_equals_expr() {
                        Ok(e) => e,
                        Err(e) => {
                            proof {
                                assert forall|f: nat| f >= fuel_lb(toks, i0) implies parse_mul_div_more_spec(
                                    toks,
                                    leftv,
                                    i0,
                                    f,
                                ) == Err::<(ExprView, int), ParseErrorView>(e@) by {
                                    assert(parse_equals_spec(toks, i0 + 1, f) == Err::<
                                        (ExprView, int),
                                        ParseErrorView,
                                    >(e@));
                                }
                            }
                            return Err(e);
                        },
                    };
                    let ghost rightv = right@;
                    let ghost j = self@.idx;
                    let new_left = Expr::Binary(Box::new(BinaryExpr { left, right, op }));
                    let ghost nlv = new_left@;
                    let r = self.parse_mul_div_more(new_left);
                    proof {
                        assert forall|f: nat| f >= fuel_lb(toks, i0) implies parse_mul_div_more_spec(
                            toks,
                            leftv,
                            i0,
                            f,
                        ) == (match r {
                            Ok(e) => Ok::<(ExprView, int), ParseErrorView>((e@, self@.idx)),
                            Err(pe) => Err::<(ExprView, int), ParseErrorView>(pe@),
                        }) by {
                            assert(parse_equals_spec(toks, i0 + 1, f) == Ok::<
                                (ExprView, int),
                                ParseErrorView,
                            >((rightv, j)));
                            assert((f - 1) as nat >= fuel_lb(toks, j));
                            assert(parse_mul_div_more_spec(toks, nlv, j, (f - 1) as nat) == (match r {
                                Ok(e) => Ok::<(ExprView, int), ParseErrorView>((e@, self@.idx)),
                                Err(pe) => Err::<(ExprView, int), ParseErrorView>(pe@),
                            }));
                        }
                    }
                    r
                },
                _ => {
                    proof {
                        assert forall|f: nat| f >= fuel_lb(toks, i0) implies parse_mul_div_more_spec(
                            toks,
                            leftv,
                            i0,
                            f,
                        ) == Ok::<(ExprView, int), ParseErrorView>((leftv, i0)) by {}
                    }
                    Ok(left)
                },
            },
            None => {
                proof {
                    assert forall|f: nat| f >= fuel_lb(toks, i0) implies parse_mul_div_more_spec(
                        toks,
                        leftv,
                        i0,
                        f,
                    ) == Ok::<(ExprView, int), ParseErrorView>((leftv, i0)) by {}
                }
                Ok(left)
            },
        }
    }

    fn parse_equals_expr(&mut self) -> (r: Result<Expr, ParseError>)
        ensures
            final(self)@.tokens == old(self)@.tokens,
            final(self)@.program == old(self)@.program,
            match r {
                Ok(_) => old(self)@.idx < final(self)@.idx <= old(self)@.tokens.len(),
                Err(_) => true,
            },
            forall|f: nat|
                f >= fuel_lb(old(self)@.tokens, old(self)@.idx) ==> parse_equals_spec(
                    old(self)@.tokens,
                    old(self)@.idx,
                    f,
                ) == (match r {
                    Ok(e) => Ok::<(ExprView, int), ParseErrorView>((e@, final(self)@.idx)),
                    Err(pe) => Err::<(ExprView, int), ParseErrorView>(pe@),
                }),
        decreases self.tokens@.len() - self.idx, 2int,
    {
        let ghost toks = self@.tokens;
        let ghost i0 = self@.idx;
        let left = match self.parse_primary_expr() {
            Ok(e) => e,
            Err(e) => {
                proof {
                    assert forall|f: nat| f >= fuel_lb(toks, i0) implies parse_equals_spec(
                        toks,
                        i0,
                        f,
                    ) == Err::<(ExprView, int), ParseErrorView>(e@) by {
                        assert(parse_primary_spec(toks, i0, f) == Err::<(ExprView, int), ParseErrorView>(
                            e@,
                        ));
                    }
                }
                return Err(e);
            },
        };
        let ghost leftv = left@;
        let ghost j = self@.idx;
        let r = self.parse_equals_more(left);
        proof {
            assert forall|f: nat| f >= fuel_lb(toks, i0) implies parse_equals_spec(toks, i0, f)
                == (match r {
                Ok(e) => Ok::<(ExprView, int), ParseErrorView>((e@, self@.idx)),
                Err(pe) => Err::<(ExprView, int), ParseErrorView>(pe@),
            }) by {
                assert(parse_primary_spec(toks, i0, f) == Ok::<(ExprView, int), ParseErrorView>(
                    (leftv, j),
                ));
                assert(f >= fuel_lb(toks, j));
                assert(parse_equals_more_spec(toks, leftv, j, f) == (match r {
                    Ok(e) => Ok::<(ExprView, int), ParseErrorView>((e@, self@.idx)),
                    Err(pe) => Err::<(ExprView, int), ParseErrorView>(pe@),
                }));
            }
        }
        r
    }

    fn parse_equals_more(&mut self, left: Expr) -> (r: Result<Expr, ParseError>)
        ensures
            final(self)@.tokens == old(self)@.tokens,
            final(self)@.program == old(self)@.program,
            match r {
                Ok(_) => old(self)@.idx <= final(self)@.idx && (final(self)@.idx <= old(
                    self,
                )@.tokens.len() || final(self)@.idx == old(self)@.idx),
                Err(_) => true,
            },
            forall|f: nat|
                f >= fuel_lb(old(self)@.tokens, old(self)@.idx) ==> parse_equals_more_spec(
                    old(self)@.tokens,
                    left@,
                    old(self)@.idx,
                    f,
                ) == (match r {
                    Ok(e) => Ok::<(ExprView, int), ParseErrorView>((e@, final(self)@.idx)),
                    Err(pe) => Err::<(ExprView, int), ParseErrorView>(pe@),
                }),
        decreases self.tokens@.len() - self.idx, 1int,
    {
        let ghost toks = self@.tokens;
        let ghost i0 = self@.idx;
        let ghost leftv = left@;
        match self.parse_operator() {
            Some(op) => match op {
                OperatorType::Equals | OperatorType::NotEquals => {
                    let n = self.tokens.len();
                    proof {
                        assert(0 <= i0 < toks.len());
                        assert(toks.len() == self.tokens@.len());
                    }
                    self.idx += 1;
                    let right = match self.parse_primary_expr() {
                        Ok(e) => e,
                        Err(e) => {
                            proof {
                                assert forall|f: nat| f >= fuel_lb(toks, i0) implies parse_equals_more_spec(
                                    toks,
                                    leftv,
                                    i0,
                                    f,
                                ) == Err::<(ExprView, int), ParseErrorView>(e@) by {
                                    assert(parse_primary_spec(toks, i0 + 1, f) == Err::<
                                        (ExprView, int),
                                        ParseErrorView,
                                    >(e@));
                                }
                            }
                            return Err(e);
                        },
                    };
                    let ghost rightv = right@;
                    let ghost j = self@.idx;
                    let new_left = Expr::Binary(Box::new(BinaryExpr { left, right, op }));
                    let ghost nlv = new_left@;
                    let r = self.parse_equals_more(new_left);
                    proof {
                        assert forall|f: nat| f >= fuel_lb(toks, i0) implies parse_equals_more_spec(
                            toks,
                            leftv,
                            i0,
                            f,
                        ) == (match r {
                            Ok(e) => Ok::<(ExprView, int), ParseErrorView>((e@, self@.idx)),
                            Err(pe) => Err::<(ExprView, int), ParseErrorView>(pe@),
                        }) by {
                            assert(parse_primary_spec(toks, i0 + 1, f) == Ok::<
                                (ExprView, int),
                                ParseErrorView,
                            >((rightv, j)));
                            assert((f - 1) as nat >= fuel_lb(toks, j));
                            assert(parse_equals_more_spec(toks, nlv, j, (f - 1) as nat) == (match r {
                                Ok(e) => Ok::<(ExprView, int), ParseErrorView>((e@, self@.idx)),
                                Err(pe) => Err::<(ExprView, int), ParseErrorView>(pe@),
                            }));
                        }
                    }
                    r
                },
                _ => {
                    proof {
                        assert forall|f: nat| f >= fuel_lb(toks, i0) implies parse_equals_more_spec(
                            toks,
                            leftv,
                            i0,
                            f,
                        ) == Ok::<(ExprView, int), ParseErrorView>((leftv, i0)) by {}
                    }
                    Ok(left)
                },
            },
            None => {
                proof {
                    assert forall|f: nat| f >= fuel_lb(toks, i0) implies parse_equals_more_spec(
                        toks,
                        leftv,
                        i0,
                        f,
                    ) == Ok::<(ExprView, int), ParseErrorView>((leftv, i0)) by {}
                }
                Ok(left)
            },
        }
    }

    fn parse_params(&mut self) -> (r: Result<Vec<String>, ParseError>)
        ensures
            final(self)@.tokens == old(self)@.tokens,
            final(self)@.program == old(self)@.program,
            match r {
                Ok(_) => old(self)@.idx < final(self)@.idx <= old(self)@.tokens.len(),
                Err(_) => true,
            },
            forall|f: nat|
                f >= fuel_lb(old(self)@.tokens, old(self)@.idx) ==> parse_params_spec(
                    old(self)@.tokens,
                    old(self)@.idx,
                    f,
                ) == (match r {
                    Ok(v) => Ok::<(Seq<Seq<char>>, int), ParseErrorView>(
                        (strings_view(v@), final(self)@.idx),
                    ),
                    Err(pe) => Err::<(Seq<Seq<char>>, int), ParseErrorView>(pe@),
                }),
        decreases self.tokens@.len() - self.idx, 8int,
    {
        let ghost toks = self@.tokens;
        let ghost i0 = self@.idx;
        if self.idx >= self.tokens.len() {
            return Err(ParseError::UnexpectedEnd);
        }
        if matches!(self.tokens[self.idx].token_type, TokenType::RightParan) {
            self.idx += 1;
            let out: Vec<String> = Vec::new();
            proof {
                assert(strings_view(out@) =~= Seq::<Seq<char>>::empty());
            }
            return Ok(out);
        }
        if matches!(self.tokens[self.idx].token_type, TokenType::Comma) {
            self.idx += 1;
        }
        let ghost j0 = self@.idx;
        let name = match self.expect_with_value::<String>(TokenType::Identifier(String::new())) {
            Ok(v) => v,
            Err(e) => {
                proof {
                    assert forall|f: nat| f >= fuel_lb(toks, i0) implies parse_params_spec(
                        toks,
                        i0,
                        f,
                    ) == Err::<(Seq<Seq<char>>, int), ParseErrorView>(e@) by {
                        assert(expect_ident_spec(toks, j0) == Err::<
                            (Seq<char>, int),
                            ParseErrorView,
                        >(e@));
                    }
                }
                return Err(e);
            },
        };
        let ghost namev = name@;
        let ghost name_snap = name;
        let ghost j1 = self@.idx;
        let mut rest = match self.parse_params() {
            Ok(v) => v,
            Err(e) => {
                proof {
                    assert forall|f: nat| f >= fuel_lb(toks, i0) implies parse_params_spec(
                        toks,
                        i0,
                        f,
                    ) == Err::<(Seq<Seq<char>>, int), ParseErrorView>(e@) by {
                        assert(expect_ident_spec(toks, j0) == Ok::<
                            (Seq<char>, int),
                            ParseErrorView,
                        >((namev, j1)));
                        assert((f - 1) as nat >= fuel_lb(toks, j1));
                        assert(parse_params_spec(toks, j1, (f - 1) as nat) == Err::<
                            (Seq<Seq<char>>, int),
                            ParseErrorView,
                        >(e@));
                    }
                }
                return Err(e);
            },
        };
        let ghost rest_seq = rest@;
        let ghost restv = strings_view(rest@);
        let mut out: Vec<String> = Vec::new();
        out.push(name);
        out.append(&mut rest);
        proof {
            assert(out@ =~= seq![name_snap] + rest_seq);
            assert(strings_view(out@) =~= seq![namev] + restv);
        }
        let r: Result<Vec<String>, ParseError> = Ok(out);
        proof {
            assert forall|f: nat| f >= fuel_lb(toks, i0) implies parse_params_spec(toks, i0, f)
                == (match r {
                Ok(v) => Ok::<(Seq<Seq<char>>, int), ParseErrorView>(
                    (strings_view(v@), self@.idx),
                ),
                Err(pe) => Err::<(Seq<Seq<char>>, int), ParseErrorView>(pe@),
            }) by {
                assert(expect_ident_spec(toks, j0) == Ok::<(Seq<char>, int), ParseErrorView>(
                    (namev, j1),
                ));
                assert((f - 1) as nat >= fuel_lb(toks, j1));
                assert(parse_params_spec(toks, j1, (f - 1) as nat) == Ok::<
                    (Seq<Seq<char>>, int),
                    ParseErrorView,
                >((restv, self@.idx)));
            }
        }
        r
    }

    fn parse_call_stmt(&mut self) -> (r: Result<Stmt, ParseError>)
        ensures
            final(self)@.tokens == old(self)@.tokens,
            final(self)@.program == old(self)@.program,
            match r {
                Ok(_) => old(self)@.idx < final(self)@.idx <= old(self)@.tokens.len(),
                Err(_) => true,
            },
            forall|f: nat|
                f >= fuel_lb(old(self)@.tokens, old(self)@.idx) ==> parse_call_stmt_spec(
                    old(self)@.tokens,
                    old(self)@.idx,
                    f,
                ) == (match r {
                    Ok(s) => Ok::<(StmtView, int), ParseErrorView>((s@, final(self)@.idx)),
                    Err(pe) => Err::<(StmtView, int), ParseErrorView>(pe@),
                }),
        decreases self.tokens@.len() - self.idx, 8int,
    {
        let ghost toks = self@.tokens;
        let ghost i0 = self@.idx;
        let expr = match self.parse_expr() {
            Ok(e) => e,
            Err(e) => {
                proof {
                    assert forall|f: nat| f >= fuel_lb(toks, i0) implies parse_call_stmt_spec(
                        toks,
                        i0,
                        f,
                    ) == Err::<(StmtView, int), ParseErrorView>(e@) by {
                        assert(parse_expr_spec(toks, i0, f) == Err::<
                            (ExprView, int),
                            ParseErrorView,
                        >(e@));
                    }
                }
                return Err(e);
            },
        };
        let ghost ev = expr@;
        let ghost j = self@.idx;
        match self.expect(TokenType::Pipe) {
            Ok(_) => {},
            Err(e) => {
                proof {
                    assert forall|f: nat| f >= fuel_lb(toks, i0) implies parse_call_stmt_spec(
                        toks,
                        i0,
                        f,
                    ) == Err::<(StmtView, int), ParseErrorView>(e@) by {
                        assert(parse_expr_spec(toks, i0, f) == Ok::<
                            (ExprView, int),
                            ParseErrorView,
                        >((ev, j)));
                    }
                }
                return Err(e);
            },
        }
        let r: Result<Stmt, ParseError> = Ok(
            Stmt::Assignment(
                AssignmentStmt { definition: false, name: String::from_str("_"), expr },
            ),
        );
        proof {
            assert forall|f: nat| f >= fuel_lb(toks, i0) implies parse_call_stmt_spec(
                toks,
                i0,
                f,
            ) == (match r {
                Ok(s) => Ok::<(StmtView, int), ParseErrorView>((s@, self@.idx)),
                Err(pe) => Err::<(StmtView, int), ParseErrorView>(pe@),
            }) by {
                assert(parse_expr_spec(toks, i0, f) == Ok::<(ExprView, int), ParseErrorView>(
                    (ev, j),
                ));
            }
        }
        r
    }

    fn parse_assign_stmt(&mut self, name: String) -> (r: Result<Stmt, ParseError>)
        requires
            old(self)@.idx < old(self)@.tokens.len(),
        ensures
            final(self)@.tokens == old(self)@.tokens,
            final(self)@.program == old(self)@.program,
            match r {
                Ok(_) => old(self)@.idx < final(self)@.idx <= old(self)@.tokens.len(),
                Err(_) => true,
            },
            forall|f: nat|
                f >= fuel_lb(old(self)@.tokens, old(self)@.idx) ==> parse_assign_stmt_spec(
                    old(self)@.tokens,
                    name@,
                    old(self)@.idx,
                    f,
                ) == (match r {
                    Ok(s) => Ok::<(StmtView, int), ParseErrorView>((s@, final(self)@.idx)),
                    Err(pe) => Err::<(StmtView, int), ParseErrorView>(pe@),
                }),
        decreases self.tokens@.len() - self.idx, 8int,
    {
        let ghost toks = self@.tokens;
        let ghost i0 = self@.idx;
        let ghost namev = name@;
        let n = self.tokens.len();
        proof {
            assert(toks.len() == self.tokens@.len());
        }
        self.idx += 1;
        match self.expect(TokenType::Assignment) {
            Ok(_) => {},
            Err(e) => return Err(e),
        }
        let ghost j0 = self@.idx;
        let expr = match self.parse_expr() {
            Ok(e) => e,
            Err(e) => {
                proof {
                    assert forall|f: nat| f >= fuel_lb(toks, i0) implies parse_assign_stmt_spec(
                        toks,
                        namev,
                        i0,
                        f,
                    ) == Err::<(StmtView, int), ParseErrorView>(e@) by {
                        assert(parse_expr_spec(toks, j0, f) == Err::<
                            (ExprView, int),
                            ParseErrorView,
                        >(e@));
                    }
                }
                return Err(e);
            },
        };
        let ghost ev = expr@;
        let ghost j = self@.idx;
        match self.expect(TokenType::Pipe) {
            Ok(_) => {},
            Err(e) => {
                proof {
                    assert forall|f: nat| f >= fuel_lb(toks, i0) implies parse_assign_stmt_spec(
                        toks,
                        namev,
                        i0,
                        f,
                    ) == Err::<(StmtView, int), ParseErrorView>(e@) by {
                        assert(parse_expr_spec(toks, j0, f) == Ok::<
                            (ExprView, int),
                            ParseErrorView,
                        >((ev, j)));
                    }
                }
                return Err(e);
            },
        }
        let r: Result<Stmt, ParseError> = Ok(
            Stmt::Assignment(AssignmentStmt { definition: false, name, expr }),
        );
        proof {
            assert forall|f: nat| f >= fuel_lb(toks, i0) implies parse_assign_stmt_spec(
                toks,
                namev,
                i0,
                f,
            ) == (match r {
                Ok(s) => Ok::<(StmtView, int), ParseErrorView>((s@, self@.idx)),
                Err(pe) => Err::<(StmtView, int), ParseErrorView>(pe@),
            }) by {
                assert(parse_expr_spec(toks, j0, f) == Ok::<(ExprView, int), ParseErrorView>(
                    (ev, j),
                ));
            }
        }
        r
    }

    fn parse_return_stmt(&mut self) -> (r: Result<Stmt, ParseError>)
        requires
            old(self)@.idx < old(self)@.tokens.len(),
        ensures
            final(self)@.tokens == old(self)@.tokens,
            final(self)@.program == old(self)@.program,
            match r {
                Ok(_) => old(self)@.idx < final(self)@.idx <= old(self)@.tokens.len(),
                Err(_) => true,
            },
            forall|f: nat|
                f >= fuel_lb(old(self)@.tokens, old(self)@.idx) ==> parse_return_stmt_spec(
                    old(self)@.tokens,
                    old(self)@.idx,
                    f,
                ) == (match r {
                    Ok(s) => Ok::<(StmtView, int), ParseErrorView>((s@, final(self)@.idx)),
                    Err(pe) => Err::<(StmtView, int), ParseErrorView>(pe@),
                }),
        decreases self.tokens@.len() - self.idx, 8int,
    {
        let ghost toks = self@.tokens;
        let ghost i0 = self@.idx;
        let n = self.tokens.len();
        proof {
            assert(toks.len() == self.tokens@.len());
        }
        self.idx += 1;
        if self.idx < self.tokens.len() && matches!(
            self.tokens[self.idx].token_type,
            TokenType::Pipe,
        ) {
            self.idx += 1;
            return Ok(Stmt::Return(Box::new(None)));
        }
        let ghost j0 = self@.idx;
        let expr = match self.parse_expr() {
            Ok(e) => e,
            Err(e) => {
                proof {
                    assert forall|f: nat| f >= fuel_lb(toks, i0) implies parse_return_stmt_spec(
                        toks,
                        i0,
                        f,
                    ) == Err::<(StmtView, int), ParseErrorView>(e@) by {
                        assert(parse_expr_spec(toks, j0, f) == Err::<
                            (ExprView, int),
                            ParseErrorView,
                        >(e@));
                    }
                }
                return Err(e);
            },
        };
        let ghost ev = expr@;
        let ghost j = self@.idx;
        match self.expect(TokenType::Pipe) {
            Ok(_) => {},
            Err(e) => {
                proof {
                    assert forall|f: nat| f >= fuel_lb(toks, i0) implies parse_return_stmt_spec(
                        toks,
                        i0,
                        f,
                    ) == Err::<(StmtView, int), ParseErrorView>(e@) by {
                        assert(parse_expr_spec(toks, j0, f) == Ok::<
                            (ExprView, int),
                            ParseErrorView,
                        >((ev, j)));
                    }
                }
                return Err(e);
            },
        }
        let r: Result<Stmt, ParseError> = Ok(Stmt::Return(Box::new(Some(expr))));
        proof {
            assert forall|f: nat| f >= fuel_lb(toks, i0) implies parse_return_stmt_spec(
                toks,
                i0,
                f,
            ) == (match r {
                Ok(s) => Ok::<(StmtView, int), ParseErrorView>((s@, self@.idx)),
                Err(pe) => Err::<(StmtView, int), ParseErrorView>(pe@),
            }) by {
                assert(parse_expr_spec(toks, j0, f) == Ok::<(ExprView, int), ParseErrorView>(
                    (ev, j),
                ));
            }
        }
        r
    }

    fn parse_vardef_stmt(&mut self) -> (r: Result<Stmt, ParseError>)
        requires
            old(self)@.idx < old(self)@.tokens.len(),
        ensures
            final(self)@.tokens == old(self)@.tokens,
            final(self)@.program == old(self)@.program,
            match r {
                Ok(_) => old(self)@.idx < final(self)@.idx <= old(self)@.tokens.len(),
                Err(_) => true,
            },
            forall|f: nat|
                f >= fuel_lb(old(self)@.tokens, old(self)@.idx) ==> parse_vardef_stmt_spec(
                    old(self)@.tokens,
                    old(self)@.idx,
                    f,
                ) == (match r {
                    Ok(s) => Ok::<(StmtView, int), ParseErrorView>((s@, final(self)@.idx)),
                    Err(pe) => Err::<(StmtView, int), ParseErrorView>(pe@),
                }),
        decreases self.tokens@.len() - self.idx, 8int,
    {
        let ghost toks = self@.tokens;
        let ghost i0 = self@.idx;
        let n = self.tokens.len();
        proof {
            assert(toks.len() == self.tokens@.len());
        }
        self.idx += 1;
        let name = match self.expect_with_value::<String>(TokenType::Identifier(String::new())) {
            Ok(v) => v,
            Err(e) => {
                proof {
                    assert forall|f: nat| f >= fuel_lb(toks, i0) implies parse_vardef_stmt_spec(
                        toks,
                        i0,
                        f,
                    ) == Err::<(StmtView, int), ParseErrorView>(e@) by {
                        assert(expect_ident_spec(toks, i0 + 1) == Err::<
                            (Seq<char>, int),
                            ParseErrorView,
                        >(e@));
                    }
                }
                return Err(e);
            },
        };
        let ghost namev = name@;
        match self.expect(TokenType::Assignment) {
            Ok(_) => {},
            Err(e) => {
                proof {
                    assert forall|f: nat| f >= fuel_lb(toks, i0) implies parse_vardef_stmt_spec(
                        toks,
                        i0,
                        f,
                    ) == Err::<(StmtView, int), ParseErrorView>(e@) by {
                        assert(expect_ident_spec(toks, i0 + 1) == Ok::<
                            (Seq<char>, int),
                            ParseErrorView,
                        >((namev, i0 + 2)));
                    }
                }
                return Err(e);
            },
        }
        let ghost j1 = self@.idx;
        let expr = match self.parse_expr() {
            Ok(e) => e,
            Err(e) => {
                proof {
                    assert forall|f: nat| f >= fuel_lb(toks, i0) implies parse_vardef_stmt_spec(
                        toks,
                        i0,
                        f,
                    ) == Err::<(StmtView, int), ParseErrorView>(e@) by {
                        assert(expect_ident_spec(toks, i0 + 1) == Ok::<
                            (Seq<char>, int),
                            ParseErrorView,
                        >((namev, i0 + 2)));
                        assert(parse_expr_spec(toks, j1, f) == Err::<
                            (ExprView, int),
                            ParseErrorView,
                        >(e@));
                    }
                }
                return Err(e);
            },
        };
        let ghost ev = expr@;
        let ghost j = self@.idx;
        match self.expect(TokenType::Pipe) {
            Ok(_) => {},
            Err(e) => {
                proof {
                    assert forall|f: nat| f >= fuel_lb(toks, i0) implies parse_vardef_stmt_spec(
                        toks,
                        i0,
                        f,
                    ) == Err::<(StmtView, int), ParseErrorView>(e@) by {
                        assert(expect_ident_spec(toks, i0 + 1) == Ok::<
                            (Seq<char>, int),
                            ParseErrorView,
                        >((namev, i0 + 2)));
                        assert(parse_expr_spec(toks, j1, f) == Ok::<
                            (ExprView, int),
                            ParseErrorView,
                        >((ev, j)));
                    }
                }
                return Err(e);
            },
        }
        let r: Result<Stmt, ParseError> = Ok(
            Stmt::Assignment(AssignmentStmt { definition: true, name, expr }),
        );
        proof {
            assert forall|f: nat| f >= fuel_lb(toks, i0) implies parse_vardef_stmt_spec(
                toks,
                i0,
                f,
            ) == (match r {
                Ok(s) => Ok::<(StmtView, int), ParseErrorView>((s@, self@.idx)),
                Err(pe) => Err::<(StmtView, int), ParseErrorView>(pe@),
            }) by {
                assert(expect_ident_spec(toks, i0 + 1) == Ok::<(Seq<char>, int), ParseErrorView>(
                    (namev, i0 + 2),
                ));
                assert(parse_expr_spec(toks, j1, f) == Ok::<(ExprView, int), ParseErrorView>(
                    (ev, j),
                ));
            }
        }
        r
    }

    #[verifier::rlimit(60)]
    fn parse_if_stmt(&mut self) -> (r: Result<Stmt, ParseError>)
        requires
            old(self)@.idx < old(self)@.tokens.len(),
        ensures
            final(self)@.tokens == old(self)@.tokens,
            final(self)@.program == old(self)@.program,
            match r {
                Ok(_) => old(self)@.idx < final(self)@.idx <= old(self)@.tokens.len(),
                Err(_) => true,
            },
            forall|f: nat|
                f >= fuel_lb(old(self)@.tokens, old(self)@.idx) ==> parse_if_stmt_spec(
                    old(self)@.tokens,
                    old(self)@.idx,
                    f,
                ) == (match r {
                    Ok(s) => Ok::<(StmtView, int), ParseErrorView>((s@, final(self)@.idx)),
                    Err(pe) => Err::<(StmtView, int), ParseErrorView>(pe@),
                }),
        decreases self.tokens@.len() - self.idx, 8int,
    {
        let ghost toks = self@.tokens;
        let ghost i0 = self@.idx;
        let n = self.tokens.len();
        proof {
            assert(toks.len() == self.tokens@.len());
        }
        self.idx += 1;
        let condition = match self.parse_expr() {
            Ok(e) => e,
            Err(e) => {
                proof {
                    assert forall|f: nat| f >= fuel_lb(toks, i0) implies parse_if_stmt_spec(
                        toks,
                        i0,
                        f,
                    ) == Err::<(StmtView, int), ParseErrorView>(e@) by {
                        assert(parse_expr_spec(toks, i0 + 1, f) == Err::<
                            (ExprView, int),
                            ParseErrorView,
                        >(e@));
                    }
                }
                return Err(e);
            },
        };
        let ghost condv = condition@;
        let ghost j = self@.idx;
        match self.expect(TokenType::LeftBrack) {
            Ok(_) => {},
            Err(e) => {
                proof {
                    assert forall|f: nat| f >= fuel_lb(toks, i0) implies parse_if_stmt_spec(
                        toks,
                        i0,
                        f,
                    ) == Err::<(StmtView, int), ParseErrorView>(e@) by {
                        assert(parse_expr_spec(toks, i0 + 1, f) == Ok::<
                            (ExprView, int),
                            ParseErrorView,
                        >((condv, j)));
                    }
                }
                return Err(e);
            },
        }
        let ghost j1 = self@.idx;
        let body = match self.parse_block() {
            Ok(v) => v,
            Err(e) => {
                proof {
                    assert forall|f: nat| f >= fuel_lb(toks, i0) implies parse_if_stmt_spec(
                        toks,
                        i0,
                        f,
                    ) == Err::<(StmtView, int), ParseErrorView>(e@) by {
                        assert(parse_expr_spec(toks, i0 + 1, f) == Ok::<
                            (ExprView, int),
                            ParseErrorView,
                        >((condv, j)));
                        assert((f - 1) as nat >= fuel_lb(toks, j1));
                        assert(parse_block_spec(toks, j1, (f - 1) as nat) == Err::<
                            (Seq<StmtView>, int),
                            ParseErrorView,
                        >(e@));
                    }
                }
                return Err(e);
            },
        };
        let ghost bodyv = stmts_view(body@);
        let ghost j2 = self@.idx;
        let mut else_body: Vec<Stmt> = Vec::new();
        proof {
            assert(stmts_view(else_body@) == Seq::<StmtView>::empty());
        }
        let mut has_else = false;
        let ghost mut j3: int = 0;
        if self.idx < self.tokens.len() && matches!(
            self.tokens[self.idx].token_type,
            TokenType::Keyword(KeywordType::Else),
        ) {
            has_else = true;
            self.idx += 1;
            match self.expect(TokenType::LeftBrack) {
                Ok(_) => {},
                Err(e) => {
                    proof {
                        assert forall|f: nat| f >= fuel_lb(toks, i0) implies parse_if_stmt_spec(
                            toks,
                            i0,
                            f,
                        ) == Err::<(StmtView, int), ParseErrorView>(e@) by {
                            assert(parse_expr_spec(toks, i0 + 1, f) == Ok::<
                                (ExprView, int),
                                ParseErrorView,
                            >((condv, j)));
                            assert((f - 1) as nat >= fuel_lb(toks, j1));
                            assert(parse_block_spec(toks, j1, (f - 1) as nat) == Ok::<
                                (Seq<StmtView>, int),
                                ParseErrorView,
                            >((bodyv, j2)));
                        }
                    }
                    return Err(e);
                },
            }
            proof {
                j3 = self@.idx;
            }
            else_body = match self.parse_block() {
                Ok(v) => v,
                Err(e) => {
                    proof {
                        assert forall|f: nat| f >= fuel_lb(toks, i0) implies parse_if_stmt_spec(
                            toks,
                            i0,
                            f,
                        ) == Err::<(StmtView, int), ParseErrorView>(e@) by {
                            assert(parse_expr_spec(toks, i0 + 1, f) == Ok::<
                                (ExprView, int),
                                ParseErrorView,
                            >((condv, j)));
                            assert((f - 1) as nat >= fuel_lb(toks, j1));
                            assert(parse_block_spec(toks, j1, (f - 1) as nat) == Ok::<
                                (Seq<StmtView>, int),
                                ParseErrorView,
                            >((bodyv, j2)));
                            assert((f - 1) as nat >= fuel_lb(toks, j3));
                            assert(parse_block_spec(toks, j3, (f - 1) as nat) == Err::<
                                (Seq<StmtView>, int),
                                ParseErrorView,
                            >(e@));
                        }
                    }
                    return Err(e);
                },
            };
        }
        let ghost ebv = stmts_view(else_body@);
        let r: Result<Stmt, ParseError> = Ok(Stmt::If(IfStmt { condition, body, else_body }));
        proof {
            assert forall|f: nat| f >= fuel_lb(toks, i0) implies parse_if_stmt_spec(toks, i0, f)
                == (match r {
                Ok(s) => Ok::<(StmtView, int), ParseErrorView>((s@, self@.idx)),
                Err(pe) => Err::<(StmtView, int), ParseErrorView>(pe@),
            }) by {
                assert(parse_expr_spec(toks, i0 + 1, f) == Ok::<(ExprView, int), ParseErrorView>(
                    (condv, j),
                ));
                assert((f - 1) as nat >= fuel_lb(toks, j1));
                assert(parse_block_spec(toks, j1, (f - 1) as nat) == Ok::<
                    (Seq<StmtView>, int),
                    ParseErrorView,
                >((bodyv, j2)));
                if has_else {
                    assert((f - 1) as nat >= fuel_lb(toks, j3));
                    assert(parse_block_spec(toks, j3, (f - 1) as nat) == Ok::<
                        (Seq<StmtView>, int),
                        ParseErrorView,
                    >((ebv, self@.idx)));
                }
            }
        }
        r
    }

    fn parse_while_stmt(&mut self) -> (r: Result<Stmt, ParseError>)
        requires
            old(self)@.idx < old(self)@.tokens.len(),
        ensures
            final(self)@.tokens == old(self)@.tokens,
            final(self)@.program == old(self)@.program,
            match r {
                Ok(_) => old(self)@.idx < final(self)@.idx <= old(self)@.tokens.len(),
                Err(_) => true,
            },
            forall|f: nat|
                f >= fuel_lb(old(self)@.tokens, old(self)@.idx) ==> parse_while_stmt_spec(
                    old(self)@.tokens,
                    old(self)@.idx,
                    f,
                ) == (match r {
                    Ok(s) => Ok::<(StmtView, int), ParseErrorView>((s@, final(self)@.idx)),
                    Err(pe) => Err::<(StmtView, int), ParseErrorView>(pe@),
                }),
        decreases self.tokens@.len() - self.idx, 8int,
    {
        let ghost toks = self@.tokens;
        let ghost i0 = self@.idx;
        let n = self.tokens.len();
        proof {
            assert(toks.len() == self.tokens@.len());
        }
        self.idx += 1;
        let condition = match self.parse_expr() {
            Ok(e) => e,
            Err(e) => {
                proof {
                    assert forall|f: nat| f >= fuel_lb(toks, i0) implies parse_while_stmt_spec(
                        toks,
                        i0,
                        f,
                    ) == Err::<(StmtView, int), ParseErrorView>(e@) by {
                        assert(parse_expr_spec(toks, i0 + 1, f) == Err::<
                            (ExprView, int),
                            ParseErrorView,
                        >(e@));
                    }
                }
                return Err(e);
            },
        };
        let ghost condv = condition@;
        let ghost j = self@.idx;
        match self.expect(TokenType::LeftBrack) {
            Ok(_) => {},
            Err(e) => {
                proof {
                    assert forall|f: nat| f >= fuel_lb(toks, i0) implies parse_while_stmt_spec(
                        toks,
                        i0,
                        f,
                    ) == Err::<(StmtView, int), ParseErrorView>(e@) by {
                        assert(parse_expr_spec(toks, i0 + 1, f) == Ok::<
                            (ExprView, int),
                            ParseErrorView,
                        >((condv, j)));
                    }
                }
                return Err(e);
            },
        }
        let ghost j1 = self@.idx;
        let body = match self.parse_block() {
            Ok(v) => v,
            Err(e) => {
                proof {
                    assert forall|f: nat| f >= fuel_lb(toks, i0) implies parse_while_stmt_spec(
                        toks,
                        i0,
                        f,
                    ) == Err::<(StmtView, int), ParseErrorView>(e@) by {
                        assert(parse_expr_spec(toks, i0 + 1, f) == Ok::<
                            (ExprView, int),
                            ParseErrorView,
                        >((condv, j)));
                        assert((f - 1) as nat >= fuel_lb(toks, j1));
                        assert(parse_block_spec(toks, j1, (f - 1) as nat) == Err::<
                            (Seq<StmtView>, int),
                            ParseErrorView,
                        >(e@));
                    }
                }
                return Err(e);
            },
        };
        let ghost bodyv = stmts_view(body@);
        let r: Result<Stmt, ParseError> = Ok(Stmt::While(WhileStmt { condition, body }));
        proof {
            assert forall|f: nat| f >= fuel_lb(toks, i0) implies parse_while_stmt_spec(
                toks,
                i0,
                f,
            ) == (match r {
                Ok(s) => Ok::<(StmtView, int), ParseErrorView>((s@, self@.idx)),
                Err(pe) => Err::<(StmtView, int), ParseErrorView>(pe@),
            }) by {
                assert(parse_expr_spec(toks, i0 + 1, f) == Ok::<(ExprView, int), ParseErrorView>(
                    (condv, j),
                ));
                assert((f - 1) as nat >= fuel_lb(toks, j1));
                assert(parse_block_spec(toks, j1, (f - 1) as nat) == Ok::<
                    (Seq<StmtView>, int),
                    ParseErrorView,
                >((bodyv, self@.idx)));
            }
        }
        r
    }

    fn parse_function_stmt(&mut self) -> (r: Result<Stmt, ParseError>)
        requires
            old(self)@.idx < old(self)@.tokens.len(),
        ensures
            final(self)@.tokens == old(self)@.tokens,
            final(self)@.program == old(self)@.program,
            match r {
                Ok(_) => old(self)@.idx < final(self)@.idx <= old(self)@.tokens.len(),
                Err(_) => true,
            },
            forall|f: nat|
                f >= fuel_lb(old(self)@.tokens, old(self)@.idx) ==> parse_function_stmt_spec(
                    old(self)@.tokens,
                    old(self)@.idx,
                    f,
                ) == (match r {
                    Ok(s) => Ok::<(StmtView, int), ParseErrorView>((s@, final(self)@.idx)),
                    Err(pe) => Err::<(StmtView, int), ParseErrorView>(pe@),
                }),
        decreases self.tokens@.len() - self.idx, 8int,
    {
        let ghost toks = self@.tokens;
        let ghost i0 = self@.idx;
        let n = self.tokens.len();
        proof {
            assert(toks.len() == self.tokens@.len());
        }
        self.idx += 1;
        let name = match self.expect_with_value::<String>(TokenType::Identifier(String::new())) {
            Ok(v) => v,
            Err(e) => {
                proof {
                    assert forall|f: nat| f >= fuel_lb(toks, i0) implies parse_function_stmt_spec(
                        toks,
                        i0,
                        f,
                    ) == Err::<(StmtView, int), ParseErrorView>(e@) by {
                        assert(expect_ident_spec(toks, i0 + 1) == Err::<
                            (Seq<char>, int),
                            ParseErrorView,
                        >(e@));
                    }
                }
                return Err(e);
            },
        };
        let ghost namev = name@;
        match self.expect(TokenType::LeftParan) {
            Ok(_) => {},
            Err(e) => {
                proof {
                    assert forall|f: nat| f >= fuel_lb(toks, i0) implies parse_function_stmt_spec(
                        toks,
                        i0,
                        f,
                    ) == Err::<(StmtView, int), ParseErrorView>(e@) by {
                        assert(expect_ident_spec(toks, i0 + 1) == Ok::<
                            (Seq<char>, int),
                            ParseErrorView,
                        >((namev, i0 + 2)));
                    }
                }
                return Err(e);
            },
        }
        let ghost j1 = self@.idx;
        let params = match self.parse_params() {
            Ok(v) => v,
            Err(e) => {
                proof {
                    assert forall|f: nat| f >= fuel_lb(toks, i0) implies parse_function_stmt_spec(
                        toks,
                        i0,
                        f,
                    ) == Err::<(StmtView, int), ParseErrorView>(e@) by {
                        assert(expect_ident_spec(toks, i0 + 1) == Ok::<
                            (Seq<char>, int),
                            ParseErrorView,
                        >((namev, i0 + 2)));
                        assert((f - 1) as nat >= fuel_lb(toks, j1));
                        assert(parse_params_spec(toks, j1, (f - 1) as nat) == Err::<
                            (Seq<Seq<char>>, int),
                            ParseErrorView,
                        >(e@));
                    }
                }
                return Err(e);
            },
        };
        let ghost paramsv = strings_view(params@);
        let ghost j2 = self@.idx;
        match self.expect(TokenType::LeftBrack) {
            Ok(_) => {},
            Err(e) => {
                proof {
                    assert forall|f: nat| f >= fuel_lb(toks, i0) implies parse_function_stmt_spec(
                        toks,
                        i0,
                        f,
                    ) == Err::<(StmtView, int), ParseErrorView>(e@) by {
                        assert(expect_ident_spec(toks, i0 + 1) == Ok::<
                            (Seq<char>, int),
                            ParseErrorView,
                        >((namev, i0 + 2)));
                        assert((f - 1) as nat >= fuel_lb(toks, j1));
                        assert(parse_params_spec(toks, j1, (f - 1) as nat) == Ok::<
                            (Seq<Seq<char>>, int),
                            ParseErrorView,
                        >((paramsv, j2)));
                    }
                }
                return Err(e);
            },
        }
        let ghost j3 = self@.idx;
        let body = match self.parse_block() {
            Ok(v) => v,
            Err(e) => {
                proof {
                    assert forall|f: nat| f >= fuel_lb(toks, i0) implies parse_function_stmt_spec(
                        toks,
                        i0,
                        f,
                    ) == Err::<(StmtView, int), ParseErrorView>(e@) by {
                        assert(expect_ident_spec(toks, i0 + 1) == Ok::<
                            (Seq<char>, int),
                            ParseErrorView,
                        >((namev, i0 + 2)));
                        assert((f - 1) as nat >= fuel_lb(toks, j1));
                        assert(parse_params_spec(toks, j1, (f - 1) as nat) == Ok::<
                            (Seq<Seq<char>>, int),
                            ParseErrorView,
                        >((paramsv, j2)));
                        assert((f - 1) as nat >= fuel_lb(toks, j3));
                        assert(parse_block_spec(toks, j3, (f - 1) as nat) == Err::<
                            (Seq<StmtView>, int),
                            ParseErrorView,
                        >(e@));
                    }
                }
                return Err(e);
            },
        };
        let ghost bodyv = stmts_view(body@);
        let r: Result<Stmt, ParseError> = Ok(Stmt::Function(FunctionStmt { name, params, body }));
        proof {
            assert forall|f: nat| f >= fuel_lb(toks, i0) implies parse_function_stmt_spec(
                toks,
                i0,
                f,
            ) == (match r {
                Ok(s) => Ok::<(StmtView, int), ParseErrorView>((s@, self@.idx)),
                Err(pe) => Err::<(StmtView, int), ParseErrorView>(pe@),
            }) by {
                assert(expect_ident_spec(toks, i0 + 1) == Ok::<(Seq<char>, int), ParseErrorView>(
                    (namev, i0 + 2),
                ));
                assert((f - 1) as nat >= fuel_lb(toks, j1));
                assert(parse_params_spec(toks, j1, (f - 1) as nat) == Ok::<
                    (Seq<Seq<char>>, int),
                    ParseErrorView,
                >((paramsv, j2)));
                assert((f - 1) as nat >= fuel_lb(toks, j3));
                assert(parse_block_spec(toks, j3, (f - 1) as nat) == Ok::<
                    (Seq<StmtView>, int),
                    ParseErrorView,
                >((bodyv, self@.idx)));
            }
        }
        r
    }

    fn parse_stmt(&mut self) -> (r: Result<Stmt, ParseError>)
        ensures
            final(self)@.tokens == old(self)@.tokens,
            final(self)@.program == old(self)@.program,
            match r {
                Ok(_) => old(self)@.idx < final(self)@.idx <= old(self)@.tokens.len(),
                Err(_) => true,
            },
            forall|f: nat|
                f >= fuel_lb(old(self)@.tokens, old(self)@.idx) ==> parse_stmt_spec(
                    old(self)@.tokens,
                    old(self)@.idx,
                    f,
                ) == (match r {
                    Ok(s) => Ok::<(StmtView, int), ParseErrorView>((s@, final(self)@.idx)),
                    Err(pe) => Err::<(StmtView, int), ParseErrorView>(pe@),
                }),
        decreases self.tokens@.len() - self.idx, 9int,
    {
        let ghost toks = self@.tokens;
        let ghost i0 = self@.idx;
        if self.idx >= self.tokens.len() {
            return Err(ParseError::UnexpectedEnd);
        }
        proof {
            assert(toks.len() == self.tokens@.len());
        }
        let tok = self.tokens[self.idx].duplicate();
        match tok.token_type {
            TokenType::Identifier(name) => {
                if self.idx + 1 >= self.tokens.len() {
                    return Err(ParseError::UnexpectedEnd);
                }
                if matches!(self.tokens[self.idx + 1].token_type, TokenType::LeftParan) {
                    let r = self.parse_call_stmt();
                    proof {
                        assert forall|f: nat| f >= fuel_lb(toks, i0) implies parse_stmt_spec(
                            toks,
                            i0,
                            f,
                        ) == (match r {
                            Ok(s) => Ok::<(StmtView, int), ParseErrorView>((s@, self@.idx)),
                            Err(pe) => Err::<(StmtView, int), ParseErrorView>(pe@),
                        }) by {
                            assert(parse_call_stmt_spec(toks, i0, f) == (match r {
                                Ok(s) => Ok::<(StmtView, int), ParseErrorView>((s@, self@.idx)),
                                Err(pe) => Err::<(StmtView, int), ParseErrorView>(pe@),
                            }));
                        }
                    }
                    r
                } else {
                    let ghost namev = name@;
                    let r = self.parse_assign_stmt(name);
                    proof {
                        assert forall|f: nat| f >= fuel_lb(toks, i0) implies parse_stmt_spec(
                            toks,
                            i0,
                            f,
                        ) == (match r {
                            Ok(s) => Ok::<(StmtView, int), ParseErrorView>((s@, self@.idx)),
                            Err(pe) => Err::<(StmtView, int), ParseErrorView>(pe@),
                        }) by {
                            assert(parse_assign_stmt_spec(toks, namev, i0, f) == (match r {
                                Ok(s) => Ok::<(StmtView, int), ParseErrorView>((s@, self@.idx)),
                                Err(pe) => Err::<(StmtView, int), ParseErrorView>(pe@),
                            }));
                        }
                    }
                    r
                }
            },
            TokenType::Return => {
                let r = self.parse_return_stmt();
                proof {
                    assert forall|f: nat| f >= fuel_lb(toks, i0) implies parse_stmt_spec(
                        toks,
                        i0,
                        f,
                    ) == (match r {
                        Ok(s) => Ok::<(StmtView, int), ParseErrorView>((s@, self@.idx)),
                        Err(pe) => Err::<(StmtView, int), ParseErrorView>(pe@),
                    }) by {
                        assert(parse_return_stmt_spec(toks, i0, f) == (match r {
                            Ok(s) => Ok::<(StmtView, int), ParseErrorView>((s@, self@.idx)),
                            Err(pe) => Err::<(StmtView, int), ParseErrorView>(pe@),
                        }));
                    }
                }
                r
            },
            TokenType::Keyword(k) => match k {
                KeywordType::VarDef => {
                    let r = self.parse_vardef_stmt();
                    proof {
                        assert forall|f: nat| f >= fuel_lb(toks, i0) implies parse_stmt_spec(
                            toks,
                            i0,
                            f,
                        ) == (match r {
                            Ok(s) => Ok::<(StmtView, int), ParseErrorView>((s@, self@.idx)),
                            Err(pe) => Err::<(StmtView, int), ParseErrorView>(pe@),
                        }) by {
                            assert(parse_vardef_stmt_spec(toks, i0, f) == (match r {
                                Ok(s) => Ok::<(StmtView, int), ParseErrorView>((s@, self@.idx)),
                                Err(pe) => Err::<(StmtView, int), ParseErrorView>(pe@),
                            }));
                        }
                    }
                    r
                },
                KeywordType::If => {
                    let r = self.parse_if_stmt();
                    proof {
                        assert forall|f: nat| f >= fuel_lb(toks, i0) implies parse_stmt_spec(
                            toks,
                            i0,
                            f,
                        ) == (match r {
                            Ok(s) => Ok::<(StmtView, int), ParseErrorView>((s@, self@.idx)),
                            Err(pe) => Err::<(StmtView, int), ParseErrorView>(pe@),
                        }) by {
                            assert(parse_if_stmt_spec(toks, i0, f) == (match r {
                                Ok(s) => Ok::<(StmtView, int), ParseErrorView>((s@, self@.idx)),
                                Err(pe) => Err::<(StmtView, int), ParseErrorView>(pe@),
                            }));
                        }
                    }
                    r
                },
                KeywordType::While => {
                    let r = self.parse_while_stmt();
                    proof {
                        assert forall|f: nat| f >= fuel_lb(toks, i0) implies parse_stmt_spec(
                            toks,
                            i0,
                            f,
                        ) == (match r {
                            Ok(s) => Ok::<(StmtView, int), ParseErrorView>((s@, self@.idx)),
                            Err(pe) => Err::<(StmtView, int), ParseErrorView>(pe@),
                        }) by {
                            assert(parse_while_stmt_spec(toks, i0, f) == (match r {
                                Ok(s) => Ok::<(StmtView, int), ParseErrorView>((s@, self@.idx)),
                                Err(pe) => Err::<(StmtView, int), ParseErrorView>(pe@),
                            }));
                        }
                    }
                    r
                },
                KeywordType::Function => {
                    let r = self.parse_function_stmt();
                    proof {
                        assert forall|f: nat| f >= fuel_lb(toks, i0) implies parse_stmt_spec(
                            toks,
                            i0,
                            f,
                        ) == (match r {
                            Ok(s) => Ok::<(StmtView, int), ParseErrorView>((s@, self@.idx)),
                            Err(pe) => Err::<(StmtView, int), ParseErrorView>(pe@),
                        }) by {
                            assert(parse_function_stmt_spec(toks, i0, f) == (match r {
                                Ok(s) => Ok::<(StmtView, int), ParseErrorView>((s@, self@.idx)),
                                Err(pe) => Err::<(StmtView, int), ParseErrorView>(pe@),
                            }));
                        }
                    }
                    r
                },
                _ => {
                    let index = self.tokens[self.idx].index;
                    Err(ParseError::Unexpected { found: TokenType::Keyword(k), index })
                },
            },
            other => {
                let index = self.tokens[self.idx].index;
                Err(ParseError::Unexpected { found: other, index })
            },
        }
    }

    fn parse_block(&mut self) -> (r: Result<Vec<Stmt>, ParseError>)
        ensures
            final(self)@.tokens == old(self)@.tokens,
            final(self)@.program == old(self)@.program,
            match r {
                Ok(_) => old(self)@.idx < final(self)@.idx <= old(self)@.tokens.len(),
                Err(_) => true,
            },
            forall|f: nat|
                f >= fuel_lb(old(self)@.tokens, old(self)@.idx) ==> parse_block_spec(
                    old(self)@.tokens,
                    old(self)@.idx,
                    f,
                ) == (match r {
                    Ok(v) => Ok::<(Seq<StmtView>, int), ParseErrorView>(
                        (stmts_view(v@), final(self)@.idx),
                    ),
                    Err(pe) => Err::<(Seq<StmtView>, int), ParseErrorView>(pe@),
                }),
        decreases self.tokens@.len() - self.idx, 10int,
    {
        let ghost toks = self@.tokens;
        let ghost i0 = self@.idx;
        if self.idx >= self.tokens.len() {
            return Err(ParseError::UnexpectedEnd);
        }
        if matches!(self.tokens[self.idx].token_type, TokenType::RightBrack) {
            self.idx += 1;
            let out: Vec<Stmt> = Vec::new();
            proof {
                assert(stmts_view(out@) == Seq::<StmtView>::empty());
            }
            return Ok(out);
        }
        let first = match self.parse_stmt() {
            Ok(s) => s,
            Err(e) => {
                proof {
                    assert forall|f: nat| f >= fuel_lb(toks, i0) implies parse_block_spec(
                        toks,
                        i0,
                        f,
                    ) == Err::<(Seq<StmtView>, int), ParseErrorView>(e@) by {
                        assert(parse_stmt_spec(toks, i0, f) == Err::<
                            (StmtView, int),
                            ParseErrorView,
                        >(e@));
                    }
                }
                return Err(e);
            },
        };
        let ghost firstv = first@;
        let ghost first_snap = first;
        let ghost j = self@.idx;
        let mut rest = match self.parse_block() {
            Ok(v) => v,
            Err(e) => {
                proof {
                    assert forall|f: nat| f >= fuel_lb(toks, i0) implies parse_block_spec(
                        toks,
                        i0,
                        f,
                    ) == Err::<(Seq<StmtView>, int), ParseErrorView>(e@) by {
                        assert(parse_stmt_spec(toks, i0, f) == Ok::<
                            (StmtView, int),
                            ParseErrorView,
                        >((firstv, j)));
                        assert((f - 1) as nat >= fuel_lb(toks, j));
                        assert(parse_block_spec(toks, j, (f - 1) as nat) == Err::<
                            (Seq<StmtView>, int),
                            ParseErrorView,
                        >(e@));
                    }
                }
                return Err(e);
            },
        };
        let ghost rest_seq = rest@;
        let ghost restv = stmts_view(rest@);
        let mut out: Vec<Stmt> = Vec::new();
        out.push(first);
        out.append(&mut rest);
        proof {
            assert(out@ =~= seq![first_snap] + rest_seq);
            assert(stmts_view(out@) == seq![out@[0]@] + stmts_view(
                out@.subrange(1, out@.len() as int),
            ));
            assert(out@.subrange(1, out@.len() as int) =~= rest_seq);
            assert(stmts_view(out@) == seq![firstv] + restv);
        }
        let r: Result<Vec<Stmt>, ParseError> = Ok(out);
        proof {
            assert forall|f: nat| f >= fuel_lb(toks, i0) implies parse_block_spec(toks, i0, f)
                == (match r {
                Ok(v) => Ok::<(Seq<StmtView>, int), ParseErrorView>(
                    (stmts_view(v@), self@.idx),
                ),
                Err(pe) => Err::<(Seq<StmtView>, int), ParseErrorView>(pe@),
            }) by {
                assert(parse_stmt_spec(toks, i0, f) == Ok::<(StmtView, int), ParseErrorView>(
                    (firstv, j),
                ));
                assert((f - 1) as nat >= fuel_lb(toks, j));
                assert(parse_block_spec(toks, j, (f - 1) as nat) == Ok::<
                    (Seq<StmtView>, int),
                    ParseErrorView,
                >((restv, self@.idx)));
            }
        }
        r
    }

    fn parse_items(&mut self) -> (r: Result<Vec<Stmt>, ParseError>)
        ensures
            final(self)@.tokens == old(self)@.tokens,
            final(self)@.program == old(self)@.program,
            forall|f: nat|
                f >= fuel_lb(old(self)@.tokens, old(self)@.idx) ==> parse_items_spec(
                    old(self)@.tokens,
                    old(self)@.idx,
                    f,
                ) == (match r {
                    Ok(v) => Ok::<Seq<StmtView>, ParseErrorView>(stmts_view(v@)),
                    Err(pe) => Err::<Seq<StmtView>, ParseErrorView>(pe@),
                }),
        decreases self.tokens@.len() - self.idx, 10int,
    {
        let ghost toks = self@.tokens;
        let ghost i0 = self@.idx;
        if self.idx >= self.tokens.len() {
            let out: Vec<Stmt> = Vec::new();
            proof {
                assert(stmts_view(out@) == Seq::<StmtView>::empty());
            }
            return Ok(out);
        }
        let first = match self.parse_stmt() {
            Ok(s) => s,
            Err(e) => {
                proof {
                    assert forall|f: nat| f >= fuel_lb(toks, i0) implies parse_items_spec(
                        toks,
                        i0,
                        f,
                    ) == Err::<Seq<StmtView>, ParseErrorView>(e@) by {
                        assert(parse_stmt_spec(toks, i0, f) == Err::<
                            (StmtView, int),
                            ParseErrorView,
                        >(e@));
                    }
                }
                return Err(e);
            },
        };
        let ghost firstv = first@;
        let ghost first_snap = first;
        let ghost j = self@.idx;
        let mut rest = match self.parse_items() {
            Ok(v) => v,
            Err(e) => {
                proof {
                    assert forall|f: nat| f >= fuel_lb(toks, i0) implies parse_items_spec(
                        toks,
                        i0,
                        f,
                    ) == Err::<Seq<StmtView>, ParseErrorView>(e@) by {
                        assert(parse_stmt_spec(toks, i0, f) == Ok::<
                            (StmtView, int),
                            ParseErrorView,
                        >((firstv, j)));
                        assert((f - 1) as nat >= fuel_lb(toks, j));
                        assert(parse_items_spec(toks, j, (f - 1) as nat) == Err::<
                            Seq<StmtView>,
                            ParseErrorView,
                        >(e@));
                    }
                }
                return Err(e);
            },
        };
        let ghost rest_seq = rest@;
        let ghost restv = stmts_view(rest@);
        let mut out: Vec<Stmt> = Vec::new();
        out.push(first);
        out.append(&mut rest);
        proof {
            assert(out@ =~= seq![first_snap] + rest_seq);
            assert(stmts_view(out@) == seq![out@[0]@] + stmts_view(
                out@.subrange(1, out@.len() as int),
            ));
            assert(out@.subrange(1, out@.len() as int) =~= rest_seq);
            assert(stmts_view(out@) == seq![firstv] + restv);
        }
        let r: Result<Vec<Stmt>, ParseError> = Ok(out);
        proof {
            assert forall|f: nat| f >= fuel_lb(toks, i0) implies parse_items_spec(toks, i0, f)
                == (match r {
                Ok(v) => Ok::<Seq<StmtView>, ParseErrorView>(stmts_view(v@)),
                Err(pe) => Err::<Seq<StmtView>, ParseErrorView>(pe@),
            }) by {
                assert(parse_stmt_spec(toks, i0, f) == Ok::<(StmtView, int), ParseErrorView>(
                    (firstv, j),
                ));
                assert((f - 1) as nat >= fuel_lb(toks, j));
                assert(parse_items_spec(toks, j, (f - 1) as nat) == Ok::<
                    Seq<StmtView>,
                    ParseErrorView,
                >(restv));
            }
        }
        r
    }

    /// Parses every remaining token into statements, appends them to the
    /// stored program, and returns a copy of that program. From a fresh
    /// parser the result is exactly `parse_program_spec` of the token views.
    pub fn parse(&mut self) -> (r: Result<Program, ParseError>)
        ensures
            final(self)@.tokens == old(self)@.tokens,
            match r {
                Ok(p) => {
                    &&& p@ == final(self)@.program
                    &&& final(self)@.program.statements.len() >= old(
                        self,
                    )@.program.statements.len()
                    &&& final(self)@.program.statements.subrange(
                        0,
                        old(self)@.program.statements.len() as int,
                    ) == old(self)@.program.statements
                    &&& forall|f: nat|
                        f >= fuel_lb(old(self)@.tokens, old(self)@.idx) ==> parse_items_spec(
                            old(self)@.tokens,
                            old(self)@.idx,
                            f,
                        ) == Ok::<Seq<StmtView>, ParseErrorView>(
                            final(self)@.program.statements.subrange(
                                old(self)@.program.statements.len() as int,
                                final(self)@.program.statements.len() as int,
                            ),
                        )
                },
                Err(e) => {
                    &&& final(self)@.program == old(self)@.program
                    &&& forall|f: nat|
                        f >= fuel_lb(old(self)@.tokens, old(self)@.idx) ==> parse_items_spec(
                            old(self)@.tokens,
                            old(self)@.idx,
                            f,
                        ) == Err::<Seq<StmtView>, ParseErrorView>(e@)
                },
            },
            (old(self)@.idx == 0 && old(self)@.program.statements.len() == 0) ==> (match r {
                Ok(p) => parse_program_spec(old(self)@.tokens) == Ok::<
                    ProgramView,
                    ParseErrorView,
                >(p@),
                Err(e) => parse_program_spec(old(self)@.tokens) == Err::<
                    ProgramView,
                    ParseErrorView,
                >(e@),
            }),
    {
        let ghost toks = self@.tokens;
        let ghost i0 = self@.idx;
        let items = match self.parse_items() {
            Ok(v) => v,
            Err(e) => {
                proof {
                    if i0 == 0 && old(self)@.program.statements.len() == 0 {
                        let fc = (toks.len() + 1) as nat;
                        assert(fc >= fuel_lb(toks, 0));
                        assert(parse_items_spec(toks, 0, fc) == Err::<
                            Seq<StmtView>,
                            ParseErrorView,
                        >(e@));
                    }
                }
                return Err(e);
            },
        };
        let ghost olds = self.program.statements@;
        let ghost items_seq = items@;
        let ghost itemsv = stmts_view(items@);
        let mut items_mut = items;
        self.program.statements.append(&mut items_mut);
        proof {
            lemma_stmts_view_concat(olds, items_seq);
            lemma_stmts_view_len(olds);
            lemma_stmts_view_len(items_seq);
            assert(stmts_view(olds + items_seq).subrange(0, stmts_view(olds).len() as int)
                =~= stmts_view(olds));
            assert(stmts_view(olds + items_seq).subrange(
                stmts_view(olds).len() as int,
                stmts_view(olds + items_seq).len() as int,
            ) =~= itemsv);
        }
        let p = self.program.duplicate();
        proof {
            assert(self.program.statements@ == olds + items_seq);
            assert(self@.program.statements == stmts_view(olds + items_seq));
            assert(p@ == self@.program);
            assert forall|f: nat| f >= fuel_lb(toks, i0) implies parse_items_spec(toks, i0, f)
                == Ok::<Seq<StmtView>, ParseErrorView>(
                self@.program.statements.subrange(
                    stmts_view(olds).len() as int,
                    self@.program.statements.len() as int,
                ),
            ) by {
                assert(parse_items_spec(toks, i0, f) == Ok::<Seq<StmtView>, ParseErrorView>(
                    itemsv,
                ));
            }
            if i0 == 0 && stmts_view(olds).len() == 0 {
                let fc = (toks.len() + 1) as nat;
                assert(fc >= fuel_lb(toks, 0));
                assert(parse_items_spec(toks, 0, fc) == Ok::<Seq<StmtView>, ParseErrorView>(
                    itemsv,
                ));
                assert(stmts_view(olds) =~= Seq::<StmtView>::empty());
                assert(stmts_view(olds + items_seq) =~= itemsv);
                assert(parse_program_spec(toks) == Ok::<ProgramView, ParseErrorView>(p@));
            }
        }
        Ok(p)
    }
}

} // verus!
