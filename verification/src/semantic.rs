//! Static checking: every identifier reference against a scope model, every
//! call against its declared arity. Pure validation; the tree is unchanged.
//!
//! The executable analyzer is specified against `analyze_program_spec`, a
//! structural recursion over statement and expression views.
use vstd::prelude::*;

use crate::parser::Expr;
use crate::parser::AssignmentStmtView;
use crate::parser::ExprView;
use crate::parser::FunctionStmtView;
use crate::parser::Program;
use crate::parser::ProgramView;
use crate::parser::Stmt;
use crate::parser::StmtView;
use crate::parser::stmts_view;
use crate::parser::strings_view;

verus! {

/// The ways a program can fail the binding and arity rules.
#[derive(Debug, Clone, Copy, PartialEq, Eq, Structural)]
pub enum SemanticErrorKind {
    DuplicateFunction,
    UndefinedVariable,
    UndefinedFunction,
    ArityMismatch,
    ReassignUndeclared,
    IdentifierKindClash,
}

/// Failure of the analyzer: what went wrong, and the identifier involved.
#[derive(Debug, PartialEq)]
pub struct SemanticError {
    pub kind: SemanticErrorKind,
    pub identifier: String,
}

/// Mathematical image of a `SemanticError`.
pub ghost struct SemanticErrorView {
    pub kind: SemanticErrorKind,
    pub identifier: Seq<char>,
}

impl View for SemanticError {
    type V = SemanticErrorView;

    open spec fn view(&self) -> SemanticErrorView {
        SemanticErrorView { kind: self.kind, identifier: self.identifier@ }
    }
}

/// Mathematical image of a scope: the declared variable names, and the map
/// from function name to parameter count, as an association sequence.
pub ghost struct ScopeView {
    pub vars: Seq<Seq<char>>,
    pub funcs: Seq<(Seq<char>, nat)>,
}

/// The variables and functions visible at one point of the analysis.
struct Scope {
    vars: Vec<String>,
    funcs: Vec<(String, usize)>,
}

impl View for Scope {
    type V = ScopeView;

    closed spec fn view(&self) -> ScopeView {
        ScopeView {
            vars: strings_view(self.vars@),
            funcs: self.funcs@.map_values(|p: (String, usize)| (p.0@, p.1 as nat)),
        }
    }
}

/// First-match lookup in the function table, from entry `k` on.
pub open spec fn funcs_lookup_from(
    funcs: Seq<(Seq<char>, nat)>,
    k: int,
    name: Seq<char>,
) -> Option<nat>
    decreases funcs.len() - k,
{
    if !(0 <= k < funcs.len()) {
        None
    } else if funcs[k].0 == name {
        Some(funcs[k].1)
    } else {
        funcs_lookup_from(funcs, k + 1, name)
    }
}

/// The declared arity of `name`, if `name` names a function.
pub open spec fn funcs_lookup(funcs: Seq<(Seq<char>, nat)>, name: Seq<char>) -> Option<nat> {
    funcs_lookup_from(funcs, 0, name)
}

pub open spec fn func_exists_spec(sc: ScopeView, name: Seq<char>) -> bool {
    funcs_lookup(sc.funcs, name) is Some
}

pub open spec fn ident_exists_spec(sc: ScopeView, name: Seq<char>) -> bool {
    func_exists_spec(sc, name) || sc.vars.contains(name)
}

/// Validation of one expression under a scope.
pub open spec fn analyze_expr_spec(e: ExprView, sc: ScopeView) -> Result<(), SemanticErrorView>
    decreases e, 0int,
{
    match e {
        ExprView::Binary(b) => match analyze_expr_spec(b.left, sc) {
            Err(er) => Err(er),
            Ok(_) => analyze_expr_spec(b.right, sc),
        },
        ExprView::Call(name, args) => {
            if !func_exists_spec(sc, name) {
                Err(
                    SemanticErrorView {
                        kind: SemanticErrorKind::UndefinedFunction,
                        identifier: name,
                    },
                )
            } else if funcs_lookup(sc.funcs, name) != Some(args.len()) {
                Err(
                    SemanticErrorView { kind: SemanticErrorKind::ArityMismatch, identifier: name },
                )
            } else {
                analyze_exprs_spec(args, 0, sc)
            }
        },
        ExprView::Variable(name) => {
            if sc.vars.contains(name) {
                Ok(())
            } else {
                Err(
                    SemanticErrorView {
                        kind: SemanticErrorKind::UndefinedVariable,
                        identifier: name,
                    },
                )
            }
        },
        ExprView::Number(_) => Ok(()),
    }
}

/// Validation of call arguments, from argument `k` on.
pub open spec fn analyze_exprs_spec(args: Seq<ExprView>, k: int, sc: ScopeView) -> Result<
    (),
    SemanticErrorView,
>
    decreases args, args.len() - k,
{
    if !(0 <= k < args.len()) {
        Ok(())
    } else {
        match analyze_expr_spec(args[k], sc) {
            Err(e) => Err(e),
            Ok(_) => analyze_exprs_spec(args, k + 1, sc),
        }
    }
}

/// Validation of one statement. On success the result is the scope for the
/// statements that follow: declarations extend it, nested blocks leave it
/// unchanged.
pub open spec fn analyze_stmt_spec(s: StmtView, sc: ScopeView) -> Result<
    ScopeView,
    SemanticErrorView,
>
    decreases s, 0int,
{
    match s {
        StmtView::Assignment(a) => {
            if func_exists_spec(sc, a.name) {
                Err(
                    SemanticErrorView {
                        kind: SemanticErrorKind::IdentifierKindClash,
                        identifier: a.name,
                    },
                )
            } else if a.definition {
                let sc2 = ScopeView { vars: sc.vars.push(a.name), funcs: sc.funcs };
                match analyze_expr_spec(a.expr, sc2) {
                    Err(e) => Err(e),
                    Ok(_) => Ok(sc2),
                }
            } else if !sc.vars.contains(a.name) {
                Err(
                    SemanticErrorView {
                        kind: SemanticErrorKind::ReassignUndeclared,
                        identifier: a.name,
                    },
                )
            } else {
                match analyze_expr_spec(a.expr, sc) {
                    Err(e) => Err(e),
                    Ok(_) => Ok(sc),
                }
            }
        },
        StmtView::Function(fv) => {
            if func_exists_spec(sc, fv.name) {
                Err(
                    SemanticErrorView {
                        kind: SemanticErrorKind::DuplicateFunction,
                        identifier: fv.name,
                    },
                )
            } else if sc.vars.contains(fv.name) {
                Err(
                    SemanticErrorView {
                        kind: SemanticErrorKind::IdentifierKindClash,
                        identifier: fv.name,
                    },
                )
            } else {
                // The function is registered before its body is analyzed, so
                // the body may call it: recursion works.
                let sc2 = ScopeView { vars: sc.vars, funcs: sc.funcs.push((fv.name, fv.params.len())) };
                let inner = ScopeView { vars: sc2.vars + fv.params, funcs: sc2.funcs };
                match analyze_stmts_spec(fv.body, 0, inner) {
                    Err(e) => Err(e),
                    Ok(_) => Ok(sc2),
                }
            }
        },
        StmtView::If(iv) => match analyze_expr_spec(iv.condition, sc) {
            Err(e) => Err(e),
            Ok(_) => match analyze_stmts_spec(iv.body, 0, sc) {
                Err(e) => Err(e),
                Ok(_) => match analyze_stmts_spec(iv.else_body, 0, sc) {
                    Err(e) => Err(e),
                    Ok(_) => Ok(sc),
                },
            },
        },
        StmtView::While(wv) => match analyze_expr_spec(wv.condition, sc) {
            Err(e) => Err(e),
            Ok(_) => match analyze_stmts_spec(wv.body, 0, sc) {
                Err(e) => Err(e),
                Ok(_) => Ok(sc),
            },
        },
        StmtView::Return(o) => match o {
            Some(e) => match analyze_expr_spec(e, sc) {
                Err(er) => Err(er),
                Ok(_) => Ok(sc),
            },
            None => Ok(sc),
        },
    }
}

/// Validation of a statement sequence from index `k` on, threading the scope
/// from each statement to the next. Nested blocks are analyzed under a copy:
/// their declarations never leak out.
pub open spec fn analyze_stmts_spec(stmts: Seq<StmtView>, k: int, sc: ScopeView) -> Result<
    ScopeView,
    SemanticErrorView,
>
    decreases stmts, stmts.len() - k,
{
    if !(0 <= k < stmts.len()) {
        Ok(sc)
    } else {
        match analyze_stmt_spec(stmts[k], sc) {
            Err(e) => Err(e),
            Ok(sc2) => analyze_stmts_spec(stmts, k + 1, sc2),
        }
    }
}

/// The root scope: the discard variable, and the one builtin function.
pub open spec fn root_scope_spec() -> ScopeView {
    ScopeView { vars: seq!["_"@], funcs: seq![("print"@, 1 as nat)] }
}

/// Whole-program validation under the root scope.
pub open spec fn analyze_program_spec(p: ProgramView) -> Result<(), SemanticErrorView> {
    match analyze_stmts_spec(p.statements, 0, root_scope_spec()) {
        Ok(_) => Ok(()),
        Err(e) => Err(e),
    }
}

impl Scope {
    /// An explicit copy whose view provably equals the original's.
    fn duplicate(&self) -> (r: Scope)
        ensures
            r@ == self@,
    {
        let mut vars: Vec<String> = Vec::new();
        let mut i: usize = 0;
        while i < self.vars.len()
            invariant
                i <= self.vars.len(),
                vars@.len() == i,
                forall|j: int| 0 <= j < i ==> vars@[j]@ == #[trigger] self.vars@[j]@,
            decreases self.vars.len() - i,
        {
            vars.push(self.vars[i].clone());
            i += 1;
        }
        let mut funcs: Vec<(String, usize)> = Vec::new();
        let mut i2: usize = 0;
        while i2 < self.funcs.len()
            invariant
                i2 <= self.funcs.len(),
                funcs@.len() == i2,
                forall|j: int|
                    0 <= j < i2 ==> funcs@[j].0@ == #[trigger] self.funcs@[j].0@ && funcs@[j].1
                        == self.funcs@[j].1,
            decreases self.funcs.len() - i2,
        {
            let name = self.funcs[i2].0.clone();
            let arity = self.funcs[i2].1;
            funcs.push((name, arity));
            i2 += 1;
        }
        let r = Scope { vars, funcs };
        proof {
            assert(r@.vars =~= self@.vars);
            assert(r@.funcs =~= self@.funcs);
        }
        r
    }
}

/// Walks an already-parsed program and validates it.
pub struct Semantic {
    program: Program,
}

impl View for Semantic {
    type V = ProgramView;

    closed spec fn view(&self) -> ProgramView {
        self.program@
    }
}

impl Semantic {
    pub fn new(program: Program) -> (s: Semantic)
        ensures
            s@ == program@,
    {
        Self { program }
    }

    /// Validates the whole program, exactly as `analyze_program_spec` says:
    /// success on precisely the programs the binding rules accept, and
    /// otherwise the first error of the walk.
    pub fn analyze(&self) -> (r: Result<(), SemanticError>)
        ensures
            match r {
                Ok(_) => analyze_program_spec(self@) == Ok::<(), SemanticErrorView>(()),
                Err(e) => analyze_program_spec(self@) == Err::<(), SemanticErrorView>(e@),
            },
    {
        let mut scope = Scope { vars: Vec::new(), funcs: Vec::new() };
        scope.vars.push(String::from_str("_"));
        scope.funcs.push((String::from_str("print"), 1));
        proof {
            assert(scope@.vars =~= root_scope_spec().vars);
            assert(scope@.funcs =~= root_scope_spec().funcs);
        }
        match self.analyze_stmts(&self.program.statements, 0, scope) {
            Ok(_) => Ok(()),
            Err(e) => Err(e),
        }
    }

    /// Whether `name` names a declared function.
    fn func_exists(&self, scope: &Scope, name: String) -> (r: bool)
        ensures
            r == func_exists_spec(scope@, name@),
    {
        match self.func_arity(scope, &name) {
            Some(_) => true,
            None => false,
        }
    }

    /// The declared arity of `name`, if `name` names a function.
    fn func_arity(&self, scope: &Scope, name: &String) -> (r: Option<usize>)
        ensures
            match r {
                Some(a) => funcs_lookup(scope@.funcs, name@) == Some(a as nat),
                None => funcs_lookup(scope@.funcs, name@) == None::<nat>,
            },
    {
        let mut i: usize = 0;
        while i < scope.funcs.len()
            invariant
                i <= scope.funcs.len(),
                funcs_lookup(scope@.funcs, name@) == funcs_lookup_from(scope@.funcs, i as int, name@),
            decreases scope.funcs.len() - i,
        {
            if scope.funcs[i].0.eq(name) {
                proof {
                    assert(scope@.funcs[i as int].0 == name@);
                }
                return Some(scope.funcs[i].1);
            }
            proof {
                assert(scope@.funcs[i as int].0 != name@);
            }
            i += 1;
        }
        None
    }

    /// Whether `name` is declared as a variable.
    fn var_exists(&self, scope: &Scope, name: &String) -> (r: bool)
        ensures
            r == scope@.vars.contains(name@),
    {
        let mut i: usize = 0;
        while i < scope.vars.len()
            invariant
                i <= scope.vars.len(),
                forall|j: int| 0 <= j < i ==> #[trigger] scope@.vars[j] != name@,
            decreases scope.vars.len() - i,
        {
            if scope.vars[i].eq(name) {
                proof {
                    assert(scope@.vars[i as int] == name@);
                }
                return true;
            }
            i += 1;
        }
        proof {
            assert(!scope@.vars.contains(name@));
        }
        false
    }

    /// Whether `name` is already taken, as a function or as a variable.
    fn ident_exists(&self, scope: &Scope, name: String) -> (r: bool)
        ensures
            r == ident_exists_spec(scope@, name@),
    {
        let as_func = self.func_exists(scope, name.clone());
        if as_func {
            return true;
        }
        self.var_exists(scope, &name)
    }

    /// Validates the statements of one block from index `k` on, threading
    /// the scope from each statement to the next.
    fn analyze_stmts(&self, stmts: &Vec<Stmt>, k: usize, scope: Scope) -> (r: Result<
        (),
        SemanticError,
    >)
        ensures
            match r {
                Ok(_) => analyze_stmts_spec(stmts_view(stmts@), k as int, scope@) is Ok,
                Err(e) => analyze_stmts_spec(stmts_view(stmts@), k as int, scope@) == Err::<
                    ScopeView,
                    SemanticErrorView,
                >(e@),
            },
        decreases stmts, stmts@.len() - k,
    {
        let ghost sv = stmts_view(stmts@);
        let ghost sc0 = scope@;
        proof {
            crate::parser::lemma_stmts_view_len(stmts@);
        }
        if k >= stmts.len() {
            return Ok(());
        }
        proof {
            crate::parser::lemma_stmts_view_index(stmts@, k as int);
            assert(decreases_to!(stmts => stmts@));
            assert(decreases_to!(stmts@ => stmts@[k as int]));
        }
        let scope2 = match self.analyze_stmt(&stmts[k], scope) {
            Ok(sc2) => sc2,
            Err(e) => {
                proof {
                    assert(analyze_stmt_spec(sv[k as int], sc0) == Err::<
                        ScopeView,
                        SemanticErrorView,
                    >(e@));
                }
                return Err(e);
            },
        };
        self.analyze_stmts(stmts, k + 1, scope2)
    }

    /// Validates one statement; on success hands back the scope for the
    /// statements that follow, as `analyze_stmt_spec` says.
    fn analyze_stmt(&self, s: &Stmt, scope: Scope) -> (r: Result<Scope, SemanticError>)
        ensures
            match r {
                Ok(sc2) => analyze_stmt_spec(s@, scope@) == Ok::<ScopeView, SemanticErrorView>(
                    sc2@,
                ),
                Err(e) => analyze_stmt_spec(s@, scope@) == Err::<ScopeView, SemanticErrorView>(
                    e@,
                ),
            },
        decreases s, 0int,
    {
        let ghost sc0 = scope@;
        let mut scope = scope;
        match s {
            Stmt::Assignment(a) => {
                if self.func_exists(&scope, a.name.clone()) {
                    return Err(
                        SemanticError {
                            kind: SemanticErrorKind::IdentifierKindClash,
                            identifier: a.name.clone(),
                        },
                    );
                }
                if a.definition {
                    scope.vars.push(a.name.clone());
                    proof {
                        assert(scope@.vars =~= sc0.vars.push(a.name@));
                        assert(scope@.funcs =~= sc0.funcs);
                    }
                    match self.analyze_expr(&a.expr, &scope) {
                        Ok(_) => Ok(scope),
                        Err(e) => Err(e),
                    }
                } else {
                    if !self.var_exists(&scope, &a.name) {
                        return Err(
                            SemanticError {
                                kind: SemanticErrorKind::ReassignUndeclared,
                                identifier: a.name.clone(),
                            },
                        );
                    }
                    match self.analyze_expr(&a.expr, &scope) {
                        Ok(_) => Ok(scope),
                        Err(e) => Err(e),
                    }
                }
            },
            Stmt::Function(f) => {
                if self.func_exists(&scope, f.name.clone()) {
                    return Err(
                        SemanticError {
                            kind: SemanticErrorKind::DuplicateFunction,
                            identifier: f.name.clone(),
                        },
                    );
                }
                if self.var_exists(&scope, &f.name) {
                    return Err(
                        SemanticError {
                            kind: SemanticErrorKind::IdentifierKindClash,
                            identifier: f.name.clone(),
                        },
                    );
                }
                scope.funcs.push((f.name.clone(), f.params.len()));
                proof {
                    assert(scope@.funcs =~= sc0.funcs.push((f.name@, f.params@.len() as nat)));
                    assert(scope@.vars =~= sc0.vars);
                }
                let mut inner = scope.duplicate();
                let ghost inner0 = inner@;
                let mut pi: usize = 0;
                while pi < f.params.len()
                    invariant
                        pi <= f.params.len(),
                        inner@.funcs == inner0.funcs,
                        inner@.vars.len() == inner0.vars.len() + pi,
                        inner@.vars.subrange(0, inner0.vars.len() as int) =~= inner0.vars,
                        forall|j: int|
                            0 <= j < pi ==> inner@.vars[inner0.vars.len() + j] == #[trigger] f.params@[j]@,
                    decreases f.params.len() - pi,
                {
                    let ghost before = inner@.vars;
                    inner.vars.push(f.params[pi].clone());
                    proof {
                        assert(inner@.vars =~= before.push(f.params@[pi as int]@));
                    }
                    pi += 1;
                }
                proof {
                    assert(inner@.vars =~= scope@.vars + strings_view(f.params@));
                    assert(inner@.funcs =~= scope@.funcs);
                }
                match self.analyze_stmts(&f.body, 0, inner) {
                    Ok(_) => Ok(scope),
                    Err(e) => Err(e),
                }
            },
            Stmt::If(i) => {
                match self.analyze_expr(&i.condition, &scope) {
                    Ok(_) => {},
                    Err(e) => return Err(e),
                }
                match self.analyze_stmts(&i.body, 0, scope.duplicate()) {
                    Ok(_) => {},
                    Err(e) => return Err(e),
                }
                match self.analyze_stmts(&i.else_body, 0, scope.duplicate()) {
                    Ok(_) => Ok(scope),
                    Err(e) => Err(e),
                }
            },
            Stmt::While(w) => {
                match self.analyze_expr(&w.condition, &scope) {
                    Ok(_) => {},
                    Err(e) => return Err(e),
                }
                match self.analyze_stmts(&w.body, 0, scope.duplicate()) {
                    Ok(_) => Ok(scope),
                    Err(e) => Err(e),
                }
            },
            Stmt::Return(o) => {
                match &**o {
                    Some(e) => match self.analyze_expr(e, &scope) {
                        Ok(_) => Ok(scope),
                        Err(er) => Err(er),
                    },
                    None => Ok(scope),
                }
            },
        }
    }

    /// Validates one expression under a scope.
    fn analyze_expr(&self, expr: &Expr, scope: &Scope) -> (r: Result<(), SemanticError>)
        ensures
            match r {
                Ok(_) => analyze_expr_spec(expr@, scope@) == Ok::<(), SemanticErrorView>(()),
                Err(e) => analyze_expr_spec(expr@, scope@) == Err::<(), SemanticErrorView>(e@),
            },
        decreases expr, 0int,
    {
        match expr {
            Expr::Binary(b) => {
                match self.analyze_expr(&b.left, scope) {
                    Ok(_) => {},
                    Err(e) => return Err(e),
                }
                self.analyze_expr(&b.right, scope)
            },
            Expr::Call(name, args) => {
                if !self.func_exists(scope, name.clone()) {
                    return Err(
                        SemanticError {
                            kind: SemanticErrorKind::UndefinedFunction,
                            identifier: name.clone(),
                        },
                    );
                }
                let arity = match self.func_arity(scope, name) {
                    Some(a) => a,
                    None => {
                        proof {
                            assert(false);
                        }
                        return Err(
                            SemanticError {
                                kind: SemanticErrorKind::UndefinedFunction,
                                identifier: name.clone(),
                            },
                        );
                    },
                };
                if arity != args.len() {
                    proof {
                        crate::parser::lemma_exprs_view_len(args@);
                    }
                    return Err(
                        SemanticError {
                            kind: SemanticErrorKind::ArityMismatch,
                            identifier: name.clone(),
                        },
                    );
                }
                proof {
                    crate::parser::lemma_exprs_view_len(args@);
                }
                self.analyze_exprs(args, 0, scope)
            },
            Expr::Variable(name) => {
                if self.var_exists(scope, name) {
                    Ok(())
                } else {
                    Err(
                        SemanticError {
                            kind: SemanticErrorKind::UndefinedVariable,
                            identifier: name.clone(),
                        },
                    )
                }
            },
            Expr::Number(_) => Ok(()),
        }
    }

    /// Validates call arguments from index `k` on.
    fn analyze_exprs(&self, args: &Vec<Expr>, k: usize, scope: &Scope) -> (r: Result<
        (),
        SemanticError,
    >)
        ensures
            match r {
                Ok(_) => analyze_exprs_spec(crate::parser::exprs_view(args@), k as int, scope@)
                    == Ok::<(), SemanticErrorView>(()),
                Err(e) => analyze_exprs_spec(crate::parser::exprs_view(args@), k as int, scope@)
                    == Err::<(), SemanticErrorView>(e@),
            },
        decreases args, args@.len() - k,
    {
        let ghost av = crate::parser::exprs_view(args@);
        proof {
            crate::parser::lemma_exprs_view_len(args@);
        }
        if k >= args.len() {
            return Ok(());
        }
        proof {
            crate::parser::lemma_exprs_view_index(args@, k as int);
            assert(decreases_to!(args => args@));
            assert(decreases_to!(args@ => args@[k as int]));
        }
        match self.analyze_expr(&args[k], scope) {
            Ok(_) => {},
            Err(e) => return Err(e),
        }
        self.analyze_exprs(args, k + 1, scope)
    }
}


/// Law: an assignment to a name that is neither declared as a variable nor
/// taken by a function is rejected as a reassignment of an undeclared name.
pub proof fn lemma_reassign_undeclared(a: AssignmentStmtView, sc: ScopeView)
    requires
        !a.definition,
        !func_exists_spec(sc, a.name),
        !sc.vars.contains(a.name),
    ensures
        analyze_stmt_spec(StmtView::Assignment(a), sc) == Err::<ScopeView, SemanticErrorView>(
            SemanticErrorView {
                kind: SemanticErrorKind::ReassignUndeclared,
                identifier: a.name,
            },
        ),
{
}

/// Law: an assignment to a declared variable is accepted whenever its
/// right-hand side is, and it leaves the scope unchanged.
pub proof fn lemma_assign_declared(a: AssignmentStmtView, sc: ScopeView)
    requires
        !a.definition,
        !func_exists_spec(sc, a.name),
        sc.vars.contains(a.name),
        analyze_expr_spec(a.expr, sc) == Ok::<(), SemanticErrorView>(()),
    ensures
        analyze_stmt_spec(StmtView::Assignment(a), sc) == Ok::<ScopeView, SemanticErrorView>(sc),
{
}

/// Law: a declaration adds exactly its own name to the scope's variables,
/// and its right-hand side is analyzed with that name already visible.
pub proof fn lemma_declaration_extends_scope(a: AssignmentStmtView, sc: ScopeView)
    requires
        a.definition,
        !func_exists_spec(sc, a.name),
        analyze_expr_spec(
            a.expr,
            ScopeView { vars: sc.vars.push(a.name), funcs: sc.funcs },
        ) == Ok::<(), SemanticErrorView>(()),
    ensures
        analyze_stmt_spec(StmtView::Assignment(a), sc) == Ok::<ScopeView, SemanticErrorView>(
            ScopeView { vars: sc.vars.push(a.name), funcs: sc.funcs },
        ),
{
}

/// Law: bindings do not leak out of a conditional or loop body. The scope
/// that analysis threads past an accepted `if` or `while` statement is the
/// scope it arrived with, so a name declared only inside such a body is as
/// undefined after the block as it was before it.
pub proof fn lemma_nested_blocks_leak_nothing(s: StmtView, sc: ScopeView, sc2: ScopeView)
    requires
        s is If || s is While,
        analyze_stmt_spec(s, sc) == Ok::<ScopeView, SemanticErrorView>(sc2),
    ensures
        sc2 == sc,
{
}

/// Law: calling a declared function with the wrong number of arguments is
/// an arity mismatch, whatever the arguments are.
pub proof fn lemma_arity_mismatch(name: Seq<char>, args: Seq<ExprView>, sc: ScopeView, arity: nat)
    requires
        funcs_lookup(sc.funcs, name) == Some(arity),
        args.len() != arity,
    ensures
        analyze_expr_spec(ExprView::Call(name, args), sc) == Err::<(), SemanticErrorView>(
            SemanticErrorView { kind: SemanticErrorKind::ArityMismatch, identifier: name },
        ),
{
}

/// Law: calling a declared function with exactly its declared number of
/// arguments never fails resolution or arity checking: the call is accepted
/// precisely when its arguments all are.
pub proof fn lemma_arity_match(name: Seq<char>, args: Seq<ExprView>, sc: ScopeView)
    requires
        funcs_lookup(sc.funcs, name) == Some(args.len() as nat),
    ensures
        analyze_expr_spec(ExprView::Call(name, args), sc) == analyze_exprs_spec(args, 0, sc),
{
}

proof fn lemma_funcs_lookup_from_push(
    funcs: Seq<(Seq<char>, nat)>,
    k: int,
    name: Seq<char>,
    arity: nat,
)
    requires
        0 <= k <= funcs.len(),
        funcs_lookup_from(funcs, k, name) == None::<nat>,
    ensures
        funcs_lookup_from(funcs.push((name, arity)), k, name) == Some(arity),
    decreases funcs.len() - k,
{
    let pushed = funcs.push((name, arity));
    if k < funcs.len() {
        assert(pushed[k] == funcs[k]);
        lemma_funcs_lookup_from_push(funcs, k + 1, name, arity);
    } else {
        assert(pushed[k] == (name, arity));
        assert(funcs_lookup_from(pushed, k + 1, name) == None::<nat>);
    }
}

/// Law: a function's body is analyzed in a scope that already maps the
/// function's own name to its arity, so a direct recursive call inside the
/// body resolves: it cannot be an undefined function there.
pub proof fn lemma_recursion_sees_own_name(fv: FunctionStmtView, sc: ScopeView)
    requires
        !func_exists_spec(sc, fv.name),
        !sc.vars.contains(fv.name),
    ensures
        ({
            let sc2 = ScopeView {
                vars: sc.vars,
                funcs: sc.funcs.push((fv.name, fv.params.len())),
            };
            let inner = ScopeView { vars: sc2.vars + fv.params, funcs: sc2.funcs };
            &&& analyze_stmt_spec(StmtView::Function(fv), sc) == (match analyze_stmts_spec(
                fv.body,
                0,
                inner,
            ) {
                Ok(_) => Ok::<ScopeView, SemanticErrorView>(sc2),
                Err(e) => Err::<ScopeView, SemanticErrorView>(e),
            })
            &&& func_exists_spec(inner, fv.name)
            &&& funcs_lookup(inner.funcs, fv.name) == Some(fv.params.len() as nat)
        }),
{
    lemma_funcs_lookup_from_push(sc.funcs, 0, fv.name, fv.params.len());
}

} // verus!
