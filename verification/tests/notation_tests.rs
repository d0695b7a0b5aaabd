use mdo::notation::{build_program, desugar, Clause, Cond, EffExpr, Expr, MExpr, Program, Stmt,
    SyntaxError};

// A single bind clause desugars to a single bind node around the return
// expression: the rewritten form of `x =<< 0..3; ret x..3` is exactly the
// nesting one would write by hand.
#[test]
fn desugar_single_bind() {
    let p = Program {
        clauses: vec![Clause::Bind(EffExpr::Range(Expr::Lit(0), Expr::Lit(3)))],
        ret: EffExpr::Range(Expr::Var(0), Expr::Lit(3)),
    };
    let m = desugar(p);
    let expected = MExpr::Bind(
        Box::new(MExpr::Eff(EffExpr::Range(Expr::Lit(0), Expr::Lit(3)))),
        Box::new(MExpr::Eff(EffExpr::Range(Expr::Var(0), Expr::Lit(3)))),
    );
    assert_eq!(m, expected);
}

// A body with no clauses desugars to its return expression verbatim.
#[test]
fn desugar_bare_return() {
    let p = Program { clauses: Vec::new(), ret: EffExpr::Ret(Expr::Lit(5)) };
    assert_eq!(desugar(p), MExpr::Eff(EffExpr::Ret(Expr::Lit(5))));
}

// The full clause repertoire, mirroring the notation's documentation
// example: `x =<< 0..5; ign 0..2; when x != 3; let y = x + 5; ret ret(y + 5)`.
// The first written clause becomes the outermost node; the guard becomes a
// bind through `if c { ret(unit) } else { mzero() }` with the element
// discarded.
#[test]
fn desugar_all_clause_forms() {
    let p = Program {
        clauses: vec![
            Clause::Bind(EffExpr::Range(Expr::Lit(0), Expr::Lit(5))),
            Clause::Ignore(EffExpr::Range(Expr::Lit(0), Expr::Lit(2))),
            Clause::When(Cond::Ne(Expr::Var(0), Expr::Lit(3))),
            Clause::Let(Expr::Add(Box::new(Expr::Var(0)), Box::new(Expr::Lit(5)))),
        ],
        ret: EffExpr::Ret(Expr::Add(Box::new(Expr::Var(0)), Box::new(Expr::Lit(5)))),
    };
    let m = desugar(p);
    let expected = MExpr::Bind(
        Box::new(MExpr::Eff(EffExpr::Range(Expr::Lit(0), Expr::Lit(5)))),
        Box::new(MExpr::Then(
            Box::new(MExpr::Eff(EffExpr::Range(Expr::Lit(0), Expr::Lit(2)))),
            Box::new(MExpr::Then(
                Box::new(MExpr::If(
                    Cond::Ne(Expr::Var(0), Expr::Lit(3)),
                    Box::new(MExpr::Eff(EffExpr::Ret(Expr::Lit(0)))),
                    Box::new(MExpr::Eff(EffExpr::Zero)),
                )),
                Box::new(MExpr::Let(
                    Expr::Add(Box::new(Expr::Var(0)), Box::new(Expr::Lit(5))),
                    Box::new(MExpr::Eff(EffExpr::Ret(Expr::Add(
                        Box::new(Expr::Var(0)),
                        Box::new(Expr::Lit(5)),
                    )))),
                )),
            )),
        )),
    );
    assert_eq!(m, expected);
}

// A well-formed statement list is split into its clauses and its terminal
// return.
#[test]
fn build_program_accepts_well_formed() {
    let stmts = vec![
        Stmt::Bind(EffExpr::Range(Expr::Lit(0), Expr::Lit(3))),
        Stmt::When(Cond::Eq(Expr::Var(0), Expr::Lit(1))),
        Stmt::Ret(EffExpr::Ret(Expr::Var(0))),
    ];
    let p = build_program(stmts).unwrap();
    assert_eq!(
        p.clauses,
        vec![
            Clause::Bind(EffExpr::Range(Expr::Lit(0), Expr::Lit(3))),
            Clause::When(Cond::Eq(Expr::Var(0), Expr::Lit(1))),
        ]
    );
    assert_eq!(p.ret, EffExpr::Ret(Expr::Var(0)));
}

// An empty body, or one that does not end in a return, is rejected.
#[test]
fn build_program_missing_ret() {
    assert_eq!(build_program(Vec::new()), Err(SyntaxError::MissingRet));
    let stmts = vec![Stmt::Let(Expr::Lit(1)), Stmt::Ignore(EffExpr::Zero)];
    assert_eq!(build_program(stmts), Err(SyntaxError::MissingRet));
}

// A statement after the terminal return is rejected.
#[test]
fn build_program_clause_after_ret() {
    let stmts = vec![Stmt::Ret(EffExpr::Zero), Stmt::Let(Expr::Lit(1))];
    assert_eq!(build_program(stmts), Err(SyntaxError::ClauseAfterRet));
    let stmts = vec![Stmt::Ret(EffExpr::Zero), Stmt::Ret(EffExpr::Zero)];
    assert_eq!(build_program(stmts), Err(SyntaxError::ClauseAfterRet));
}

// The two phases compose: checking a raw statement list and desugaring
// what it builds.
#[test]
fn build_then_desugar() {
    let stmts = vec![
        Stmt::Ignore(EffExpr::Range(Expr::Lit(0), Expr::Lit(2))),
        Stmt::Ret(EffExpr::Ret(Expr::Lit(9))),
    ];
    let p = build_program(stmts).unwrap();
    let m = desugar(p);
    let expected = MExpr::Then(
        Box::new(MExpr::Eff(EffExpr::Range(Expr::Lit(0), Expr::Lit(2)))),
        Box::new(MExpr::Eff(EffExpr::Ret(Expr::Lit(9)))),
    );
    assert_eq!(m, expected);
}
