//! The do-notation clause language and its desugaring.
//!
//! A do-notation body is modelled as a [`Program`]: an ordered list of
//! [`Clause`]s followed by the terminal return expression. [`desugar`]
//! rewrites a program into the single nested expression ([`MExpr`]) of
//! `bind`/`ret`/`mzero` calls a programmer would write by hand, head clause
//! first, so that the first written clause becomes the outermost bind.
//!
//! Clause expressions are drawn from a small integer language with
//! variables addressed by binding depth: `Var(0)` is the most recently
//! bound variable, `Var(1)` the one bound before it, and so on. An
//! environment is therefore a sequence of integers with the newest binding
//! at the end; a variable addressed past the bottom of the environment
//! reads as zero.
//!
//! Both the clause list and the desugared expression are given a
//! specification-level meaning over the sequence effect — the clause list a
//! direct, comprehension-style one ([`clauses_sem`]), the desugared
//! expression the meaning of the nested calls it stands for ([`eval_m`]) —
//! and [`desugar`] ensures the two agree in every environment.

use vstd::prelude::*;
use crate::iter::{bind_spec, discard_cont, mzero_spec, range_seq, ret_spec};
use crate::iter::lemma_guard_filters;

verus! {

/// An integer-valued expression.
#[derive(PartialEq, Eq, Debug)]
pub enum Expr {
    /// A literal value.
    Lit(i64),
    /// The variable bound `k` binders up: `Var(0)` is the newest binding.
    Var(usize),
    /// The sum of two expressions.
    Add(Box<Expr>, Box<Expr>),
    /// The product of two expressions.
    Mul(Box<Expr>, Box<Expr>),
}

/// A boolean-valued expression, as used by a guard clause.
#[derive(PartialEq, Eq, Debug)]
pub enum Cond {
    /// The two expressions are equal.
    Eq(Expr, Expr),
    /// The two expressions differ.
    Ne(Expr, Expr),
}

/// An effect-typed (sequence-valued) expression.
#[derive(PartialEq, Eq, Debug)]
pub enum EffExpr {
    /// The integers of `lo..hi` in increasing order.
    Range(Expr, Expr),
    /// A one-element sequence: `ret(e)`.
    Ret(Expr),
    /// The empty sequence: `mzero()`.
    Zero,
}

/// One clause of a do-notation body, everything but the terminal return.
#[derive(PartialEq, Eq, Debug)]
pub enum Clause {
    /// `p =<< e`: run `e` in the effect and bind each element for the
    /// remainder.
    Bind(EffExpr),
    /// `let p = e`: an ordinary local binding of a plain value.
    Let(Expr),
    /// `ign e`: run `e` for its effect and discard the elements; the
    /// remainder still runs once per element.
    Ignore(EffExpr),
    /// `when b`: continue if `b` holds, otherwise short-circuit to the
    /// empty sequence.
    When(Cond),
}

/// A whole do-notation body: its clauses in written order, then the
/// terminal return expression. Holding the return expression apart from
/// the clause list makes the clause-sequence invariant — exactly one
/// return, always last — structural.
#[derive(PartialEq, Eq, Debug)]
pub struct Program {
    /// The clauses before the terminal return, in written order.
    pub clauses: Vec<Clause>,
    /// The terminal return expression, already effect-typed.
    pub ret: EffExpr,
}

/// The nested expression a program desugars into.
#[derive(PartialEq, Eq, Debug)]
pub enum MExpr {
    /// An effect expression, standing as written.
    Eff(EffExpr),
    /// `bind(m, move |x| k)`: the continuation sees one new binding.
    Bind(Box<MExpr>, Box<MExpr>),
    /// `bind(m, move |_| k)`: the continuation discards the element.
    Then(Box<MExpr>, Box<MExpr>),
    /// `{ let x = e; k }`: a plain binding around the remainder.
    Let(Expr, Box<MExpr>),
    /// `if c { t } else { e }`, selecting between effect expressions.
    If(Cond, Box<MExpr>, Box<MExpr>),
}

/// One raw statement of a do-notation body as written, before the
/// clause-sequence shape has been checked: the four clause forms plus the
/// terminal return.
#[derive(PartialEq, Eq, Debug)]
pub enum Stmt {
    /// `p =<< e`.
    Bind(EffExpr),
    /// `let p = e`.
    Let(Expr),
    /// `ign e`.
    Ignore(EffExpr),
    /// `when b`.
    When(Cond),
    /// `ret e`: the terminal return.
    Ret(EffExpr),
}

/// A malformed statement sequence, rejected before any rewriting happens.
#[derive(PartialEq, Eq, Debug)]
pub enum SyntaxError {
    /// The body is empty or does not end in a return statement.
    MissingRet,
    /// A statement follows the terminal return.
    ClauseAfterRet,
}

/// A statement list has the required shape: at least one statement, the
/// last one a return, and no return anywhere before it.
pub open spec fn well_formed(stmts: Seq<Stmt>) -> bool {
    &&& stmts.len() > 0
    &&& stmts.last() is Ret
    &&& (forall|i: int| 0 <= i < stmts.len() - 1 ==> !(#[trigger] stmts[i] is Ret))
}

/// The clause a non-return statement stands for. (The return arm is never
/// reached; its value is arbitrary.)
pub open spec fn clause_of(s: Stmt) -> Clause
    recommends
        !(s is Ret),
{
    match s {
        Stmt::Bind(e) => Clause::Bind(e),
        Stmt::Let(e) => Clause::Let(e),
        Stmt::Ignore(e) => Clause::Ignore(e),
        Stmt::When(c) => Clause::When(c),
        Stmt::Ret(e) => Clause::Ignore(e),
    }
}

/// The clause list a statement list stands for, statement by statement.
pub open spec fn clauses_of(stmts: Seq<Stmt>) -> Seq<Clause> {
    stmts.map_values(|s: Stmt| clause_of(s))
}

/// Checks the clause-sequence shape and assembles a [`Program`]: succeeds
/// exactly on a well-formed statement list — one terminal return, nothing
/// after it — and reports which way the shape is broken otherwise.
#[verifier::loop_isolation(false)]
pub fn build_program(stmts: Vec<Stmt>) -> (r: Result<Program, SyntaxError>)
    ensures
        r is Ok <==> well_formed(stmts@),
        r matches Ok(p) ==> {
            &&& p.clauses@ == clauses_of(stmts@.take(stmts@.len() - 1))
            &&& (stmts@.last() matches Stmt::Ret(e) && p.ret == e)
        },
        r matches Err(err) ==> (err == SyntaxError::ClauseAfterRet <==> exists|i: int|
            0 <= i < stmts@.len() - 1 && (#[trigger] stmts@[i]) is Ret),
{
    let ghost s0 = stmts@;
    let mut stmts = stmts;
    let n = stmts.len();
    if n == 0 {
        return Err(SyntaxError::MissingRet);
    }
    let mut i: usize = 0;
    while i < n - 1
        invariant
            n == s0.len(),
            0 < n,
            stmts@ == s0,
            i <= n - 1,
            forall|j: int| 0 <= j < i ==> !(#[trigger] s0[j] is Ret),
        decreases n - 1 - i,
    {
        match &stmts[i] {
            Stmt::Ret(_) => {
                proof {
                    assert(s0[i as int] is Ret);
                }
                return Err(SyntaxError::ClauseAfterRet);
            },
            _ => {},
        }
        i = i + 1;
    }
    let last = stmts.pop().unwrap();
    let ret = match last {
        Stmt::Ret(e) => e,
        _ => {
            return Err(SyntaxError::MissingRet);
        },
    };
    let ghost prefix = s0.take(n - 1);
    let mut clauses: Vec<Clause> = Vec::new();
    proof {
        assert(stmts@ =~= prefix.skip(0));
        assert(clauses@ =~= clauses_of(prefix.take(0)));
    }
    while stmts.len() > 0
        invariant
            clauses@.len() + stmts@.len() == prefix.len(),
            stmts@ == prefix.skip(clauses@.len() as int),
            clauses@ == clauses_of(prefix.take(clauses@.len() as int)),
        decreases stmts@.len(),
    {
        let ghost l = clauses@.len() as int;
        let s = stmts.remove(0);
        let ghost s_g = s;
        proof {
            assert(stmts@ =~= prefix.skip(l + 1));
            assert(s_g == prefix[l]);
        }
        let next = match s {
            Stmt::Bind(e) => Clause::Bind(e),
            Stmt::Let(e) => Clause::Let(e),
            Stmt::Ignore(e) => Clause::Ignore(e),
            Stmt::When(c) => Clause::When(c),
            Stmt::Ret(e) => Clause::Ignore(e),
        };
        proof {
            assert(next == clause_of(s_g));
        }
        clauses.push(next);
        proof {
            assert(clauses@ =~= clauses_of(prefix.take(l + 1)));
        }
    }
    proof {
        assert(prefix.take(prefix.len() as int) =~= prefix);
        assert(well_formed(s0));
    }
    Ok(Program { clauses, ret })
}

/// The value of the variable bound `k` binders up in `env` (newest binding
/// at the end); zero past the bottom of the environment.
pub open spec fn lookup(env: Seq<int>, k: nat) -> int {
    if k < env.len() {
        env[env.len() - 1 - k]
    } else {
        0
    }
}

/// The value of an integer expression in an environment.
pub open spec fn eval_expr(e: Expr, env: Seq<int>) -> int
    decreases e,
{
    match e {
        Expr::Lit(n) => n as int,
        Expr::Var(k) => lookup(env, k as nat),
        Expr::Add(a, b) => eval_expr(*a, env) + eval_expr(*b, env),
        Expr::Mul(a, b) => eval_expr(*a, env) * eval_expr(*b, env),
    }
}

/// The value of a guard condition in an environment.
pub open spec fn eval_cond(c: Cond, env: Seq<int>) -> bool {
    match c {
        Cond::Eq(a, b) => eval_expr(a, env) == eval_expr(b, env),
        Cond::Ne(a, b) => eval_expr(a, env) != eval_expr(b, env),
    }
}

/// The sequence an effect expression denotes in an environment.
pub open spec fn eval_eff(e: EffExpr, env: Seq<int>) -> Seq<int> {
    match e {
        EffExpr::Range(lo, hi) => range_seq(eval_expr(lo, env), eval_expr(hi, env)),
        EffExpr::Ret(x) => ret_spec(eval_expr(x, env)),
        EffExpr::Zero => mzero_spec(),
    }
}

/// The continuation a bind clause hands to `bind`: run the remaining
/// clauses with the received element as the newest binding.
pub open spec fn clauses_cont(cs: Seq<Clause>, ret: EffExpr, env: Seq<int>) -> spec_fn(int) -> Seq<
    int,
>
    decreases cs.len(), 1int,
{
    |v: int| clauses_sem(cs, ret, env.push(v))
}

/// The direct, comprehension-style meaning of a clause list: a bind clause
/// runs its remainder once per element with that element bound, a let
/// clause binds a plain value, an ignore clause runs its remainder once
/// per element without binding, and a guard clause keeps only the
/// combinations on which its condition holds.
pub open spec fn clauses_sem(cs: Seq<Clause>, ret: EffExpr, env: Seq<int>) -> Seq<int>
    decreases cs.len(), 0int,
{
    if cs.len() == 0 {
        eval_eff(ret, env)
    } else {
        match cs[0] {
            Clause::Bind(e) => bind_spec(
                eval_eff(e, env),
                clauses_cont(cs.drop_first(), ret, env),
            ),
            Clause::Let(e) => clauses_sem(cs.drop_first(), ret, env.push(eval_expr(e, env))),
            Clause::Ignore(e) => bind_spec(
                eval_eff(e, env),
                discard_cont(clauses_sem(cs.drop_first(), ret, env)),
            ),
            Clause::When(c) => if eval_cond(c, env) {
                clauses_sem(cs.drop_first(), ret, env)
            } else {
                mzero_spec()
            },
        }
    }
}

/// The direct meaning of a whole program in an environment.
pub open spec fn program_sem(p: Program, env: Seq<int>) -> Seq<int> {
    clauses_sem(p.clauses@, p.ret, env)
}

/// The continuation of a desugared bind node: evaluate the inner
/// expression with the received element as the newest binding.
pub open spec fn bind_cont(k: MExpr, env: Seq<int>) -> spec_fn(int) -> Seq<int>
    decreases k, 1int,
{
    |v: int| eval_m(k, env.push(v))
}

/// The meaning of a desugared expression in an environment: exactly the
/// meaning of the nested `bind`/`ret`/`mzero` calls it stands for.
pub open spec fn eval_m(m: MExpr, env: Seq<int>) -> Seq<int>
    decreases m, 0int,
{
    match m {
        MExpr::Eff(e) => eval_eff(e, env),
        MExpr::Bind(m1, k) => bind_spec(eval_m(*m1, env), bind_cont(*k, env)),
        MExpr::Then(m1, k) => bind_spec(eval_m(*m1, env), discard_cont(eval_m(*k, env))),
        MExpr::Let(e, k) => eval_m(*k, env.push(eval_expr(e, env))),
        MExpr::If(c, t, e) => if eval_cond(c, env) {
            eval_m(*t, env)
        } else {
            eval_m(*e, env)
        },
    }
}

/// The two continuations a bind clause gives rise to — the desugared
/// one and the direct one — are the same function once the inner
/// expression means the same as the remaining clauses.
proof fn lemma_conts_agree(prev: MExpr, rest: Seq<Clause>, ret: EffExpr, env: Seq<int>)
    requires
        forall|env2: Seq<int>| #[trigger] eval_m(prev, env2) == clauses_sem(rest, ret, env2),
    ensures
        bind_cont(prev, env) == clauses_cont(rest, ret, env),
{
    let f = bind_cont(prev, env);
    let g = clauses_cont(rest, ret, env);
    assert forall|v: int| #[trigger] f(v) == g(v) by {
        assert(eval_m(prev, env.push(v)) == clauses_sem(rest, ret, env.push(v)));
    }
    assert(f =~= g);
}

/// Rewrites a program into its nested expression form, working from the
/// last clause outwards so that the first written clause ends up as the
/// outermost bind. The desugaring-equivalence law is the contract: in
/// every environment the rewritten expression denotes exactly the
/// program's direct meaning.
pub fn desugar(p: Program) -> (r: MExpr)
    ensures
        forall|env: Seq<int>| #[trigger] eval_m(r, env) == program_sem(p, env),
{
    let Program { mut clauses, ret } = p;
    let ghost cs0 = clauses@;
    let ghost ret0 = ret;
    let mut acc = MExpr::Eff(ret);
    proof {
        assert(cs0.take(cs0.len() as int) =~= cs0);
        assert(cs0.skip(cs0.len() as int).len() == 0);
    }
    while clauses.len() > 0
        invariant
            clauses@ == cs0.take(clauses@.len() as int),
            clauses@.len() <= cs0.len(),
            forall|env: Seq<int>| #[trigger] eval_m(acc, env) == clauses_sem(
                cs0.skip(clauses@.len() as int),
                ret0,
                env,
            ),
        decreases clauses.len(),
    {
        let ghost n = clauses@.len() as int;
        let c = clauses.pop().unwrap();
        let ghost k = n - 1;
        proof {
            assert(clauses@ =~= cs0.take(k));
            assert(cs0.skip(k).len() == cs0.len() - k);
            assert(cs0.skip(k)[0] == cs0[k]);
            assert(c == cs0.take(n)[n - 1]);
            assert(c == cs0[k]);
            assert(cs0.skip(k).drop_first() =~= cs0.skip(n));
        }
        let prev = acc;
        let ghost prev_g = prev;
        acc = match c {
            Clause::Bind(e) => {
                let ghost e_g = e;
                let node = MExpr::Bind(Box::new(MExpr::Eff(e)), Box::new(prev));
                proof {
                    assert forall|env: Seq<int>| #[trigger] eval_m(node, env) == clauses_sem(
                        cs0.skip(k),
                        ret0,
                        env,
                    ) by {
                        lemma_conts_agree(prev_g, cs0.skip(n), ret0, env);
                        assert(eval_m(MExpr::Eff(e_g), env) == eval_eff(e_g, env));
                        assert(eval_m(node, env) == bind_spec(
                            eval_eff(e_g, env),
                            bind_cont(prev_g, env),
                        ));
                        assert(clauses_sem(cs0.skip(k), ret0, env) == bind_spec(
                            eval_eff(e_g, env),
                            clauses_cont(cs0.skip(n), ret0, env),
                        ));
                    }
                }
                node
            },
            Clause::Let(e) => {
                let ghost e_g = e;
                let node = MExpr::Let(e, Box::new(prev));
                proof {
                    assert forall|env: Seq<int>| #[trigger] eval_m(node, env) == clauses_sem(
                        cs0.skip(k),
                        ret0,
                        env,
                    ) by {
                        assert(eval_m(prev_g, env.push(eval_expr(e_g, env))) == clauses_sem(
                            cs0.skip(n),
                            ret0,
                            env.push(eval_expr(e_g, env)),
                        ));
                    }
                }
                node
            },
            Clause::Ignore(e) => {
                let ghost e_g = e;
                let node = MExpr::Then(Box::new(MExpr::Eff(e)), Box::new(prev));
                proof {
                    assert forall|env: Seq<int>| #[trigger] eval_m(node, env) == clauses_sem(
                        cs0.skip(k),
                        ret0,
                        env,
                    ) by {
                        assert(eval_m(MExpr::Eff(e_g), env) == eval_eff(e_g, env));
                        assert(eval_m(prev_g, env) == clauses_sem(cs0.skip(n), ret0, env));
                        assert(eval_m(node, env) == bind_spec(
                            eval_eff(e_g, env),
                            discard_cont(eval_m(prev_g, env)),
                        ));
                    }
                }
                node
            },
            Clause::When(cond) => {
                let ghost cond_g = cond;
                let node = MExpr::Then(
                    Box::new(
                        MExpr::If(
                            cond,
                            Box::new(MExpr::Eff(EffExpr::Ret(Expr::Lit(0)))),
                            Box::new(MExpr::Eff(EffExpr::Zero)),
                        ),
                    ),
                    Box::new(prev),
                );
                proof {
                    assert forall|env: Seq<int>| #[trigger] eval_m(node, env) == clauses_sem(
                        cs0.skip(k),
                        ret0,
                        env,
                    ) by {
                        let unit_eff = MExpr::Eff(EffExpr::Ret(Expr::Lit(0)));
                        let zero_eff = MExpr::Eff(EffExpr::Zero);
                        let guard = MExpr::If(cond_g, Box::new(unit_eff), Box::new(zero_eff));
                        assert(eval_expr(Expr::Lit(0), env) == 0);
                        assert(eval_m(unit_eff, env) == ret_spec(0int));
                        assert(eval_m(zero_eff, env) == mzero_spec::<int>());
                        assert(eval_m(guard, env) == if eval_cond(cond_g, env) {
                            ret_spec(0int)
                        } else {
                            mzero_spec::<int>()
                        });
                        lemma_guard_filters::<int, int>(
                            eval_cond(cond_g, env),
                            0int,
                            eval_m(prev_g, env),
                        );
                        assert(eval_m(node, env) == bind_spec(
                            eval_m(guard, env),
                            discard_cont(eval_m(prev_g, env)),
                        ));
                        assert(eval_m(prev_g, env) == clauses_sem(cs0.skip(n), ret0, env));
                    }
                }
                node
            },
        };
    }
    proof {
        assert(cs0.skip(0) =~= cs0);
    }
    acc
}

} // verus!
