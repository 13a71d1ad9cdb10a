//! Statement execution over a generic scalar type.
//!
//! Printed values are collected in order rather than written out; range-loop
//! comparison and all scalar work are closures, and loops are bounded by the
//! same fuel count that bounds nested user calls.
use vstd::prelude::*;

use crate::eval::{Constant, evaluate_expr, evaluates, outcome_of};
use crate::interpreter::{
    datas_view, lemma_datas_view, lemma_datas_view_push, Builtin, Data, DataV, Function, FunctionV, Namespace, NamespaceV, RuntimeError, RuntimeFault,
    clean, declare_fn, declare_var, names_view, resolves,
};
use crate::lexer::{Tok, Token, TokenKind, TokenType};
use crate::parser::{Expr, ExprV, Operator, Parsed, Stmt, exprs_view, stmts_view, stmt_view};

verus! {

broadcast use {vstd::seq::group_seq_axioms, vstd::std_specs::vec::group_vec_axioms};

/// The state a run of statements changes: the namespace and what was printed.
pub struct Run<S> {
    pub ns: NamespaceV<S>,
    pub printed: Seq<DataV<S>>,
}

/// The scalar work a run needs, as closures.
pub struct Closures<A, N, K, F, L> {
    pub arith: A,
    pub numeral: N,
    pub constant: K,
    pub builtin: F,
    pub le: L,
}

pub open spec fn with_ns<S>(st: Run<S>, ns: NamespaceV<S>) -> Run<S> {
    Run { ns, printed: st.printed }
}

/// `st` with variable `n` bound to `v` (a loop variable).
pub open spec fn bind<S>(st: Run<S>, n: Seq<char>, v: DataV<S>) -> Run<S> {
    with_ns(st, NamespaceV { vars: st.ns.vars.insert(n, v), funcs: st.ns.funcs })
}

/// `st` without variable `n`.
pub open spec fn unbind<S>(st: Run<S>, n: Seq<char>) -> Run<S> {
    with_ns(st, NamespaceV { vars: st.ns.vars.remove(n), funcs: st.ns.funcs })
}

/// `st` once the names a finished body introduced are removed.
pub open spec fn cleaned<S>(st: Run<S>, names: Seq<Seq<char>>) -> Run<S> {
    with_ns(st, clean(st.ns, names))
}

pub open spec fn eval_in<S, A, N, K, F, L>(
    st: Run<S>,
    e: ExprV,
    fuel: nat,
    c: Closures<A, N, K, F, L>,
    out: Result<DataV<S>, RuntimeFault>,
) -> bool where
    A: Fn(Operator, S, S) -> S,
    N: Fn(String, bool) -> S,
    K: Fn(Constant) -> S,
    F: Fn(Builtin, S) -> S,
    L: Fn(S, S) -> bool,
 {
    evaluates(st.ns, e, fuel, c.arith, c.numeral, c.constant, c.builtin, out)
}

/// The names of parameter tokens, if all are identifiers.
pub open spec fn param_names(ps: Seq<Tok>) -> Option<Seq<Seq<char>>>
    decreases ps.len(),
{
    if ps.len() == 0 {
        Some(Seq::empty())
    } else {
        match param_names(ps.drop_last()) {
            Some(ns) => match ps.last().kind {
                TokenKind::Ident(n) => Some(ns.push(n)),
                _ => None,
            },
            None => None,
        }
    }
}

/// Running `block` from `st` ends in `end` with outcome `out`: the names the
/// block introduced directly, or the first failure. Statements run in order;
/// a failure stops the run where it happened.
pub open spec fn executes<S, A, N, K, F, L>(
    st: Run<S>,
    block: Seq<Stmt>,
    fuel: nat,
    c: Closures<A, N, K, F, L>,
    end: Run<S>,
    out: Result<Seq<Seq<char>>, RuntimeFault>,
) -> bool where
    A: Fn(Operator, S, S) -> S,
    N: Fn(String, bool) -> S,
    K: Fn(Constant) -> S,
    F: Fn(Builtin, S) -> S,
    L: Fn(S, S) -> bool,

    decreases block, 0nat,
{
    if block.len() == 0 {
        end == st && out == Ok::<Seq<Seq<char>>, RuntimeFault>(Seq::empty())
    } else {
        executes(st, block.drop_last(), fuel, c, end, out) && out is Err || exists|
            mid: Run<S>,
            names: Seq<Seq<char>>,
        |
            #[trigger] outcome_of(mid) && #[trigger] outcome_of(names) && executes(
                st,
                block.drop_last(),
                fuel,
                c,
                mid,
                Ok(names),
            ) && match out {
                Ok(all) => exists|more: Seq<Seq<char>>|
                    #[trigger] outcome_of(more) && runs(mid, block.last(), fuel, c, end, Ok(more))
                        && all == names + more,
                Err(err) => runs(mid, block.last(), fuel, c, end, Err(err)),
            }
    }
}

/// Running one statement.
pub open spec fn runs<S, A, N, K, F, L>(
    st: Run<S>,
    s: Stmt,
    fuel: nat,
    c: Closures<A, N, K, F, L>,
    end: Run<S>,
    out: Result<Seq<Seq<char>>, RuntimeFault>,
) -> bool where
    A: Fn(Operator, S, S) -> S,
    N: Fn(String, bool) -> S,
    K: Fn(Constant) -> S,
    F: Fn(Builtin, S) -> S,
    L: Fn(S, S) -> bool,

    decreases s, 0nat,
{
    match s {
        Stmt::Declaration(t, e) => match t.kind {
            TokenKind::Ident(n) => if resolves(st.ns, n) {
                end == st && out == Err::<Seq<Seq<char>>, RuntimeFault>(RuntimeFault::Redeclaration(n))
            } else {
                match out {
                    Ok(names) => names == seq![n] && exists|v: DataV<S>|
                        #[trigger] outcome_of(v) && eval_in(st, e, fuel, c, Ok(v)) && end == with_ns(
                            st,
                            declare_var(st.ns, n, v)->Some_0,
                        ),
                    Err(err) => end == st && eval_in(st, e, fuel, c, Err(err)),
                }
            },
            _ => end == st && out == Err::<Seq<Seq<char>>, RuntimeFault>(RuntimeFault::ExpectedIdentifier),
        },
        Stmt::PrintExpr(e) => match out {
            Ok(names) => names == Seq::<Seq<char>>::empty() && exists|v: DataV<S>|
                #[trigger] outcome_of(v) && eval_in(st, e, fuel, c, Ok(v)) && end == Run {
                    ns: st.ns,
                    printed: st.printed.push(v),
                },
            Err(err) => end == st && eval_in(st, e, fuel, c, Err(err)),
        },
        Stmt::FunctionDecleration(t, ps, body) => match t.kind {
            TokenKind::Ident(n) => match param_names(ps) {
                None => end == st && out == Err::<Seq<Seq<char>>, RuntimeFault>(
                    RuntimeFault::ExpectedIdentifier,
                ),
                Some(params) => match declare_fn(st.ns, n, FunctionV { params, body }) {
                    None => end == st && out == Err::<Seq<Seq<char>>, RuntimeFault>(
                        RuntimeFault::Redeclaration(n),
                    ),
                    Some(ns2) => end == with_ns(st, ns2) && out == Ok::<
                        Seq<Seq<char>>,
                        RuntimeFault,
                    >(seq![n]),
                },
            },
            _ => end == st && out == Err::<Seq<Seq<char>>, RuntimeFault>(RuntimeFault::ExpectedIdentifier),
        },
        Stmt::Block(b) => match out {
            Ok(names) => names == Seq::<Seq<char>>::empty() && exists|mid: Run<S>, inner: Seq<Seq<char>>|
                #[trigger] outcome_of(mid) && #[trigger] outcome_of(inner) && executes(
                    st,
                    b,
                    fuel,
                    c,
                    mid,
                    Ok(inner),
                ) && end == cleaned(mid, inner),
            Err(err) => executes(st, b, fuel, c, end, Err(err)),
        },
        Stmt::FromLoop(min, max, var, step, body) => {
            &&& out is Ok ==> out->Ok_0 == Seq::<Seq<char>>::empty()
            &&& range_header(st, min, max, var, step, fuel, c, end, out) || exists|
                a: S,
                z: S,
                d: S,
                n: Seq<char>,
            |
                #[trigger] outcome_of((a, z, d, n)) && eval_in(st, min, fuel, c, Ok(DataV::Float(a)))
                    && eval_in(st, max, fuel, c, Ok(DataV::Float(z))) && eval_in(
                    st,
                    step,
                    fuel,
                    c,
                    Ok(DataV::Float(d)),
                ) && var == ExprV::Ident(n) && ranges(
                    bind(st, n, DataV::Float(a)),
                    n,
                    a,
                    z,
                    d,
                    body,
                    fuel,
                    fuel,
                    c,
                    end,
                    out,
                )
        },
        Stmt::ForLoop(var, list, body) => {
            &&& out is Ok ==> out->Ok_0 == Seq::<Seq<char>>::empty()
            &&& (end == st && eval_in(st, list, fuel, c, Err(out->Err_0)) && out is Err) || exists|
                v: DataV<S>,
            |
                #[trigger] outcome_of(v) && eval_in(st, list, fuel, c, Ok(v)) && match v {
                    DataV::Float(_) => end == st && out == Err::<Seq<Seq<char>>, RuntimeFault>(
                        RuntimeFault::ExpectedList,
                    ),
                    DataV::List(items) => match var {
                        ExprV::Ident(n) => if items.len() == 0 {
                            end == st && out == Err::<Seq<Seq<char>>, RuntimeFault>(
                                RuntimeFault::EmptyList,
                            )
                        } else {
                            for_items(bind(st, n, items[0]), n, items, 1, body, fuel, c, end, out)
                        },
                        _ => end == st && out == Err::<Seq<Seq<char>>, RuntimeFault>(
                            RuntimeFault::ExpectedIdentifier,
                        ),
                    },
                }
        },
        Stmt::Destructuring(l, r) => match l {
            ExprV::List(ls) => match r {
                ExprV::List(rs) => if ls.len() != rs.len() {
                    end == st && out == Err::<Seq<Seq<char>>, RuntimeFault>(
                        RuntimeFault::InvalidListLength,
                    )
                } else {
                    binds(st, ls, rs, ls.len() as int, fuel, c, end, out)
                },
                _ => end == st && out == Err::<Seq<Seq<char>>, RuntimeFault>(RuntimeFault::ExpectedList),
            },
            _ => end == st && out == Err::<Seq<Seq<char>>, RuntimeFault>(RuntimeFault::ExpectedList),
        },
    }
}

/// The failures of a range-loop header: a bound or the step fails to
/// evaluate or is a list, or the loop variable is not a name. The three are
/// evaluated in order, then the variable is checked.
pub open spec fn range_header<S, A, N, K, F, L>(
    st: Run<S>,
    min: ExprV,
    max: ExprV,
    var: ExprV,
    step: ExprV,
    fuel: nat,
    c: Closures<A, N, K, F, L>,
    end: Run<S>,
    out: Result<Seq<Seq<char>>, RuntimeFault>,
) -> bool where
    A: Fn(Operator, S, S) -> S,
    N: Fn(String, bool) -> S,
    K: Fn(Constant) -> S,
    F: Fn(Builtin, S) -> S,
    L: Fn(S, S) -> bool,
 {
    end == st && out is Err && {
        let err = out->Err_0;
        scalar_fails(st, min, fuel, c, err) || exists|a: S|
            #[trigger] outcome_of(a) && eval_in(st, min, fuel, c, Ok(DataV::Float(a))) && (
            scalar_fails(st, max, fuel, c, err) || exists|z: S|
                #[trigger] outcome_of(z) && eval_in(st, max, fuel, c, Ok(DataV::Float(z))) && (
                scalar_fails(st, step, fuel, c, err) || exists|d: S|
                    #[trigger] outcome_of(d) && eval_in(st, step, fuel, c, Ok(DataV::Float(d)))
                        && !(var is Ident) && err == RuntimeFault::ExpectedIdentifier))
    }
}

/// `e` does not evaluate to a scalar, failing with `err`.
pub open spec fn scalar_fails<S, A, N, K, F, L>(
    st: Run<S>,
    e: ExprV,
    fuel: nat,
    c: Closures<A, N, K, F, L>,
    err: RuntimeFault,
) -> bool where
    A: Fn(Operator, S, S) -> S,
    N: Fn(String, bool) -> S,
    K: Fn(Constant) -> S,
    F: Fn(Builtin, S) -> S,
    L: Fn(S, S) -> bool,
 {
    eval_in(st, e, fuel, c, Err(err)) || (err == RuntimeFault::ExpectedScalar && exists|
        v: Seq<DataV<S>>,
    | #[trigger] outcome_of(v) && eval_in(st, e, fuel, c, Ok(DataV::List(v))))
}

/// The iterations of a range loop from value `i`: while `le(i, max)` the body
/// runs as a scope of its own and the variable advances by `step`; each
/// iteration takes one unit of `left`. At the end the variable is removed.
pub open spec fn ranges<S, A, N, K, F, L>(
    st: Run<S>,
    n: Seq<char>,
    i: S,
    max: S,
    step: S,
    body: Seq<Stmt>,
    left: nat,
    fuel: nat,
    c: Closures<A, N, K, F, L>,
    end: Run<S>,
    out: Result<Seq<Seq<char>>, RuntimeFault>,
) -> bool where
    A: Fn(Operator, S, S) -> S,
    N: Fn(String, bool) -> S,
    K: Fn(Constant) -> S,
    F: Fn(Builtin, S) -> S,
    L: Fn(S, S) -> bool,

    decreases body, left + 1,
{
    exists|go: bool|
        #[trigger] outcome_of(go) && c.le.ensures((i, max), go) && if !go {
            end == unbind(st, n) && out == Ok::<Seq<Seq<char>>, RuntimeFault>(Seq::empty())
        } else if left == 0 {
            end == st && out == Err::<Seq<Seq<char>>, RuntimeFault>(RuntimeFault::RecursionLimit)
        } else {
            (out is Err && executes(st, body, fuel, c, end, out)) || exists|
                mid: Run<S>,
                names: Seq<Seq<char>>,
                i2: S,
            |
                #[trigger] outcome_of((mid, names, i2)) && executes(st, body, fuel, c, mid, Ok(names))
                    && c.arith.ensures((Operator::Plus, i, step), i2) && ranges(
                    bind(cleaned(mid, names), n, DataV::Float(i2)),
                    n,
                    i2,
                    max,
                    step,
                    body,
                    (left - 1) as nat,
                    fuel,
                    c,
                    end,
                    out,
                )
        }
}

/// The iterations of a list loop from item `k`: the body runs as a scope of
/// its own, then the variable takes item `k`. At the end the variable is
/// removed.
pub open spec fn for_items<S, A, N, K, F, L>(
    st: Run<S>,
    n: Seq<char>,
    items: Seq<DataV<S>>,
    k: int,
    body: Seq<Stmt>,
    fuel: nat,
    c: Closures<A, N, K, F, L>,
    end: Run<S>,
    out: Result<Seq<Seq<char>>, RuntimeFault>,
) -> bool where
    A: Fn(Operator, S, S) -> S,
    N: Fn(String, bool) -> S,
    K: Fn(Constant) -> S,
    F: Fn(Builtin, S) -> S,
    L: Fn(S, S) -> bool,

    decreases body, items.len() - k + 1,
{
    if k < 1 || k >= items.len() {
        end == unbind(st, n) && out == Ok::<Seq<Seq<char>>, RuntimeFault>(Seq::empty())
    } else {
        (out is Err && executes(st, body, fuel, c, end, out)) || exists|
            mid: Run<S>,
            names: Seq<Seq<char>>,
        |
            #[trigger] outcome_of((mid, names)) && executes(st, body, fuel, c, mid, Ok(names))
                && for_items(
                bind(cleaned(mid, names), n, items[k]),
                n,
                items,
                k + 1,
                body,
                fuel,
                c,
                end,
                out,
            )
    }
}

/// The first `k` pairs of a destructuring, bound in order: each left item
/// must be a name that does not resolve; a failure keeps the bindings made
/// before it.
pub open spec fn binds<S, A, N, K, F, L>(
    st: Run<S>,
    ls: Seq<ExprV>,
    rs: Seq<ExprV>,
    k: int,
    fuel: nat,
    c: Closures<A, N, K, F, L>,
    end: Run<S>,
    out: Result<Seq<Seq<char>>, RuntimeFault>,
) -> bool where
    A: Fn(Operator, S, S) -> S,
    N: Fn(String, bool) -> S,
    K: Fn(Constant) -> S,
    F: Fn(Builtin, S) -> S,
    L: Fn(S, S) -> bool,

    decreases k,
{
    if k <= 0 {
        end == st && out == Ok::<Seq<Seq<char>>, RuntimeFault>(Seq::empty())
    } else {
        (out is Err && binds(st, ls, rs, k - 1, fuel, c, end, out)) || exists|
            mid: Run<S>,
            names: Seq<Seq<char>>,
        |
            #[trigger] outcome_of((mid, names)) && binds(st, ls, rs, k - 1, fuel, c, mid, Ok(names))
                && match ls[k - 1] {
                ExprV::Ident(n) => if resolves(mid.ns, n) {
                    end == mid && out == Err::<Seq<Seq<char>>, RuntimeFault>(
                        RuntimeFault::Redeclaration(n),
                    )
                } else {
                    match out {
                        Ok(all) => all == names.push(n) && exists|v: DataV<S>|
                            #[trigger] outcome_of(v) && eval_in(mid, rs[k - 1], fuel, c, Ok(v))
                                && end == with_ns(mid, declare_var(mid.ns, n, v)->Some_0),
                        Err(err) => end == mid && eval_in(mid, rs[k - 1], fuel, c, Err(err)),
                    }
                },
                _ => end == mid && out == Err::<Seq<Seq<char>>, RuntimeFault>(
                    RuntimeFault::ExpectedIdentifier,
                ),
            }
    }
}

/// Once a declaration of `n` has run, a second declaration of `n` in the same
/// scope fails with a redeclaration and changes nothing.
pub proof fn lemma_redeclaration_in_scope<S, A, N, K, F, L>(
    st: Run<S>,
    t1: Tok,
    e1: ExprV,
    t2: Tok,
    e2: ExprV,
    n: Seq<char>,
    fuel: nat,
    c: Closures<A, N, K, F, L>,
    mid: Run<S>,
    o1: Seq<Seq<char>>,
    end: Run<S>,
    out: Result<Seq<Seq<char>>, RuntimeFault>,
) where
    A: Fn(Operator, S, S) -> S,
    N: Fn(String, bool) -> S,
    K: Fn(Constant) -> S,
    F: Fn(Builtin, S) -> S,
    L: Fn(S, S) -> bool,

    requires
        t1.kind == TokenKind::Ident(n),
        t2.kind == TokenKind::Ident(n),
        runs(st, Stmt::Declaration(t1, e1), fuel, c, mid, Ok(o1)),
        runs(mid, Stmt::Declaration(t2, e2), fuel, c, end, out),
    ensures
        out == Err::<Seq<Seq<char>>, RuntimeFault>(RuntimeFault::Redeclaration(n)),
        end == mid,
{
    let v = choose|v: DataV<S>|
        #[trigger] outcome_of(v) && eval_in(st, e1, fuel, c, Ok(v)) && mid == with_ns(
            st,
            declare_var(st.ns, n, v)->Some_0,
        );
    assert(mid.ns.vars.contains_key(n));
}

/// A nested block that runs to its end leaves none of the names it introduced
/// bound: each is neither a variable nor a function afterwards, though it was
/// declared while the block ran.
pub proof fn lemma_block_scope_cleanup<S, A, N, K, F, L>(
    st: Run<S>,
    b: Seq<Stmt>,
    fuel: nat,
    c: Closures<A, N, K, F, L>,
    end: Run<S>,
    out: Seq<Seq<char>>,
) where
    A: Fn(Operator, S, S) -> S,
    N: Fn(String, bool) -> S,
    K: Fn(Constant) -> S,
    F: Fn(Builtin, S) -> S,
    L: Fn(S, S) -> bool,

    requires
        runs(st, Stmt::Block(b), fuel, c, end, Ok(out)),
    ensures
        out == Seq::<Seq<char>>::empty(),
        exists|mid: Run<S>, inner: Seq<Seq<char>>|
            #[trigger] executes(st, b, fuel, c, mid, Ok(inner)) && forall|n: Seq<char>|
                #[trigger] inner.contains(n) ==> !end.ns.vars.contains_key(n)
                    && !end.ns.funcs.contains_key(n),
{
    let (mid, inner) = choose|mid: Run<S>, inner: Seq<Seq<char>>|
        #[trigger] outcome_of(mid) && #[trigger] outcome_of(inner) && executes(st, b, fuel, c, mid, Ok(inner))
            && end == cleaned(mid, inner);
    assert forall|n: Seq<char>| #[trigger] inner.contains(n) implies !end.ns.vars.contains_key(n)
        && !end.ns.funcs.contains_key(n) by {
        assert(inner.to_set().contains(n));
    }
}

// ---------------------------------------------------------------------------
// Running statements

pub open spec fn run_of<S>(ns: NamespaceV<S>, printed: Seq<Data<S>>) -> Run<S> {
    Run { ns, printed: datas_view(printed) }
}

/// The model of what a run of statements returned.
pub open spec fn names_outcome(r: Result<Vec<String>, RuntimeError>) -> Result<Seq<Seq<char>>, RuntimeFault> {
    match r {
        Ok(v) => Ok(names_view(v@)),
        Err(e) => Err(e@),
    }
}

/// Every closure accepts every argument.
pub open spec fn total<S, A, N, K, F, L>(c: Closures<A, N, K, F, L>) -> bool where
    A: Fn(Operator, S, S) -> S,
    N: Fn(String, bool) -> S,
    K: Fn(Constant) -> S,
    F: Fn(Builtin, S) -> S,
    L: Fn(S, S) -> bool,
 {
    &&& forall|o: Operator, x: S, y: S| c.arith.requires((o, x, y))
    &&& forall|t: String, neg: bool| c.numeral.requires((t, neg))
    &&& forall|k: Constant| c.constant.requires((k,))
    &&& forall|b: Builtin, x: S| c.builtin.requires((b, x))
    &&& forall|x: S, y: S| c.le.requires((x, y))
}

pub proof fn lemma_stmts_view(s: Seq<Parsed>)
    ensures
        stmts_view(s).len() == s.len(),
        forall|i: int| 0 <= i < s.len() ==> #[trigger] stmts_view(s)[i] == stmt_view(s[i]),
    decreases s.len(),
{
    if s.len() > 0 {
        lemma_stmts_view(s.drop_last());
    }
}

proof fn lemma_executes_step<S, A, N, K, F, L>(
    st: Run<S>,
    bs: Seq<Stmt>,
    i: int,
    fuel: nat,
    c: Closures<A, N, K, F, L>,
    mid: Run<S>,
    names: Seq<Seq<char>>,
    end: Run<S>,
    out: Result<Seq<Seq<char>>, RuntimeFault>,
) where
    A: Fn(Operator, S, S) -> S,
    N: Fn(String, bool) -> S,
    K: Fn(Constant) -> S,
    F: Fn(Builtin, S) -> S,
    L: Fn(S, S) -> bool,

    requires
        0 <= i < bs.len(),
        executes(st, bs.take(i), fuel, c, mid, Ok(names)),
        runs(mid, bs[i], fuel, c, end, out),
    ensures
        executes(
            st,
            bs.take(i + 1),
            fuel,
            c,
            end,
            match out {
                Ok(more) => Ok(names + more),
                Err(e) => Err(e),
            },
        ),
{
    let t = bs.take(i + 1);
    assert(t.drop_last() =~= bs.take(i));
    assert(t.last() == bs[i]);
    assert(outcome_of(mid) && outcome_of(names));
    if let Ok(more) = out {
        assert(outcome_of(more));
    }
}

proof fn lemma_executes_prefix_err<S, A, N, K, F, L>(
    st: Run<S>,
    bs: Seq<Stmt>,
    i: int,
    fuel: nat,
    c: Closures<A, N, K, F, L>,
    end: Run<S>,
    err: RuntimeFault,
) where
    A: Fn(Operator, S, S) -> S,
    N: Fn(String, bool) -> S,
    K: Fn(Constant) -> S,
    F: Fn(Builtin, S) -> S,
    L: Fn(S, S) -> bool,

    requires
        0 <= i <= bs.len(),
        executes(st, bs.take(i), fuel, c, end, Err(err)),
    ensures
        executes(st, bs, fuel, c, end, Err(err)),
    decreases bs.len() - i,
{
    if i < bs.len() {
        assert(bs.take(i + 1).drop_last() =~= bs.take(i));
        lemma_executes_prefix_err(st, bs, i + 1, fuel, c, end, err);
    } else {
        assert(bs.take(i) =~= bs);
    }
}

proof fn lemma_binds_prefix_err<S, A, N, K, F, L>(
    st: Run<S>,
    ls: Seq<ExprV>,
    rs: Seq<ExprV>,
    k: int,
    n: int,
    fuel: nat,
    c: Closures<A, N, K, F, L>,
    end: Run<S>,
    err: RuntimeFault,
) where
    A: Fn(Operator, S, S) -> S,
    N: Fn(String, bool) -> S,
    K: Fn(Constant) -> S,
    F: Fn(Builtin, S) -> S,
    L: Fn(S, S) -> bool,

    requires
        0 <= k <= n,
        binds(st, ls, rs, k, fuel, c, end, Err(err)),
    ensures
        binds(st, ls, rs, n, fuel, c, end, Err(err)),
    decreases n - k,
{
    if k < n {
        lemma_binds_prefix_err(st, ls, rs, k + 1, n, fuel, c, end, err);
    }
}

proof fn lemma_param_names_prefix(ps: Seq<Tok>, k: int)
    requires
        0 <= k <= ps.len(),
        param_names(ps.take(k)) is None,
    ensures
        param_names(ps) is None,
    decreases ps.len() - k,
{
    if k < ps.len() {
        assert(ps.take(k + 1).drop_last() =~= ps.take(k));
        lemma_param_names_prefix(ps, k + 1);
    } else {
        assert(ps.take(k) =~= ps);
    }
}

/// Runs `block` as one scope; returns the names it introduced directly, which
/// the caller removes when the scope ends.
#[verifier::loop_isolation(false)]
pub fn execute_block<S: Copy, A, N, K, F, L>(
    ns: &mut Namespace<S>,
    block: &Vec<Parsed>,
    fuel: u64,
    printed: &mut Vec<Data<S>>,
    c: &Closures<A, N, K, F, L>,
) -> (r: Result<Vec<String>, RuntimeError>) where
    A: Fn(Operator, S, S) -> S,
    N: Fn(String, bool) -> S,
    K: Fn(Constant) -> S,
    F: Fn(Builtin, S) -> S,
    L: Fn(S, S) -> bool,

    requires
        old(ns).wf(),
        total(*c),
    ensures
        final(ns).wf(),
        executes(
            run_of(old(ns)@, old(printed)@),
            stmts_view(block@),
            fuel as nat,
            *c,
            run_of(final(ns)@, final(printed)@),
            names_outcome(r),
        ),
    decreases block,
{
    let ghost st0 = run_of(ns@, printed@);
    let ghost bs = stmts_view(block@);
    let ghost g = fuel as nat;
    let mut scope: Vec<String> = Vec::new();
    let mut i: usize = 0;
    proof {
        lemma_stmts_view(block@);
        assert(bs.take(0) =~= Seq::<Stmt>::empty());
        assert(names_view(scope@) =~= Seq::<Seq<char>>::empty());
    }
    while i < block.len()
        invariant
            ns.wf(),
            total(*c),
            i <= block@.len(),
            bs == stmts_view(block@),
            bs.len() == block@.len(),
            forall|j: int| 0 <= j < block@.len() ==> #[trigger] bs[j] == stmt_view(block@[j]),
            executes(st0, bs.take(i as int), g, *c, run_of(ns@, printed@), Ok(names_view(scope@))),
        decreases block@.len() - i,
    {
        let ghost mid = run_of(ns@, printed@);
        let ghost names = names_view(scope@);
        proof {
            assert(decreases_to!(*block => block[i as int]));
        }
        match run_statement(ns, &block[i], fuel, printed, c) {
            Ok(more) => {
                proof {
                    lemma_executes_step(st0, bs, i as int, g, *c, mid, names, run_of(ns@, printed@), Ok(names_view(more@)));
                }
                let mut more = more;
                let ghost old_scope = scope@;
                let ghost m = more@;
                scope.append(&mut more);
                proof {
                    assert(names_view(scope@) =~= names_view(old_scope) + names_view(m));
                }
            },
            Err(e) => {
                proof {
                    lemma_executes_step(st0, bs, i as int, g, *c, mid, names, run_of(ns@, printed@), Err(e@));
                    lemma_executes_prefix_err(st0, bs, i + 1, g, *c, run_of(ns@, printed@), e@);
                }
                return Err(e);
            },
        }
        i = i + 1;
    }
    proof {
        assert(bs.take(block@.len() as int) =~= bs);
    }
    Ok(scope)
}

fn scalar_of<S: Copy, A, N, K, F, L>(
    ns: &Namespace<S>,
    e: &Expr,
    fuel: u64,
    c: &Closures<A, N, K, F, L>,
) -> (r: Result<S, RuntimeError>) where
    A: Fn(Operator, S, S) -> S,
    N: Fn(String, bool) -> S,
    K: Fn(Constant) -> S,
    F: Fn(Builtin, S) -> S,
    L: Fn(S, S) -> bool,

    requires
        ns.wf(),
        total(*c),
    ensures
        match r {
            Ok(x) => eval_in(run_of(ns@, Seq::empty()), e@, fuel as nat, *c, Ok(DataV::Float(x))),
            Err(err) => scalar_fails(run_of(ns@, Seq::empty()), e@, fuel as nat, *c, err@),
        },
{
    match evaluate_expr(ns, e, fuel, &c.arith, &c.numeral, &c.constant, &c.builtin) {
        Ok(Data::Float(x)) => Ok(x),
        Ok(Data::List(v)) => {
            proof {
                assert(outcome_of(datas_view(v@)));
            }
            Err(RuntimeError::ExpectedScalar)
        },
        Err(e) => Err(e),
    }
}

/// Runs one statement; returns the names it introduced.
#[verifier::loop_isolation(false)]
pub fn run_statement<S: Copy, A, N, K, F, L>(
    ns: &mut Namespace<S>,
    s: &Parsed,
    fuel: u64,
    printed: &mut Vec<Data<S>>,
    c: &Closures<A, N, K, F, L>,
) -> (r: Result<Vec<String>, RuntimeError>) where
    A: Fn(Operator, S, S) -> S,
    N: Fn(String, bool) -> S,
    K: Fn(Constant) -> S,
    F: Fn(Builtin, S) -> S,
    L: Fn(S, S) -> bool,

    requires
        old(ns).wf(),
        total(*c),
    ensures
        final(ns).wf(),
        runs(
            run_of(old(ns)@, old(printed)@),
            stmt_view(*s),
            fuel as nat,
            *c,
            run_of(final(ns)@, final(printed)@),
            names_outcome(r),
        ),
    decreases s,
{
    let ghost st = run_of(ns@, printed@);
    let ghost g = fuel as nat;
    match s {
        Parsed::Declaration(Token(TokenType::Ident(name), _), e) => {
            if ns.is_defined(name) {
                return Err(RuntimeError::Redeclaration(name.clone()));
            }
            let v = match evaluate_expr(ns, e, fuel, &c.arith, &c.numeral, &c.constant, &c.builtin) {
                Ok(v) => v,
                Err(err) => {
                    return Err(err);
                },
            };
            proof {
                assert(outcome_of(v@));
            }
            let _ = ns.declare_variable(name.clone(), v);
            let out = vec![name.clone()];
            proof {
                assert(names_view(out@) =~= seq![name@]);
            }
            Ok(out)
        },
        Parsed::Declaration(..) => Err(RuntimeError::ExpectedIdentifier),
        Parsed::PrintExpr(e) => {
            let v = match evaluate_expr(ns, e, fuel, &c.arith, &c.numeral, &c.constant, &c.builtin) {
                Ok(v) => v,
                Err(err) => {
                    return Err(err);
                },
            };
            proof {
                assert(outcome_of(v@));
                lemma_datas_view_push(printed@, v);
            }
            printed.push(v);
            let out: Vec<String> = Vec::new();
            proof {
                assert(names_view(out@) =~= Seq::<Seq<char>>::empty());
            }
            Ok(out)
        },
        Parsed::FunctionDecleration(Token(TokenType::Ident(name), _), params, body) => {
            let ghost pv = params@.map_values(|t: Token| t@);
            let mut names: Vec<String> = Vec::new();
            let mut k: usize = 0;
            proof {
                assert(pv.take(0) =~= Seq::<Tok>::empty());
                assert(names_view(names@) =~= Seq::<Seq<char>>::empty());
            }
            while k < params.len()
                invariant
                    k <= params@.len(),
                    pv == params@.map_values(|t: Token| t@),
                    param_names(pv.take(k as int)) == Some(names_view(names@)),
                decreases params@.len() - k,
            {
                proof {
                    assert(pv.take(k + 1).drop_last() =~= pv.take(k as int));
                    assert(pv.take(k + 1).last() == params@[k as int]@);
                }
                match &params[k].0 {
                    TokenType::Ident(p) => {
                        let ghost before = names@;
                        names.push(p.clone());
                        proof {
                            assert(names_view(names@) =~= names_view(before).push(p@));
                        }
                    },
                    _ => {
                        proof {
                            lemma_param_names_prefix(pv, k + 1);
                        }
                        return Err(RuntimeError::ExpectedIdentifier);
                    },
                }
                k = k + 1;
            }
            proof {
                assert(pv.take(params@.len() as int) =~= pv);
            }
            let f = Function { params: names, body: crate::interpreter::clone_expr(body) };
            match ns.declare_function(name.clone(), f) {
                Ok(()) => {
                    let out = vec![name.clone()];
                    proof {
                        assert(names_view(out@) =~= seq![name@]);
                    }
                    Ok(out)
                },
                Err(e) => Err(e),
            }
        },
        Parsed::FunctionDecleration(..) => Err(RuntimeError::ExpectedIdentifier),
        Parsed::Block(b) => {
            proof {
                assert(decreases_to!(*s => *b));
            }
            match execute_block(ns, b, fuel, printed, c) {
                Ok(inner) => {
                    let ghost mid = run_of(ns@, printed@);
                    proof {
                        assert(outcome_of(mid) && outcome_of(names_view(inner@)));
                    }
                    ns.clean_scope(&inner);
                    let out: Vec<String> = Vec::new();
                    proof {
                        assert(names_view(out@) =~= Seq::<Seq<char>>::empty());
                    }
                    Ok(out)
                },
                Err(e) => Err(e),
            }
        },
        Parsed::FromLoop(min, max, var, step, body) => {
            let a = match scalar_of(ns, min, fuel, c) {
                Ok(a) => a,
                Err(e) => {
                    return Err(e);
                },
            };
            proof {
                assert(outcome_of(a));
            }
            let z = match scalar_of(ns, max, fuel, c) {
                Ok(z) => z,
                Err(e) => {
                    return Err(e);
                },
            };
            proof {
                assert(outcome_of(z));
            }
            let d = match scalar_of(ns, step, fuel, c) {
                Ok(d) => d,
                Err(e) => {
                    return Err(e);
                },
            };
            proof {
                assert(outcome_of(d));
            }
            let name = match var {
                Expr::Ident(name) => name,
                _ => {
                    return Err(RuntimeError::ExpectedIdentifier);
                },
            };
            proof {
                assert(outcome_of((a, z, d, name@)));
                assert(decreases_to!(*s => *body));
            }
            ns.set_variable(name.clone(), Data::Float(a));
            let ghost start = run_of(ns@, printed@);
            let ghost bv = stmts_view(body@);
            let mut i = a;
            let mut left = fuel;
            let mut go = (c.le)(i, z);
            while go
                invariant
                    ns.wf(),
                    total(*c),
                    bv == stmts_view(body@),
                    c.le.ensures((i, z), go),
                    forall|e: Run<S>, o: Result<Seq<Seq<char>>, RuntimeFault>|
                        #[trigger] ranges(run_of(ns@, printed@), name@, i, z, d, bv, left as nat, g, *c, e, o)
                            ==> ranges(start, name@, a, z, d, bv, g, g, *c, e, o),
                decreases left,
            {
                let ghost cur = run_of(ns@, printed@);
                if left == 0 {
                    proof {
                        assert(outcome_of(go));
                        assert(ranges(cur, name@, i, z, d, bv, 0, g, *c, cur, Err(RuntimeFault::RecursionLimit)));
                    }
                    return Err(RuntimeError::RecursionLimit);
                }
                match execute_block(ns, body, fuel, printed, c) {
                    Err(e) => {
                        proof {
                            assert(outcome_of(go));
                            assert(ranges(cur, name@, i, z, d, bv, left as nat, g, *c, run_of(ns@, printed@), Err(e@)));
                        }
                        return Err(e);
                    },
                    Ok(inner) => {
                        let ghost mid = run_of(ns@, printed@);
                        let ghost iv = names_view(inner@);
                        ns.clean_scope(&inner);
                        let i2 = (c.arith)(Operator::Plus, i, d);
                        ns.set_variable(name.clone(), Data::Float(i2));
                        let ghost old_i = i;
                        let ghost old_left = left;
                        i = i2;
                        left = left - 1;
                        proof {
                            assert(run_of(ns@, printed@) == bind(cleaned(mid, iv), name@, DataV::Float(i)));
                            assert forall|e: Run<S>, o: Result<Seq<Seq<char>>, RuntimeFault>|
                                #[trigger] ranges(run_of(ns@, printed@), name@, i, z, d, bv, left as nat, g, *c, e, o)
                                implies ranges(start, name@, a, z, d, bv, g, g, *c, e, o) by {
                                assert(outcome_of(go));
                                assert(outcome_of((mid, iv, i)));
                                assert(ranges(cur, name@, old_i, z, d, bv, old_left as nat, g, *c, e, o));
                            }
                        }
                    },
                }
                go = (c.le)(i, z);
            }
            let ghost last = run_of(ns@, printed@);
            ns.remove_variable(name);
            proof {
                assert(outcome_of(go));
                assert(run_of(ns@, printed@) == unbind(last, name@));
                assert(ranges(last, name@, i, z, d, bv, left as nat, g, *c, run_of(ns@, printed@), Ok(Seq::<Seq<char>>::empty())));
            }
            let out: Vec<String> = Vec::new();
            proof {
                assert(names_view(out@) =~= Seq::<Seq<char>>::empty());
            }
            Ok(out)
        },
        Parsed::ForLoop(var, list, body) => {
            let v = match evaluate_expr(ns, list, fuel, &c.arith, &c.numeral, &c.constant, &c.builtin) {
                Ok(v) => v,
                Err(e) => {
                    return Err(e);
                },
            };
            proof {
                assert(outcome_of(v@));
            }
            let items = match v {
                Data::List(items) => items,
                Data::Float(_) => {
                    return Err(RuntimeError::ExpectedList);
                },
            };
            let name = match var {
                Expr::Ident(name) => name,
                _ => {
                    return Err(RuntimeError::ExpectedIdentifier);
                },
            };
            let ghost iv = datas_view(items@);
            proof {
                lemma_datas_view(items@);
            }
            if items.len() == 0 {
                return Err(RuntimeError::EmptyList);
            }
            proof {
                assert(decreases_to!(*s => *body));
            }
            ns.set_variable(name.clone(), crate::interpreter::copy_data(&items[0]));
            let ghost start = run_of(ns@, printed@);
            let ghost bv = stmts_view(body@);
            let mut k: usize = 1;
            while k < items.len()
                invariant
                    ns.wf(),
                    total(*c),
                    1 <= k <= items@.len(),
                    iv == datas_view(items@),
                    iv.len() == items@.len(),
                    forall|j: int| 0 <= j < items@.len() ==> #[trigger] iv[j] == items@[j]@,
                    bv == stmts_view(body@),
                    forall|e: Run<S>, o: Result<Seq<Seq<char>>, RuntimeFault>|
                        #[trigger] for_items(run_of(ns@, printed@), name@, iv, k as int, bv, g, *c, e, o)
                            ==> for_items(start, name@, iv, 1, bv, g, *c, e, o),
                decreases items@.len() - k,
            {
                let ghost cur = run_of(ns@, printed@);
                match execute_block(ns, body, fuel, printed, c) {
                    Err(e) => {
                        proof {
                            assert(for_items(cur, name@, iv, k as int, bv, g, *c, run_of(ns@, printed@), Err(e@)));
                        }
                        return Err(e);
                    },
                    Ok(inner) => {
                        let ghost mid = run_of(ns@, printed@);
                        let ghost nv = names_view(inner@);
                        ns.clean_scope(&inner);
                        ns.set_variable(name.clone(), crate::interpreter::copy_data(&items[k]));
                        proof {
                            assert(run_of(ns@, printed@) == bind(cleaned(mid, nv), name@, iv[k as int]));
                            assert forall|e: Run<S>, o: Result<Seq<Seq<char>>, RuntimeFault>|
                                #[trigger] for_items(run_of(ns@, printed@), name@, iv, k + 1, bv, g, *c, e, o)
                                implies for_items(start, name@, iv, 1, bv, g, *c, e, o) by {
                                assert(outcome_of((mid, nv)));
                                assert(for_items(cur, name@, iv, k as int, bv, g, *c, e, o));
                            }
                        }
                    },
                }
                k = k + 1;
            }
            let ghost last = run_of(ns@, printed@);
            ns.remove_variable(name);
            proof {
                assert(for_items(last, name@, iv, k as int, bv, g, *c, run_of(ns@, printed@), Ok(Seq::<Seq<char>>::empty())));
            }
            let out: Vec<String> = Vec::new();
            proof {
                assert(names_view(out@) =~= Seq::<Seq<char>>::empty());
            }
            Ok(out)
        },
        Parsed::Destructuring(l, r) => {
            let ls = match l {
                Expr::List(ls) => ls,
                _ => {
                    return Err(RuntimeError::ExpectedList);
                },
            };
            let rs = match r {
                Expr::List(rs) => rs,
                _ => {
                    return Err(RuntimeError::ExpectedList);
                },
            };
            if ls.len() != rs.len() {
                proof {
                    crate::interpreter::lemma_exprs_view(ls@);
                    crate::interpreter::lemma_exprs_view(rs@);
                }
                return Err(RuntimeError::InvalidListLength);
            }
            let ghost lv = exprs_view(ls@);
            let ghost rv = exprs_view(rs@);
            proof {
                crate::interpreter::lemma_exprs_view(ls@);
                crate::interpreter::lemma_exprs_view(rs@);
            }
            let mut out: Vec<String> = Vec::new();
            let mut k: usize = 0;
            proof {
                assert(names_view(out@) =~= Seq::<Seq<char>>::empty());
            }
            while k < ls.len()
                invariant
                    ns.wf(),
                    total(*c),
                    k <= ls@.len(),
                    ls@.len() == rs@.len(),
                    lv == exprs_view(ls@),
                    rv == exprs_view(rs@),
                    lv.len() == ls@.len(),
                    rv.len() == rs@.len(),
                    forall|j: int| 0 <= j < ls@.len() ==> #[trigger] lv[j] == ls@[j]@,
                    forall|j: int| 0 <= j < rs@.len() ==> #[trigger] rv[j] == rs@[j]@,
                    binds(st, lv, rv, k as int, g, *c, run_of(ns@, printed@), Ok(names_view(out@))),
                decreases ls@.len() - k,
            {
                let ghost mid = run_of(ns@, printed@);
                let ghost names = names_view(out@);
                proof {
                    assert(outcome_of((mid, names)));
                    assert(lv[k as int] == ls@[k as int]@);
                    assert(rv[k as int] == rs@[k as int]@);
                }
                let name = match &ls[k] {
                    Expr::Ident(n) => n,
                    _ => {
                        proof {
                            assert(binds(st, lv, rv, k + 1, g, *c, mid, Err(RuntimeFault::ExpectedIdentifier)));
                            lemma_binds_prefix_err(st, lv, rv, k + 1, lv.len() as int, g, *c, mid, RuntimeFault::ExpectedIdentifier);
                        }
                        return Err(RuntimeError::ExpectedIdentifier);
                    },
                };
                if ns.is_defined(name) {
                    proof {
                        assert(binds(st, lv, rv, k + 1, g, *c, mid, Err(RuntimeFault::Redeclaration(name@))));
                        lemma_binds_prefix_err(st, lv, rv, k + 1, lv.len() as int, g, *c, mid, RuntimeFault::Redeclaration(name@));
                    }
                    return Err(RuntimeError::Redeclaration(name.clone()));
                }
                let v = match evaluate_expr(ns, &rs[k], fuel, &c.arith, &c.numeral, &c.constant, &c.builtin) {
                    Ok(v) => v,
                    Err(e) => {
                        proof {
                            assert(binds(st, lv, rv, k + 1, g, *c, mid, Err(e@)));
                            lemma_binds_prefix_err(st, lv, rv, k + 1, lv.len() as int, g, *c, mid, e@);
                        }
                        return Err(e);
                    },
                };
                let _ = ns.declare_variable(name.clone(), v);
                let ghost before = out@;
                out.push(name.clone());
                proof {
                    assert(names_view(out@) =~= names_view(before).push(name@));
                    assert(outcome_of(v@));
                    assert(binds(st, lv, rv, k + 1, g, *c, run_of(ns@, printed@), Ok(names_view(out@))));
                }
                k = k + 1;
            }
            Ok(out)
        },
    }
}

/// The model of what a whole run returned: no names, or the failure.
pub open spec fn unit_outcome(r: Result<(), RuntimeError>) -> Result<Seq<Seq<char>>, RuntimeFault> {
    match r {
        Ok(()) => Ok(Seq::empty()),
        Err(e) => Err(e@),
    }
}

/// Runs a parsed program: its statements as one scope, cleaned up at the end.
pub struct Interpreter<S> {
    parsed: Vec<Parsed>,
    namespace: Namespace<S>,
}

impl<S: Copy> Interpreter<S> {
    /// The program, and what is declared.
    pub closed spec fn program(&self) -> Seq<Stmt> {
        stmts_view(self.parsed@)
    }

    pub closed spec fn state(&self) -> NamespaceV<S> {
        self.namespace@
    }

    pub closed spec fn wf(&self) -> bool {
        self.namespace.wf()
    }

    pub fn new(parsed: Vec<Parsed>) -> (r: Self)
        ensures
            r.wf(),
            r.program() == stmts_view(parsed@),
            r.state().vars == Map::<Seq<char>, DataV<S>>::empty(),
            r.state().funcs == Map::<Seq<char>, FunctionV>::empty(),
    {
        Interpreter { parsed, namespace: Namespace::new() }
    }

    /// Runs the program; what it prints is appended to `printed`, in order.
    /// `fuel` bounds nested user calls and the iterations of each range loop.
    pub fn interpret<A, N, K, F, L>(
        &mut self,
        fuel: u64,
        printed: &mut Vec<Data<S>>,
        c: &Closures<A, N, K, F, L>,
    ) -> (r: Result<(), RuntimeError>) where
        A: Fn(Operator, S, S) -> S,
        N: Fn(String, bool) -> S,
        K: Fn(Constant) -> S,
        F: Fn(Builtin, S) -> S,
        L: Fn(S, S) -> bool,

        requires
            old(self).wf(),
            total(*c),
        ensures
            final(self).wf(),
            final(self).program() == old(self).program(),
            runs(
                run_of(old(self).state(), old(printed)@),
                Stmt::Block(old(self).program()),
                fuel as nat,
                *c,
                run_of(final(self).state(), final(printed)@),
                unit_outcome(r),
            ),
    {
        let ghost st = run_of(self.namespace@, printed@);
        match execute_block(&mut self.namespace, &self.parsed, fuel, printed, c) {
            Ok(scope) => {
                let ghost mid = run_of(self.namespace@, printed@);
                proof {
                    assert(outcome_of(mid) && outcome_of(names_view(scope@)));
                }
                self.namespace.clean_scope(&scope);
                Ok(())
            },
            Err(e) => Err(e),
        }
    }
}

} // verus!
