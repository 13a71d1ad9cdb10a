//! Expression evaluation over a generic scalar type.
//!
//! The scalar work (arithmetic, reading a numeral, the value of a constant, a
//! built-in function) is handed in as closures; everything else is decided
//! here. User calls are bounded by a fuel count, one unit per nested call.
use vstd::prelude::*;

use crate::interpreter::{
    Builtin, Call, Data, DataV, Namespace, NamespaceV, RuntimeError, RuntimeFault, applied,
    builtin_of, datas_view, is_builtin, is_constant, is_reserved, lemma_datas_view,
    lemma_datas_view_push, leafwise, subst, apply_op, copy_data,
};
use crate::parser::{Expr, ExprV, Operator, exprs_view, expr_view};

verus! {

broadcast use {vstd::seq::group_seq_axioms, vstd::std_specs::vec::group_vec_axioms};

/// A marker that names an intermediate outcome in a quantifier.
pub open spec fn outcome_of<T>(v: T) -> bool {
    true
}

/// A reserved constant.
#[derive(Debug, Clone, Copy, PartialEq, Eq, Structural)]
pub enum Constant {
    Pi,
    Tau,
    Glr,
}

pub open spec fn constant_of(n: Seq<char>) -> Constant {
    if n == seq!['P', 'I'] {
        Constant::Pi
    } else if n == seq!['T', 'A', 'U'] {
        Constant::Tau
    } else {
        Constant::Glr
    }
}

/// How the built-in closure `f` relates an argument to its result for `b`.
pub open spec fn builtin_rel<S, F: Fn(Builtin, S) -> S>(f: F, b: Builtin) -> spec_fn(S, S) -> bool {
    |x: S, y: S| f.ensures((b, x), y)
}

/// The model of what an evaluation returned.
pub open spec fn eval_outcome<S>(r: Result<Data<S>, RuntimeError>) -> Result<DataV<S>, RuntimeFault> {
    match r {
        Ok(d) => Ok(d@),
        Err(e) => Err(e@),
    }
}

/// `out` is an outcome of evaluating `e` in `ns` with `fuel` nested user calls
/// allowed, the scalar work done by the closures:
/// - a numeral reads its canonical text;
/// - an identifier is a constant, else a variable, else undefined;
/// - a binary expression evaluates its left operand, then its right, then
///   combines them with broadcasting; the first failure wins;
/// - a list evaluates its items in order; the first failure wins;
/// - a built-in takes exactly one argument and maps over its value;
/// - a user call needs as many arguments as parameters, substitutes them into
///   the body and evaluates that with one unit of fuel less.
pub open spec fn evaluates<S, A, N, K, F>(
    ns: NamespaceV<S>,
    e: ExprV,
    fuel: nat,
    arith: A,
    numeral: N,
    constant: K,
    builtin: F,
    out: Result<DataV<S>, RuntimeFault>,
) -> bool where
    A: Fn(Operator, S, S) -> S,
    N: Fn(String, bool) -> S,
    K: Fn(Constant) -> S,
    F: Fn(Builtin, S) -> S,

    decreases fuel, e,
{
    match e {
        ExprV::FloatLiteral(v) => match out {
            Ok(DataV::Float(x)) => exists|t: String| #[trigger] outcome_of(t) && t@ == v && numeral.ensures((t, false), x),
            _ => false,
        },
        ExprV::NegFloatLiteral(v) => match out {
            Ok(DataV::Float(x)) => exists|t: String| #[trigger] outcome_of(t) && t@ == v && numeral.ensures((t, true), x),
            _ => false,
        },
        ExprV::Ident(n) => if is_reserved(n) {
            match out {
                Ok(DataV::Float(x)) => constant.ensures((constant_of(n),), x),
                _ => false,
            }
        } else if ns.vars.contains_key(n) {
            out == Ok::<DataV<S>, RuntimeFault>(ns.vars[n])
        } else {
            out == Err::<DataV<S>, RuntimeFault>(RuntimeFault::UndefinedVariable(n))
        },
        ExprV::Binary(l, op, r) => match out {
            Ok(d) => exists|a: DataV<S>, b: DataV<S>|
                #[trigger] outcome_of(a) && #[trigger] outcome_of(b) && evaluates(
                    ns,
                    *l,
                    fuel,
                    arith,
                    numeral,
                    constant,
                    builtin,
                    Ok(a),
                ) && evaluates(ns, *r, fuel, arith, numeral, constant, builtin, Ok(b)) && applied(
                    a,
                    b,
                    op,
                    arith,
                    d,
                ),
            Err(err) => evaluates(ns, *l, fuel, arith, numeral, constant, builtin, Err(err)) || exists|
                a: DataV<S>,
            |
                #[trigger] outcome_of(a) && evaluates(ns, *l, fuel, arith, numeral, constant, builtin, Ok(a)) && (
                evaluates(ns, *r, fuel, arith, numeral, constant, builtin, Err(err)) || exists|
                    b: DataV<S>,
                |
                    #[trigger] outcome_of(b) && evaluates(ns, *r, fuel, arith, numeral, constant, builtin, Ok(b))
                        && crate::interpreter::pairs(a, b) is None && err
                        == RuntimeFault::InvalidListLength),
        },
        ExprV::List(xs) => match out {
            Ok(DataV::List(vs)) => evaluates_all(
                ns,
                xs,
                fuel,
                arith,
                numeral,
                constant,
                builtin,
                Ok(vs),
            ),
            Ok(DataV::Float(_)) => false,
            Err(err) => evaluates_all(ns, xs, fuel, arith, numeral, constant, builtin, Err(err)),
        },
        ExprV::FunctionCall(n, args) => if is_builtin(n) {
            if args.len() != 1 {
                out == Err::<DataV<S>, RuntimeFault>(RuntimeFault::InvalidArguments(n))
            } else {
                match out {
                    Ok(d) => exists|a: DataV<S>|
                        #[trigger] outcome_of(a) && evaluates(ns, args[0], fuel, arith, numeral, constant, builtin, Ok(a))
                            && leafwise(a, d, builtin_rel(builtin, builtin_of(n))),
                    Err(err) => evaluates(ns, args[0], fuel, arith, numeral, constant, builtin, Err(err)),
                }
            }
        } else if !ns.funcs.contains_key(n) {
            out == Err::<DataV<S>, RuntimeFault>(RuntimeFault::UndefinedFunction(n))
        } else if args.len() != ns.funcs[n].params.len() {
            out == Err::<DataV<S>, RuntimeFault>(RuntimeFault::InvalidArguments(n))
        } else {
            match subst(ns, ns.funcs[n].params, args, ns.funcs[n].body) {
                Err(m) => out == Err::<DataV<S>, RuntimeFault>(RuntimeFault::UndefinedVariable(m)),
                Ok(body) => if fuel == 0 {
                    out == Err::<DataV<S>, RuntimeFault>(RuntimeFault::RecursionLimit)
                } else {
                    evaluates(ns, body, (fuel - 1) as nat, arith, numeral, constant, builtin, out)
                },
            }
        },
    }
}

/// [`evaluates`] on each of `xs` in order; the first failure stops it.
pub open spec fn evaluates_all<S, A, N, K, F>(
    ns: NamespaceV<S>,
    xs: Seq<ExprV>,
    fuel: nat,
    arith: A,
    numeral: N,
    constant: K,
    builtin: F,
    out: Result<Seq<DataV<S>>, RuntimeFault>,
) -> bool where
    A: Fn(Operator, S, S) -> S,
    N: Fn(String, bool) -> S,
    K: Fn(Constant) -> S,
    F: Fn(Builtin, S) -> S,

    decreases fuel, xs,
{
    if xs.len() == 0 {
        out == Ok::<Seq<DataV<S>>, RuntimeFault>(Seq::empty())
    } else {
        match out {
            Ok(vs) => vs.len() == xs.len() && evaluates_all(
                ns,
                xs.drop_last(),
                fuel,
                arith,
                numeral,
                constant,
                builtin,
                Ok(vs.drop_last()),
            ) && evaluates(ns, xs.last(), fuel, arith, numeral, constant, builtin, Ok(vs.last())),
            Err(err) => evaluates_all(
                ns,
                xs.drop_last(),
                fuel,
                arith,
                numeral,
                constant,
                builtin,
                Err(err),
            ) || exists|vs: Seq<DataV<S>>|
                #[trigger] outcome_of(vs) && evaluates_all(
                    ns,
                    xs.drop_last(),
                    fuel,
                    arith,
                    numeral,
                    constant,
                    builtin,
                    Ok(vs),
                ) && evaluates(ns, xs.last(), fuel, arith, numeral, constant, builtin, Err(err)),
        }
    }
}

/// A relation that holds wherever `r1` holds carries a shape-preserving map
/// over to itself.
pub proof fn lemma_leafwise_weaken<A, B>(
    src: DataV<A>,
    dst: DataV<B>,
    r1: spec_fn(A, B) -> bool,
    r2: spec_fn(A, B) -> bool,
)
    requires
        leafwise(src, dst, r1),
        forall|x: A, y: B| #[trigger] r1(x, y) ==> r2(x, y),
    ensures
        leafwise(src, dst, r2),
    decreases src,
{
    if let DataV::List(xs) = src {
        let ys = dst->List_0;
        crate::interpreter::lemma_leafwise_seq(xs, ys, r1);
        assert forall|i: int| 0 <= i < xs.len() implies leafwise(#[trigger] xs[i], ys[i], r2) by {
            lemma_leafwise_weaken(xs[i], ys[i], r1, r2);
        }
        crate::interpreter::lemma_leafwise_seq(xs, ys, r2);
    }
}

proof fn lemma_evaluates_all_prefix_err<S, A, N, K, F>(
    ns: NamespaceV<S>,
    xs: Seq<ExprV>,
    fuel: nat,
    arith: A,
    numeral: N,
    constant: K,
    builtin: F,
    err: RuntimeFault,
    i: int,
) where
    A: Fn(Operator, S, S) -> S,
    N: Fn(String, bool) -> S,
    K: Fn(Constant) -> S,
    F: Fn(Builtin, S) -> S,

    requires
        0 <= i <= xs.len(),
        evaluates_all(ns, xs.take(i), fuel, arith, numeral, constant, builtin, Err(err)),
    ensures
        evaluates_all(ns, xs, fuel, arith, numeral, constant, builtin, Err(err)),
    decreases xs.len() - i,
{
    if i < xs.len() {
        let t = xs.take(i + 1);
        assert(t.drop_last() =~= xs.take(i));
        lemma_evaluates_all_prefix_err(ns, xs, fuel, arith, numeral, constant, builtin, err, i + 1);
    } else {
        assert(xs.take(i) =~= xs);
    }
}

proof fn lemma_all_err_step<S, A, N, K, F>(
    ns: NamespaceV<S>,
    xs: Seq<ExprV>,
    fuel: nat,
    arith: A,
    numeral: N,
    constant: K,
    builtin: F,
    vs: Seq<DataV<S>>,
    err: RuntimeFault,
) where
    A: Fn(Operator, S, S) -> S,
    N: Fn(String, bool) -> S,
    K: Fn(Constant) -> S,
    F: Fn(Builtin, S) -> S,

    requires
        xs.len() > 0,
        evaluates_all(ns, xs.drop_last(), fuel, arith, numeral, constant, builtin, Ok(vs)),
        evaluates(ns, xs.last(), fuel, arith, numeral, constant, builtin, Err(err)),
    ensures
        evaluates_all(ns, xs, fuel, arith, numeral, constant, builtin, Err(err)),
{
    let d = xs.drop_last();
    let l = xs.last();
    assert(outcome_of(vs));
}

fn constant_kind(name: &String) -> (r: Constant)
    requires
        is_reserved(name@),
    ensures
        r == constant_of(name@),
{
    proof {
        reveal_strlit("PI");
        reveal_strlit("TAU");
        assert("PI"@ =~= seq!['P', 'I']);
        assert("TAU"@ =~= seq!['T', 'A', 'U']);
    }
    if *name == String::from_str("PI") {
        Constant::Pi
    } else if *name == String::from_str("TAU") {
        Constant::Tau
    } else {
        Constant::Glr
    }
}

/// Evaluates `expr` in `ns`, allowing `fuel` nested user calls.
#[verifier::loop_isolation(false)]
pub fn evaluate_expr<S: Copy, A, N, K, F>(
    ns: &Namespace<S>,
    expr: &Expr,
    fuel: u64,
    arith: &A,
    numeral: &N,
    constant: &K,
    builtin: &F,
) -> (r: Result<Data<S>, RuntimeError>) where
    A: Fn(Operator, S, S) -> S,
    N: Fn(String, bool) -> S,
    K: Fn(Constant) -> S,
    F: Fn(Builtin, S) -> S,

    requires
        ns.wf(),
        forall|o: Operator, x: S, y: S| arith.requires((o, x, y)),
        forall|t: String, neg: bool| numeral.requires((t, neg)),
        forall|c: Constant| constant.requires((c,)),
        forall|b: Builtin, x: S| builtin.requires((b, x)),
    ensures
        evaluates(ns@, expr@, fuel as nat, *arith, *numeral, *constant, *builtin, eval_outcome(r)),
    decreases fuel, expr,
{
    let ghost g = fuel as nat;
    match expr {
        Expr::FloatLiteral(v) => {
            let t = v.clone();
            let x = numeral(t, false);
            proof {
                assert(numeral.ensures((*v, false), x) && outcome_of(*v));
                assert(evaluates(ns@, expr@, g, *arith, *numeral, *constant, *builtin, Ok(Data::Float(x)@)));
            }
            Ok(Data::Float(x))
        },
        Expr::NegFloatLiteral(v) => {
            let t = v.clone();
            let x = numeral(t, true);
            proof {
                assert(numeral.ensures((*v, true), x) && outcome_of(*v));
                assert(evaluates(ns@, expr@, g, *arith, *numeral, *constant, *builtin, Ok(Data::Float(x)@)));
            }
            Ok(Data::Float(x))
        },
        Expr::Ident(name) => {
            if is_constant(name) {
                let c = constant_kind(name);
                let x = constant(c);
                proof {
                    assert(evaluates(ns@, expr@, g, *arith, *numeral, *constant, *builtin, Ok(Data::Float(x)@)));
                }
                Ok(Data::Float(x))
            } else {
                match ns.get_variable(name) {
                    Some(d) => {
                        let c = copy_data(d);
                        proof {
                            assert(evaluates(ns@, expr@, g, *arith, *numeral, *constant, *builtin, Ok(c@)));
                        }
                        Ok(c)
                    },
                    None => Err(RuntimeError::UndefinedVariable(name.clone())),
                }
            }
        },
        Expr::Expr(l, op, r) => {
            let a = match evaluate_expr(ns, l, fuel, arith, numeral, constant, builtin) {
                Ok(a) => a,
                Err(e) => {
                    proof {
                        assert(evaluates(ns@, expr_view(**l), g, *arith, *numeral, *constant, *builtin, Err(e@)));
                        assert(expr@ == ExprV::Binary(Box::new(expr_view(**l)), *op, Box::new(expr_view(**r))));
                        assert(evaluates(ns@, expr@, g, *arith, *numeral, *constant, *builtin, Err(e@)));
                    }
                    return Err(e);
                },
            };
            let b = match evaluate_expr(ns, r, fuel, arith, numeral, constant, builtin) {
                Ok(b) => b,
                Err(e) => {
                    proof {
                        assert(outcome_of(a@));
                        assert(evaluates(ns@, expr_view(**l), g, *arith, *numeral, *constant, *builtin, Ok(a@)));
                    }
                    return Err(e);
                },
            };
            proof {
                assert(outcome_of(a@) && outcome_of(b@));
                assert(evaluates(ns@, expr_view(**l), g, *arith, *numeral, *constant, *builtin, Ok(a@)));
                assert(evaluates(ns@, expr_view(**r), g, *arith, *numeral, *constant, *builtin, Ok(b@)));
            }
            let d = apply_op(&a, &b, *op, arith);
            proof {
                assert(expr@ == ExprV::Binary(Box::new(expr_view(**l)), *op, Box::new(expr_view(**r))));
                assert(evaluates(ns@, expr@, g, *arith, *numeral, *constant, *builtin, eval_outcome(d)));
            }
            d
        },
        Expr::List(xs) => {
            let ghost xv = exprs_view(xs@);
            let mut out: Vec<Data<S>> = Vec::new();
            let mut i: usize = 0;
            proof {
                crate::interpreter::lemma_exprs_view(xs@);
                assert(xv.take(0) =~= Seq::<ExprV>::empty());
                assert(datas_view(out@) =~= Seq::<DataV<S>>::empty());
            }
            while i < xs.len()
                invariant
                    i <= xs@.len(),
                    xv == exprs_view(xs@),
                    evaluates_all(ns@, xv.take(i as int), g, *arith, *numeral, *constant, *builtin, Ok(datas_view(out@))),
                    datas_view(out@).len() == i,
                decreases xs@.len() - i,
            {
                proof {
                    assert(decreases_to!(*xs => xs[i as int]));
                    let t = xv.take(i + 1);
                    assert(t.drop_last() =~= xv.take(i as int));
                    assert(t.last() == expr_view(xs@[i as int]));
                    lemma_datas_view(out@);
                }
                match evaluate_expr(ns, &xs[i], fuel, arith, numeral, constant, builtin) {
                    Ok(d) => {
                        proof {
                            lemma_datas_view_push(out@, d);
                            let w = datas_view(out@).push(d@);
                            assert(w.drop_last() =~= datas_view(out@));
                        }
                        out.push(d);
                    },
                    Err(e) => {
                        proof {
                            let t = xv.take(i + 1);
                            assert(t.drop_last() =~= xv.take(i as int));
                            assert(t.last() == expr_view(xs@[i as int]));
                            assert(evaluates(ns@, t.last(), g, *arith, *numeral, *constant, *builtin, Err(e@)));
                            assert(evaluates_all(ns@, t.drop_last(), g, *arith, *numeral, *constant, *builtin, Ok(datas_view(out@))));
                            lemma_all_err_step(ns@, t, g, *arith, *numeral, *constant, *builtin, datas_view(out@), e@);
                            lemma_evaluates_all_prefix_err(ns@, xv, g, *arith, *numeral, *constant, *builtin, e@, i + 1);
                        }
                        return Err(e);
                    },
                }
                i = i + 1;
            }
            proof {
                assert(xv.take(xs@.len() as int) =~= xv);
                assert(evaluates(ns@, expr@, g, *arith, *numeral, *constant, *builtin, Ok(Data::List(out)@)));
            }
            Ok(Data::List(out))
        },
        Expr::FunctionCall(name, args) => {
            proof {
                crate::interpreter::lemma_exprs_view(args@);
            }
            match ns.resolve_call(name, args) {
                Err(e) => {
                    proof {
                        assert(evaluates(ns@, expr@, g, *arith, *numeral, *constant, *builtin, Err(e@)));
                    }
                    Err(e)
                },
                Ok(Call::Builtin(b)) => {
                    proof {
                        assert(decreases_to!(*args => args[0]));
                    }
                    let a = match evaluate_expr(ns, &args[0], fuel, arith, numeral, constant, builtin) {
                        Ok(a) => a,
                        Err(e) => {
                            return Err(e);
                        },
                    };
                    let f = |x: S| -> (y: S)
                        ensures
                            builtin.ensures((b, x), y),
                        { builtin(b, x) };
                    let d = crate::interpreter::apply_func(&a, &f);
                    proof {
                        lemma_leafwise_weaken(a@, d@, crate::interpreter::fn_rel(f), builtin_rel(*builtin, b));
                        assert(outcome_of(a@));
                        assert(evaluates(ns@, expr_view(args@[0]), g, *arith, *numeral, *constant, *builtin, Ok(a@)));
                    }
                    Ok(d)
                },
                Ok(Call::User(body)) => {
                    if fuel == 0 {
                        proof {
                            assert(evaluates(ns@, expr@, g, *arith, *numeral, *constant, *builtin, Err(RuntimeFault::RecursionLimit)));
                        }
                        Err(RuntimeError::RecursionLimit)
                    } else {
                        let v = evaluate_expr(ns, &body, fuel - 1, arith, numeral, constant, builtin);
                        proof {
                            assert(evaluates(ns@, expr@, g, *arith, *numeral, *constant, *builtin, eval_outcome(v)));
                        }
                        v
                    }
                },
            }
        },
    }
}

} // verus!
