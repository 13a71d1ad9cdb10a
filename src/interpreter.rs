//! The scalar-independent core of the evaluator: runtime values and their
//! broadcasting arithmetic, the namespace of variables and functions with its
//! scope cleanup, and the substitution that applies user functions.
//!
//! Values are generic over the scalar type `S`; the arithmetic on scalars is
//! handed in as a closure.
use vstd::prelude::*;

use crate::parser::{Expr, ExprV, Operator, expr_view, exprs_view, lemma_exprs_view_push};
use crate::table::Table;

verus! {

broadcast use {vstd::seq::group_seq_axioms, vstd::std_specs::vec::group_vec_axioms};

/// A runtime value: a scalar, or a list of values.
#[derive(Debug, PartialEq)]
pub enum Data<S> {
    Float(S),
    List(Vec<Data<S>>),
}

/// The model of a [`Data`] value.
pub enum DataV<S> {
    Float(S),
    List(Seq<DataV<S>>),
}

pub open spec fn data_view<S>(d: Data<S>) -> DataV<S>
    decreases d,
{
    match d {
        Data::Float(x) => DataV::Float(x),
        Data::List(items) => DataV::List(datas_view(items@)),
    }
}

pub open spec fn datas_view<S>(s: Seq<Data<S>>) -> Seq<DataV<S>>
    decreases s,
{
    if s.len() == 0 {
        Seq::empty()
    } else {
        datas_view(s.drop_last()).push(data_view(s.last()))
    }
}

impl<S> View for Data<S> {
    type V = DataV<S>;

    open spec fn view(&self) -> DataV<S> {
        data_view(*self)
    }
}

pub proof fn lemma_datas_view<S>(s: Seq<Data<S>>)
    ensures
        datas_view(s).len() == s.len(),
        forall|i: int| 0 <= i < s.len() ==> #[trigger] datas_view(s)[i] == data_view(s[i]),
    decreases s.len(),
{
    if s.len() > 0 {
        lemma_datas_view(s.drop_last());
    }
}

pub proof fn lemma_datas_view_push<S>(s: Seq<Data<S>>, d: Data<S>)
    ensures
        datas_view(s.push(d)) == datas_view(s).push(d@),
{
    assert(s.push(d).drop_last() =~= s);
}

/// What makes evaluation fail.
#[derive(Debug, PartialEq)]
pub enum RuntimeError {
    UndefinedVariable(String),
    UndefinedFunction(String),
    InvalidArguments(String),
    /// Two lists of different lengths met in elementwise arithmetic.
    InvalidListLength,
    /// A name was declared while a declaration of it is in scope.
    Redeclaration(String),
    /// A list stood where a scalar is required (the bounds of a range loop).
    ExpectedScalar,
    /// A scalar stood where a list is required (the subject of a `for` loop,
    /// the sides of a destructuring).
    ExpectedList,
    /// Something other than a bare identifier stood where a name is required.
    ExpectedIdentifier,
    /// A `for` loop over an empty list.
    EmptyList,
    /// User function calls nested deeper than the fuel allowed.
    RecursionLimit,
}

/// The model of a [`RuntimeError`].
pub enum RuntimeFault {
    UndefinedVariable(Seq<char>),
    UndefinedFunction(Seq<char>),
    InvalidArguments(Seq<char>),
    InvalidListLength,
    Redeclaration(Seq<char>),
    ExpectedScalar,
    ExpectedList,
    ExpectedIdentifier,
    EmptyList,
    RecursionLimit,
}

impl View for RuntimeError {
    type V = RuntimeFault;

    open spec fn view(&self) -> RuntimeFault {
        match self {
            RuntimeError::UndefinedVariable(n) => RuntimeFault::UndefinedVariable(n@),
            RuntimeError::UndefinedFunction(n) => RuntimeFault::UndefinedFunction(n@),
            RuntimeError::InvalidArguments(n) => RuntimeFault::InvalidArguments(n@),
            RuntimeError::InvalidListLength => RuntimeFault::InvalidListLength,
            RuntimeError::Redeclaration(n) => RuntimeFault::Redeclaration(n@),
            RuntimeError::ExpectedScalar => RuntimeFault::ExpectedScalar,
            RuntimeError::ExpectedList => RuntimeFault::ExpectedList,
            RuntimeError::ExpectedIdentifier => RuntimeFault::ExpectedIdentifier,
            RuntimeError::EmptyList => RuntimeFault::EmptyList,
            RuntimeError::RecursionLimit => RuntimeFault::RecursionLimit,
        }
    }
}

// ---------------------------------------------------------------------------
// Broadcasting

/// The scalar operands that broadcasting `a` against `b` meets, in the shape of
/// the result; `None` where two lists of different lengths meet.
pub open spec fn pairs<S>(a: DataV<S>, b: DataV<S>) -> Option<DataV<(S, S)>>
    decreases a, b,
{
    match a {
        DataV::Float(x) => match b {
            DataV::Float(y) => Some(DataV::Float((x, y))),
            DataV::List(ys) => match pairs_right(x, ys) {
                Some(ps) => Some(DataV::List(ps)),
                None => None,
            },
        },
        DataV::List(xs) => match b {
            DataV::Float(y) => match pairs_left(xs, y) {
                Some(ps) => Some(DataV::List(ps)),
                None => None,
            },
            DataV::List(ys) => if xs.len() != ys.len() {
                None
            } else {
                match pairs_both(xs, ys) {
                    Some(ps) => Some(DataV::List(ps)),
                    None => None,
                }
            },
        },
    }
}

/// Each of `xs` broadcast against the scalar `y`.
pub open spec fn pairs_left<S>(xs: Seq<DataV<S>>, y: S) -> Option<Seq<DataV<(S, S)>>>
    decreases xs, DataV::<S>::Float(y),
{
    if xs.len() == 0 {
        Some(Seq::empty())
    } else {
        match pairs_left(xs.drop_last(), y) {
            Some(ps) => match pairs(xs.last(), DataV::Float(y)) {
                Some(p) => Some(ps.push(p)),
                None => None,
            },
            None => None,
        }
    }
}

/// The scalar `x` broadcast against each of `ys`.
pub open spec fn pairs_right<S>(x: S, ys: Seq<DataV<S>>) -> Option<Seq<DataV<(S, S)>>>
    decreases DataV::<S>::Float(x), ys,
{
    if ys.len() == 0 {
        Some(Seq::empty())
    } else {
        match pairs_right(x, ys.drop_last()) {
            Some(ps) => match pairs(DataV::Float(x), ys.last()) {
                Some(p) => Some(ps.push(p)),
                None => None,
            },
            None => None,
        }
    }
}

/// Corresponding items of two sequences of equal length, broadcast.
pub open spec fn pairs_both<S>(xs: Seq<DataV<S>>, ys: Seq<DataV<S>>) -> Option<
    Seq<DataV<(S, S)>>,
>
    decreases xs, ys,
{
    if xs.len() == 0 || ys.len() == 0 {
        Some(Seq::empty())
    } else {
        match pairs_both(xs.drop_last(), ys.drop_last()) {
            Some(ps) => match pairs(xs.last(), ys.last()) {
                Some(p) => Some(ps.push(p)),
                None => None,
            },
            None => None,
        }
    }
}

/// `dst` has the shape of `src`, and `rel` holds between each scalar of `src`
/// and the scalar at the same place in `dst`.
pub open spec fn leafwise<A, B>(src: DataV<A>, dst: DataV<B>, rel: spec_fn(A, B) -> bool) -> bool
    decreases src,
{
    match src {
        DataV::Float(x) => match dst {
            DataV::Float(y) => rel(x, y),
            DataV::List(_) => false,
        },
        DataV::List(xs) => match dst {
            DataV::Float(_) => false,
            DataV::List(ys) => leafwise_seq(xs, ys, rel),
        },
    }
}

pub open spec fn leafwise_seq<A, B>(
    xs: Seq<DataV<A>>,
    ys: Seq<DataV<B>>,
    rel: spec_fn(A, B) -> bool,
) -> bool
    decreases xs,
{
    xs.len() == ys.len() && (xs.len() == 0 || (leafwise_seq(xs.drop_last(), ys.drop_last(), rel)
        && leafwise(xs.last(), ys.last(), rel)))
}

/// How the scalar operation `f` relates a pair of operands to its result, for
/// the operator `op`.
pub open spec fn op_rel<S, F: Fn(Operator, S, S) -> S>(f: F, op: Operator) -> spec_fn((S, S), S) -> bool {
    |p: (S, S), z: S| f.ensures((op, p.0, p.1), z)
}

/// How the scalar function `f` relates an argument to its result.
pub open spec fn fn_rel<S, F: Fn(S) -> S>(f: F) -> spec_fn(S, S) -> bool {
    |x: S, y: S| f.ensures((x,), y)
}

/// `d` is a result of applying `op` to `a` and `b` with broadcasting, where `f`
/// does the scalar arithmetic.
pub open spec fn applied<S, F: Fn(Operator, S, S) -> S>(
    a: DataV<S>,
    b: DataV<S>,
    op: Operator,
    f: F,
    d: DataV<S>,
) -> bool {
    pairs(a, b) is Some && leafwise(pairs(a, b)->Some_0, d, op_rel(f, op))
}

pub proof fn lemma_leafwise_seq<A, B>(xs: Seq<DataV<A>>, ys: Seq<DataV<B>>, rel: spec_fn(A, B) -> bool)
    ensures
        leafwise_seq(xs, ys, rel) <==> (xs.len() == ys.len() && forall|i: int|
            0 <= i < xs.len() ==> leafwise(#[trigger] xs[i], ys[i], rel)),
    decreases xs.len(),
{
    if xs.len() > 0 && xs.len() == ys.len() {
        lemma_leafwise_seq(xs.drop_last(), ys.drop_last(), rel);
        if forall|i: int| 0 <= i < xs.len() ==> leafwise(#[trigger] xs[i], ys[i], rel) {
            assert forall|i: int| 0 <= i < xs.drop_last().len() implies leafwise(
                #[trigger] xs.drop_last()[i],
                ys.drop_last()[i],
                rel,
            ) by {
                assert(xs.drop_last()[i] == xs[i]);
            }
        }
        if leafwise_seq(xs, ys, rel) {
            assert forall|i: int| 0 <= i < xs.len() implies leafwise(#[trigger] xs[i], ys[i], rel) by {
                if i < xs.len() - 1 {
                    assert(xs.drop_last()[i] == xs[i]);
                }
            }
        }
    }
}

pub proof fn lemma_pairs_left<S>(xs: Seq<DataV<S>>, y: S)
    ensures
        pairs_left(xs, y) is Some <==> forall|i: int|
            0 <= i < xs.len() ==> (#[trigger] pairs(xs[i], DataV::Float(y))) is Some,
        pairs_left(xs, y) is Some ==> pairs_left(xs, y)->Some_0.len() == xs.len() && forall|i: int|
            0 <= i < xs.len() ==> pairs_left(xs, y)->Some_0[i] == #[trigger] pairs(
                xs[i],
                DataV::Float(y),
            )->Some_0,
    decreases xs.len(),
{
    if xs.len() > 0 {
        let d = xs.drop_last();
        let n = d.len() as int;
        lemma_pairs_left(d, y);
        assert forall|i: int| 0 <= i < n implies #[trigger] d[i] == xs[i] by {}
        if pairs_left(xs, y) is Some {
            assert forall|i: int| 0 <= i < xs.len() implies (#[trigger] pairs(
                xs[i],
                DataV::Float(y),
            )) is Some by {
                if i < n {
                    assert(pairs(d[i], DataV::Float(y)) is Some);
                }
            }
            let ps = pairs_left(d, y)->Some_0;
            assert forall|i: int| 0 <= i < xs.len() implies pairs_left(xs, y)->Some_0[i]
                == #[trigger] pairs(xs[i], DataV::Float(y))->Some_0 by {
                if i < n {
                    assert(ps[i] == pairs(d[i], DataV::Float(y))->Some_0);
                }
            }
        } else if pairs_left(d, y) is None {
            let i = choose|i: int| 0 <= i < n && (#[trigger] pairs(d[i], DataV::Float(y))) is None;
            assert(pairs(xs[i], DataV::Float(y)) is None);
        } else {
            assert(pairs(xs[n], DataV::Float(y)) is None);
        }
    }
}

pub proof fn lemma_pairs_right<S>(x: S, ys: Seq<DataV<S>>)
    ensures
        pairs_right(x, ys) is Some <==> forall|i: int|
            0 <= i < ys.len() ==> (#[trigger] pairs(DataV::Float(x), ys[i])) is Some,
        pairs_right(x, ys) is Some ==> pairs_right(x, ys)->Some_0.len() == ys.len() && forall|i: int|
            0 <= i < ys.len() ==> pairs_right(x, ys)->Some_0[i] == #[trigger] pairs(
                DataV::Float(x),
                ys[i],
            )->Some_0,
    decreases ys.len(),
{
    if ys.len() > 0 {
        let d = ys.drop_last();
        let n = d.len() as int;
        lemma_pairs_right(x, d);
        assert forall|i: int| 0 <= i < n implies #[trigger] d[i] == ys[i] by {}
        if pairs_right(x, ys) is Some {
            assert forall|i: int| 0 <= i < ys.len() implies (#[trigger] pairs(
                DataV::Float(x),
                ys[i],
            )) is Some by {
                if i < n {
                    assert(pairs(DataV::Float(x), d[i]) is Some);
                }
            }
            let ps = pairs_right(x, d)->Some_0;
            assert forall|i: int| 0 <= i < ys.len() implies pairs_right(x, ys)->Some_0[i]
                == #[trigger] pairs(DataV::Float(x), ys[i])->Some_0 by {
                if i < n {
                    assert(ps[i] == pairs(DataV::Float(x), d[i])->Some_0);
                }
            }
        } else if pairs_right(x, d) is None {
            let i = choose|i: int| 0 <= i < n && (#[trigger] pairs(DataV::Float(x), d[i])) is None;
            assert(pairs(DataV::Float(x), ys[i]) is None);
        } else {
            assert(pairs(DataV::Float(x), ys[n]) is None);
        }
    }
}

pub proof fn lemma_pairs_both<S>(xs: Seq<DataV<S>>, ys: Seq<DataV<S>>)
    requires
        xs.len() == ys.len(),
    ensures
        pairs_both(xs, ys) is Some <==> forall|i: int|
            0 <= i < xs.len() ==> (#[trigger] pairs(xs[i], ys[i])) is Some,
        pairs_both(xs, ys) is Some ==> pairs_both(xs, ys)->Some_0.len() == xs.len() && forall|
            i: int,
        |
            0 <= i < xs.len() ==> pairs_both(xs, ys)->Some_0[i] == #[trigger] pairs(
                xs[i],
                ys[i],
            )->Some_0,
    decreases xs.len(),
{
    if xs.len() > 0 {
        let d = xs.drop_last();
        let e = ys.drop_last();
        let n = d.len() as int;
        lemma_pairs_both(d, e);
        assert forall|i: int| 0 <= i < n implies #[trigger] d[i] == xs[i] && e[i] == ys[i] by {}
        if pairs_both(xs, ys) is Some {
            assert forall|i: int| 0 <= i < xs.len() implies (#[trigger] pairs(xs[i], ys[i])) is Some by {
                if i < n {
                    assert(pairs(d[i], e[i]) is Some);
                }
            }
            let ps = pairs_both(d, e)->Some_0;
            assert forall|i: int| 0 <= i < xs.len() implies pairs_both(xs, ys)->Some_0[i]
                == #[trigger] pairs(xs[i], ys[i])->Some_0 by {
                if i < n {
                    assert(ps[i] == pairs(d[i], e[i])->Some_0);
                }
            }
        } else if pairs_both(d, e) is None {
            let i = choose|i: int| 0 <= i < n && (#[trigger] pairs(d[i], e[i])) is None;
            assert(pairs(xs[i], ys[i]) is None);
        } else {
            assert(pairs(xs[n], ys[n]) is None);
        }
    }
}

/// Broadcasting a scalar `s` against a list `l` gives a list of the length of
/// `l` whose item `i` is the broadcast of `s` against `l[i]`, and exactly such
/// lists.
pub proof fn lemma_broadcast_scalar_list<S, F: Fn(Operator, S, S) -> S>(
    s: S,
    l: Seq<DataV<S>>,
    op: Operator,
    f: F,
    d: DataV<S>,
)
    ensures
        applied(DataV::Float(s), DataV::List(l), op, f, d) <==> (d is List && d->List_0.len()
            == l.len() && forall|i: int|
            0 <= i < l.len() ==> applied(DataV::Float(s), #[trigger] l[i], op, f, d->List_0[i])),
{
    lemma_pairs_right(s, l);
    let rel = op_rel(f, op);
    if let DataV::List(ds) = d {
        if applied(DataV::Float(s), DataV::List(l), op, f, d) {
            let ps = pairs_right(s, l)->Some_0;
            lemma_leafwise_seq(ps, ds, rel);
            assert forall|i: int| 0 <= i < l.len() implies applied(
                DataV::Float(s),
                #[trigger] l[i],
                op,
                f,
                ds[i],
            ) by {
                assert(ps[i] == pairs(DataV::Float(s), l[i])->Some_0);
                assert(leafwise(ps[i], ds[i], rel));
            }
        }
        if ds.len() == l.len() && forall|i: int|
            0 <= i < l.len() ==> applied(DataV::Float(s), #[trigger] l[i], op, f, ds[i]) {
            assert forall|i: int| 0 <= i < l.len() implies (#[trigger] pairs(
                DataV::Float(s),
                l[i],
            )) is Some by {
                assert(applied(DataV::Float(s), l[i], op, f, ds[i]));
            }
            let ps = pairs_right(s, l)->Some_0;
            assert forall|i: int| 0 <= i < ps.len() implies leafwise(#[trigger] ps[i], ds[i], rel) by {
                assert(applied(DataV::Float(s), l[i], op, f, ds[i]));
                assert(ps[i] == pairs(DataV::Float(s), l[i])->Some_0);
            }
            lemma_leafwise_seq(ps, ds, rel);
        }
    }
}

/// Broadcasting two lists `a` and `b` of equal length gives a list whose item
/// `i` is the broadcast of `a[i]` against `b[i]`, and exactly such lists.
pub proof fn lemma_broadcast_list_list<S, F: Fn(Operator, S, S) -> S>(
    a: Seq<DataV<S>>,
    b: Seq<DataV<S>>,
    op: Operator,
    f: F,
    d: DataV<S>,
)
    requires
        a.len() == b.len(),
    ensures
        applied(DataV::List(a), DataV::List(b), op, f, d) <==> (d is List && d->List_0.len()
            == a.len() && forall|i: int|
            0 <= i < a.len() ==> applied(#[trigger] a[i], b[i], op, f, d->List_0[i])),
{
    lemma_pairs_both(a, b);
    let rel = op_rel(f, op);
    if let DataV::List(ds) = d {
        if applied(DataV::List(a), DataV::List(b), op, f, d) {
            let ps = pairs_both(a, b)->Some_0;
            lemma_leafwise_seq(ps, ds, rel);
            assert forall|i: int| 0 <= i < a.len() implies applied(
                #[trigger] a[i],
                b[i],
                op,
                f,
                ds[i],
            ) by {
                assert(ps[i] == pairs(a[i], b[i])->Some_0);
                assert(leafwise(ps[i], ds[i], rel));
            }
        }
        if ds.len() == a.len() && forall|i: int|
            0 <= i < a.len() ==> applied(#[trigger] a[i], b[i], op, f, ds[i]) {
            assert forall|i: int| 0 <= i < a.len() implies (#[trigger] pairs(a[i], b[i])) is Some by {
                assert(applied(a[i], b[i], op, f, ds[i]));
            }
            let ps = pairs_both(a, b)->Some_0;
            assert forall|i: int| 0 <= i < ps.len() implies leafwise(#[trigger] ps[i], ds[i], rel) by {
                assert(applied(a[i], b[i], op, f, ds[i]));
                assert(ps[i] == pairs(a[i], b[i])->Some_0);
            }
            lemma_leafwise_seq(ps, ds, rel);
        }
    }
}

/// Two lists of different lengths never broadcast against each other.
pub proof fn lemma_broadcast_length_mismatch<S>(a: Seq<DataV<S>>, b: Seq<DataV<S>>)
    requires
        a.len() != b.len(),
    ensures
        pairs(DataV::List(a), DataV::List(b)) is None,
{
}

/// Applies `op` to two values with broadcasting: lists of equal length combine
/// item by item, a scalar meets every item of a list, and two scalars are
/// combined by `scalar`. Fails where two lists of different lengths meet.
pub fn apply_op<S: Copy, F: Fn(Operator, S, S) -> S>(
    left: &Data<S>,
    right: &Data<S>,
    op: Operator,
    scalar: &F,
) -> (r: Result<Data<S>, RuntimeError>)
    requires
        forall|x: S, y: S| scalar.requires((op, x, y)),
    ensures
        match r {
            Ok(d) => applied(left@, right@, op, *scalar, d@),
            Err(e) => pairs(left@, right@) is None && e is InvalidListLength,
        },
    decreases left, right,
{
    match left {
        Data::Float(x) => match right {
            Data::Float(y) => Ok(Data::Float(scalar(op, *x, *y))),
            Data::List(ys) => {
                let ghost yv = datas_view(ys@);
                let mut out: Vec<Data<S>> = Vec::new();
                let mut i: usize = 0;
                proof {
                    lemma_datas_view(ys@);
                }
                while i < ys.len()
                    invariant
                        *left == Data::Float(*x),
                        *right == Data::List(*ys),
                        yv == datas_view(ys@),
                        yv.len() == ys@.len(),
                        forall|j: int| 0 <= j < ys@.len() ==> #[trigger] yv[j] == data_view(ys@[j]),
                        i <= ys.len(),
                        out@.len() == i,
                        forall|x: S, y: S| scalar.requires((op, x, y)),
                        forall|j: int|
                            0 <= j < i ==> (#[trigger] pairs(DataV::Float(*x), yv[j])) is Some
                                && leafwise(
                                pairs(DataV::Float(*x), yv[j])->Some_0,
                                out@[j]@,
                                op_rel(*scalar, op),
                            ),
                    decreases ys.len() - i,
                {
                    proof {
                        assert(decreases_to!(*ys => ys[i as int]));
                    }
                    match apply_op(left, &ys[i], op, scalar) {
                        Ok(d) => {
                            out.push(d);
                        },
                        Err(e) => {
                            proof {
                                assert(yv[i as int] == data_view(ys@[i as int]));
                                lemma_pairs_right(*x, yv);
                                assert(right@ == DataV::List(yv));
                            }
                            return Err(e);
                        },
                    }
                    i = i + 1;
                }
                proof {
                    lemma_pairs_right(*x, yv);
                    lemma_datas_view(out@);
                    lemma_leafwise_seq(pairs_right(*x, yv)->Some_0, datas_view(out@), op_rel(*scalar, op));
                }
                Ok(Data::List(out))
            },
        },
        Data::List(xs) => match right {
            Data::Float(y) => {
                let ghost xv = datas_view(xs@);
                let mut out: Vec<Data<S>> = Vec::new();
                let mut i: usize = 0;
                proof {
                    lemma_datas_view(xs@);
                }
                while i < xs.len()
                    invariant
                        *left == Data::List(*xs),
                        *right == Data::Float(*y),
                        xv == datas_view(xs@),
                        xv.len() == xs@.len(),
                        forall|j: int| 0 <= j < xs@.len() ==> #[trigger] xv[j] == data_view(xs@[j]),
                        i <= xs.len(),
                        out@.len() == i,
                        forall|x: S, y: S| scalar.requires((op, x, y)),
                        forall|j: int|
                            0 <= j < i ==> (#[trigger] pairs(xv[j], DataV::Float(*y))) is Some
                                && leafwise(
                                pairs(xv[j], DataV::Float(*y))->Some_0,
                                out@[j]@,
                                op_rel(*scalar, op),
                            ),
                    decreases xs.len() - i,
                {
                    proof {
                        assert(decreases_to!(*xs => xs[i as int]));
                    }
                    match apply_op(&xs[i], right, op, scalar) {
                        Ok(d) => {
                            out.push(d);
                        },
                        Err(e) => {
                            proof {
                                assert(xv[i as int] == data_view(xs@[i as int]));
                                lemma_pairs_left(xv, *y);
                                assert(left@ == DataV::List(xv));
                            }
                            return Err(e);
                        },
                    }
                    i = i + 1;
                }
                proof {
                    lemma_pairs_left(xv, *y);
                    lemma_datas_view(out@);
                    lemma_leafwise_seq(pairs_left(xv, *y)->Some_0, datas_view(out@), op_rel(*scalar, op));
                }
                Ok(Data::List(out))
            },
            Data::List(ys) => {
                let ghost xv = datas_view(xs@);
                let ghost yv = datas_view(ys@);
                proof {
                    lemma_datas_view(xs@);
                    lemma_datas_view(ys@);
                }
                if xs.len() != ys.len() {
                    return Err(RuntimeError::InvalidListLength);
                }
                let mut out: Vec<Data<S>> = Vec::new();
                let mut i: usize = 0;
                while i < xs.len()
                    invariant
                        *left == Data::List(*xs),
                        *right == Data::List(*ys),
                        xv == datas_view(xs@),
                        yv == datas_view(ys@),
                        xv.len() == xs@.len(),
                        yv.len() == ys@.len(),
                        xs@.len() == ys@.len(),
                        forall|j: int| 0 <= j < xs@.len() ==> #[trigger] xv[j] == data_view(xs@[j]),
                        forall|j: int| 0 <= j < ys@.len() ==> #[trigger] yv[j] == data_view(ys@[j]),
                        i <= xs.len(),
                        out@.len() == i,
                        forall|x: S, y: S| scalar.requires((op, x, y)),
                        forall|j: int|
                            0 <= j < i ==> (#[trigger] pairs(xv[j], yv[j])) is Some && leafwise(
                                pairs(xv[j], yv[j])->Some_0,
                                out@[j]@,
                                op_rel(*scalar, op),
                            ),
                    decreases xs.len() - i,
                {
                    proof {
                        assert(decreases_to!(*xs => xs[i as int]));
                    }
                    match apply_op(&xs[i], &ys[i], op, scalar) {
                        Ok(d) => {
                            out.push(d);
                        },
                        Err(e) => {
                            proof {
                                assert(xv[i as int] == data_view(xs@[i as int]));
                                assert(yv[i as int] == data_view(ys@[i as int]));
                                lemma_pairs_both(xv, yv);
                                assert(left@ == DataV::List(xv));
                                assert(right@ == DataV::List(yv));
                            }
                            return Err(e);
                        },
                    }
                    i = i + 1;
                }
                proof {
                    lemma_pairs_both(xv, yv);
                    lemma_datas_view(out@);
                    lemma_leafwise_seq(pairs_both(xv, yv)->Some_0, datas_view(out@), op_rel(*scalar, op));
                }
                Ok(Data::List(out))
            },
        },
    }
}

/// A copy of a value.
#[verifier::loop_isolation(false)]
pub fn copy_data<S: Copy>(data: &Data<S>) -> (r: Data<S>)
    ensures
        r@ == data@,
    decreases data,
{
    match data {
        Data::Float(x) => Data::Float(*x),
        Data::List(xs) => {
            let mut out: Vec<Data<S>> = Vec::new();
            let mut i: usize = 0;
            while i < xs.len()
                invariant
                    i <= xs@.len(),
                    datas_view(out@) == datas_view(xs@.take(i as int)),
                decreases xs@.len() - i,
            {
                proof {
                    assert(decreases_to!(*xs => xs[i as int]));
                }
                let c = copy_data(&xs[i]);
                proof {
                    lemma_datas_view_push(out@, c);
                    lemma_datas_view_push(xs@.take(i as int), xs@[i as int]);
                    assert(xs@.take(i as int).push(xs@[i as int]) =~= xs@.take(i + 1));
                }
                out.push(c);
                i = i + 1;
            }
            proof {
                assert(xs@.take(xs@.len() as int) =~= xs@);
            }
            Data::List(out)
        },
    }
}

/// Maps the scalar function `func` over a value, keeping its shape.
#[verifier::loop_isolation(false)]
pub fn apply_func<S: Copy, F: Fn(S) -> S>(data: &Data<S>, func: &F) -> (r: Data<S>)
    requires
        forall|x: S| func.requires((x,)),
    ensures
        leafwise(data@, r@, fn_rel(*func)),
    decreases data,
{
    match data {
        Data::Float(x) => Data::Float(func(*x)),
        Data::List(xs) => {
            let ghost xv = datas_view(xs@);
            let mut out: Vec<Data<S>> = Vec::new();
            let mut i: usize = 0;
            proof {
                lemma_datas_view(xs@);
            }
            while i < xs.len()
                invariant
                    *data == Data::List(*xs),
                    xv == datas_view(xs@),
                    xv.len() == xs@.len(),
                    forall|j: int| 0 <= j < xs@.len() ==> #[trigger] xv[j] == data_view(xs@[j]),
                    i <= xs.len(),
                    out@.len() == i,
                    forall|x: S| func.requires((x,)),
                    forall|j: int| 0 <= j < i ==> leafwise(#[trigger] xv[j], out@[j]@, fn_rel(*func)),
                decreases xs.len() - i,
            {
                proof {
                    assert(decreases_to!(*xs => xs[i as int]));
                }
                let d = apply_func(&xs[i], func);
                out.push(d);
                i = i + 1;
            }
            proof {
                lemma_datas_view(out@);
                lemma_leafwise_seq(xv, datas_view(out@), fn_rel(*func));
            }
            Data::List(out)
        },
    }
}

// ---------------------------------------------------------------------------
// The namespace

/// A user function: its parameter names, in order, and its body.
pub struct Function {
    pub params: Vec<String>,
    pub body: Expr,
}

/// The model of a [`Function`].
pub struct FunctionV {
    pub params: Seq<Seq<char>>,
    pub body: ExprV,
}

pub open spec fn names_view(s: Seq<String>) -> Seq<Seq<char>> {
    s.map_values(|n: String| n@)
}

impl View for Function {
    type V = FunctionV;

    open spec fn view(&self) -> FunctionV {
        FunctionV { params: names_view(self.params@), body: self.body@ }
    }
}

/// The names that always resolve: `PI`, `TAU` and `GLR`.
pub open spec fn is_reserved(n: Seq<char>) -> bool {
    n == seq!['P', 'I'] || n == seq!['T', 'A', 'U'] || n == seq!['G', 'L', 'R']
}

/// The built-in functions `sin`, `cos` and `tan`.
pub open spec fn is_builtin(n: Seq<char>) -> bool {
    n == seq!['s', 'i', 'n'] || n == seq!['c', 'o', 's'] || n == seq!['t', 'a', 'n']
}

/// The model of a [`Namespace`]: variables and user functions by name.
pub struct NamespaceV<S> {
    pub vars: Map<Seq<char>, DataV<S>>,
    pub funcs: Map<Seq<char>, FunctionV>,
}

/// Whether `n` names a constant or a variable.
pub open spec fn resolves<S>(ns: NamespaceV<S>, n: Seq<char>) -> bool {
    is_reserved(n) || ns.vars.contains_key(n)
}

/// Whether `n` names a built-in or a user function.
pub open spec fn function_defined<S>(ns: NamespaceV<S>, n: Seq<char>) -> bool {
    is_builtin(n) || ns.funcs.contains_key(n)
}

/// Declaring variable `n` as `v`: refused where `n` already resolves.
pub open spec fn declare_var<S>(ns: NamespaceV<S>, n: Seq<char>, v: DataV<S>) -> Option<NamespaceV<S>> {
    if resolves(ns, n) {
        None
    } else {
        Some(NamespaceV { vars: ns.vars.insert(n, v), funcs: ns.funcs })
    }
}

/// Declaring function `n`: refused where a function of that name exists.
pub open spec fn declare_fn<S>(ns: NamespaceV<S>, n: Seq<char>, f: FunctionV) -> Option<NamespaceV<S>> {
    if function_defined(ns, n) {
        None
    } else {
        Some(NamespaceV { vars: ns.vars, funcs: ns.funcs.insert(n, f) })
    }
}

/// The namespace once the names a finished scope introduced are removed.
pub open spec fn clean<S>(ns: NamespaceV<S>, names: Seq<Seq<char>>) -> NamespaceV<S> {
    NamespaceV { vars: ns.vars.remove_keys(names.to_set()), funcs: ns.funcs.remove_keys(names.to_set()) }
}

/// A name declared while a declaration of it is in scope is refused.
pub proof fn lemma_redeclaration<S>(ns: NamespaceV<S>, n: Seq<char>, v: DataV<S>, w: DataV<S>)
    requires
        declare_var(ns, n, v) is Some,
    ensures
        declare_var(declare_var(ns, n, v)->Some_0, n, w) is None,
{
}

/// A variable declared in a scope holds its value while the scope lasts; once
/// the scope is cleaned up it no longer resolves, and it may be declared again.
pub proof fn lemma_scope_cleanup<S>(
    ns: NamespaceV<S>,
    n: Seq<char>,
    v: DataV<S>,
    scope: Seq<Seq<char>>,
    w: DataV<S>,
)
    requires
        declare_var(ns, n, v) is Some,
        scope.contains(n),
    ensures
        declare_var(ns, n, v)->Some_0.vars[n] == v,
        !resolves(clean(declare_var(ns, n, v)->Some_0, scope), n),
        declare_var(clean(declare_var(ns, n, v)->Some_0, scope), n, w) is Some,
{
    assert(scope.to_set().contains(n));
}

proof fn lemma_take_to_set(names: Seq<Seq<char>>, i: int)
    requires
        0 <= i < names.len(),
    ensures
        names.take(i + 1).to_set() == names.take(i).to_set().insert(names[i]),
{
    let a = names.take(i + 1);
    let b = names.take(i);
    assert forall|x: Seq<char>| a.contains(x) <==> b.contains(x) || x == names[i] by {
        if a.contains(x) {
            let j = choose|j: int| 0 <= j < a.len() && a[j] == x;
            if j < i {
                assert(b[j] == x);
            }
        }
        if b.contains(x) {
            let j = choose|j: int| 0 <= j < b.len() && b[j] == x;
            assert(a[j] == x);
        }
        if x == names[i] {
            assert(a[i] == x);
        }
    }
    assert(a.to_set() =~= b.to_set().insert(names[i]));
}

// ---------------------------------------------------------------------------
// Substitution

/// The index of the first of `params` at or after `i` named `n`, or their number.
pub open spec fn first_param(params: Seq<Seq<char>>, n: Seq<char>, i: int) -> int
    decreases params.len() - i,
{
    if i < 0 || i >= params.len() {
        params.len() as int
    } else if params[i] == n {
        i
    } else {
        first_param(params, n, i + 1)
    }
}

/// The body `e` of a function with parameters `params`, called with argument
/// expressions `args`: each identifier that names a parameter becomes the
/// argument in its place, unevaluated; any other identifier must resolve in
/// `ns` and stays, else substitution fails with that name.
pub open spec fn subst<S>(ns: NamespaceV<S>, params: Seq<Seq<char>>, args: Seq<ExprV>, e: ExprV) -> Result<
    ExprV,
    Seq<char>,
>
    decreases e,
{
    match e {
        ExprV::Ident(n) => {
            let k = first_param(params, n, 0);
            if k < params.len() && k < args.len() {
                Ok(args[k])
            } else if resolves(ns, n) {
                Ok(ExprV::Ident(n))
            } else {
                Err(n)
            }
        },
        ExprV::FunctionCall(n, xs) => match subst_all(ns, params, args, xs) {
            Ok(ys) => Ok(ExprV::FunctionCall(n, ys)),
            Err(m) => Err(m),
        },
        ExprV::Binary(l, op, r) => match subst(ns, params, args, *l) {
            Ok(l2) => match subst(ns, params, args, *r) {
                Ok(r2) => Ok(ExprV::Binary(Box::new(l2), op, Box::new(r2))),
                Err(m) => Err(m),
            },
            Err(m) => Err(m),
        },
        ExprV::List(xs) => match subst_all(ns, params, args, xs) {
            Ok(ys) => Ok(ExprV::List(ys)),
            Err(m) => Err(m),
        },
        _ => Ok(e),
    }
}

/// [`subst`] on each of `xs`, in order; the first failure stops it.
pub open spec fn subst_all<S>(
    ns: NamespaceV<S>,
    params: Seq<Seq<char>>,
    args: Seq<ExprV>,
    xs: Seq<ExprV>,
) -> Result<Seq<ExprV>, Seq<char>>
    decreases xs,
{
    if xs.len() == 0 {
        Ok(Seq::empty())
    } else {
        match subst_all(ns, params, args, xs.drop_last()) {
            Ok(ys) => match subst(ns, params, args, xs.last()) {
                Ok(y) => Ok(ys.push(y)),
                Err(m) => Err(m),
            },
            Err(m) => Err(m),
        }
    }
}

/// A failure on a prefix is a failure of the whole.
proof fn lemma_subst_all_prefix_err<S>(
    ns: NamespaceV<S>,
    params: Seq<Seq<char>>,
    args: Seq<ExprV>,
    xs: Seq<ExprV>,
    i: int,
)
    requires
        0 <= i <= xs.len(),
        subst_all(ns, params, args, xs.take(i)) is Err,
    ensures
        subst_all(ns, params, args, xs) == subst_all(ns, params, args, xs.take(i)),
    decreases xs.len() - i,
{
    if i < xs.len() {
        let t = xs.take(i + 1);
        assert(t.drop_last() =~= xs.take(i));
        lemma_subst_all_prefix_err(ns, params, args, xs, i + 1);
    } else {
        assert(xs.take(i) =~= xs);
    }
}

pub proof fn lemma_exprs_view(s: Seq<Expr>)
    ensures
        exprs_view(s).len() == s.len(),
        forall|i: int| 0 <= i < s.len() ==> #[trigger] exprs_view(s)[i] == expr_view(s[i]),
    decreases s.len(),
{
    if s.len() > 0 {
        lemma_exprs_view(s.drop_last());
    }
}

/// A copy of an expression.
#[verifier::loop_isolation(false)]
pub fn clone_expr(e: &Expr) -> (r: Expr)
    ensures
        r@ == e@,
    decreases e,
{
    match e {
        Expr::FloatLiteral(v) => Expr::FloatLiteral(v.clone()),
        Expr::NegFloatLiteral(v) => Expr::NegFloatLiteral(v.clone()),
        Expr::Ident(n) => Expr::Ident(n.clone()),
        Expr::FunctionCall(n, xs) => Expr::FunctionCall(n.clone(), clone_exprs(xs)),
        Expr::Expr(l, op, r) => Expr::Expr(Box::new(clone_expr(l)), *op, Box::new(clone_expr(r))),
        Expr::List(xs) => Expr::List(clone_exprs(xs)),
    }
}

#[verifier::loop_isolation(false)]
fn clone_exprs(xs: &Vec<Expr>) -> (r: Vec<Expr>)
    ensures
        exprs_view(r@) == exprs_view(xs@),
    decreases xs,
{
    let mut out: Vec<Expr> = Vec::new();
    let mut i: usize = 0;
    while i < xs.len()
        invariant
            i <= xs@.len(),
            exprs_view(out@) == exprs_view(xs@.take(i as int)),
        decreases xs@.len() - i,
    {
        proof {
            assert(decreases_to!(*xs => xs[i as int]));
        }
        let c = clone_expr(&xs[i]);
        proof {
            lemma_exprs_view_push(out@, c);
            lemma_exprs_view_push(xs@.take(i as int), xs@[i as int]);
            assert(xs@.take(i as int).push(xs@[i as int]) =~= xs@.take(i + 1));
        }
        out.push(c);
        i = i + 1;
    }
    proof {
        assert(xs@.take(xs@.len() as int) =~= xs@);
    }
    out
}

/// A built-in scalar function.
#[derive(Debug, Clone, Copy, PartialEq, Eq, Structural)]
pub enum Builtin {
    Sin,
    Cos,
    Tan,
}

/// What a call evaluates: a built-in applied to its one argument, or the body
/// of a user function with the arguments substituted.
#[derive(Debug, PartialEq)]
pub enum Call {
    Builtin(Builtin),
    User(Expr),
}

pub open spec fn builtin_of(n: Seq<char>) -> Builtin {
    if n == seq!['s', 'i', 'n'] {
        Builtin::Sin
    } else if n == seq!['c', 'o', 's'] {
        Builtin::Cos
    } else {
        Builtin::Tan
    }
}

/// Variables and user functions by name, in one flat namespace.
pub struct Namespace<S> {
    variables: Table<Data<S>>,
    functions: Table<Function>,
}

impl<S> View for Namespace<S> {
    type V = NamespaceV<S>;

    closed spec fn view(&self) -> NamespaceV<S> {
        NamespaceV { vars: self.variables@, funcs: self.functions@ }
    }
}

/// Whether `name` is one of the reserved constants.
pub fn is_constant(name: &String) -> (r: bool)
    ensures
        r == is_reserved(name@),
{
    proof {
        reveal_strlit("PI");
        reveal_strlit("TAU");
        reveal_strlit("GLR");
        assert("PI"@ =~= seq!['P', 'I']);
        assert("TAU"@ =~= seq!['T', 'A', 'U']);
        assert("GLR"@ =~= seq!['G', 'L', 'R']);
    }
    *name == String::from_str("PI") || *name == String::from_str("TAU") || *name == String::from_str(
        "GLR",
    )
}

fn is_builtin_function(name: &String) -> (r: bool)
    ensures
        r == is_builtin(name@),
{
    proof {
        reveal_strlit("sin");
        reveal_strlit("cos");
        reveal_strlit("tan");
        assert("sin"@ =~= seq!['s', 'i', 'n']);
        assert("cos"@ =~= seq!['c', 'o', 's']);
        assert("tan"@ =~= seq!['t', 'a', 'n']);
    }
    *name == String::from_str("sin") || *name == String::from_str("cos") || *name
        == String::from_str("tan")
}

impl<S> Namespace<S> {
    pub closed spec fn wf(&self) -> bool {
        self.variables.wf() && self.functions.wf()
    }

    pub fn new() -> (r: Self)
        ensures
            r.wf(),
            r@.vars == Map::<Seq<char>, DataV<S>>::empty(),
            r@.funcs == Map::<Seq<char>, FunctionV>::empty(),
    {
        Namespace { variables: Table::new(), functions: Table::new() }
    }

    /// Whether `name` resolves to a constant or a variable.
    pub fn is_defined(&self, name: &String) -> (r: bool)
        requires
            self.wf(),
        ensures
            r == resolves(self@, name@),
    {
        is_constant(name) || self.variables.contains(name)
    }

    /// The value of variable `name` (constants are not variables).
    pub fn get_variable(&self, name: &String) -> (r: Option<&Data<S>>)
        requires
            self.wf(),
        ensures
            match r {
                Some(d) => self@.vars.contains_key(name@) && self@.vars[name@] == d@,
                None => !self@.vars.contains_key(name@),
            },
    {
        self.variables.get(name)
    }

    /// Declares variable `name` as `value`; a redeclaration where `name`
    /// already resolves.
    pub fn declare_variable(&mut self, name: String, value: Data<S>) -> (r: Result<(), RuntimeError>)
        requires
            old(self).wf(),
        ensures
            final(self).wf(),
            match r {
                Ok(()) => declare_var(old(self)@, name@, value@) == Some(final(self)@),
                Err(e) => declare_var(old(self)@, name@, value@) is None && final(self)@ == old(self)@
                    && e is Redeclaration && e->Redeclaration_0@ == name@,
            },
    {
        if self.is_defined(&name) {
            return Err(RuntimeError::Redeclaration(name));
        }
        self.variables.insert(name, value);
        Ok(())
    }

    /// Binds `name` to `value` whether or not it is bound (a loop variable).
    pub fn set_variable(&mut self, name: String, value: Data<S>)
        requires
            old(self).wf(),
        ensures
            final(self).wf(),
            final(self)@.vars == old(self)@.vars.insert(name@, value@),
            final(self)@.funcs == old(self)@.funcs,
    {
        self.variables.insert(name, value);
    }

    pub fn remove_variable(&mut self, name: &String)
        requires
            old(self).wf(),
        ensures
            final(self).wf(),
            final(self)@.vars == old(self)@.vars.remove(name@),
            final(self)@.funcs == old(self)@.funcs,
    {
        self.variables.remove(name);
    }

    /// Whether `name` is a built-in or a user function.
    pub fn function_exists(&self, name: &String) -> (r: bool)
        requires
            self.wf(),
        ensures
            r == function_defined(self@, name@),
    {
        is_builtin_function(name) || self.functions.contains(name)
    }

    pub fn get_function(&self, name: &String) -> (r: Option<&Function>)
        requires
            self.wf(),
        ensures
            match r {
                Some(f) => self@.funcs.contains_key(name@) && self@.funcs[name@] == f@,
                None => !self@.funcs.contains_key(name@),
            },
    {
        self.functions.get(name)
    }

    /// Declares function `name`; a redeclaration where a function of that name
    /// exists.
    pub fn declare_function(&mut self, name: String, function: Function) -> (r: Result<(), RuntimeError>)
        requires
            old(self).wf(),
        ensures
            final(self).wf(),
            match r {
                Ok(()) => declare_fn(old(self)@, name@, function@) == Some(final(self)@),
                Err(e) => declare_fn(old(self)@, name@, function@) is None && final(self)@ == old(self)@
                    && e is Redeclaration && e->Redeclaration_0@ == name@,
            },
    {
        if self.function_exists(&name) {
            return Err(RuntimeError::Redeclaration(name));
        }
        self.functions.insert(name, function);
        Ok(())
    }

    /// Removes every name that a finished scope introduced, as a variable and
    /// as a function.
    pub fn clean_scope(&mut self, scope: &Vec<String>)
        requires
            old(self).wf(),
        ensures
            final(self).wf(),
            final(self)@ == clean(old(self)@, names_view(scope@)),
    {
        let ghost start = self@;
        let mut i: usize = 0;
        proof {
            assert(names_view(scope@).take(0).to_set() =~= Set::<Seq<char>>::empty());
            assert(start.vars.remove_keys(Set::<Seq<char>>::empty()) =~= start.vars);
            assert(start.funcs.remove_keys(Set::<Seq<char>>::empty()) =~= start.funcs);
        }
        while i < scope.len()
            invariant
                self.wf(),
                i <= scope@.len(),
                self@ == clean(start, names_view(scope@).take(i as int)),
            decreases scope@.len() - i,
        {
            self.variables.remove(&scope[i]);
            self.functions.remove(&scope[i]);
            proof {
                let names = names_view(scope@);
                lemma_take_to_set(names, i as int);
                assert(self@.vars =~= start.vars.remove_keys(names.take(i + 1).to_set()));
                assert(self@.funcs =~= start.funcs.remove_keys(names.take(i + 1).to_set()));
            }
            i = i + 1;
        }
        proof {
            assert(names_view(scope@).take(scope@.len() as int) =~= names_view(scope@));
        }
    }

    /// The body of a user function with `params`, called with `args`: each
    /// parameter replaced by its argument expression, unevaluated. Fails on an
    /// identifier that is neither a parameter nor resolves.
    #[verifier::loop_isolation(false)]
    pub fn transform_fn_expr(&self, params: &Vec<String>, args: &Vec<Expr>, expr: &Expr) -> (r: Result<
        Expr,
        RuntimeError,
    >)
        requires
            self.wf(),
        ensures
            match r {
                Ok(e) => subst(self@, names_view(params@), exprs_view(args@), expr@) == Ok::<
                    ExprV,
                    Seq<char>,
                >(e@),
                Err(err) => err is UndefinedVariable && subst(
                    self@,
                    names_view(params@),
                    exprs_view(args@),
                    expr@,
                ) == Err::<ExprV, Seq<char>>(err->UndefinedVariable_0@),
            },
        decreases expr,
    {
        match expr {
            Expr::Ident(name) => {
                let mut k: usize = 0;
                while k < params.len()
                    invariant
                        k <= params@.len(),
                        first_param(names_view(params@), name@, 0) == first_param(
                            names_view(params@),
                            name@,
                            k as int,
                        ),
                    decreases params@.len() - k,
                {
                    if params[k] == *name {
                        break;
                    }
                    k = k + 1;
                }
                proof {
                    lemma_exprs_view(args@);
                }
                if k < params.len() && k < args.len() {
                    Ok(clone_expr(&args[k]))
                } else if self.is_defined(name) {
                    Ok(Expr::Ident(name.clone()))
                } else {
                    Err(RuntimeError::UndefinedVariable(name.clone()))
                }
            },
            Expr::FunctionCall(name, xs) => match self.transform_all(params, args, xs) {
                Ok(ys) => Ok(Expr::FunctionCall(name.clone(), ys)),
                Err(e) => Err(e),
            },
            Expr::Expr(l, op, r) => match self.transform_fn_expr(params, args, l) {
                Ok(l2) => match self.transform_fn_expr(params, args, r) {
                    Ok(r2) => Ok(Expr::Expr(Box::new(l2), *op, Box::new(r2))),
                    Err(e) => Err(e),
                },
                Err(e) => Err(e),
            },
            Expr::List(xs) => match self.transform_all(params, args, xs) {
                Ok(ys) => Ok(Expr::List(ys)),
                Err(e) => Err(e),
            },
            Expr::FloatLiteral(v) => Ok(Expr::FloatLiteral(v.clone())),
            Expr::NegFloatLiteral(v) => Ok(Expr::NegFloatLiteral(v.clone())),
        }
    }

    #[verifier::loop_isolation(false)]
    fn transform_all(&self, params: &Vec<String>, args: &Vec<Expr>, xs: &Vec<Expr>) -> (r: Result<
        Vec<Expr>,
        RuntimeError,
    >)
        requires
            self.wf(),
        ensures
            match r {
                Ok(ys) => subst_all(self@, names_view(params@), exprs_view(args@), exprs_view(xs@))
                    == Ok::<Seq<ExprV>, Seq<char>>(exprs_view(ys@)),
                Err(err) => err is UndefinedVariable && subst_all(
                    self@,
                    names_view(params@),
                    exprs_view(args@),
                    exprs_view(xs@),
                ) == Err::<Seq<ExprV>, Seq<char>>(err->UndefinedVariable_0@),
            },
        decreases xs,
    {
        let ghost ps = names_view(params@);
        let ghost avs = exprs_view(args@);
        let mut out: Vec<Expr> = Vec::new();
        let mut i: usize = 0;
        proof {
            lemma_exprs_view(xs@);
            assert(exprs_view(xs@).take(0) =~= Seq::<ExprV>::empty());
        }
        while i < xs.len()
            invariant
                i <= xs@.len(),
                subst_all(self@, ps, avs, exprs_view(xs@).take(i as int)) == Ok::<
                    Seq<ExprV>,
                    Seq<char>,
                >(exprs_view(out@)),
            decreases xs@.len() - i,
        {
            proof {
                assert(decreases_to!(*xs => xs[i as int]));
                let t = exprs_view(xs@).take(i + 1);
                assert(t.drop_last() =~= exprs_view(xs@).take(i as int));
                assert(t.last() == expr_view(xs@[i as int]));
            }
            match self.transform_fn_expr(params, args, &xs[i]) {
                Ok(y) => {
                    proof {
                        lemma_exprs_view_push(out@, y);
                    }
                    out.push(y);
                },
                Err(e) => {
                    proof {
                        lemma_subst_all_prefix_err(self@, ps, avs, exprs_view(xs@), i + 1);
                    }
                    return Err(e);
                },
            }
            i = i + 1;
        }
        proof {
            assert(exprs_view(xs@).take(xs@.len() as int) =~= exprs_view(xs@));
        }
        Ok(out)
    }

    /// Resolves a call of `name` with argument expressions `args`: a built-in
    /// takes exactly one argument; a user function takes as many as it has
    /// parameters, and its body is returned with the arguments substituted.
    pub fn resolve_call(&self, name: &String, args: &Vec<Expr>) -> (r: Result<Call, RuntimeError>)
        requires
            self.wf(),
        ensures
            is_builtin(name@) ==> match r {
                Ok(c) => args@.len() == 1 && c == Call::Builtin(builtin_of(name@)),
                Err(e) => args@.len() != 1 && e is InvalidArguments && e->InvalidArguments_0@
                    == name@,
            },
            !is_builtin(name@) && !self@.funcs.contains_key(name@) ==> r is Err && r->Err_0 is UndefinedFunction
                && r->Err_0->UndefinedFunction_0@ == name@,
            !is_builtin(name@) && self@.funcs.contains_key(name@) ==> {
                let f = self@.funcs[name@];
                if args@.len() != f.params.len() {
                    r is Err && r->Err_0 is InvalidArguments && r->Err_0->InvalidArguments_0@ == name@
                } else {
                    match r {
                        Ok(c) => c is User && subst(self@, f.params, exprs_view(args@), f.body) == Ok::<
                            ExprV,
                            Seq<char>,
                        >(c->User_0@),
                        Err(e) => e is UndefinedVariable && subst(
                            self@,
                            f.params,
                            exprs_view(args@),
                            f.body,
                        ) == Err::<ExprV, Seq<char>>(e->UndefinedVariable_0@),
                    }
                }
            },
    {
        proof {
            reveal_strlit("sin");
            reveal_strlit("cos");
            assert("sin"@ =~= seq!['s', 'i', 'n']);
            assert("cos"@ =~= seq!['c', 'o', 's']);
        }
        if is_builtin_function(name) {
            if args.len() != 1 {
                return Err(RuntimeError::InvalidArguments(name.clone()));
            }
            let b = if *name == String::from_str("sin") {
                Builtin::Sin
            } else if *name == String::from_str("cos") {
                Builtin::Cos
            } else {
                Builtin::Tan
            };
            return Ok(Call::Builtin(b));
        }
        match self.functions.get(name) {
            None => Err(RuntimeError::UndefinedFunction(name.clone())),
            Some(f) => {
                if args.len() != f.params.len() {
                    proof {
                        assert(names_view(f.params@).len() == f.params@.len());
                    }
                    return Err(RuntimeError::InvalidArguments(name.clone()));
                }
                match self.transform_fn_expr(&f.params, args, &f.body) {
                    Ok(e) => Ok(Call::User(e)),
                    Err(e) => Err(e),
                }
            },
        }
    }
}

} // verus!
