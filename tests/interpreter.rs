use mathy::interpreter::{
    apply_func, apply_op, clone_expr, copy_data, is_constant, Builtin, Call, Data, Function,
    Namespace, RuntimeError,
};
use mathy::parser::{Expr, Operator};

fn arith(op: Operator, a: f64, b: f64) -> f64 {
    match op {
        Operator::Plus => a + b,
        Operator::Minus => a - b,
        Operator::Multi => a * b,
        Operator::Div => a / b,
        Operator::Pow => a.powf(b),
    }
}

fn f(x: f64) -> Data<f64> {
    Data::Float(x)
}

fn list(xs: &[f64]) -> Data<f64> {
    Data::List(xs.iter().map(|x| Data::Float(*x)).collect())
}

fn s(x: &str) -> String {
    x.to_string()
}

#[test]
fn scalar_broadcasts_over_list() {
    let l = list(&[1.0, 2.0, 3.0]);
    let r = apply_op(&f(10.0), &l, Operator::Minus, &arith).unwrap();
    assert_eq!(r, list(&[9.0, 8.0, 7.0]));
    let r = apply_op(&l, &f(2.0), Operator::Pow, &arith).unwrap();
    assert_eq!(r, list(&[1.0, 4.0, 9.0]));
    // each item is the scalar applied to the item
    if let (Data::List(items), Data::List(out)) = (&l, &apply_op(&f(2.0), &l, Operator::Multi, &arith).unwrap()) {
        assert_eq!(items.len(), out.len());
        for (x, y) in items.iter().zip(out) {
            assert_eq!(apply_op(&f(2.0), x, Operator::Multi, &arith).unwrap(), *y);
        }
    } else {
        panic!("expected lists");
    }
}

#[test]
fn lists_combine_elementwise_and_nested() {
    let a = Data::List(vec![f(1.0), list(&[2.0, 3.0])]);
    let b = Data::List(vec![f(10.0), list(&[20.0, 30.0])]);
    let r = apply_op(&a, &b, Operator::Plus, &arith).unwrap();
    assert_eq!(r, Data::List(vec![f(11.0), list(&[22.0, 33.0])]));
    let r = apply_op(&a, &f(1.0), Operator::Plus, &arith).unwrap();
    assert_eq!(r, Data::List(vec![f(2.0), list(&[3.0, 4.0])]));
    assert_eq!(apply_op(&list(&[]), &list(&[]), Operator::Plus, &arith), Ok(list(&[])));
}

#[test]
fn list_length_mismatch_fails() {
    let nested_a = Data::List(vec![list(&[1.0, 2.0])]);
    let nested_b = Data::List(vec![list(&[1.0])]);
    assert_eq!(
        apply_op(&nested_a, &nested_b, Operator::Plus, &arith),
        Err(RuntimeError::InvalidListLength)
    );
}

#[test]
fn functions_map_over_nested_values() {
    let d = Data::List(vec![f(0.0), list(&[1.0, 4.0])]);
    let r = apply_func(&d, &|x: f64| x.sqrt());
    assert_eq!(r, Data::List(vec![f(0.0), list(&[1.0, 2.0])]));
    assert_eq!(apply_func(&f(9.0), &|x: f64| x + 1.0), f(10.0));
    assert_eq!(copy_data(&d), d);
}

#[test]
fn redeclaration_in_one_scope_fails() {
    let mut ns: Namespace<f64> = Namespace::new();
    assert_eq!(ns.declare_variable(s("x"), f(1.0)), Ok(()));
    assert_eq!(
        ns.declare_variable(s("x"), f(2.0)),
        Err(RuntimeError::Redeclaration(s("x")))
    );
    assert_eq!(ns.get_variable(&s("x")), Some(&f(1.0)));
    assert_eq!(
        ns.declare_variable(s("PI"), f(3.0)),
        Err(RuntimeError::Redeclaration(s("PI")))
    );
    assert!(is_constant(&s("TAU")) && is_constant(&s("GLR")) && !is_constant(&s("pi")));
}

#[test]
fn cleaned_up_name_may_be_declared_again() {
    let mut ns: Namespace<f64> = Namespace::new();
    assert_eq!(ns.declare_variable(s("y"), f(1.0)), Ok(()));
    assert!(ns.is_defined(&s("y")));
    ns.clean_scope(&vec![s("y")]);
    assert!(!ns.is_defined(&s("y")));
    assert_eq!(ns.get_variable(&s("y")), None);
    assert_eq!(ns.declare_variable(s("y"), f(2.0)), Ok(()));
    assert_eq!(ns.get_variable(&s("y")), Some(&f(2.0)));
}

#[test]
fn loop_variable_is_set_and_removed() {
    let mut ns: Namespace<f64> = Namespace::new();
    ns.set_variable(s("i"), f(0.0));
    ns.set_variable(s("i"), f(1.5));
    assert_eq!(ns.get_variable(&s("i")), Some(&f(1.5)));
    ns.remove_variable(&s("i"));
    assert!(!ns.is_defined(&s("i")));
}

fn ident(x: &str) -> Expr {
    Expr::Ident(s(x))
}

fn lit(x: &str) -> Expr {
    Expr::FloatLiteral(s(x))
}

fn bin(l: Expr, op: Operator, r: Expr) -> Expr {
    Expr::Expr(Box::new(l), op, Box::new(r))
}

#[test]
fn functions_are_declared_once() {
    let mut ns: Namespace<f64> = Namespace::new();
    let double = Function { params: vec![s("x")], body: bin(ident("x"), Operator::Plus, ident("x")) };
    assert_eq!(ns.declare_function(s("f"), double), Ok(()));
    assert!(ns.function_exists(&s("f")) && ns.function_exists(&s("sin")));
    let again = Function { params: vec![], body: lit("1.0") };
    assert_eq!(ns.declare_function(s("f"), again), Err(RuntimeError::Redeclaration(s("f"))));
    let trig = Function { params: vec![], body: lit("1.0") };
    assert_eq!(ns.declare_function(s("cos"), trig), Err(RuntimeError::Redeclaration(s("cos"))));
    ns.clean_scope(&vec![s("f")]);
    assert!(!ns.function_exists(&s("f")));
}

#[test]
fn arguments_are_substituted_unevaluated() {
    let mut ns: Namespace<f64> = Namespace::new();
    ns.declare_variable(s("y"), f(3.0)).unwrap();
    let body = bin(ident("x"), Operator::Plus, ident("x"));
    let r = ns.transform_fn_expr(&vec![s("x")], &vec![ident("y")], &body).unwrap();
    assert_eq!(r, bin(ident("y"), Operator::Plus, ident("y")));

    let area = bin(ident("PI"), Operator::Multi, bin(ident("r"), Operator::Pow, lit("2.0")));
    let r = ns.transform_fn_expr(&vec![s("r")], &vec![lit("2.0")], &area).unwrap();
    assert_eq!(r, bin(ident("PI"), Operator::Multi, bin(lit("2.0"), Operator::Pow, lit("2.0"))));

    let call = Expr::FunctionCall(s("sin"), vec![Expr::List(vec![ident("a"), ident("b")])]);
    let r = ns
        .transform_fn_expr(&vec![s("a"), s("b")], &vec![lit("1.0"), ident("y")], &call)
        .unwrap();
    assert_eq!(
        r,
        Expr::FunctionCall(s("sin"), vec![Expr::List(vec![lit("1.0"), ident("y")])])
    );
}

#[test]
fn substitution_rejects_unknown_names() {
    let ns: Namespace<f64> = Namespace::new();
    let body = bin(ident("x"), Operator::Plus, ident("z"));
    assert_eq!(
        ns.transform_fn_expr(&vec![s("x")], &vec![lit("1.0")], &body),
        Err(RuntimeError::UndefinedVariable(s("z")))
    );
    let e = bin(ident("q"), Operator::Minus, Expr::NegFloatLiteral(s("1.0")));
    assert_eq!(clone_expr(&e), e);
}

#[test]
fn calls_are_resolved() {
    let mut ns: Namespace<f64> = Namespace::new();
    assert_eq!(ns.resolve_call(&s("cos"), &vec![lit("1.0")]), Ok(Call::Builtin(Builtin::Cos)));
    assert_eq!(ns.resolve_call(&s("sin"), &vec![lit("1.0")]), Ok(Call::Builtin(Builtin::Sin)));
    assert_eq!(ns.resolve_call(&s("tan"), &vec![lit("1.0")]), Ok(Call::Builtin(Builtin::Tan)));
    assert_eq!(
        ns.resolve_call(&s("sin"), &vec![lit("1.0"), lit("2.0")]),
        Err(RuntimeError::InvalidArguments(s("sin")))
    );
    assert_eq!(
        ns.resolve_call(&s("g"), &vec![]),
        Err(RuntimeError::UndefinedFunction(s("g")))
    );
    let g = Function { params: vec![s("a"), s("b")], body: bin(ident("a"), Operator::Div, ident("b")) };
    ns.declare_function(s("g"), g).unwrap();
    assert_eq!(
        ns.resolve_call(&s("g"), &vec![lit("1.0")]),
        Err(RuntimeError::InvalidArguments(s("g")))
    );
    assert_eq!(
        ns.resolve_call(&s("g"), &vec![lit("1.0"), lit("2.0")]),
        Ok(Call::User(bin(lit("1.0"), Operator::Div, lit("2.0"))))
    );
}
