use mathy::eval::{evaluate_expr, Constant};
use mathy::exec::{Closures, Interpreter};
use mathy::interpreter::{Builtin, Data, Namespace, RuntimeError};
use mathy::lexer::Lexer;
use mathy::parser::{Operator, Parsed, Parser};

fn arith(op: Operator, a: f64, b: f64) -> f64 {
    match op {
        Operator::Plus => a + b,
        Operator::Minus => a - b,
        Operator::Multi => a * b,
        Operator::Div => a / b,
        Operator::Pow => a.powf(b),
    }
}

fn numeral(t: String, neg: bool) -> f64 {
    let x: f64 = t.parse().unwrap();
    if neg {
        -x
    } else {
        x
    }
}

fn constant(c: Constant) -> f64 {
    match c {
        Constant::Pi => std::f64::consts::PI,
        Constant::Tau => 2.0 * std::f64::consts::PI,
        Constant::Glr => 1.618_033_988_749_894,
    }
}

fn builtin(b: Builtin, x: f64) -> f64 {
    match b {
        Builtin::Sin => x.sin(),
        Builtin::Cos => x.cos(),
        Builtin::Tan => x.tan(),
    }
}

fn le(a: f64, b: f64) -> bool {
    a <= b
}

fn closures() -> Closures<
    fn(Operator, f64, f64) -> f64,
    fn(String, bool) -> f64,
    fn(Constant) -> f64,
    fn(Builtin, f64) -> f64,
    fn(f64, f64) -> bool,
> {
    Closures { arith, numeral, constant, builtin, le }
}

fn parse(src: &str) -> Vec<Parsed> {
    let tokens = Lexer::new("t".to_string(), src.to_string()).tokenize().unwrap();
    Parser::new(tokens).parse().unwrap()
}

/// Runs a program with the given fuel; returns what it printed and how it ended.
fn run_with(src: &str, fuel: u64) -> (Vec<Data<f64>>, Result<(), RuntimeError>) {
    let mut interpreter: Interpreter<f64> = Interpreter::new(parse(src));
    let mut printed = Vec::new();
    let r = interpreter.interpret(fuel, &mut printed, &closures());
    (printed, r)
}

fn run(src: &str) -> (Vec<Data<f64>>, Result<(), RuntimeError>) {
    run_with(src, 1000)
}

fn f(x: f64) -> Data<f64> {
    Data::Float(x)
}

fn list(xs: &[f64]) -> Data<f64> {
    Data::List(xs.iter().map(|x| Data::Float(*x)).collect())
}

fn s(x: &str) -> String {
    x.to_string()
}

#[test]
fn precedence_evaluates() {
    assert_eq!(run("2 + 3 * 4\n2 ^ 3 ^ 2\n(2 + 3) * 4\n1 / 0"), (
        vec![f(14.0), f(64.0), f(20.0), f(f64::INFINITY)],
        Ok(())
    ));
}

#[test]
fn evaluate_expr_on_its_own() {
    let ns: Namespace<f64> = Namespace::new();
    let mut stmts = parse("[1, 2] * [3, 4] - -1");
    let e = match stmts.remove(0) {
        Parsed::PrintExpr(e) => e,
        other => panic!("unexpected {:?}", other),
    };
    let r = evaluate_expr(&ns, &e, 10, &arith, &numeral, &constant, &builtin);
    assert_eq!(r, Ok(list(&[4.0, 9.0])));
}

#[test]
fn list_length_mismatch_fails_when_run() {
    assert_eq!(run("[1, 2, 3] + [1, 2]").1, Err(RuntimeError::InvalidListLength));
}

#[test]
fn redeclaration_fails_when_run() {
    assert_eq!(run("x = 1.0\nx = 2.0").1, Err(RuntimeError::Redeclaration(s("x"))));
    assert_eq!(run("PI = 3").1, Err(RuntimeError::Redeclaration(s("PI"))));
    assert_eq!(run("x = 1\n{\n x = 2\n}").1, Err(RuntimeError::Redeclaration(s("x"))));
}

#[test]
fn nested_name_may_be_declared_again_after_its_block() {
    assert_eq!(run("{\n x = 1\n x\n}\nx = 2\nx"), (vec![f(1.0), f(2.0)], Ok(())));
}

#[test]
fn block_variable_is_gone_after_the_block() {
    assert_eq!(
        run("{\n y = 5\n y\n}\ny"),
        (vec![f(5.0)], Err(RuntimeError::UndefinedVariable(s("y"))))
    );
    assert_eq!(
        run("{\n g(x) = x\n}\ng(1)").1,
        Err(RuntimeError::UndefinedFunction(s("g")))
    );
}

#[test]
fn functions_apply_by_substitution() {
    assert_eq!(run("y = 3.0\nf(x) = x + x\nf(y)"), (vec![f(6.0)], Ok(())));
    assert_eq!(
        run("area(r) = PI * r ^ 2\narea(2.0)"),
        (vec![f(4.0 * std::f64::consts::PI)], Ok(()))
    );
    assert_eq!(run("h(a, b) = a - b\nh(5, 2)"), (vec![f(3.0)], Ok(())));
    assert_eq!(run("h(a) = a\nh(1, 2)").1, Err(RuntimeError::InvalidArguments(s("h"))));
    assert_eq!(run("k(1)").1, Err(RuntimeError::UndefinedFunction(s("k"))));
    assert_eq!(run("h(a) = a + z\nh(1)").1, Err(RuntimeError::UndefinedVariable(s("z"))));
}

#[test]
fn builtins_map_over_values() {
    assert_eq!(run("sin(0)\ncos([0, 0])"), (vec![f(0.0), list(&[1.0, 1.0])], Ok(())));
    assert_eq!(run("sin(1, 2)").1, Err(RuntimeError::InvalidArguments(s("sin"))));
    assert_eq!(run("TAU / PI").0, vec![f(2.0)]);
}

#[test]
fn recursion_is_bounded_by_fuel() {
    assert_eq!(run_with("r(x) = r(x)\nr(1)", 5).1, Err(RuntimeError::RecursionLimit));
}

#[test]
fn range_loop_runs_and_ends() {
    assert_eq!(
        run("from 0.0 to 3.0 as i with step 1.5 {\n i\n}\ni"),
        (vec![f(0.0), f(1.5), f(3.0)], Err(RuntimeError::UndefinedVariable(s("i"))))
    );
    assert_eq!(run("from 3 to 1 as i {\n i\n}"), (vec![], Ok(())));
    assert_eq!(
        run("from 1 to 2 as i {\n t = i\n t\n}"),
        (vec![f(1.0), f(2.0)], Ok(()))
    );
    assert_eq!(run("from [1] to 2 as i { }").1, Err(RuntimeError::ExpectedScalar));
    assert_eq!(run_with("from 0 to 1 as i with step 0 { }", 3).1, Err(RuntimeError::RecursionLimit));
}

#[test]
fn list_loop_runs_for_each_later_item() {
    // the variable takes the first item, then the body runs once per later item
    assert_eq!(run("for v in [1, 2, 3] {\n v\n}"), (vec![f(1.0), f(2.0)], Ok(())));
    assert_eq!(run("for v in [] { }").1, Err(RuntimeError::EmptyList));
    assert_eq!(run("for v in 3 { }").1, Err(RuntimeError::ExpectedList));
}

#[test]
fn destructuring_binds_in_order() {
    assert_eq!(
        run("[a, b] = [1.0, 2.0 + 3.0]\na\nb"),
        (vec![f(1.0), f(5.0)], Ok(()))
    );
    assert_eq!(run("[a, b] = [1]").1, Err(RuntimeError::InvalidListLength));
    assert_eq!(run("[a, 2] = [1, 2]").1, Err(RuntimeError::ExpectedIdentifier));
    assert_eq!(
        run("[a, b] = [1, q]\na").1,
        Err(RuntimeError::UndefinedVariable(s("q")))
    );
    assert_eq!(run("a = 1\n[a] = [2]").1, Err(RuntimeError::Redeclaration(s("a"))));
}
