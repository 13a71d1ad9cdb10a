use mathy::lexer::{Lexer, Token, TokenLocation, TokenType};
use mathy::parser::{Expr, Operator, ParseError, Parsed, Parser};

fn parse(src: &str) -> Result<Vec<Parsed>, ParseError> {
    let tokens = Lexer::new("prog".to_string(), src.to_string())
        .tokenize()
        .unwrap();
    Parser::new(tokens).parse()
}

fn lit(s: &str) -> Expr {
    Expr::FloatLiteral(s.to_string())
}

fn ident(s: &str) -> Expr {
    Expr::Ident(s.to_string())
}

fn bin(l: Expr, op: Operator, r: Expr) -> Expr {
    Expr::Expr(Box::new(l), op, Box::new(r))
}

fn printed(src: &str) -> Expr {
    let mut stmts = parse(src).unwrap();
    assert_eq!(stmts.len(), 1);
    match stmts.remove(0) {
        Parsed::PrintExpr(e) => e,
        other => panic!("unexpected {:?}", other),
    }
}

#[test]
fn multiplication_binds_tighter_than_addition() {
    assert_eq!(
        printed("2 + 3 * 4"),
        bin(lit("2.0"), Operator::Plus, bin(lit("3.0"), Operator::Multi, lit("4.0")))
    );
    assert_eq!(
        printed("2 * 3 + 4"),
        bin(bin(lit("2.0"), Operator::Multi, lit("3.0")), Operator::Plus, lit("4.0"))
    );
}

#[test]
fn power_associates_to_the_left() {
    assert_eq!(
        printed("2 ^ 3 ^ 2"),
        bin(bin(lit("2.0"), Operator::Pow, lit("3.0")), Operator::Pow, lit("2.0"))
    );
    assert_eq!(
        printed("8 - 2 - 1"),
        bin(bin(lit("8.0"), Operator::Minus, lit("2.0")), Operator::Minus, lit("1.0"))
    );
}

#[test]
fn parentheses_reset_precedence() {
    assert_eq!(
        printed("(2 + 3) * 4"),
        bin(bin(lit("2.0"), Operator::Plus, lit("3.0")), Operator::Multi, lit("4.0"))
    );
}

#[test]
fn negative_literals_and_calls_and_lists() {
    assert_eq!(printed("(-2)"), Expr::NegFloatLiteral("2.0".to_string()));
    assert_eq!(
        printed("f(1, x)"),
        Expr::FunctionCall("f".to_string(), vec![lit("1.0"), ident("x")])
    );
    assert_eq!(
        printed("[1, [2, 3], x / 2]"),
        Expr::List(vec![
            lit("1.0"),
            Expr::List(vec![lit("2.0"), lit("3.0")]),
            bin(ident("x"), Operator::Div, lit("2.0")),
        ])
    );
    assert_eq!(printed("[]"), Expr::List(vec![]));
}

#[test]
fn minus_needs_a_literal() {
    match parse("(-x)") {
        Err(ParseError::MissingLiteral(TokenLocation(_, col, row))) => {
            assert_eq!((col, row), (2, 1));
        }
        other => panic!("unexpected {:?}", other),
    }
}

#[test]
fn declarations_and_function_declarations() {
    let stmts = parse("x = 1 + 2\nf(a, b) = a * b\nf(x, 2)").unwrap();
    assert_eq!(stmts.len(), 3);
    match &stmts[0] {
        Parsed::Declaration(Token(TokenType::Ident(n), _), e) => {
            assert_eq!(n, "x");
            assert_eq!(*e, bin(lit("1.0"), Operator::Plus, lit("2.0")));
        }
        other => panic!("unexpected {:?}", other),
    }
    match &stmts[1] {
        Parsed::FunctionDecleration(Token(TokenType::Ident(n), _), params, body) => {
            assert_eq!(n, "f");
            let names: Vec<TokenType> = params.iter().map(|t| t.0.clone()).collect();
            assert_eq!(
                names,
                vec![TokenType::Ident("a".to_string()), TokenType::Ident("b".to_string())]
            );
            assert_eq!(*body, bin(ident("a"), Operator::Multi, ident("b")));
        }
        other => panic!("unexpected {:?}", other),
    }
    match &stmts[2] {
        Parsed::PrintExpr(e) => assert_eq!(
            *e,
            Expr::FunctionCall("f".to_string(), vec![ident("x"), lit("2.0")])
        ),
        other => panic!("unexpected {:?}", other),
    }
}

#[test]
fn range_loop_with_step() {
    let stmts = parse("from 0.0 to 3.0 as i with step 1.5 { print i }").unwrap();
    assert_eq!(stmts.len(), 1);
    match &stmts[0] {
        Parsed::FromLoop(min, max, var, step, body) => {
            assert_eq!(*min, lit("0.0"));
            assert_eq!(*max, lit("3.0"));
            assert_eq!(*var, ident("i"));
            assert_eq!(*step, lit("1.5"));
            assert_eq!(body.len(), 2);
            assert!(matches!(&body[1], Parsed::PrintExpr(e) if *e == ident("i")));
        }
        other => panic!("unexpected {:?}", other),
    }
}

#[test]
fn range_loop_step_defaults_to_one() {
    let stmts = parse("from 1 to 2 as k {\n k\n}").unwrap();
    match &stmts[0] {
        Parsed::FromLoop(_, _, _, step, body) => {
            assert_eq!(*step, lit("1.0"));
            assert_eq!(body.len(), 1);
        }
        other => panic!("unexpected {:?}", other),
    }
}

#[test]
fn range_loop_keyword_errors() {
    match parse("from 1 x") {
        Err(ParseError::Expected(w, _)) => assert_eq!(w, "to"),
        other => panic!("unexpected {:?}", other),
    }
    match parse("from 1 in 2") {
        Err(ParseError::ExpectedGot(w, got, _)) => {
            assert_eq!(w, "to");
            assert_eq!(got, "in");
        }
        other => panic!("unexpected {:?}", other),
    }
    match parse("from 1 to 2 as i with 3 { }") {
        Err(ParseError::ExpectedGotToken(w, got, _)) => {
            assert_eq!(w, "step");
            assert_eq!(got, TokenType::FloatLiteral("3.0".to_string()));
        }
        other => panic!("unexpected {:?}", other),
    }
    match parse("from 1 to 2 as i with in 3 { }") {
        Err(ParseError::ExpectedGot(w, got, _)) => {
            assert_eq!(w, "step");
            assert_eq!(got, "in");
        }
        other => panic!("unexpected {:?}", other),
    }
}

#[test]
fn list_loop_and_block() {
    let stmts = parse("for v in [1, 2] {\n v\n}\n{\n y = 2\n}").unwrap();
    assert_eq!(stmts.len(), 2);
    match &stmts[0] {
        Parsed::ForLoop(var, list, body) => {
            assert_eq!(*var, ident("v"));
            assert_eq!(*list, Expr::List(vec![lit("1.0"), lit("2.0")]));
            assert_eq!(body.len(), 1);
        }
        other => panic!("unexpected {:?}", other),
    }
    assert!(matches!(&stmts[1], Parsed::Block(b) if b.len() == 1));
    match parse("for v to [1] { }") {
        Err(ParseError::ExpectedGot(w, got, _)) => {
            assert_eq!(w, "in");
            assert_eq!(got, "to");
        }
        other => panic!("unexpected {:?}", other),
    }
}

#[test]
fn destructuring_assignment() {
    let stmts = parse("[a, b] = [1.0, 2.0 + 3.0]").unwrap();
    assert_eq!(stmts.len(), 1);
    match &stmts[0] {
        Parsed::Destructuring(l, r) => {
            assert_eq!(*l, Expr::List(vec![ident("a"), ident("b")]));
            assert_eq!(
                *r,
                Expr::List(vec![lit("1.0"), bin(lit("2.0"), Operator::Plus, lit("3.0"))])
            );
        }
        other => panic!("unexpected {:?}", other),
    }
    assert!(matches!(&parse("[1, 2]\n").unwrap()[0], Parsed::PrintExpr(_)));
}

#[test]
fn comments_run_to_the_end_of_the_line() {
    let stmts = parse("# a comment = 3 (\n1\n{ # inside\n}").unwrap();
    assert_eq!(stmts.len(), 2);
    assert_eq!(printed("1 # trailing"), lit("1.0"));
}

#[test]
fn statement_start_errors() {
    match parse("to") {
        Err(ParseError::UnexpectedKeyword(k, _)) => assert_eq!(k, "to"),
        other => panic!("unexpected {:?}", other),
    }
    match parse("* 2") {
        Err(ParseError::UnexpectedToken(t, TokenLocation(_, col, row))) => {
            assert_eq!(t, TokenType::Multi);
            assert_eq!((col, row), (1, 1));
        }
        other => panic!("unexpected {:?}", other),
    }
    assert!(matches!(parse("}"), Err(ParseError::UnexpectedToken(TokenType::RightBrace, _))));
    assert!(matches!(parse("1 + $"), Err(ParseError::UnexpectedToken(TokenType::Unknown('$'), _))));
}

#[test]
fn running_out_of_tokens() {
    assert!(matches!(parse("(1 + 2"), Err(ParseError::EOF)));
    assert!(matches!(parse("f(1, 2"), Err(ParseError::EOF)));
    assert!(matches!(parse("x ="), Err(ParseError::EOF)));
    assert!(matches!(parse("{ 1"), Err(ParseError::EOF)));
    assert!(parse("").unwrap().is_empty());
}

#[test]
fn block_must_open_with_a_brace() {
    match parse("from 1 to 2 as i x }") {
        Err(ParseError::ExpectedGotToken(w, got, _)) => {
            assert_eq!(w, "{");
            assert_eq!(got, TokenType::Ident("x".to_string()));
        }
        other => panic!("unexpected {:?}", other),
    }
    assert!(matches!(parse("for v in [1] 2"), Err(ParseError::ExpectedGotToken(_, _, _))));
}

#[test]
fn function_declaration_needs_names_and_equals() {
    match parse("f(x, 2) = x") {
        Err(ParseError::UnexpectedToken(t, _)) => assert_eq!(t, TokenType::FloatLiteral("2.0".to_string())),
        other => panic!("unexpected {:?}", other),
    }
    match parse("f(x) + 1 = 3") {
        Err(ParseError::ExpectedGotToken(w, got, _)) => {
            assert_eq!(w, "=");
            assert_eq!(got, TokenType::Plus);
        }
        other => panic!("unexpected {:?}", other),
    }
}

#[test]
fn destructuring_needs_equals() {
    match parse("[a] 2 = [1]") {
        Err(ParseError::ExpectedGotToken(w, got, _)) => {
            assert_eq!(w, "=");
            assert_eq!(got, TokenType::FloatLiteral("2.0".to_string()));
        }
        other => panic!("unexpected {:?}", other),
    }
}
