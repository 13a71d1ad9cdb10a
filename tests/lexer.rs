use mathy::lexer::{LexError, Lexer, Token, TokenLocation, TokenType};

fn tokens(src: &str) -> Vec<Token> {
    Lexer::new("prog".to_string(), src.to_string())
        .tokenize()
        .unwrap()
}

fn kinds(src: &str) -> Vec<TokenType> {
    tokens(src).into_iter().map(|t| t.exclude_loc()).collect()
}

fn lit(s: &str) -> TokenType {
    TokenType::FloatLiteral(s.to_string())
}

#[test]
fn numerals_are_normalized() {
    assert_eq!(kinds(".5"), vec![lit("0.5")]);
    assert_eq!(kinds("5."), vec![lit("5.0")]);
    assert_eq!(kinds("5_000"), vec![lit("5000.0")]);
    assert_eq!(kinds("1_2.3_4"), vec![lit("12.34")]);
    assert_eq!(kinds("42"), vec![lit("42.0")]);
    assert_eq!(kinds("."), vec![lit("0.0")]);
    assert_eq!(kinds("7_._"), vec![lit("7.0")]);
}

#[test]
fn second_decimal_point_fails() {
    let r = Lexer::new("prog".to_string(), "x = 1.2.3".to_string()).tokenize();
    match r {
        Err(LexError::MultiplePeriods(TokenLocation(file, col, row))) => {
            assert_eq!(file, "prog");
            assert_eq!(col, 5);
            assert_eq!(row, 1);
        }
        other => panic!("unexpected {:?}", other),
    }
    assert!(Lexer::new("f".to_string(), "..".to_string()).tokenize().is_err());
}

#[test]
fn keywords_and_identifiers() {
    assert_eq!(
        kinds("from to as with step for in fromage _x1"),
        vec![
            TokenType::Keyword("from".to_string()),
            TokenType::Keyword("to".to_string()),
            TokenType::Keyword("as".to_string()),
            TokenType::Keyword("with".to_string()),
            TokenType::Keyword("step".to_string()),
            TokenType::Keyword("for".to_string()),
            TokenType::Keyword("in".to_string()),
            TokenType::Ident("fromage".to_string()),
            TokenType::Ident("_x1".to_string()),
        ]
    );
}

#[test]
fn symbols_and_unknown_characters() {
    assert_eq!(
        kinds("=(){}[],+-*/^#$"),
        vec![
            TokenType::Equals,
            TokenType::LeftParen,
            TokenType::RightParen,
            TokenType::LeftBrace,
            TokenType::RightBrace,
            TokenType::LeftBracket,
            TokenType::RightBracket,
            TokenType::Comma,
            TokenType::Plus,
            TokenType::Minus,
            TokenType::Multi,
            TokenType::Div,
            TokenType::Circumflex,
            TokenType::Comment,
            TokenType::Unknown('$'),
        ]
    );
}

#[test]
fn whitespace_is_dropped_but_newlines_stay() {
    assert_eq!(
        kinds(" a\t b \n c"),
        vec![
            TokenType::Ident("a".to_string()),
            TokenType::Ident("b".to_string()),
            TokenType::Newline,
            TokenType::Ident("c".to_string()),
        ]
    );
    assert_eq!(kinds(""), vec![]);
}

#[test]
fn locations_count_columns_and_rows() {
    let ts = tokens("x = 1\ny2 = 3_0");
    let locs: Vec<(u32, u32)> = ts.iter().map(|t| (t.1 .1, t.1 .2)).collect();
    // The column starts at 1 on the first row and at 0 after a newline.
    assert_eq!(
        locs,
        vec![(1, 1), (3, 1), (5, 1), (6, 1), (0, 2), (3, 2), (5, 2)]
    );
    assert!(ts.iter().all(|t| t.1 .0 == "prog"));
}
