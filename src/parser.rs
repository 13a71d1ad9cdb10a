//! Builds statements and expression trees out of tokens, by recursive descent
//! with precedence climbing for binary operators.
use vstd::prelude::*;

use crate::lexer::{Loc, Tok, Token, TokenKind, TokenLocation, TokenType};

verus! {

broadcast use {vstd::seq::group_seq_axioms, vstd::std_specs::vec::group_vec_axioms};

#[derive(Debug, Clone, Copy, PartialEq, Eq, Structural)]
pub enum Operator {
    Plus,
    Minus,
    Multi,
    Div,
    Pow,
}

#[derive(Debug, PartialEq)]
pub enum Expr {
    FloatLiteral(String),
    NegFloatLiteral(String),
    Ident(String),
    FunctionCall(String, Vec<Expr>),
    Expr(Box<Expr>, Operator, Box<Expr>),
    List(Vec<Expr>),
}

/// The model of an [`Expr`].
pub enum ExprV {
    FloatLiteral(Seq<char>),
    NegFloatLiteral(Seq<char>),
    Ident(Seq<char>),
    FunctionCall(Seq<char>, Seq<ExprV>),
    Binary(Box<ExprV>, Operator, Box<ExprV>),
    List(Seq<ExprV>),
}

pub open spec fn expr_view(e: Expr) -> ExprV
    decreases e,
{
    match e {
        Expr::FloatLiteral(s) => ExprV::FloatLiteral(s@),
        Expr::NegFloatLiteral(s) => ExprV::NegFloatLiteral(s@),
        Expr::Ident(s) => ExprV::Ident(s@),
        Expr::FunctionCall(n, args) => ExprV::FunctionCall(n@, exprs_view(args@)),
        Expr::Expr(l, op, r) => ExprV::Binary(Box::new(expr_view(*l)), op, Box::new(expr_view(*r))),
        Expr::List(items) => ExprV::List(exprs_view(items@)),
    }
}

pub open spec fn exprs_view(s: Seq<Expr>) -> Seq<ExprV>
    decreases s,
{
    if s.len() == 0 {
        Seq::empty()
    } else {
        exprs_view(s.drop_last()).push(expr_view(s.last()))
    }
}

impl View for Expr {
    type V = ExprV;

    open spec fn view(&self) -> ExprV {
        expr_view(*self)
    }
}

#[derive(Debug)]
pub enum Parsed {
    FunctionDecleration(Token, Vec<Token>, Expr),
    FromLoop(Expr, Expr, Expr, Expr, Vec<Parsed>),
    ForLoop(Expr, Expr, Vec<Parsed>),
    Block(Vec<Parsed>),
    Declaration(Token, Expr),
    Destructuring(Expr, Expr),
    PrintExpr(Expr),
}

/// The model of a [`Parsed`] statement.
pub enum Stmt {
    FunctionDecleration(Tok, Seq<Tok>, ExprV),
    FromLoop(ExprV, ExprV, ExprV, ExprV, Seq<Stmt>),
    ForLoop(ExprV, ExprV, Seq<Stmt>),
    Block(Seq<Stmt>),
    Declaration(Tok, ExprV),
    Destructuring(ExprV, ExprV),
    PrintExpr(ExprV),
}

pub open spec fn stmt_view(p: Parsed) -> Stmt
    decreases p,
{
    match p {
        Parsed::FunctionDecleration(name, params, body) => Stmt::FunctionDecleration(
            name@,
            params@.map_values(|t: Token| t@),
            body@,
        ),
        Parsed::FromLoop(min, max, var, step, body) => Stmt::FromLoop(
            min@,
            max@,
            var@,
            step@,
            stmts_view(body@),
        ),
        Parsed::ForLoop(var, list, body) => Stmt::ForLoop(var@, list@, stmts_view(body@)),
        Parsed::Block(body) => Stmt::Block(stmts_view(body@)),
        Parsed::Declaration(name, e) => Stmt::Declaration(name@, e@),
        Parsed::Destructuring(l, r) => Stmt::Destructuring(l@, r@),
        Parsed::PrintExpr(e) => Stmt::PrintExpr(e@),
    }
}

pub open spec fn stmts_view(s: Seq<Parsed>) -> Seq<Stmt>
    decreases s,
{
    if s.len() == 0 {
        Seq::empty()
    } else {
        stmts_view(s.drop_last()).push(stmt_view(s.last()))
    }
}

impl View for Parsed {
    type V = Stmt;

    open spec fn view(&self) -> Stmt {
        stmt_view(*self)
    }
}

#[derive(Debug)]
pub enum ParseError {
    EOF,
    MissingLiteral(TokenLocation),
    UnexpectedToken(TokenType, TokenLocation),
    UnexpectedKeyword(String, TokenLocation),
    Expected(String, TokenLocation),
    ExpectedGot(String, String, TokenLocation),
    ExpectedGotToken(String, TokenType, TokenLocation),
}

/// The model of a [`ParseError`].
pub enum ParseFault {
    EOF,
    MissingLiteral(Loc),
    UnexpectedToken(TokenKind, Loc),
    UnexpectedKeyword(Seq<char>, Loc),
    Expected(Seq<char>, Loc),
    ExpectedGot(Seq<char>, Seq<char>, Loc),
    ExpectedGotToken(Seq<char>, TokenKind, Loc),
}

impl View for ParseError {
    type V = ParseFault;

    open spec fn view(&self) -> ParseFault {
        match self {
            ParseError::EOF => ParseFault::EOF,
            ParseError::MissingLiteral(l) => ParseFault::MissingLiteral(l@),
            ParseError::UnexpectedToken(t, l) => ParseFault::UnexpectedToken(t@, l@),
            ParseError::UnexpectedKeyword(k, l) => ParseFault::UnexpectedKeyword(k@, l@),
            ParseError::Expected(w, l) => ParseFault::Expected(w@, l@),
            ParseError::ExpectedGot(w, g, l) => ParseFault::ExpectedGot(w@, g@, l@),
            ParseError::ExpectedGotToken(w, g, l) => ParseFault::ExpectedGotToken(w@, g@, l@),
        }
    }
}

// ---------------------------------------------------------------------------
// The grammar, as functions on token sequences. Each returns what it parsed and
// the index just past it.

pub open spec fn op_of(k: TokenKind) -> Option<Operator> {
    match k {
        TokenKind::Plus => Some(Operator::Plus),
        TokenKind::Minus => Some(Operator::Minus),
        TokenKind::Multi => Some(Operator::Multi),
        TokenKind::Div => Some(Operator::Div),
        TokenKind::Circumflex => Some(Operator::Pow),
        _ => None,
    }
}

/// Additive operators bind loosest, then multiplicative, then power.
pub open spec fn prec(op: Operator) -> nat {
    match op {
        Operator::Plus | Operator::Minus => 1,
        Operator::Multi | Operator::Div => 2,
        Operator::Pow => 3,
    }
}

/// Consumes the token at `j`, whatever it is.
pub open spec fn skip(ts: Seq<Tok>, j: int) -> Result<int, ParseFault> {
    if 0 <= j < ts.len() {
        Ok(j + 1)
    } else {
        Err(ParseFault::EOF)
    }
}

/// An operand: a literal, a negative literal, an identifier, a call, a
/// parenthesized expression or a list.
pub open spec fn primary(ts: Seq<Tok>, i: int) -> Result<(ExprV, int), ParseFault>
    decreases ts.len() - i, 1int,
{
    if i < 0 || i >= ts.len() {
        Err(ParseFault::EOF)
    } else {
        let t = ts[i];
        match t.kind {
            TokenKind::FloatLiteral(v) => Ok((ExprV::FloatLiteral(v), i + 1)),
            TokenKind::Ident(name) => {
                if i + 1 < ts.len() && ts[i + 1].kind is LeftParen {
                    match items(ts, i + 2, TokenKind::RightParen) {
                        Ok((args, j)) => match skip(ts, j) {
                            Ok(k) => Ok((ExprV::FunctionCall(name, args), k)),
                            Err(e) => Err(e),
                        },
                        Err(e) => Err(e),
                    }
                } else {
                    Ok((ExprV::Ident(name), i + 1))
                }
            },
            TokenKind::Minus => {
                if i + 1 < ts.len() && ts[i + 1].kind is FloatLiteral {
                    Ok((ExprV::NegFloatLiteral(ts[i + 1].kind->FloatLiteral_0), i + 2))
                } else {
                    Err(ParseFault::MissingLiteral(t.loc))
                }
            },
            TokenKind::LeftParen => match expr(ts, i + 1, 1) {
                Ok((e, j)) => match skip(ts, j) {
                    Ok(k) => Ok((e, k)),
                    Err(e) => Err(e),
                },
                Err(e) => Err(e),
            },
            TokenKind::LeftBracket => match items(ts, i + 1, TokenKind::RightBracket) {
                Ok((elems, j)) => match skip(ts, j) {
                    Ok(k) => Ok((ExprV::List(elems), k)),
                    Err(e) => Err(e),
                },
                Err(e) => Err(e),
            },
            _ => Err(ParseFault::UnexpectedToken(t.kind, t.loc)),
        }
    }
}

/// Expressions up to the token `close` (or the end), each but the first after
/// an optional comma. The index returned is that of `close`, or the end.
pub open spec fn items(ts: Seq<Tok>, j: int, close: TokenKind) -> Result<
    (Seq<ExprV>, int),
    ParseFault,
>
    decreases ts.len() - j, 3int,
{
    if 0 <= j < ts.len() && ts[j].kind != close {
        let j1 = if ts[j].kind is Comma {
            j + 1
        } else {
            j
        };
        match expr(ts, j1, 1) {
            Ok((e, k)) => if j < k <= ts.len() {
                match items(ts, k, close) {
                    Ok((rest, end)) => Ok((seq![e] + rest, end)),
                    Err(err) => Err(err),
                }
            } else {
                Err(ParseFault::EOF)
            },
            Err(err) => Err(err),
        }
    } else {
        Ok((Seq::empty(), j))
    }
}

/// An expression whose binary operators all have precedence `min` or more.
pub open spec fn expr(ts: Seq<Tok>, i: int, min: nat) -> Result<(ExprV, int), ParseFault>
    decreases ts.len() - i, 2int,
{
    match primary(ts, i) {
        Ok((left, k)) => if i < k <= ts.len() {
            climb(ts, k, left, min)
        } else {
            Err(ParseFault::EOF)
        },
        Err(e) => Err(e),
    }
}

/// Extends `left` with operators of precedence `min` or more, each right
/// operand holding only operators that bind tighter: all operators associate
/// to the left.
pub open spec fn climb(ts: Seq<Tok>, k: int, left: ExprV, min: nat) -> Result<
    (ExprV, int),
    ParseFault,
>
    decreases ts.len() - k, 0int,
{
    if k < 0 || k >= ts.len() {
        Ok((left, k))
    } else {
        match op_of(ts[k].kind) {
            None => Ok((left, k)),
            Some(op) => if prec(op) < min {
                Ok((left, k))
            } else {
                match expr(ts, k + 1, prec(op) + 1) {
                    Ok((right, k2)) => if k < k2 <= ts.len() {
                        climb(ts, k2, ExprV::Binary(Box::new(left), op, Box::new(right)), min)
                    } else {
                        Err(ParseFault::EOF)
                    },
                    Err(e) => Err(e),
                }
            },
        }
    }
}

pub open spec fn kw_from() -> Seq<char> {
    seq!['f', 'r', 'o', 'm']
}

pub open spec fn kw_to() -> Seq<char> {
    seq!['t', 'o']
}

pub open spec fn kw_as() -> Seq<char> {
    seq!['a', 's']
}

pub open spec fn kw_with() -> Seq<char> {
    seq!['w', 'i', 't', 'h']
}

pub open spec fn kw_step() -> Seq<char> {
    seq!['s', 't', 'e', 'p']
}

pub open spec fn kw_for() -> Seq<char> {
    seq!['f', 'o', 'r']
}

pub open spec fn kw_in() -> Seq<char> {
    seq!['i', 'n']
}

/// Whether an `=` follows index `i` on the same line.
pub open spec fn line_has_equals(ts: Seq<Tok>, i: int) -> bool {
    exists|j: int|
        i <= j < ts.len() && #[trigger] ts[j].kind is Equals && forall|m: int|
            i <= m < j ==> !(#[trigger] ts[m].kind is Newline)
}

/// The index of the first newline at or after `i`, or the end.
pub open spec fn line_end(ts: Seq<Tok>, i: int) -> int
    decreases ts.len() - i,
{
    if 0 <= i < ts.len() && !(ts[i].kind is Newline) {
        line_end(ts, i + 1)
    } else {
        i
    }
}

/// The parameter tokens before the first `)` at or after `j`, and the index
/// of that `)` (or the end): identifiers, separated by commas; any other token
/// is refused.
pub open spec fn fn_params(ts: Seq<Tok>, j: int) -> Result<(Seq<Tok>, int), ParseFault>
    decreases ts.len() - j,
{
    if 0 <= j < ts.len() && !(ts[j].kind is RightParen) {
        if ts[j].kind is Ident || ts[j].kind is Comma {
            match fn_params(ts, j + 1) {
                Ok((ps, end)) => if ts[j].kind is Ident {
                    Ok((seq![ts[j]] + ps, end))
                } else {
                    Ok((ps, end))
                },
                Err(e) => Err(e),
            }
        } else {
            Err(ParseFault::UnexpectedToken(ts[j].kind, ts[j].loc))
        }
    } else {
        Ok((Seq::empty(), j))
    }
}

/// The text of the symbol that [`expect_symbol`] asks for.
pub open spec fn symbol_text(brace: bool) -> Seq<char> {
    if brace {
        seq!['{']
    } else {
        seq!['=']
    }
}

/// Consumes a `{` (where `brace`) or an `=` at index `k`.
pub open spec fn expect_symbol(ts: Seq<Tok>, k: int, brace: bool) -> Result<int, ParseFault> {
    if k < 0 || k >= ts.len() {
        Err(ParseFault::EOF)
    } else if (brace && ts[k].kind is LeftBrace) || (!brace && ts[k].kind is Equals) {
        Ok(k + 1)
    } else {
        Err(ParseFault::ExpectedGotToken(symbol_text(brace), ts[k].kind, ts[k].loc))
    }
}

/// Consumes the keyword `w` at index `k`.
pub open spec fn expect_keyword(ts: Seq<Tok>, k: int, w: Seq<char>) -> Result<int, ParseFault> {
    if k < 0 || k >= ts.len() {
        Err(ParseFault::EOF)
    } else {
        match ts[k].kind {
            TokenKind::Keyword(got) => if got == w {
                Ok(k + 1)
            } else {
                Err(ParseFault::ExpectedGot(w, got, ts[k].loc))
            },
            _ => Err(ParseFault::Expected(w, ts[k].loc)),
        }
    }
}

/// The optional `with step <expr>` clause of a range loop; the step is `1.0`
/// where it is absent.
pub open spec fn step_clause(ts: Seq<Tok>, k: int) -> Result<(ExprV, int), ParseFault> {
    if k < 0 || k >= ts.len() {
        Err(ParseFault::EOF)
    } else if ts[k].kind == TokenKind::Keyword(kw_with()) {
        if k + 1 >= ts.len() {
            Err(ParseFault::EOF)
        } else {
            let t = ts[k + 1];
            match t.kind {
                TokenKind::Keyword(w) => if w == kw_step() {
                    expr(ts, k + 2, 1)
                } else {
                    Err(ParseFault::ExpectedGot(kw_step(), w, t.loc))
                },
                _ => Err(ParseFault::ExpectedGotToken(kw_step(), t.kind, t.loc)),
            }
        }
    } else {
        Ok((ExprV::FloatLiteral(seq!['1', '.', '0']), k))
    }
}

/// `name = <expr>`, the name at `i`.
pub open spec fn declaration(ts: Seq<Tok>, i: int) -> Result<(Option<Stmt>, int), ParseFault> {
    match expr(ts, i + 2, 1) {
        Ok((e, k)) => Ok((Some(Stmt::Declaration(ts[i], e)), k)),
        Err(e) => Err(e),
    }
}

/// `name(param, ...) = <expr>`, the name at `i`.
pub open spec fn fn_declaration(ts: Seq<Tok>, i: int) -> Result<(Option<Stmt>, int), ParseFault> {
    match fn_params(ts, i + 2) {
        Err(e) => Err(e),
        Ok((params, j)) => match skip(ts, j) {
            Err(e) => Err(e),
            Ok(j1) => match expect_symbol(ts, j1, false) {
                Err(e) => Err(e),
                Ok(j2) => match expr(ts, j2, 1) {
                    Ok((body, k)) => Ok((Some(Stmt::FunctionDecleration(ts[i], params, body)), k)),
                    Err(e) => Err(e),
                },
            },
        },
    }
}

pub open spec fn print_stmt(ts: Seq<Tok>, i: int) -> Result<(Option<Stmt>, int), ParseFault> {
    match expr(ts, i, 1) {
        Ok((e, k)) => Ok((Some(Stmt::PrintExpr(e)), k)),
        Err(e) => Err(e),
    }
}

/// `[names] = [values]`.
pub open spec fn destructuring(ts: Seq<Tok>, i: int) -> Result<(Option<Stmt>, int), ParseFault> {
    match expr(ts, i, 1) {
        Ok((left, k)) => match expect_symbol(ts, k, false) {
            Ok(k1) => match expr(ts, k1, 1) {
                Ok((right, k2)) => Ok((Some(Stmt::Destructuring(left, right)), k2)),
                Err(e) => Err(e),
            },
            Err(e) => Err(e),
        },
        Err(e) => Err(e),
    }
}

/// Statements from `i` up to the end or, in a block, up to a `}`.
pub open spec fn stmts(ts: Seq<Tok>, i: int, in_block: bool) -> Result<(Seq<Stmt>, int), ParseFault>
    decreases ts.len() - i, 3int,
{
    if 0 <= i < ts.len() && !(in_block && ts[i].kind is RightBrace) {
        match stmt(ts, i) {
            Ok((s, k)) => if i < k <= ts.len() {
                match stmts(ts, k, in_block) {
                    Ok((rest, end)) => Ok(
                        (
                            match s {
                                Some(st) => seq![st] + rest,
                                None => rest,
                            },
                            end,
                        ),
                    ),
                    Err(e) => Err(e),
                }
            } else {
                Err(ParseFault::EOF)
            },
            Err(e) => Err(e),
        }
    } else {
        Ok((Seq::empty(), i))
    }
}

/// One statement at `i`, chosen by its first tokens; comments and newlines
/// give none.
pub open spec fn stmt(ts: Seq<Tok>, i: int) -> Result<(Option<Stmt>, int), ParseFault>
    decreases ts.len() - i, 2int,
{
    if i < 0 || i >= ts.len() {
        Err(ParseFault::EOF)
    } else {
        let t = ts[i];
        match t.kind {
            TokenKind::Ident(_) => if i + 1 < ts.len() && ts[i + 1].kind is Equals {
                declaration(ts, i)
            } else if i + 1 < ts.len() && ts[i + 1].kind is LeftParen && line_has_equals(ts, i) {
                fn_declaration(ts, i)
            } else {
                print_stmt(ts, i)
            },
            TokenKind::Keyword(w) => if w == kw_from() {
                from_loop(ts, i)
            } else if w == kw_for() {
                for_loop(ts, i)
            } else {
                Err(ParseFault::UnexpectedKeyword(w, t.loc))
            },
            TokenKind::LeftBracket => if line_has_equals(ts, i) {
                destructuring(ts, i)
            } else {
                print_stmt(ts, i)
            },
            TokenKind::FloatLiteral(_) | TokenKind::LeftParen => print_stmt(ts, i),
            TokenKind::Comment => Ok((None, line_end(ts, i))),
            TokenKind::Newline => Ok((None, i + 1)),
            TokenKind::LeftBrace => match block(ts, i) {
                Ok((b, k)) => Ok((Some(Stmt::Block(b)), k)),
                Err(e) => Err(e),
            },
            _ => Err(ParseFault::UnexpectedToken(t.kind, t.loc)),
        }
    }
}

/// `{ <statements> }`.
pub open spec fn block(ts: Seq<Tok>, i: int) -> Result<(Seq<Stmt>, int), ParseFault>
    decreases ts.len() - i, 1int,
{
    if i < 0 || i >= ts.len() {
        Err(ParseFault::EOF)
    } else if !(ts[i].kind is LeftBrace) {
        Err(ParseFault::ExpectedGotToken(symbol_text(true), ts[i].kind, ts[i].loc))
    } else {
        match stmts(ts, i + 1, true) {
            Ok((b, j)) => match skip(ts, j) {
                Ok(k) => Ok((b, k)),
                Err(e) => Err(e),
            },
            Err(e) => Err(e),
        }
    }
}

/// `from <expr> to <expr> as <ident> [with step <expr>] { <statements> }`.
pub open spec fn from_loop(ts: Seq<Tok>, i: int) -> Result<(Option<Stmt>, int), ParseFault>
    decreases ts.len() - i, 1int,
    via from_loop_decreases
{
    match expr(ts, i + 1, 1) {
        Err(e) => Err(e),
        Ok((min, k1)) => match expect_keyword(ts, k1, kw_to()) {
            Err(e) => Err(e),
            Ok(k2) => match expr(ts, k2, 1) {
                Err(e) => Err(e),
                Ok((max, k3)) => match expect_keyword(ts, k3, kw_as()) {
                    Err(e) => Err(e),
                    Ok(k4) => match expr(ts, k4, 1) {
                        Err(e) => Err(e),
                        Ok((var, k5)) => match step_clause(ts, k5) {
                            Err(e) => Err(e),
                            Ok((step, k6)) => match block(ts, k6) {
                                Err(e) => Err(e),
                                Ok((body, k7)) => Ok(
                                    (Some(Stmt::FromLoop(min, max, var, step, body)), k7),
                                ),
                            },
                        },
                    },
                },
            },
        },
    }
}

#[via_fn]
proof fn from_loop_decreases(ts: Seq<Tok>, i: int) {
    lemma_expr_bounds(ts, i + 1, 1);
    if let Ok((_, k1)) = expr(ts, i + 1, 1) {
        lemma_expr_bounds(ts, k1 + 1, 1);
        if let Ok((_, k3)) = expr(ts, k1 + 1, 1) {
            lemma_expr_bounds(ts, k3 + 1, 1);
            if let Ok((_, k5)) = expr(ts, k3 + 1, 1) {
                lemma_expr_bounds(ts, k5 + 2, 1);
            }
        }
    }
}

/// `for <ident> in <expr> { <statements> }`.
pub open spec fn for_loop(ts: Seq<Tok>, i: int) -> Result<(Option<Stmt>, int), ParseFault>
    decreases ts.len() - i, 1int,
    via for_loop_decreases
{
    match expr(ts, i + 1, 1) {
        Err(e) => Err(e),
        Ok((var, k1)) => match expect_keyword(ts, k1, kw_in()) {
            Err(e) => Err(e),
            Ok(k2) => match expr(ts, k2, 1) {
                Err(e) => Err(e),
                Ok((list, k3)) => match block(ts, k3) {
                    Err(e) => Err(e),
                    Ok((body, k4)) => Ok((Some(Stmt::ForLoop(var, list, body)), k4)),
                },
            },
        },
    }
}

#[via_fn]
proof fn for_loop_decreases(ts: Seq<Tok>, i: int) {
    lemma_expr_bounds(ts, i + 1, 1);
    if let Ok((_, k1)) = expr(ts, i + 1, 1) {
        lemma_expr_bounds(ts, k1 + 1, 1);
    }
}

/// The statements of a whole token sequence.
pub open spec fn program(ts: Seq<Tok>) -> Result<Seq<Stmt>, ParseFault> {
    match stmts(ts, 0, false) {
        Ok((ss, _)) => Ok(ss),
        Err(e) => Err(e),
    }
}

pub proof fn lemma_climb_bounds(ts: Seq<Tok>, k: int, left: ExprV, min: nat)
    requires
        0 <= k <= ts.len(),
    ensures
        climb(ts, k, left, min) is Ok ==> k <= climb(ts, k, left, min)->Ok_0.1 <= ts.len(),
    decreases ts.len() - k,
{
    if k < ts.len() {
        if let Some(op) = op_of(ts[k].kind) {
            if prec(op) >= min {
                if let Ok((right, k2)) = expr(ts, k + 1, prec(op) + 1) {
                    if k < k2 <= ts.len() {
                        lemma_climb_bounds(
                            ts,
                            k2,
                            ExprV::Binary(Box::new(left), op, Box::new(right)),
                            min,
                        );
                    }
                }
            }
        }
    }
}

pub proof fn lemma_expr_bounds(ts: Seq<Tok>, i: int, min: nat)
    ensures
        expr(ts, i, min) is Ok ==> i < expr(ts, i, min)->Ok_0.1 <= ts.len(),
{
    if let Ok((left, k)) = primary(ts, i) {
        if i < k <= ts.len() {
            lemma_climb_bounds(ts, k, left, min);
        }
    }
}

/// The items of `p` in front of those of `r`.
pub open spec fn join<A>(p: Seq<A>, r: Result<(Seq<A>, int), ParseFault>) -> Result<
    (Seq<A>, int),
    ParseFault,
> {
    match r {
        Ok((rest, end)) => Ok((p + rest, end)),
        Err(e) => Err(e),
    }
}

proof fn lemma_join_cons<A>(p: Seq<A>, a: A, r: Result<(Seq<A>, int), ParseFault>)
    ensures
        join(
            p,
            match r {
                Ok((rest, end)) => Ok((seq![a] + rest, end)),
                Err(e) => Err(e),
            },
        ) == join(p.push(a), r),
{
    if let Ok((rest, end)) = r {
        assert(p + (seq![a] + rest) =~= p.push(a) + rest);
    }
}

proof fn lemma_join_empty<A>(p: Seq<A>, end: int)
    ensures
        join(p, Ok((Seq::<A>::empty(), end))) == Ok::<(Seq<A>, int), ParseFault>((p, end)),
{
    assert(p + Seq::<A>::empty() =~= p);
}

pub proof fn lemma_exprs_view_push(s: Seq<Expr>, e: Expr)
    ensures
        exprs_view(s.push(e)) == exprs_view(s).push(e@),
{
    assert(s.push(e).drop_last() =~= s);
}

/// The model of what an expression parse returned.
pub open spec fn expr_outcome(r: Result<(Expr, usize), ParseError>) -> Result<(ExprV, int), ParseFault> {
    match r {
        Ok((e, k)) => Ok((e@, k as int)),
        Err(e) => Err(e@),
    }
}

/// The model of what a statement parse returned.
pub open spec fn stmt_outcome(r: Result<(Option<Parsed>, usize), ParseError>) -> Result<
    (Option<Stmt>, int),
    ParseFault,
> {
    match r {
        Ok((Some(p), k)) => Ok((Some(p@), k as int)),
        Ok((None, k)) => Ok((None, k as int)),
        Err(e) => Err(e@),
    }
}

/// The model of what a parse of a statement list returned.
pub open spec fn stmts_outcome(r: Result<(Vec<Parsed>, usize), ParseError>) -> Result<
    (Seq<Stmt>, int),
    ParseFault,
> {
    match r {
        Ok((v, k)) => Ok((stmts_view(v@), k as int)),
        Err(e) => Err(e@),
    }
}

/// The model of the outcome of [`Parser::parse`].
pub open spec fn program_outcome(r: Result<Vec<Parsed>, ParseError>) -> Result<Seq<Stmt>, ParseFault> {
    match r {
        Ok(v) => Ok(stmts_view(v@)),
        Err(e) => Err(e@),
    }
}

proof fn lemma_stmts_view_push(s: Seq<Parsed>, p: Parsed)
    ensures
        stmts_view(s.push(p)) == stmts_view(s).push(p@),
{
    assert(s.push(p).drop_last() =~= s);
}

pub open spec fn closing(paren: bool) -> TokenKind {
    if paren {
        TokenKind::RightParen
    } else {
        TokenKind::RightBracket
    }
}

fn copy_type(t: &TokenType) -> (r: TokenType)
    ensures
        r@ == t@,
{
    match t {
        TokenType::Ident(s) => TokenType::Ident(s.clone()),
        TokenType::FloatLiteral(s) => TokenType::FloatLiteral(s.clone()),
        TokenType::Comment => TokenType::Comment,
        TokenType::Unknown(c) => TokenType::Unknown(*c),
        TokenType::Newline => TokenType::Newline,
        TokenType::Equals => TokenType::Equals,
        TokenType::LeftParen => TokenType::LeftParen,
        TokenType::RightParen => TokenType::RightParen,
        TokenType::LeftBrace => TokenType::LeftBrace,
        TokenType::RightBrace => TokenType::RightBrace,
        TokenType::LeftBracket => TokenType::LeftBracket,
        TokenType::RightBracket => TokenType::RightBracket,
        TokenType::Keyword(s) => TokenType::Keyword(s.clone()),
        TokenType::Comma => TokenType::Comma,
        TokenType::Plus => TokenType::Plus,
        TokenType::Minus => TokenType::Minus,
        TokenType::Multi => TokenType::Multi,
        TokenType::Div => TokenType::Div,
        TokenType::Circumflex => TokenType::Circumflex,
    }
}

fn copy_loc(l: &TokenLocation) -> (r: TokenLocation)
    ensures
        r@ == l@,
{
    TokenLocation(l.0.clone(), l.1, l.2)
}

fn copy_token(t: &Token) -> (r: Token)
    ensures
        r@ == t@,
{
    Token(copy_type(&t.0), copy_loc(&t.1))
}

fn get_prec(op: &Operator) -> (r: usize)
    ensures
        r == prec(*op),
{
    match op {
        Operator::Plus | Operator::Minus => 1,
        Operator::Multi | Operator::Div => 2,
        Operator::Pow => 3,
    }
}

fn operator_of(t: &TokenType) -> (r: Option<Operator>)
    ensures
        r == op_of(t@),
{
    match t {
        TokenType::Plus => Some(Operator::Plus),
        TokenType::Minus => Some(Operator::Minus),
        TokenType::Multi => Some(Operator::Multi),
        TokenType::Div => Some(Operator::Div),
        TokenType::Circumflex => Some(Operator::Pow),
        _ => None,
    }
}

/// Parses a token sequence into statements.
pub struct Parser {
    tokens: Vec<Token>,
}

impl View for Parser {
    type V = Seq<Tok>;

    closed spec fn view(&self) -> Seq<Tok> {
        crate::lexer::toks_view(self.tokens@)
    }
}

impl Parser {
    pub fn new(tokens: Vec<Token>) -> (r: Self)
        ensures
            r@ == crate::lexer::toks_view(tokens@),
    {
        Self { tokens }
    }

    fn closes(&self, j: usize, paren: bool) -> (r: bool)
        requires
            self@.len() < usize::MAX,
            j < self@.len(),
        ensures
            r == (self@[j as int].kind == closing(paren)),
    {
        match &self.tokens[j].0 {
            TokenType::RightParen => paren,
            TokenType::RightBracket => !paren,
            _ => false,
        }
    }

    fn parse_primary(&self, i: usize) -> (r: Result<(Expr, usize), ParseError>)
        requires
            self@.len() < usize::MAX,
            i <= self@.len(),
        ensures
            expr_outcome(r) == primary(self@, i as int),
            r is Ok ==> i < r->Ok_0.1 <= self@.len(),
        decreases self@.len() - i, 1int,
    {
        let len = self.tokens.len();
        if i >= len {
            return Err(ParseError::EOF);
        }
        let t = &self.tokens[i];
        match &t.0 {
            TokenType::FloatLiteral(v) => Ok((Expr::FloatLiteral(v.clone()), i + 1)),
            TokenType::Ident(name) => {
                if i + 1 < len && matches!(self.tokens[i + 1].0, TokenType::LeftParen) {
                    match self.parse_items(i + 2, true) {
                        Ok((args, j)) => {
                            if j < len {
                                Ok((Expr::FunctionCall(name.clone(), args), j + 1))
                            } else {
                                Err(ParseError::EOF)
                            }
                        },
                        Err(e) => Err(e),
                    }
                } else {
                    Ok((Expr::Ident(name.clone()), i + 1))
                }
            },
            TokenType::Minus => {
                if i + 1 < len {
                    if let TokenType::FloatLiteral(v) = &self.tokens[i + 1].0 {
                        return Ok((Expr::NegFloatLiteral(v.clone()), i + 2));
                    }
                }
                Err(ParseError::MissingLiteral(copy_loc(&t.1)))
            },
            TokenType::LeftParen => match self.parse_expr(i + 1, 1) {
                Ok((e, j)) => {
                    if j < len {
                        Ok((e, j + 1))
                    } else {
                        Err(ParseError::EOF)
                    }
                },
                Err(e) => Err(e),
            },
            TokenType::LeftBracket => match self.parse_items(i + 1, false) {
                Ok((elems, j)) => {
                    if j < len {
                        Ok((Expr::List(elems), j + 1))
                    } else {
                        Err(ParseError::EOF)
                    }
                },
                Err(e) => Err(e),
            },
            _ => Err(ParseError::UnexpectedToken(copy_type(&t.0), copy_loc(&t.1))),
        }
    }

    /// Parses call arguments or list elements up to the closing token.
    fn parse_items(&self, start: usize, paren: bool) -> (r: Result<(Vec<Expr>, usize), ParseError>)
        requires
            self@.len() < usize::MAX,
            start <= self@.len(),
        ensures
            match r {
                Ok((v, j)) => items(self@, start as int, closing(paren)) == Ok::<
                    (Seq<ExprV>, int),
                    ParseFault,
                >((exprs_view(v@), j as int)) && start <= j <= self@.len(),
                Err(e) => items(self@, start as int, closing(paren)) is Err && items(
                    self@,
                    start as int,
                    closing(paren),
                )->Err_0 == e@,
            },
        decreases self@.len() - start, 3int,
    {
        let len = self.tokens.len();
        let mut out: Vec<Expr> = Vec::new();
        let mut j = start;
        proof {
            lemma_join_empty(Seq::<ExprV>::empty(), 0);
            assert(Seq::<ExprV>::empty() + items(self@, start as int, closing(paren))->Ok_0.0
                =~= items(self@, start as int, closing(paren))->Ok_0.0);
        }
        while j < len && !self.closes(j, paren)
            invariant
                len == self@.len(),
                len < usize::MAX,
                start <= j <= len,
                items(self@, start as int, closing(paren)) == join(
                    exprs_view(out@),
                    items(self@, j as int, closing(paren)),
                ),
            decreases len - j,
        {
            let j1 = if matches!(self.tokens[j].0, TokenType::Comma) {
                j + 1
            } else {
                j
            };
            match self.parse_expr(j1, 1) {
                Ok((e, k)) => {
                    proof {
                        lemma_join_cons(exprs_view(out@), e@, items(self@, k as int, closing(paren)));
                        lemma_exprs_view_push(out@, e);
                    }
                    out.push(e);
                    j = k;
                },
                Err(err) => {
                    return Err(err);
                },
            }
        }
        proof {
            lemma_join_empty(exprs_view(out@), j as int);
        }
        Ok((out, j))
    }

    fn parse_expr(&self, i: usize, min_prec: usize) -> (r: Result<(Expr, usize), ParseError>)
        requires
            self@.len() < usize::MAX,
            i <= self@.len(),
            min_prec <= 4,
        ensures
            expr_outcome(r) == expr(self@, i as int, min_prec as nat),
            r is Ok ==> i < r->Ok_0.1 <= self@.len(),
        decreases self@.len() - i, 2int,
    {
        let len = self.tokens.len();
        let (mut left, mut k) = match self.parse_primary(i) {
            Ok(p) => p,
            Err(e) => {
                return Err(e);
            },
        };
        while k < len
            invariant
                len == self@.len(),
                len < usize::MAX,
                i < k <= len,
                min_prec <= 4,
                expr(self@, i as int, min_prec as nat) == climb(self@, k as int, left@, min_prec as nat),
            decreases len - k,
        {
            let op = match operator_of(&self.tokens[k].0) {
                Some(op) => op,
                None => {
                    return Ok((left, k));
                },
            };
            let p = get_prec(&op);
            if p < min_prec {
                return Ok((left, k));
            }
            match self.parse_expr(k + 1, p + 1) {
                Ok((right, k2)) => {
                    left = Expr::Expr(Box::new(left), op, Box::new(right));
                    k = k2;
                },
                Err(e) => {
                    return Err(e);
                },
            }
        }
        Ok((left, k))
    }

    fn line_contains_equals(&self, i: usize) -> (r: bool)
        requires
            self@.len() < usize::MAX,
            i <= self@.len(),
        ensures
            r == line_has_equals(self@, i as int),
    {
        let len = self.tokens.len();
        let mut k = i;
        while k < len
            invariant
                len == self@.len(),
                len < usize::MAX,
                i <= k <= len,
                forall|m: int|
                    i <= m < k ==> !(#[trigger] self@[m].kind is Newline) && !(self@[m].kind is Equals),
            decreases len - k,
        {
            match &self.tokens[k].0 {
                TokenType::Newline => {
                    return false;
                },
                TokenType::Equals => {
                    assert(self@[k as int].kind is Equals);
                    return true;
                },
                _ => {},
            }
            k = k + 1;
        }
        false
    }

    /// The index of the newline that ends the line, or the end.
    fn skip_line(&self, i: usize) -> (r: usize)
        requires
            self@.len() < usize::MAX,
            i <= self@.len(),
        ensures
            r == line_end(self@, i as int),
            i <= r <= self@.len(),
    {
        let len = self.tokens.len();
        let mut k = i;
        while k < len && !matches!(self.tokens[k].0, TokenType::Newline)
            invariant
                len == self@.len(),
                len < usize::MAX,
                i <= k <= len,
                line_end(self@, i as int) == line_end(self@, k as int),
            decreases len - k,
        {
            k = k + 1;
        }
        k
    }

    fn expect_keyword(&self, k: usize, word: &str) -> (r: Result<usize, ParseError>)
        requires
            self@.len() < usize::MAX,
        ensures
            match r {
                Ok(j) => expect_keyword(self@, k as int, word@) == Ok::<int, ParseFault>(j as int),
                Err(e) => expect_keyword(self@, k as int, word@) == Err::<int, ParseFault>(e@),
            },
    {
        if k >= self.tokens.len() {
            return Err(ParseError::EOF);
        }
        let t = &self.tokens[k];
        match &t.0 {
            TokenType::Keyword(got) => {
                if *got == String::from_str(word) {
                    Ok(k + 1)
                } else {
                    Err(ParseError::ExpectedGot(String::from_str(word), got.clone(), copy_loc(&t.1)))
                }
            },
            _ => Err(ParseError::Expected(String::from_str(word), copy_loc(&t.1))),
        }
    }

    fn parse_step(&self, k: usize) -> (r: Result<(Expr, usize), ParseError>)
        requires
            self@.len() < usize::MAX,
            k <= self@.len(),
        ensures
            expr_outcome(r) == step_clause(self@, k as int),
            r is Ok ==> k <= r->Ok_0.1 <= self@.len(),
    {
        proof {
            reveal_strlit("with");
            reveal_strlit("step");
            reveal_strlit("1.0");
            assert("with"@ =~= kw_with());
            assert("step"@ =~= kw_step());
            assert("1.0"@ =~= seq!['1', '.', '0']);
        }
        let len = self.tokens.len();
        if k >= len {
            return Err(ParseError::EOF);
        }
        let is_with = match &self.tokens[k].0 {
            TokenType::Keyword(w) => *w == String::from_str("with"),
            _ => false,
        };
        if !is_with {
            return Ok((Expr::FloatLiteral(String::from_str("1.0")), k));
        }
        if k + 1 >= len {
            return Err(ParseError::EOF);
        }
        let t = &self.tokens[k + 1];
        match &t.0 {
            TokenType::Keyword(w) => {
                if *w == String::from_str("step") {
                    self.parse_expr(k + 2, 1)
                } else {
                    Err(ParseError::ExpectedGot(String::from_str("step"), w.clone(), copy_loc(&t.1)))
                }
            },
            _ => Err(ParseError::ExpectedGotToken(String::from_str("step"), copy_type(&t.0), copy_loc(&t.1))),
        }
    }

    fn parse_declaration(&self, i: usize) -> (r: Result<(Option<Parsed>, usize), ParseError>)
        requires
            self@.len() < usize::MAX,
            i + 1 < self@.len(),
        ensures
            stmt_outcome(r) == declaration(self@, i as int),
            r is Ok ==> i < r->Ok_0.1 <= self@.len(),
    {
        match self.parse_expr(i + 2, 1) {
            Ok((e, k)) => Ok((Some(Parsed::Declaration(copy_token(&self.tokens[i]), e)), k)),
            Err(e) => Err(e),
        }
    }

    fn parse_function_declaration(&self, i: usize) -> (r: Result<(Option<Parsed>, usize), ParseError>)
        requires
            self@.len() < usize::MAX,
            i + 1 < self@.len(),
        ensures
            stmt_outcome(r) == fn_declaration(self@, i as int),
            r is Ok ==> i < r->Ok_0.1 <= self@.len(),
    {
        let ghost ts = self@;
        let len = self.tokens.len();
        let mut parameters: Vec<Token> = Vec::new();
        let mut j = i + 2;
        while j < len && !matches!(self.tokens[j].0, TokenType::RightParen)
            invariant
                ts == self@,
                len == ts.len(),
                len < usize::MAX,
                i + 2 <= j <= len,
                fn_params(ts, i + 2) == match fn_params(ts, j as int) {
                    Ok((ps, end)) => Ok((parameters@.map_values(|t: Token| t@) + ps, end)),
                    Err(e) => Err::<(Seq<Tok>, int), ParseFault>(e),
                },
            decreases len - j,
        {
            match &self.tokens[j].0 {
                TokenType::Ident(_) => {
                    let ghost before = parameters@;
                    parameters.push(copy_token(&self.tokens[j]));
                    proof {
                        assert(parameters@.map_values(|t: Token| t@) =~= before.map_values(|t: Token| t@).push(ts[j as int]));
                        if let Ok((ps, end)) = fn_params(ts, j + 1) {
                            assert(before.map_values(|t: Token| t@) + (seq![ts[j as int]] + ps)
                                =~= before.map_values(|t: Token| t@).push(ts[j as int]) + ps);
                        }
                    }
                },
                TokenType::Comma => {},
                _ => {
                    return Err(ParseError::UnexpectedToken(copy_type(&self.tokens[j].0), copy_loc(&self.tokens[j].1)));
                },
            }
            j = j + 1;
        }
        proof {
            assert(parameters@.map_values(|t: Token| t@) + Seq::<Tok>::empty() =~= parameters@.map_values(|t: Token| t@));
        }
        if j >= len {
            return Err(ParseError::EOF);
        }
        let j2 = match self.expect_symbol(j + 1, false) {
            Ok(k) => k,
            Err(e) => {
                return Err(e);
            },
        };
        match self.parse_expr(j2, 1) {
            Ok((body, k)) => Ok(
                (Some(Parsed::FunctionDecleration(copy_token(&self.tokens[i]), parameters, body)), k),
            ),
            Err(e) => Err(e),
        }
    }

    fn expect_symbol(&self, k: usize, brace: bool) -> (r: Result<usize, ParseError>)
        requires
            self@.len() < usize::MAX,
        ensures
            match r {
                Ok(j) => expect_symbol(self@, k as int, brace) == Ok::<int, ParseFault>(j as int),
                Err(e) => expect_symbol(self@, k as int, brace) == Err::<int, ParseFault>(e@),
            },
    {
        proof {
            reveal_strlit("{");
            reveal_strlit("=");
            assert("{"@ =~= seq!['{']);
            assert("="@ =~= seq!['=']);
        }
        if k >= self.tokens.len() {
            return Err(ParseError::EOF);
        }
        let t = &self.tokens[k];
        let ok = match &t.0 {
            TokenType::LeftBrace => brace,
            TokenType::Equals => !brace,
            _ => false,
        };
        if ok {
            Ok(k + 1)
        } else {
            let text = if brace {
                String::from_str("{")
            } else {
                String::from_str("=")
            };
            Err(ParseError::ExpectedGotToken(text, copy_type(&t.0), copy_loc(&t.1)))
        }
    }

    fn parse_print(&self, i: usize) -> (r: Result<(Option<Parsed>, usize), ParseError>)
        requires
            self@.len() < usize::MAX,
            i <= self@.len(),
        ensures
            stmt_outcome(r) == print_stmt(self@, i as int),
            r is Ok ==> i < r->Ok_0.1 <= self@.len(),
    {
        match self.parse_expr(i, 1) {
            Ok((e, k)) => Ok((Some(Parsed::PrintExpr(e)), k)),
            Err(e) => Err(e),
        }
    }

    fn parse_destructuring(&self, i: usize) -> (r: Result<(Option<Parsed>, usize), ParseError>)
        requires
            self@.len() < usize::MAX,
            i <= self@.len(),
        ensures
            stmt_outcome(r) == destructuring(self@, i as int),
            r is Ok ==> i < r->Ok_0.1 <= self@.len(),
    {
        match self.parse_expr(i, 1) {
            Ok((left, k)) => {
                let k1 = match self.expect_symbol(k, false) {
                    Ok(k1) => k1,
                    Err(e) => {
                        return Err(e);
                    },
                };
                match self.parse_expr(k1, 1) {
                    Ok((right, k2)) => Ok((Some(Parsed::Destructuring(left, right)), k2)),
                    Err(e) => Err(e),
                }
            },
            Err(e) => Err(e),
        }
    }

    fn parse_block(&self, i: usize) -> (r: Result<(Vec<Parsed>, usize), ParseError>)
        requires
            self@.len() < usize::MAX,
            i <= self@.len(),
        ensures
            stmts_outcome(r) == block(self@, i as int),
            r is Ok ==> i < r->Ok_0.1 <= self@.len(),
        decreases self@.len() - i, 1int,
    {
        if let Err(e) = self.expect_symbol(i, true) {
            return Err(e);
        }
        match self.parse_statements(i + 1, true) {
            Ok((b, j)) => {
                if j < self.tokens.len() {
                    Ok((b, j + 1))
                } else {
                    Err(ParseError::EOF)
                }
            },
            Err(e) => Err(e),
        }
    }

    fn parse_for_block(&self, i: usize) -> (r: Result<(Option<Parsed>, usize), ParseError>)
        requires
            self@.len() < usize::MAX,
            i < self@.len(),
        ensures
            stmt_outcome(r) == for_loop(self@, i as int),
            r is Ok ==> i < r->Ok_0.1 <= self@.len(),
        decreases self@.len() - i, 1int,
    {
        proof {
            reveal_strlit("in");
            assert("in"@ =~= kw_in());
        }
        let (ident, k1) = match self.parse_expr(i + 1, 1) {
            Ok(p) => p,
            Err(e) => {
                return Err(e);
            },
        };
        let k2 = match self.expect_keyword(k1, "in") {
            Ok(k) => k,
            Err(e) => {
                return Err(e);
            },
        };
        let (list, k3) = match self.parse_expr(k2, 1) {
            Ok(p) => p,
            Err(e) => {
                return Err(e);
            },
        };
        match self.parse_block(k3) {
            Ok((body, k4)) => Ok((Some(Parsed::ForLoop(ident, list, body)), k4)),
            Err(e) => Err(e),
        }
    }

    fn parse_from_block(&self, i: usize) -> (r: Result<(Option<Parsed>, usize), ParseError>)
        requires
            self@.len() < usize::MAX,
            i < self@.len(),
        ensures
            stmt_outcome(r) == from_loop(self@, i as int),
            r is Ok ==> i < r->Ok_0.1 <= self@.len(),
        decreases self@.len() - i, 1int,
    {
        proof {
            reveal_strlit("to");
            reveal_strlit("as");
            assert("to"@ =~= kw_to());
            assert("as"@ =~= kw_as());
        }
        let (min, k1) = match self.parse_expr(i + 1, 1) {
            Ok(p) => p,
            Err(e) => {
                return Err(e);
            },
        };
        let k2 = match self.expect_keyword(k1, "to") {
            Ok(k) => k,
            Err(e) => {
                return Err(e);
            },
        };
        let (max, k3) = match self.parse_expr(k2, 1) {
            Ok(p) => p,
            Err(e) => {
                return Err(e);
            },
        };
        let k4 = match self.expect_keyword(k3, "as") {
            Ok(k) => k,
            Err(e) => {
                return Err(e);
            },
        };
        let (ident, k5) = match self.parse_expr(k4, 1) {
            Ok(p) => p,
            Err(e) => {
                return Err(e);
            },
        };
        let (step, k6) = match self.parse_step(k5) {
            Ok(p) => p,
            Err(e) => {
                return Err(e);
            },
        };
        match self.parse_block(k6) {
            Ok((body, k7)) => Ok((Some(Parsed::FromLoop(min, max, ident, step, body)), k7)),
            Err(e) => Err(e),
        }
    }

    /// Parses the statement at `i`; a comment or a newline gives none.
    fn parse_statement(&self, i: usize) -> (r: Result<(Option<Parsed>, usize), ParseError>)
        requires
            self@.len() < usize::MAX,
            i < self@.len(),
        ensures
            stmt_outcome(r) == stmt(self@, i as int),
            r is Ok ==> i < r->Ok_0.1 <= self@.len(),
        decreases self@.len() - i, 2int,
    {
        proof {
            reveal_strlit("from");
            reveal_strlit("for");
            assert("from"@ =~= kw_from());
            assert("for"@ =~= kw_for());
        }
        let len = self.tokens.len();
        let t = &self.tokens[i];
        match &t.0 {
            TokenType::Ident(_) => {
                if i + 1 < len && matches!(self.tokens[i + 1].0, TokenType::Equals) {
                    self.parse_declaration(i)
                } else if i + 1 < len && matches!(self.tokens[i + 1].0, TokenType::LeftParen)
                    && self.line_contains_equals(i) {
                    self.parse_function_declaration(i)
                } else {
                    self.parse_print(i)
                }
            },
            TokenType::Keyword(w) => {
                if *w == String::from_str("from") {
                    self.parse_from_block(i)
                } else if *w == String::from_str("for") {
                    self.parse_for_block(i)
                } else {
                    Err(ParseError::UnexpectedKeyword(w.clone(), copy_loc(&t.1)))
                }
            },
            TokenType::LeftBracket => {
                if self.line_contains_equals(i) {
                    self.parse_destructuring(i)
                } else {
                    self.parse_print(i)
                }
            },
            TokenType::FloatLiteral(_) | TokenType::LeftParen => self.parse_print(i),
            TokenType::Comment => Ok((None, self.skip_line(i + 1))),
            TokenType::Newline => Ok((None, i + 1)),
            TokenType::LeftBrace => match self.parse_block(i) {
                Ok((b, k)) => Ok((Some(Parsed::Block(b)), k)),
                Err(e) => Err(e),
            },
            _ => Err(ParseError::UnexpectedToken(copy_type(&t.0), copy_loc(&t.1))),
        }
    }

    /// Parses statements from `start` up to the end or, in a block, up to a `}`.
    fn parse_statements(&self, start: usize, in_block: bool) -> (r: Result<(Vec<Parsed>, usize), ParseError>)
        requires
            self@.len() < usize::MAX,
            start <= self@.len(),
        ensures
            stmts_outcome(r) == stmts(self@, start as int, in_block),
            r is Ok ==> start <= r->Ok_0.1 <= self@.len(),
        decreases self@.len() - start, 3int,
    {
        let len = self.tokens.len();
        let mut out: Vec<Parsed> = Vec::new();
        let mut j = start;
        proof {
            assert(Seq::<Stmt>::empty() + stmts(self@, start as int, in_block)->Ok_0.0
                =~= stmts(self@, start as int, in_block)->Ok_0.0);
        }
        while j < len && !(in_block && matches!(self.tokens[j].0, TokenType::RightBrace))
            invariant
                len == self@.len(),
                len < usize::MAX,
                start <= j <= len,
                stmts(self@, start as int, in_block) == join(
                    stmts_view(out@),
                    stmts(self@, j as int, in_block),
                ),
            decreases len - j,
        {
            match self.parse_statement(j) {
                Ok((Some(p), k)) => {
                    proof {
                        lemma_join_cons(stmts_view(out@), p@, stmts(self@, k as int, in_block));
                        lemma_stmts_view_push(out@, p);
                    }
                    out.push(p);
                    j = k;
                },
                Ok((None, k)) => {
                    j = k;
                },
                Err(e) => {
                    return Err(e);
                },
            }
        }
        proof {
            lemma_join_empty(stmts_view(out@), j as int);
        }
        Ok((out, j))
    }

    /// Parses the whole token sequence into statements.
    pub fn parse(&self) -> (r: Result<Vec<Parsed>, ParseError>)
        requires
            self@.len() < usize::MAX,
        ensures
            program_outcome(r) == program(self@),
    {
        match self.parse_statements(0, false) {
            Ok((out, _)) => Ok(out),
            Err(e) => Err(e),
        }
    }
}

} // verus!
