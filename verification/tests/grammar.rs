use otopoiesis::lang::expr::{Expr, ExprRef, Literal, Op};
use otopoiesis::lang::grammar::{parse_tokens, ParseError, Token};
use otopoiesis::lang::parser::ParseContext;
use otopoiesis::lang::stringifier::{Piece, Stringifier};

/// Tokens with consecutive one-character spans.
fn toks(ts: Vec<Token>) -> Vec<(Token, std::ops::Range<usize>)> {
    ts.into_iter().enumerate().map(|(i, t)| (t, i..i + 1)).collect()
}

fn id(s: &str) -> Token {
    Token::Ident(s.to_string())
}

fn num(x: f64) -> Token {
    Token::Float(x.to_bits())
}

fn expr(pc: &ParseContext, e: ExprRef) -> &Expr {
    pc.get_expr(e).unwrap()
}

fn name(pc: &ParseContext, e: ExprRef) -> String {
    match expr(pc, e) {
        Expr::Var(s) => pc.interner.resolve(s.0).unwrap().to_string(),
        _ => panic!("expected a variable"),
    }
}

fn text(pc: &ParseContext, e: ExprRef) -> String {
    let (pieces, ok) = Stringifier::new(pc, 0, e).fmt();
    assert!(ok);
    let mut s = String::new();
    for p in pieces {
        match p {
            Piece::Text(t) => s.push_str(&t),
            Piece::Number(b) => s.push_str(&format!("{}", f64::from_bits(b))),
        }
    }
    s
}

#[test]
fn product_binds_tighter_than_sum() {
    let mut pc = ParseContext::new();
    let ts = toks(vec![id("a"), Token::Op(Op::Sum), id("b"), Token::Op(Op::Product), id("c")]);
    let e = parse_tokens(&mut pc, &ts).unwrap();
    match expr(&pc, e) {
        Expr::BinOp(Op::Sum, l, r) => {
            assert_eq!(name(&pc, *l), "a");
            assert!(matches!(expr(&pc, *r), Expr::BinOp(Op::Product, _, _)));
        },
        _ => panic!("expected a sum"),
    }
    assert_eq!(text(&pc, e), "a + b * c");
    // the whole expression gets the span of its tokens
    assert_eq!(pc.span_storage.get(&e.0.index), Some(&(0..5)));
}

#[test]
fn operators_of_one_level_group_to_the_left() {
    let mut pc = ParseContext::new();
    let ts = toks(vec![id("a"), Token::Op(Op::Minus), id("b"), Token::Op(Op::Minus), id("c")]);
    let e = parse_tokens(&mut pc, &ts).unwrap();
    match expr(&pc, e) {
        Expr::BinOp(Op::Minus, l, r) => {
            assert!(matches!(expr(&pc, *l), Expr::BinOp(Op::Minus, _, _)));
            assert_eq!(name(&pc, *r), "c");
        },
        _ => panic!("expected a difference"),
    }
}

#[test]
fn line_breaks_may_follow_an_operator() {
    let mut pc = ParseContext::new();
    let ts = toks(vec![id("a"), Token::Op(Op::Sum), Token::LineBreak, Token::LineBreak, id("b")]);
    let e = parse_tokens(&mut pc, &ts).unwrap();
    assert_eq!(text(&pc, e), "a + b");
}

#[test]
fn pipe_calls_its_right_side() {
    let mut pc = ParseContext::new();
    let ts = toks(vec![id("a"), Token::Op(Op::Pipe), id("f")]);
    let e = parse_tokens(&mut pc, &ts).unwrap();
    match expr(&pc, e) {
        Expr::App(f, args) => {
            assert_eq!(name(&pc, *f), "f");
            assert_eq!(args.len(), 1);
            assert_eq!(name(&pc, args[0]), "a");
        },
        _ => panic!("expected a call"),
    }
}

#[test]
fn calls_take_arguments_and_a_trailing_comma() {
    let mut pc = ParseContext::new();
    let ts = toks(vec![
        id("f"),
        Token::ParenBegin,
        num(1.0),
        Token::Comma,
        num(2.0),
        Token::Comma,
        Token::ParenEnd,
        Token::ParenBegin,
        Token::ParenEnd,
    ]);
    let e = parse_tokens(&mut pc, &ts).unwrap();
    match expr(&pc, e) {
        Expr::App(inner, none) => {
            assert!(none.is_empty());
            match expr(&pc, *inner) {
                Expr::App(f, args) => {
                    assert_eq!(name(&pc, *f), "f");
                    assert_eq!(args.len(), 2);
                    assert!(matches!(expr(&pc, args[1]), Expr::Literal(Literal::Number(b)) if *b == 2.0f64.to_bits()));
                },
                _ => panic!("expected the inner call"),
            }
        },
        _ => panic!("expected a call"),
    }
}

#[test]
fn let_binds_and_continues() {
    let mut pc = ParseContext::new();
    let ts = toks(vec![Token::Let, id("x"), Token::Assign, num(1.5), Token::LineBreak, Token::SemiColon, id("x")]);
    let e = parse_tokens(&mut pc, &ts).unwrap();
    assert_eq!(text(&pc, e), "let x = 1.5\nx");
    let mut pc = ParseContext::new();
    let ts = toks(vec![Token::Let, id("x"), Token::Assign, num(1.5)]);
    let e = parse_tokens(&mut pc, &ts).unwrap();
    match expr(&pc, e) {
        Expr::Let(_, _, then) => assert!(matches!(expr(&pc, *then), Expr::Nop)),
        _ => panic!("expected a let"),
    }
}

#[test]
fn attribute_goes_on_the_let() {
    let mut pc = ParseContext::new();
    let ts = toks(vec![
        Token::SharpAngleBracketBegin,
        id("param"),
        Token::ParenBegin,
        num(0.0),
        Token::DoubleDot,
        Token::Int(1.0f64.to_bits()),
        Token::ParenEnd,
        Token::AngleBracketEnd,
        Token::LineBreak,
        Token::Let,
        id("x"),
        Token::Assign,
        num(0.5),
    ]);
    let e = parse_tokens(&mut pc, &ts).unwrap();
    match expr(&pc, e) {
        Expr::WithAttribute(a, l) => {
            assert_eq!(pc.interner.resolve(a.0 .0), Some("param"));
            assert_eq!(a.1, 0.0f64.to_bits());
            assert_eq!(a.2, 1.0f64.to_bits());
            assert!(matches!(expr(&pc, *l), Expr::Let(_, _, _)));
        },
        _ => panic!("expected an attribute"),
    }
}

#[test]
fn lambda_with_names_and_arrow() {
    let mut pc = ParseContext::new();
    let ts = toks(vec![
        Token::LambdaArgBeginEnd,
        id("a"),
        Token::Comma,
        id("b"),
        Token::LambdaArgBeginEnd,
        Token::Arrow,
        id("a"),
    ]);
    let e = parse_tokens(&mut pc, &ts).unwrap();
    assert_eq!(text(&pc, e), "|a,b| a");
}

#[test]
fn parenthesised_expression() {
    let mut pc = ParseContext::new();
    let ts = toks(vec![Token::ParenBegin, id("a"), Token::Op(Op::Or), id("b"), Token::ParenEnd]);
    let e = parse_tokens(&mut pc, &ts).unwrap();
    assert_eq!(text(&pc, e), "(a || b)");
}

#[test]
fn errors_name_the_token_that_does_not_fit() {
    let mut pc = ParseContext::new();
    let ts = toks(vec![Token::ParenBegin, num(1.0)]);
    assert!(matches!(parse_tokens(&mut pc, &ts).unwrap_err()[..], [ParseError::UnexpectedEnd]));
    let ts = toks(vec![Token::ParenEnd]);
    assert!(matches!(&parse_tokens(&mut pc, &ts).unwrap_err()[..], [ParseError::Unexpected(sp)] if *sp == (0..1)));
    let ts = toks(vec![Token::Let, num(1.0)]);
    assert!(matches!(&parse_tokens(&mut pc, &ts).unwrap_err()[..], [ParseError::Unexpected(sp)] if *sp == (1..2)));
    assert!(matches!(parse_tokens(&mut pc, &[]).unwrap_err()[..], [ParseError::UnexpectedEnd]));
}

#[test]
fn tokens_after_the_expression_are_left_unread() {
    let mut pc = ParseContext::new();
    let ts = toks(vec![num(1.0), num(2.0)]);
    let e = parse_tokens(&mut pc, &ts).unwrap();
    assert!(matches!(expr(&pc, e), Expr::Literal(Literal::Number(b)) if *b == 1.0f64.to_bits()));
    // an operator whose right side does not parse is left unread too
    let ts = toks(vec![id("a"), Token::Op(Op::Sum), Token::ParenEnd]);
    let e = parse_tokens(&mut pc, &ts).unwrap();
    assert_eq!(name(&pc, e), "a");
}

#[test]
fn storing_adds_at_most_one_expression_and_one_name_per_token() {
    let mut pc = ParseContext::new();
    let ts = toks(vec![num(1.0), Token::Op(Op::Sum), num(2.0), Token::Op(Op::Product), num(3.0)]);
    parse_tokens(&mut pc, &ts).unwrap();
    // three numbers and two operations
    assert_eq!(pc.expr_storage.len(), 5);
    assert_eq!(pc.interner.len(), 0);
    let ts = toks(vec![id("x"), Token::Op(Op::Pipe), id("f")]);
    parse_tokens(&mut pc, &ts).unwrap();
    // two names and one call
    assert_eq!(pc.expr_storage.len(), 8);
    assert_eq!(pc.interner.len(), 2);
}
