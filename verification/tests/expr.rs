use raqeval::consts::Consts;
use raqeval::lexer::{next_segment_in, Lexer, Op, Token};
use raqeval::parser::expr::Expr;
use raqeval::parser::func::Builtin;
use raqeval::{parse, parse_func, Ctx, Error, Rational};

fn num(e: &Expr) -> Rational {
    match e {
        Expr::Number(n) => *n,
        other => panic!("not a number: {}", other.to_string()),
    }
}

fn whole(n: i128) -> Rational {
    Rational::unwrap_new(n, 1)
}

fn program_ctx() -> Ctx {
    let f = parse_func("f(x,y) =  g(3 + x, y) + 1 + h()").unwrap();
    let g = parse_func("g(y,z) =  2*y + z + 1").unwrap();
    let h = parse_func("h() =  1 + 1 + 1 + 1 + g(10, 2)").unwrap();
    let mut ctx = Ctx::new();
    ctx.add_func(f);
    ctx.add_func(g);
    ctx.add_func(h);
    ctx
}

#[test]
fn program_call_reduces_to_number() {
    let ctx = program_ctx();
    let res = parse("f(1,2)").unwrap();
    assert_eq!(res.to_string(), "f(1, 2)");
    let value = res.reduce(&ctx).unwrap();
    assert_eq!(num(&value), whole(39));
    assert_eq!(value.to_string(), "39");
}

#[test]
fn arithmetic_follows_precedence() {
    let ctx = Ctx::new();
    let e = parse("1 + 2 * 3").unwrap();
    assert_eq!(e.to_string(), "(1 + (2 * 3))");
    assert_eq!(num(&e.reduce(&ctx).unwrap()), whole(7));
    let e = parse("2 ^ 3 ^ 2").unwrap();
    assert_eq!(e.to_string(), "(2 ^ (3 ^ 2))");
    assert_eq!(num(&e.reduce(&ctx).unwrap()), whole(512));
    let e = parse("(1 + 2) * 3").unwrap();
    assert_eq!(num(&e.reduce(&ctx).unwrap()), whole(9));
    let e = parse("7 / 2 - 1").unwrap();
    assert_eq!(num(&e.reduce(&ctx).unwrap()), Rational::unwrap_new(5, 2));
}

#[test]
fn decimal_numbers_are_exact() {
    let ctx = Ctx::new();
    let e = parse("0.5 + 0.25").unwrap();
    assert_eq!(num(&e.reduce(&ctx).unwrap()), Rational::unwrap_new(3, 4));
    assert_eq!(num(&parse("1.50").unwrap()), Rational::unwrap_new(3, 2));
}

#[test]
fn white_space_is_ignored() {
    let a = parse("1+2*x").unwrap().to_string();
    let b = parse(" 1 +  2 *\tx ").unwrap().to_string();
    assert_eq!(a, b);
}

#[test]
fn identities_simplify_symbolic_operands() {
    let ctx = Ctx::new();
    assert_eq!(parse("0 + x").unwrap().reduce(&ctx).unwrap().to_string(), "x");
    assert_eq!(parse("x + 0").unwrap().reduce(&ctx).unwrap().to_string(), "x");
    assert_eq!(parse("x - 0").unwrap().reduce(&ctx).unwrap().to_string(), "x");
    assert_eq!(parse("0 - x").unwrap().reduce(&ctx).unwrap().to_string(), "(-x)");
    assert_eq!(parse("0 * x").unwrap().reduce(&ctx).unwrap().to_string(), "0");
    assert_eq!(parse("x * 0").unwrap().reduce(&ctx).unwrap().to_string(), "0");
    assert_eq!(parse("1 * x").unwrap().reduce(&ctx).unwrap().to_string(), "x");
    assert_eq!(parse("x * 1").unwrap().reduce(&ctx).unwrap().to_string(), "x");
    assert_eq!(parse("x / 1").unwrap().reduce(&ctx).unwrap().to_string(), "x");
    assert_eq!(parse("x ^ 0").unwrap().reduce(&ctx).unwrap().to_string(), "1");
    assert_eq!(parse("1 ^ x").unwrap().reduce(&ctx).unwrap().to_string(), "1");
    assert_eq!(parse("x ^ 1").unwrap().reduce(&ctx).unwrap().to_string(), "x");
    assert_eq!(parse("x + y").unwrap().reduce(&ctx).unwrap().to_string(), "(x + y)");
}

#[test]
fn division_by_zero_symbol_is_an_error() {
    let ctx = Ctx::new();
    let r = parse("x / 0").unwrap().reduce(&ctx);
    assert!(matches!(r, Err(Error::DivisionByZero)));
}

#[test]
fn unknown_function_is_an_error() {
    let ctx = Ctx::new();
    match parse("foo(1)").unwrap().reduce(&ctx) {
        Err(Error::InvalidFunc(name)) => assert_eq!(name, "foo"),
        _ => panic!("expected InvalidFunc"),
    }
}

#[test]
fn globals_are_substituted() {
    let mut ctx = Ctx::new();
    ctx.add_global("a", Some(Expr::Number(whole(5))));
    ctx.add_global("b", None);
    assert_eq!(num(&parse("a * 2").unwrap().reduce(&ctx).unwrap()), whole(10));
    assert_eq!(parse("b").unwrap().reduce(&ctx).unwrap().to_string(), "b");
    assert!(ctx.get_global("a").is_some());
    assert!(ctx.get_global("b").is_none());
    assert!(ctx.get_global("c").is_none());
    let mut names = ctx.get_global_names();
    names.sort();
    assert_eq!(names, vec!["a", "b"]);
}

#[test]
fn logarithms_split_and_log_of_one_is_zero() {
    let ctx = Ctx::new();
    let e = parse("log(x * y)").unwrap();
    assert_eq!(e.to_string(), "log((x * y))");
    assert_eq!(e.reduce(&ctx).unwrap().to_string(), "(log(x) + log(y))");
    let e = parse("log(2, x / y)").unwrap();
    assert_eq!(e.reduce(&ctx).unwrap().to_string(), "(log(2, x) - log(2, y))");
    let e = parse("log(x ^ 3)").unwrap();
    assert_eq!(e.reduce(&ctx).unwrap().to_string(), "(3 * log(x))");
    let e = parse("log(1)").unwrap();
    assert_eq!(e.reduce(&ctx).unwrap().to_string(), "0");
    let e = parse("log(e, x)").unwrap();
    assert_eq!(e.to_string(), "ln(x)");
    assert!(matches!(parse("log(1, 2, 3)"), Err(Error::InvalidFunc(_))));
}

#[test]
fn powers_of_rationals() {
    let two = whole(2);
    match two.pow(&whole(3)).unwrap() {
        Expr::Number(n) => assert_eq!(n, whole(8)),
        _ => panic!("expected a number"),
    }
    match two.pow(&whole(-2)).unwrap() {
        Expr::Number(n) => assert_eq!(n, Rational::unwrap_new(1, 4)),
        _ => panic!("expected a number"),
    }
    match whole(-2).pow(&whole(3)).unwrap() {
        Expr::Number(n) => assert_eq!(n, whole(-8)),
        _ => panic!("expected a number"),
    }
    assert!(matches!(two.pow(&Rational::unwrap_new(1, 2)), Err(Error::RootsNotImplemented)));
    assert!(matches!(Rational::zero().pow(&whole(-1)), Err(Error::DivisionByZero)));
    assert!(matches!(two.pow(&whole(200)), Err(Error::Overflow)));
}

#[test]
fn op_apply_combines_numbers() {
    let r = Op::Add.apply(&whole(1), &whole(2)).unwrap();
    assert_eq!(num(&r), whole(3));
    let r = Op::Sub.apply(&whole(1), &whole(2)).unwrap();
    assert_eq!(num(&r), whole(-1));
    let r = Op::Mul.apply(&whole(3), &Rational::unwrap_new(1, 3)).unwrap();
    assert_eq!(num(&r), whole(1));
    let r = Op::Div.apply(&whole(1), &whole(4)).unwrap();
    assert_eq!(num(&r), Rational::unwrap_new(1, 4));
    let r = Op::Exp.apply(&whole(3), &whole(2)).unwrap();
    assert_eq!(num(&r), whole(9));
}

#[test]
fn lexer_reads_tokens_in_order() {
    let mut lexer = Lexer::new("1.5 + foo(x)").unwrap();
    assert!(matches!(lexer.peek(), Token::Number(n) if n == Rational::unwrap_new(3, 2)));
    assert!(matches!(lexer.next(), Token::Number(_)));
    assert!(matches!(lexer.next(), Token::Op(Op::Add)));
    assert!(matches!(lexer.next(), Token::String(s) if s == "foo"));
    assert!(matches!(lexer.next(), Token::LParen));
    assert!(matches!(lexer.next(), Token::String(s) if s == "x"));
    assert!(matches!(lexer.next(), Token::RParen));
    assert!(matches!(lexer.next(), Token::Eof));
    assert!(matches!(lexer.next(), Token::Eof));
    assert!(matches!(lexer.peek(), Token::Eof));
}

#[test]
fn lexer_from_tokens_keeps_order() {
    let tokens = vec![Token::Comma, Token::Op(Op::Mul), Token::LParen];
    let mut lexer = Lexer::from_tokens(&tokens);
    assert!(matches!(lexer.next(), Token::Comma));
    assert!(matches!(lexer.next(), Token::Op(Op::Mul)));
    assert!(matches!(lexer.next(), Token::LParen));
    assert!(matches!(lexer.next(), Token::Eof));
}

#[test]
fn lexer_errors() {
    assert!(matches!(Lexer::new("1.2.3"), Err(Error::TwoDots(3))));
    assert!(matches!(
        Lexer::new("999999999999999999999999999999999999999999"),
        Err(Error::Overflow)
    ));
}

#[test]
fn parser_errors() {
    assert!(matches!(parse("(1 + 2"), Err(Error::InvalidParens)));
    assert!(matches!(parse("+"), Err(Error::AtomExpected(_))));
    assert!(matches!(parse_func("f(x) 1"), Err(Error::InvalidFunc(_))));
    assert!(matches!(parse_func("(x) = 1"), Err(Error::InvalidFunc(_))));
}

#[test]
fn function_definitions_keep_their_parts() {
    let f = parse_func("g(y,z) = 2*y + z").unwrap();
    assert_eq!(f.get_name(), "g");
    assert_eq!(f.get_args(), &vec!["y".to_string(), "z".to_string()]);
    assert_eq!(f.get_expr().to_string(), "((2 * y) + z)");
    let body = f.apply_args(&vec![Expr::Number(whole(4)), Expr::Var("w".to_string())]);
    assert_eq!(body.to_string(), "((2 * 4) + w)");
}

#[test]
fn replace_var_reports_whether_it_replaced() {
    let e = parse("x + y * x").unwrap();
    let r = e.replace_var(&"x".to_string(), &Expr::Number(whole(2))).unwrap();
    assert_eq!(r.to_string(), "(2 + (y * 2))");
    assert!(e.replace_var(&"z".to_string(), &Expr::Number(whole(2))).is_none());
}

#[test]
fn recursion_is_detected() {
    let mut ctx = Ctx::new();
    ctx.add_func(parse_func("f(x) = g(x) + 1").unwrap());
    ctx.add_func(parse_func("g(x) = f(x)").unwrap());
    ctx.add_func(parse_func("h(x) = x * 2").unwrap());
    assert!(ctx.get_func("f").unwrap().is_recursive(&ctx));
    assert!(ctx.get_func("g").unwrap().is_recursive(&ctx));
    assert!(!ctx.get_func("h").unwrap().is_recursive(&ctx));
    assert!(parse("1 + f(2)").unwrap().is_infinite(&ctx));
    assert!(!parse("1 + h(2)").unwrap().is_infinite(&ctx));
    assert!(!parse("log(f(2))").unwrap().is_infinite(&ctx));
    let mut names = ctx.get_funcs_names();
    names.sort();
    assert_eq!(names, vec!["f", "g", "h"]);
}

#[test]
fn add_func_replaces_a_function_of_the_same_name() {
    let mut ctx = Ctx::new();
    ctx.add_func(parse_func("f(x) = x + 1").unwrap());
    ctx.add_func(parse_func("f(x) = x + 2").unwrap());
    assert_eq!(ctx.get_funcs_names(), vec!["f"]);
    assert_eq!(num(&parse("f(1)").unwrap().reduce(&ctx).unwrap()), whole(3));
    assert!(ctx.get_func("g").is_none());
}

#[test]
fn numeric_expressions() {
    let mut ctx = Ctx::new();
    ctx.add_global("a", Some(Expr::Number(whole(1))));
    assert!(parse("1 + pi").unwrap().is_numeric(None));
    assert!(!parse("1 + a").unwrap().is_numeric(None));
    assert!(parse("1 + a").unwrap().is_numeric(Some(&ctx)));
    assert!(!parse("f(b)").unwrap().is_numeric(Some(&ctx)));
    assert!(parse("f(a, 2)").unwrap().is_numeric(Some(&ctx)));
}

#[test]
fn walk_visits_in_pre_order() {
    let e = parse("(1 + 2) * f(3, x)").unwrap();
    let mut it = e.into_iter();
    let mut seen = Vec::new();
    while let Some(x) = it.next() {
        seen.push(x.to_string());
    }
    assert_eq!(
        seen,
        vec!["((1 + 2) * f(3, x))", "(1 + 2)", "1", "2", "f(3, x)", "x", "3"]
    );
    let mut it = e.into_iter();
    let extra = Expr::Var("v".to_string());
    it.push(&extra);
    assert_eq!(it.next().unwrap().to_string(), "v");
}

#[test]
fn builtin_names_and_rules() {
    assert_eq!(Builtin::from_str("ln"), Some(Builtin::Ln));
    assert_eq!(Builtin::from_str("LN"), Some(Builtin::Ln));
    assert_eq!(Builtin::from_str("log"), None);
    assert_eq!(Builtin::Ln.to_string(), "ln");
    let ctx = Ctx::new();
    let r = Builtin::Ln.reduce(&parse("x * y").unwrap(), &ctx).unwrap();
    assert_eq!(r.to_string(), "(ln(x) + ln(y))");
    let r = Builtin::Ln.reduce(&parse("x / y").unwrap(), &ctx).unwrap();
    assert_eq!(r.to_string(), "(ln(x) - ln(y))");
    let r = Builtin::Ln.reduce(&parse("1").unwrap(), &ctx).unwrap();
    assert_eq!(r.to_string(), "0");
    assert!(Builtin::Ln.reduce(&parse("x + y").unwrap(), &ctx).is_none());
}

#[test]
fn constants_by_name() {
    assert_eq!(Consts::from_str(" PI "), Some(Consts::PI));
    assert_eq!(Consts::from_str("e"), Some(Consts::E));
    assert_eq!(Consts::from_str("tau"), None);
    assert_eq!(Consts::PI.to_string(), "pi");
    assert_eq!(Consts::E.value(), Rational::unwrap_new(848456353, 312129649));
    assert_eq!(Consts::PI.value(), Rational::unwrap_new(1146408, 364913));
}

#[test]
fn next_segment_finds_first_listed_item() {
    let items = ["ab", "a", "c"];
    let mut i: usize = 0;
    assert_eq!(next_segment_in("abc", &mut i, &items), Some("ab".to_string()));
    assert_eq!(i, 2);
    assert_eq!(next_segment_in("abc", &mut i, &items), Some("c".to_string()));
    assert_eq!(i, 3);
    assert_eq!(next_segment_in("abc", &mut i, &items), None);
    assert_eq!(i, 3);
    let mut j: usize = 0;
    assert_eq!(next_segment_in("", &mut j, &items), None);
    assert_eq!(next_segment_in("abc", &mut j, &[]), None);
    assert_eq!(j, 0);
}

#[test]
fn texts_of_values_and_errors() {
    assert_eq!(Rational::unwrap_new(-6, 4).to_string(), "-3/2");
    assert_eq!(whole(7).to_string(), "7");
    assert_eq!(Token::Op(Op::Exp).to_string(), "^");
    assert_eq!(Token::Eof.to_string(), "Eof");
    assert_eq!(Error::DivisionByZero.to_string(), "division by zero");
    assert_eq!(Error::TwoDots(4).to_string(), "invalid dot at index 4");
    assert_eq!(
        Error::InvalidCharacter(2, 'x').to_string(),
        "invalid token at index 2: \"x\""
    );
    assert_eq!(
        Error::OverlapElements(vec!["a".to_string(), "b".to_string()]).to_string(),
        "overlaping element(s): a, b"
    );
    assert_eq!(
        Error::InvalidToken(Token::Comma).to_string(),
        "Invalid token: ,"
    );
    assert_eq!(Op::Div.get_info().0, 2);
}

#[test]
fn conversions_and_comparisons_with_integers() {
    assert_eq!(Rational::from(3u8), whole(3));
    assert_eq!(Rational::from(3u64), whole(3));
    assert_eq!(Rational::default(), Rational::zero());
    assert!(whole(3) == 3u32);
    assert!(whole(-3) != 3u32);
    assert!(Rational::unwrap_new(3, 2) != 1u8);
    let e: Expr = whole(4).into();
    assert_eq!(e.to_string(), "4");
}

#[test]
fn tokens_compare_by_kind_and_value() {
    assert_eq!(Token::Comma, Token::Comma);
    assert_ne!(Token::Comma, Token::LParen);
    assert_eq!(
        Token::Number(Rational::unwrap_new(1, 2)),
        Token::Number(Rational::unwrap_new(2, 4))
    );
    assert_ne!(Token::Number(whole(1)), Token::Number(whole(2)));
    assert_eq!(Token::String("ab".to_string()), Token::String("ab".to_string()));
    assert_ne!(Token::String("ab".to_string()), Token::String("a".to_string()));
    assert_eq!(Token::Op(Op::Sub), Token::Op(Op::Sub));
    assert_ne!(Token::Op(Op::Sub), Token::Op(Op::Add));
    let tokens = vec![Token::Number(whole(1)), Token::Op(Op::Add), Token::String("x".to_string())];
    let lexed = {
        let mut lexer = Lexer::new("1+x").unwrap();
        let mut out = Vec::new();
        loop {
            let t = lexer.next();
            if t == Token::Eof {
                break;
            }
            out.push(t);
        }
        out
    };
    assert_eq!(lexed, tokens);
}

#[test]
fn unsigned_integers_compare_from_either_side() {
    let three = whole(3);
    assert!(three == 3u8 && 3u8 == three);
    assert!(&three == 3u16 && 3u16 == &three);
    assert!(three == 3u128 && 3u64 == three && 3usize == three);
    assert!(!(whole(-3) == 3u32) && !(3u32 == whole(-3)));
    assert!(Rational::unwrap_new(7, 2) != 3u8);
    assert!(Rational::zero() == 0u8);
}

#[test]
fn next_segment_counts_bytes() {
    let items = ["b"];
    let mut i: usize = 2;
    assert_eq!(next_segment_in("éb", &mut i, &items), Some("b".to_string()));
    assert_eq!(i, 3);
    let mut j: usize = 1;
    assert_eq!(next_segment_in("éb", &mut j, &items), None);
    assert_eq!(j, 1);
    let mut k: usize = 1;
    assert_eq!(next_segment_in("éb", &mut k, &[""]), None);
    assert_eq!(k, 1);
    let mut z: usize = 0;
    assert_eq!(next_segment_in("éb", &mut z, &["é"]), Some("é".to_string()));
    assert_eq!(z, 2);
}

#[test]
fn bounded_evaluation_is_total() {
    let ctx = program_ctx();
    match parse("f(1,2)").unwrap().reduce_fuel(&ctx, 10) {
        Some(Ok(e)) => assert_eq!(num(&e), whole(39)),
        _ => panic!("expected a value"),
    }
    // the calls nest three deep, so two units of fuel do not suffice
    assert!(parse("f(1,2)").unwrap().reduce_fuel(&ctx, 2).is_none());
    assert!(parse("f(1,2)").unwrap().reduce_fuel(&ctx, 0).is_none());
    let mut rec = Ctx::new();
    rec.add_func(parse_func("r(x) = r(x) + 1").unwrap());
    assert!(parse("r(1)").unwrap().reduce_fuel(&rec, 50).is_none());
    let empty = Ctx::new();
    assert!(parse("1 / 0").unwrap().reduce_fuel(&empty, 5).is_none());
    assert!(parse("0 / x").unwrap().reduce_fuel(&empty, 5).is_none());
    assert!(matches!(
        parse("x / 0").unwrap().reduce_fuel(&empty, 5),
        Some(Err(Error::DivisionByZero))
    ));
    assert!(parse("170141183460469231731687303715884105727 + 1")
        .unwrap()
        .reduce_fuel(&empty, 5)
        .is_none());
    assert!(matches!(
        parse("2 ^ 1/2").unwrap().reduce_fuel(&empty, 5),
        Some(Ok(_))
    ));
    assert!(parse("g(1)").unwrap().reduce_fuel(&ctx, 5).is_none());
}

#[test]
fn pushed_expression_is_walked_before_pending_ones() {
    let pending = parse("c * d").unwrap();
    let pushed = parse("a + b").unwrap();
    let mut it = pending.into_iter();
    it.push(&pushed);
    let mut seen = Vec::new();
    while let Some(x) = it.next() {
        seen.push(x.to_string());
    }
    assert_eq!(seen, vec!["(a + b)", "a", "b", "(c * d)", "c", "d"]);
}
