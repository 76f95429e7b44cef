use matheval::error::{Error, EvalError, LexErrorKind, ParseErrorKind};
use matheval::eval::{standard_context, Context};
use matheval::evaluate;
use matheval::num::Rat;

fn eval_std(src: &[u8]) -> Result<Rat, Error> {
    let ctx = standard_context();
    evaluate(src, &ctx)
}

fn assert_value(src: &[u8], num: i64, den: i64) {
    let r = eval_std(src).unwrap();
    assert!(
        r.eq_value(Rat::new(num, den)),
        "wrong value: {}/{} instead of {}/{}",
        r.num,
        r.den,
        num,
        den
    );
}

#[test]
fn literal_integer() {
    let r = eval_std(b"1").unwrap();
    assert_eq!(r.num, 1);
    assert_eq!(r.den, 1);
}

#[test]
fn literal_decimal() {
    // 1.5 == 3/2
    assert_value(b"1.5", 3, 2);
}

#[test]
fn literal_exponent() {
    // 1e-3 == 1/1000
    assert_value(b"1e-3", 1, 1000);
    assert_value(b"2e3", 2000, 1);
    assert_value(b"1.25e2", 125, 1);
    assert_value(b"0e999999999999", 0, 1);
}

#[test]
fn literal_out_of_range() {
    match eval_std(b"1e400") {
        Err(Error::Lex(le)) => assert_eq!(le.kind, LexErrorKind::LiteralOutOfRange),
        other => panic!("expected a lex error, got {:?}", other),
    }
    match eval_std(b"99999999999999999999") {
        Err(Error::Lex(le)) => assert_eq!(le.kind, LexErrorKind::LiteralOutOfRange),
        other => panic!("expected a lex error, got {:?}", other),
    }
}

#[test]
fn literal_malformed() {
    match eval_std(b"1.") {
        Err(Error::Lex(le)) => assert_eq!(le.kind, LexErrorKind::MalformedNumber),
        other => panic!("expected a lex error, got {:?}", other),
    }
    match eval_std(b"1e+") {
        Err(Error::Lex(le)) => assert_eq!(le.kind, LexErrorKind::MalformedNumber),
        other => panic!("expected a lex error, got {:?}", other),
    }
}

#[test]
fn unrecognized_char() {
    match eval_std(b"2 @ 3") {
        Err(Error::Lex(le)) => {
            assert_eq!(le.kind, LexErrorKind::UnrecognizedChar);
            assert_eq!(le.pos, 2);
        },
        other => panic!("expected a lex error, got {:?}", other),
    }
}

#[test]
fn precedence_mul_before_add() {
    assert_value(b"2+3*4", 14, 1);
}

#[test]
fn power_right_associative() {
    // 3**2 == 9, then 2**9 == 512
    assert_value(b"2**3**2", 512, 1);
}

#[test]
fn division_left_associative() {
    assert_value(b"8/4/2", 1, 1);
}

#[test]
fn unary_binds_looser_than_power() {
    // -2**2 == -(2**2) == -4
    assert_value(b"-2**2", -4, 1);
}

#[test]
fn parenthesization_round_trip() {
    let plain = eval_std(b"2+3*4").unwrap();
    let wrapped = eval_std(b"(2+3*4)").unwrap();
    assert_eq!(plain.num, wrapped.num);
    assert_eq!(plain.den, wrapped.den);
    assert_value(b"(2+3)*4", 20, 1);
}

#[test]
fn undefined_name_fails() {
    match eval_std(b"x+1") {
        Err(Error::Eval(ee)) => assert_eq!(ee, EvalError::UndefinedName),
        other => panic!("expected an eval error, got {:?}", other),
    }
}

#[test]
fn division_by_zero_fails() {
    match eval_std(b"1/0") {
        Err(Error::Eval(ee)) => assert_eq!(ee, EvalError::DomainError),
        other => panic!("expected an eval error, got {:?}", other),
    }
}

#[test]
fn unbalanced_parentheses_fail() {
    match eval_std(b"(1+2") {
        Err(Error::Parse(pe)) => assert_eq!(pe.kind, ParseErrorKind::UnbalancedParen),
        other => panic!("expected a parse error, got {:?}", other),
    }
}

#[test]
fn function_arity() {
    assert_value(b"max(1,2)", 2, 1);
    match eval_std(b"max(1)") {
        Err(Error::Eval(ee)) => assert_eq!(ee, EvalError::ArityMismatch),
        other => panic!("expected an eval error, got {:?}", other),
    }
    match eval_std(b"max(1,2,3)") {
        Err(Error::Eval(ee)) => assert_eq!(ee, EvalError::ArityMismatch),
        other => panic!("expected an eval error, got {:?}", other),
    }
}

#[test]
fn evaluation_is_deterministic() {
    let ctx = standard_context();
    let a = evaluate(b"2+3*4", &ctx);
    let b = evaluate(b"2+3*4", &ctx);
    assert_eq!(a, b);
    let c = evaluate(b"x+1", &ctx);
    let d = evaluate(b"x+1", &ctx);
    assert_eq!(c, d);
}

#[test]
fn unknown_function() {
    match eval_std(b"foo(1)") {
        Err(Error::Eval(ee)) => assert_eq!(ee, EvalError::UnknownFunction),
        other => panic!("expected an eval error, got {:?}", other),
    }
}

#[test]
fn builtin_abs_min_max() {
    assert_value(b"abs(-3)", 3, 1);
    assert_value(b"abs(3)", 3, 1);
    assert_value(b"min(2,3)", 2, 1);
    assert_value(b"min(3,2)", 2, 1);
    assert_value(b"max(-1,-2)", -1, 1);
    assert_value(b"max(min(5,4),abs(-2))", 4, 1);
}

#[test]
fn missing_operand() {
    match eval_std(b"2+*3") {
        Err(Error::Parse(pe)) => assert_eq!(pe.kind, ParseErrorKind::MissingOperand),
        other => panic!("expected a parse error, got {:?}", other),
    }
    match eval_std(b"") {
        Err(Error::Parse(pe)) => assert_eq!(pe.kind, ParseErrorKind::MissingOperand),
        other => panic!("expected a parse error, got {:?}", other),
    }
}

#[test]
fn trailing_token() {
    match eval_std(b"1 2") {
        Err(Error::Parse(pe)) => assert_eq!(pe.kind, ParseErrorKind::TrailingToken),
        other => panic!("expected a parse error, got {:?}", other),
    }
}

#[test]
fn misplaced_comma() {
    match eval_std(b"1,2") {
        Err(Error::Parse(pe)) => assert_eq!(pe.kind, ParseErrorKind::MisplacedComma),
        other => panic!("expected a parse error, got {:?}", other),
    }
    // a comma inside a grouping is not an argument separator
    match eval_std(b"(1,2)") {
        Err(Error::Parse(_)) => {},
        other => panic!("expected a parse error, got {:?}", other),
    }
}

#[test]
fn nested_parentheses() {
    assert_value(b"((2))", 2, 1);
    assert_value(b"-(2+3)", -5, 1);
}

#[test]
fn modulo_truncated() {
    assert_value(b"7%3", 1, 1);
    assert_value(b"-7%3", -1, 1);
    match eval_std(b"7.5%2") {
        Err(Error::Eval(ee)) => assert_eq!(ee, EvalError::DomainError),
        other => panic!("expected an eval error, got {:?}", other),
    }
    match eval_std(b"5%0") {
        Err(Error::Eval(ee)) => assert_eq!(ee, EvalError::DomainError),
        other => panic!("expected an eval error, got {:?}", other),
    }
}

#[test]
fn power_cases() {
    assert_value(b"2**0", 1, 1);
    assert_value(b"2**-1", 1, 2);
    assert_value(b"(-2)**3", -8, 1);
    assert_value(b"0**0", 1, 1);
    // a fractional exponent is undefined in exact arithmetic
    match eval_std(b"2**0.5") {
        Err(Error::Eval(ee)) => assert_eq!(ee, EvalError::DomainError),
        other => panic!("expected an eval error, got {:?}", other),
    }
    // zero to a negative power is undefined
    match eval_std(b"0**-1") {
        Err(Error::Eval(ee)) => assert_eq!(ee, EvalError::DomainError),
        other => panic!("expected an eval error, got {:?}", other),
    }
}

#[test]
fn overflow_is_reported() {
    match eval_std(b"9223372036854775807 + 1") {
        Err(Error::Eval(ee)) => assert_eq!(ee, EvalError::Overflow),
        other => panic!("expected an eval error, got {:?}", other),
    }
    match eval_std(b"2**200") {
        Err(Error::Eval(ee)) => assert_eq!(ee, EvalError::Overflow),
        other => panic!("expected an eval error, got {:?}", other),
    }
}

#[test]
fn whitespace_is_skipped() {
    assert_value(b" 2 +\t3 \n", 5, 1);
}

#[test]
fn unary_plus_and_double_minus() {
    assert_value(b"+5", 5, 1);
    assert_value(b"--5", 5, 1);
    assert_value(b"2--3", 5, 1);
}

#[test]
fn standard_constants() {
    let pi = eval_std(b"pi").unwrap();
    assert_eq!(pi.num, 245850922);
    assert_eq!(pi.den, 78256779);
    let e = eval_std(b"e").unwrap();
    assert_eq!(e.num, 271801);
    assert_eq!(e.den, 99990);
}

#[test]
fn context_shadowing() {
    let mut ctx = standard_context();
    ctx.set(vec![120u8], Rat::from_int(7));  // x = 7
    let r = evaluate(b"x+1", &ctx).unwrap();
    assert!(r.eq_value(Rat::from_int(8)));
    // a later binding shadows the standard one without rebuilding it
    ctx.set(vec![112u8, 105u8], Rat::from_int(3));  // pi = 3
    let r = evaluate(b"pi*2", &ctx).unwrap();
    assert!(r.eq_value(Rat::from_int(6)));
}

#[test]
fn depth_limit_too_complex() {
    let ctx = Context::new(2);
    match evaluate(b"1+1+1", &ctx) {
        Err(Error::Eval(ee)) => assert_eq!(ee, EvalError::TooComplex),
        other => panic!("expected an eval error, got {:?}", other),
    }
    let ok = evaluate(b"1+1", &ctx).unwrap();
    assert!(ok.eq_value(Rat::from_int(2)));
}

#[test]
fn rational_division_is_exact() {
    assert_value(b"1/3", 1, 3);
    assert_value(b"1/3*3", 1, 1);
    assert_value(b"2/4+1/4", 3, 4);
}

#[test]
fn call_with_expression_arguments() {
    assert_value(b"max(1+1, 2*0)", 2, 1);
    assert_value(b"min((3), 4)", 3, 1);
}

#[test]
fn error_positions() {
    match eval_std(b"(1+2") {
        Err(Error::Parse(pe)) => assert_eq!(pe.pos, 4),
        other => panic!("expected a parse error, got {:?}", other),
    }
    match eval_std(b"12 34") {
        Err(Error::Parse(pe)) => assert_eq!(pe.pos, 3),
        other => panic!("expected a parse error, got {:?}", other),
    }
}
