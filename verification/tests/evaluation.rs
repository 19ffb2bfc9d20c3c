use exprcalc::bindings::Bindings;
use exprcalc::num::{EvalError, Num};
use exprcalc::parser::parse;

fn eval_str(input: &str, vars: &Bindings) -> Result<Num, EvalError> {
    parse(input).unwrap().eval(vars)
}

fn assert_value(v: &Num, num: i64, den: i64) {
    assert!(v.d > 0);
    assert_eq!((v.n as i128) * (den as i128), (num as i128) * (v.d as i128));
}

#[test]
fn mul_binds_tighter_than_add() {
    let v = eval_str("2 + 3 * 4", &Bindings::new()).unwrap();
    assert_value(&v, 14, 1);
}

#[test]
fn brackets_override_precedence() {
    let v = eval_str("(2 + 3) * 4", &Bindings::new()).unwrap();
    assert_value(&v, 20, 1);
}

#[test]
fn pow_folds_left_to_right() {
    let v = eval_str("2 ^ 3 ^ 2", &Bindings::new()).unwrap();
    assert_value(&v, 64, 1);
}

#[test]
fn sub_and_div_fold_left_to_right() {
    let v = eval_str("10 - 2 - 3", &Bindings::new()).unwrap();
    assert_value(&v, 5, 1);
    let v = eval_str("8 / 2 / 2", &Bindings::new()).unwrap();
    assert_value(&v, 2, 1);
}

#[test]
fn pow_binds_tighter_than_mul() {
    let v = eval_str("2 * 3 ^ 2", &Bindings::new()).unwrap();
    assert_value(&v, 18, 1);
    let v = eval_str("100 - 10 ^ 2", &Bindings::new()).unwrap();
    assert_value(&v, 0, 1);
}

#[test]
fn division_is_exact() {
    let v = eval_str("7 / 2", &Bindings::new()).unwrap();
    assert_value(&v, 7, 2);
    let v = eval_str("2.5 * 4", &Bindings::new()).unwrap();
    assert_value(&v, 10, 1);
}

#[test]
fn bound_variable_is_read() {
    let mut vars = Bindings::new();
    vars.insert("x".to_string(), Num { n: 5, d: 1 });
    let v = eval_str("x + 1", &vars).unwrap();
    assert_value(&v, 6, 1);
}

#[test]
fn unbound_variable_fails_and_never_defaults() {
    let err = eval_str("x + 1", &Bindings::new()).unwrap_err();
    assert_eq!(err, EvalError::UnboundVariable("x".to_string()));
}

#[test]
fn first_unbound_variable_is_reported() {
    let mut vars = Bindings::new();
    vars.insert("a".to_string(), Num { n: 1, d: 1 });
    let err = eval_str("a + b", &vars).unwrap_err();
    assert_eq!(err, EvalError::UnboundVariable("b".to_string()));
}

#[test]
fn later_binding_shadows_earlier() {
    let mut vars = Bindings::new();
    vars.insert("x".to_string(), Num { n: 1, d: 1 });
    vars.insert("x".to_string(), Num { n: 2, d: 1 });
    let v = eval_str("x", &vars).unwrap();
    assert_value(&v, 2, 1);
}

#[test]
fn division_by_zero_fails() {
    let err = eval_str("1 / 0", &Bindings::new()).unwrap_err();
    assert_eq!(err, EvalError::DivisionByZero);
}

#[test]
fn fractional_exponent_fails() {
    let err = eval_str("2 ^ 0.5", &Bindings::new()).unwrap_err();
    assert_eq!(err, EvalError::NonIntegerExponent);
}

#[test]
fn overflow_fails() {
    let err = eval_str("9999999999 * 9999999999", &Bindings::new()).unwrap_err();
    assert_eq!(err, EvalError::Overflow);
}

#[test]
fn negative_exponent_takes_reciprocal() {
    let v = eval_str("2 ^ (0 - 2)", &Bindings::new()).unwrap();
    assert_value(&v, 1, 4);
}

#[test]
fn zero_and_one_powers() {
    let v = eval_str("0 ^ 0", &Bindings::new()).unwrap();
    assert_value(&v, 1, 1);
    let v = eval_str("5 ^ 0", &Bindings::new()).unwrap();
    assert_value(&v, 1, 1);
    let v = eval_str("2 ^ 10", &Bindings::new()).unwrap();
    assert_value(&v, 1024, 1);
    let v = eval_str("0 ^ 3", &Bindings::new()).unwrap();
    assert_value(&v, 0, 1);
}

#[test]
fn replace_vars_then_empty_eval_matches_direct_eval() {
    let mut vars = Bindings::new();
    vars.insert("x".to_string(), Num { n: 3, d: 1 });
    vars.insert("y".to_string(), Num { n: 4, d: 1 });
    let e = parse("x * y + 2").unwrap();
    let direct = e.eval(&vars).unwrap();
    let specialized = e.replace_vars(&vars).unwrap();
    let via_replace = specialized.eval(&Bindings::new()).unwrap();
    assert_eq!(direct, via_replace);
    assert_value(&direct, 14, 1);
}

#[test]
fn replace_vars_leaves_original_usable() {
    let mut vars = Bindings::new();
    vars.insert("x".to_string(), Num { n: 2, d: 1 });
    let e = parse("x + x").unwrap();
    let _specialized = e.replace_vars(&vars).unwrap();
    let v = e.eval(&vars).unwrap();
    assert_value(&v, 4, 1);
}

#[test]
fn replace_vars_fails_on_unbound_name() {
    let e = parse("x + y").unwrap();
    let mut vars = Bindings::new();
    vars.insert("x".to_string(), Num { n: 1, d: 1 });
    let err = e.replace_vars(&vars).unwrap_err();
    assert_eq!(err, EvalError::UnboundVariable("y".to_string()));
}

#[test]
fn bindings_lookup() {
    let mut vars = Bindings::new();
    assert_eq!(vars.get("pi"), None);
    vars.insert("pi".to_string(), Num { n: 314159, d: 100000 });
    let v = vars.get("pi").unwrap();
    assert_value(&v, 314159, 100000);
    assert_eq!(vars.get("e"), None);
}
