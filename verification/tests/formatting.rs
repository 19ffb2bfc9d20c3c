use exprcalc::bindings::Bindings;
use exprcalc::num::Num;
use exprcalc::parser::parse;

#[test]
fn renders_with_minimal_parentheses() {
    assert_eq!(parse("2 + 3 * 4").unwrap().render(), "2 + 3 * 4");
    assert_eq!(parse("(2 + 3) * 4").unwrap().render(), "(2 + 3) * 4");
    assert_eq!(parse("((2 + 3)) * (4 * 5)").unwrap().render(), "(2 + 3) * 4 * 5");
    assert_eq!(parse("2 ^ 3 ^ 2").unwrap().render(), "(2 ^ 3) ^ 2");
    assert_eq!(parse("(1 + 2) - 3").unwrap().render(), "1 + 2 - 3");
    assert_eq!(parse("x / (y * 2)").unwrap().render(), "x / y * 2");
}

#[test]
fn renders_numbers() {
    assert_eq!(Num { n: 14, d: 1 }.render(), "14");
    assert_eq!(Num { n: -6, d: 3 }.render(), "-2");
    assert_eq!(Num { n: 5, d: 2 }.render(), "(5 / 2)");
    assert_eq!(Num { n: 0, d: 7 }.render(), "0");
    assert_eq!(Num { n: 25, d: 10 }.render(), "(25 / 10)");
}

#[test]
fn renders_decimal_value_as_exact_division() {
    assert_eq!(parse("2.5").unwrap().render(), "(25 / 10)");
}

#[test]
fn reparsing_rendered_text_evaluates_the_same() {
    let inputs = [
        "2 + 3 * 4",
        "(2 + 3) * 4",
        "2 ^ 3 ^ 2",
        "1 + 2 * 3 ^ 2 - 4 / 2",
        "2.5 * 4",
        "(1 + 2) * (3 - 4) / 5",
        "7 / 2 + 0.5",
    ];
    for input in inputs {
        let e = parse(input).unwrap();
        let rendered = e.render();
        let e2 = parse(&rendered).unwrap();
        let v1 = e.eval(&Bindings::new()).unwrap();
        let v2 = e2.eval(&Bindings::new()).unwrap();
        assert_eq!(
            (v1.n as i128) * (v2.d as i128),
            (v2.n as i128) * (v1.d as i128),
            "round trip changed the value of {input}"
        );
    }
}

#[test]
fn rendered_variables_keep_their_names() {
    assert_eq!(parse("x1 + yz").unwrap().render(), "x1 + yz");
}
