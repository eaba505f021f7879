use comb::InputView;
use comb::Outcome;
use comb::Parse;
use comb::ParserError;
use comb::decimal;

fn input(s: &str) -> InputView {
    InputView::from_text(s)
}

fn text_of(v: &InputView) -> String {
    v.to_chars().into_iter().collect()
}

fn read_double(s: &str) -> (String, f64) {
    let parser = decimal();
    match parser.parse(&input(s)) {
        Outcome::Success(rem, span) => {
            let n: f64 = text_of(&span).parse().expect("recognised span must be a float literal");
            (text_of(&rem), n)
        },
        Outcome::Failure(_, _) => panic!("expected the literal to be accepted"),
    }
}

#[test]
fn decimal_round_trips_the_reference_set() {
    assert_eq!(read_double("1.0"), ("".to_string(), 1.0));
    assert_eq!(read_double("2"), ("".to_string(), 2.0));
    assert_eq!(read_double("2e2"), ("".to_string(), 200.0));
    assert_eq!(read_double("2e-2"), ("".to_string(), 0.02));
    assert_eq!(read_double("-2"), ("".to_string(), -2.0));
    assert_eq!(read_double("+2"), ("".to_string(), 2.0));
    assert_eq!(read_double("+.2"), ("".to_string(), 0.2));
    assert_eq!(read_double("-.2"), ("".to_string(), -0.2));
}

#[test]
fn decimal_rejects_non_numbers() {
    let parser = decimal();
    match parser.parse(&input("abc")) {
        Outcome::Success(_, _) => panic!("expected a failure"),
        Outcome::Failure(loc, k) => {
            assert_eq!(k, ParserError::Tag);
            assert_eq!(text_of(&loc), "abc");
        },
    }
}

#[test]
fn decimal_rejects_a_bare_point() {
    let parser = decimal();
    match parser.parse(&input(".")) {
        Outcome::Success(_, _) => panic!("expected a failure"),
        Outcome::Failure(loc, k) => {
            assert_eq!(k, ParserError::TakeWhile);
            assert_eq!(text_of(&loc), "");
        },
    }
}

#[test]
fn decimal_leaves_a_dangling_exponent_marker() {
    let (rem, n) = read_double("2e");
    assert_eq!(rem, "e");
    assert_eq!(n, 2.0);
}

#[test]
fn decimal_accepts_a_fraction_tail_without_digits() {
    let (rem, n) = read_double("3.x");
    assert_eq!(rem, "x");
    assert_eq!(n, 3.0);
}
