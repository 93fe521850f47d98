use dice_notation::parser::parse;
use dice_notation::{Error, Term, Value};

#[test]
fn it_works() {
    parse("a20+10+s2d10r2!7-3").unwrap();
}

#[test]
fn tokenizes_count_and_size() {
    let terms = parse("2d6").unwrap();
    let expected = Term {
        count: 2,
        value: Value::Bounded(6),
        ..Term::default()
    };
    assert_eq!(terms, vec![expected]);
}

#[test]
fn tokenizes_bare_number_with_defaulted_count() {
    let terms = parse("20").unwrap();
    let expected = Term {
        count: 1,
        value: Value::Bounded(20),
        ..Term::default()
    };
    assert_eq!(terms, vec![expected]);
}

#[test]
fn tokenizes_default_reroll_threshold() {
    let terms = parse("2d6r").unwrap();
    assert_eq!(terms.len(), 1);
    assert_eq!(terms[0].reroll, Some(1));
}

#[test]
fn tokenizes_explicit_reroll_threshold() {
    let terms = parse("2d6r2").unwrap();
    assert_eq!(terms.len(), 1);
    assert_eq!(terms[0].reroll, Some(2));
}

#[test]
fn tokenizes_default_explode_threshold() {
    let terms = parse("2d6!").unwrap();
    assert_eq!(terms.len(), 1);
    assert_eq!(terms[0].explode, Some(6));
}

#[test]
fn tokenizes_explicit_explode_threshold() {
    let terms = parse("2d6!5").unwrap();
    assert_eq!(terms.len(), 1);
    assert_eq!(terms[0].explode, Some(5));
}

#[test]
fn tokenizes_advantage_with_dice_separator() {
    let terms = parse("a1d20").unwrap();
    let expected = Term {
        count: 1,
        value: Value::Bounded(20),
        advantage: true,
        ..Term::default()
    };
    assert_eq!(terms, vec![expected]);
}

#[test]
fn tokenizes_disadvantage_with_dice_separator() {
    let terms = parse("s1d20").unwrap();
    let expected = Term {
        count: 1,
        value: Value::Bounded(20),
        disadvantage: true,
        ..Term::default()
    };
    assert_eq!(terms, vec![expected]);
}

#[test]
fn advantage_without_separator_equals_explicit_form() {
    // `a20` names the same die as `a1d20`: after an advantage boundary
    // the cursor scans a count/size span.
    let a = parse("a20").unwrap();
    let b = parse("a1d20").unwrap();
    let expected = Term {
        count: 1,
        value: Value::Bounded(20),
        advantage: true,
        ..Term::default()
    };
    assert_eq!(a, vec![expected]);
    assert_eq!(a, b);
}

#[test]
fn disadvantage_without_separator_equals_explicit_form() {
    let a = parse("s20").unwrap();
    let b = parse("s1d20").unwrap();
    let expected = Term {
        count: 1,
        value: Value::Bounded(20),
        disadvantage: true,
        ..Term::default()
    };
    assert_eq!(a, vec![expected]);
    assert_eq!(a, b);
}

#[test]
fn tokenizes_compound_expression() {
    let terms = parse("a20+10+s2d10r2!7-3").unwrap();
    assert_eq!(terms.len(), 4);
    assert_eq!(
        terms[0],
        Term {
            count: 1,
            value: Value::Bounded(20),
            advantage: true,
            ..Term::default()
        }
    );
    assert_eq!(
        terms[1],
        Term {
            count: 1,
            value: Value::Fixed(10),
            ..Term::default()
        }
    );
    assert_eq!(
        terms[2],
        Term {
            count: 2,
            value: Value::Bounded(10),
            disadvantage: true,
            reroll: Some(2),
            explode: Some(7),
            ..Term::default()
        }
    );
    assert_eq!(
        terms[3],
        Term {
            count: 1,
            value: Value::Fixed(3),
            invert: true,
            ..Term::default()
        }
    );
}

#[test]
fn three_part_span_is_malformed() {
    let err = parse("2d6d4").unwrap_err();
    assert!(matches!(err, Error::BadExpression(s) if s == "2d6d4"));
}

#[test]
fn non_digit_value_is_an_invalid_integer() {
    let err = parse("2dX").unwrap_err();
    assert!(matches!(err, Error::BadInteger(token, span) if token == "X" && span == "2dX"));
}

#[test]
fn oversized_threshold_is_an_invalid_integer() {
    let err = parse("2d6r99999999999").unwrap_err();
    assert!(matches!(
        err,
        Error::BadInteger(token, span) if token == "99999999999" && span == "99999999999"
    ));
}

#[test]
fn empty_input_yields_one_empty_term() {
    let terms = parse("").unwrap();
    assert_eq!(terms, vec![Term::default()]);
}

#[test]
fn interior_boundaries_drop_empty_terms_but_the_end_keeps_one() {
    // A trailing empty term is appended unconditionally...
    let alone = parse("a").unwrap();
    let expected = Term {
        advantage: true,
        ..Term::default()
    };
    assert_eq!(alone, vec![expected]);

    // ...but at an interior boundary the same empty term is dropped.
    let dropped = parse("a+3").unwrap();
    let expected = Term {
        count: 1,
        value: Value::Fixed(3),
        ..Term::default()
    };
    assert_eq!(dropped, vec![expected]);
}
