use dice_notation::{Advantage, Explode, Expression, ExpressionParser, Reroll};

#[test]
fn bounded_expression() {
    let expression = parse("2d6");
    assert_eq!(count_max(2, 6), expression);
}

#[test]
fn leading_bounded_expression() {
    let expression = parse("20");
    assert_eq!(count_max(1, 20), expression);
}

#[test]
fn bounded_expression_with_reroll() {
    let actual = parse("2d6r");
    let expected = Expression {
        count: 2,
        max: 6,
        reroll: Some(Reroll(1)),
        ..Default::default()
    };

    assert_eq!(actual, expected);
}

#[test]
fn bounded_expression_with_reroll_2() {
    let actual = parse("2d6r2");
    let expected = Expression {
        count: 2,
        max: 6,
        reroll: Some(Reroll(2)),
        ..Default::default()
    };

    assert_eq!(actual, expected);
}

#[test]
fn bounded_expression_with_explode() {
    let actual = parse("2d6!");
    let expected = Expression {
        count: 2,
        max: 6,
        explode: Some(Explode(6)),
        ..Default::default()
    };

    assert_eq!(actual, expected);
}

#[test]
fn bounded_expression_with_explode_5() {
    let actual = parse("2d6!5");
    let expected = Expression {
        count: 2,
        max: 6,
        explode: Some(Explode(5)),
        ..Default::default()
    };

    assert_eq!(actual, expected);
}

#[test]
fn bounded_expression_with_reroll_and_explode() {
    let actual = parse("2d6r!");
    let expected = Expression {
        count: 2,
        max: 6,
        reroll: Some(Reroll(1)),
        explode: Some(Explode(6)),
        ..Default::default()
    };

    assert_eq!(actual, expected);
}

#[test]
fn bounded_expression_with_reroll_and_explode_non_default_thresholds() {
    let actual = parse("2d6r2!5");
    let expected = Expression {
        count: 2,
        max: 6,
        reroll: Some(Reroll(2)),
        explode: Some(Explode(5)),
        ..Default::default()
    };

    assert_eq!(actual, expected);
}

#[test]
fn bounded_expression_with_advantage() {
    let a = parse("a20");
    let b = parse("a1d20");

    let expected = Expression {
        count: 1,
        max: 20,
        advantage: Some(Advantage::Advantage),
        ..Default::default()
    };

    assert_eq!(a, expected);
    assert_eq!(b, expected);
}

#[test]
fn bounded_expression_with_disadvantage() {
    let a = parse("s20");
    let b = parse("s1d20");

    let expected = Expression {
        count: 1,
        max: 20,
        advantage: Some(Advantage::Disadvantage),
        ..Default::default()
    };

    assert_eq!(a, expected);
    assert_eq!(b, expected);
}

#[test]
fn modifier_is_picked_up() {
    let actual = parse("2d6+3");
    assert_eq!(actual.modifier, 3);

    let negative = parse("2d6-3");
    assert_eq!(negative.modifier, -3);
}

#[test]
fn unmatched_expression_is_an_error() {
    let err = ExpressionParser::new().parse("xyz").unwrap_err();
    assert!(matches!(err, dice_notation::Error::BadExpression(s) if s == "xyz"));
}

fn parse(s: &str) -> Expression {
    ExpressionParser::new().parse(s).unwrap()
}

fn count_max(count: i32, max: i32) -> Expression {
    Expression {
        count,
        max,
        ..Default::default()
    }
}
