use dice_notation::parser::parse;
use dice_notation::realize::{realize, try_realize, FixedRoller};

#[test]
fn reroll_discards_low_draws() {
    // First die rolls 6 and keeps it; the second rolls 1, discards it via
    // the reroll threshold, then rolls 5 and keeps it.
    let terms = parse("2d6r").unwrap();
    let mut roller = FixedRoller::new(vec![6, 1, 5]);
    let result = realize(&terms, &mut roller);
    assert_eq!(result.sum, 11);
}

#[test]
fn explode_accumulates_high_draws() {
    // The first die explodes on 6 and accumulates, the next draw of 2
    // stops it at 8; the second die draws 5.
    let terms = parse("2d6!").unwrap();
    let mut roller = FixedRoller::new(vec![6, 2, 5]);
    let result = realize(&terms, &mut roller);
    assert_eq!(result.sum, 13);
}

#[test]
fn plain_term_draws_once_per_die() {
    let terms = parse("2d6").unwrap();
    let mut roller = FixedRoller::new(vec![3, 4]);
    let result = realize(&terms, &mut roller);
    assert_eq!(result.sum, 7);
    assert_eq!(roller.position(), 2);
}

#[test]
fn advantage_draws_twice_and_keeps_the_larger() {
    let terms = parse("a1d20").unwrap();
    let mut roller = FixedRoller::new(vec![5, 15]);
    let result = realize(&terms, &mut roller);
    assert_eq!(result.sum, 15);
    assert_eq!(roller.position(), 2);
}

#[test]
fn disadvantage_draws_twice_and_keeps_the_smaller() {
    let terms = parse("s1d20").unwrap();
    let mut roller = FixedRoller::new(vec![5, 15]);
    let result = realize(&terms, &mut roller);
    assert_eq!(result.sum, 5);
    assert_eq!(roller.position(), 2);
}

#[test]
fn same_draws_give_the_same_sum() {
    let terms = parse("2d6r!").unwrap();
    let mut first = FixedRoller::new(vec![2, 6, 3, 4]);
    let mut second = FixedRoller::new(vec![2, 6, 3, 4]);
    let a = realize(&terms, &mut first);
    let b = realize(&terms, &mut second);
    assert_eq!(a.sum, b.sum);
    assert_eq!(a.terms, b.terms);
}

#[test]
fn bounds_ignore_reroll_and_explode() {
    let terms = parse("2d6").unwrap();
    let mut roller = FixedRoller::new(vec![1, 6]);
    let result = realize(&terms, &mut roller);
    assert_eq!(result.terms.len(), 1);
    assert_eq!(result.terms[0].min, 2);
    assert_eq!(result.terms[0].max, 12);
    assert_eq!(result.terms[0].realized, 7);
}

#[test]
fn inverted_dice_term_negates_total_and_bounds() {
    let terms = parse("1+2d6").unwrap();
    // A minus boundary inverts the dice term that follows it.
    let inverted = parse("1-2d6").unwrap();
    let mut roller = FixedRoller::new(vec![1, 3, 4]);
    let plain = realize(&terms, &mut roller);
    let mut roller = FixedRoller::new(vec![1, 3, 4]);
    let negated = realize(&inverted, &mut roller);
    assert_eq!(plain.terms[1].realized, 7);
    assert_eq!(negated.terms[1].realized, -7);
    assert_eq!(negated.terms[1].min, -12);
    assert_eq!(negated.terms[1].max, -2);
}

#[test]
fn inverted_fixed_term_keeps_its_sign() {
    // Sign inversion does not apply to fixed modifiers: `-3` still
    // contributes positive 3 to the sum.
    let terms = parse("2d6-3").unwrap();
    let mut roller = FixedRoller::new(vec![1, 2]);
    let result = realize(&terms, &mut roller);
    assert_eq!(result.terms[1].realized, 3);
    assert_eq!(result.sum, 6);
}

#[test]
fn compound_expression_realizes_in_order() {
    let terms = parse("a20+10+s2d10r2!7-3").unwrap();
    let mut roller = FixedRoller::new(vec![7, 12, 3, 9, 5, 2, 4, 6]);
    let result = realize(&terms, &mut roller);
    // The advantage d20 keeps the larger of 7 and 12; the flat 10 draws
    // nothing. The disadvantage dice keep the smaller of each pair: the
    // first die keeps 3, the second keeps 2, rerolls it, and keeps 4.
    // The trailing fixed 3 keeps its sign.
    assert_eq!(result.sum, 12 + 10 + (3 + 4) + 3);
    assert_eq!(roller.position(), 8);
}

#[test]
fn empty_expression_realizes_to_zero() {
    let terms = parse("").unwrap();
    let mut roller = FixedRoller::new(vec![]);
    let result = realize(&terms, &mut roller);
    assert_eq!(result.sum, 0);
    assert_eq!(roller.position(), 0);
}

#[test]
fn zero_faced_die_cannot_be_realized() {
    let terms = parse("2d0").unwrap();
    let mut roller = FixedRoller::new(vec![1, 2]);
    assert!(try_realize(&terms, &mut roller).is_none());

    let fine = parse("2d6").unwrap();
    let mut roller = FixedRoller::new(vec![1, 2]);
    let result = try_realize(&fine, &mut roller).unwrap();
    assert_eq!(result.sum, 3);
}

#[test]
fn exhausted_roller_keeps_yielding_ones() {
    let terms = parse("3d6").unwrap();
    let mut roller = FixedRoller::new(vec![4]);
    let result = realize(&terms, &mut roller);
    assert_eq!(result.sum, 6);
}

#[test]
fn reroll_loop_stops_at_the_step_cap() {
    // A reroll threshold at the die size would discard draws forever;
    // the step cap ends the die with the last candidate.
    let terms = parse("1d6r6").unwrap();
    let mut roller = FixedRoller::new(vec![2]);
    let result = realize(&terms, &mut roller);
    assert_eq!(result.sum, 1);
}
