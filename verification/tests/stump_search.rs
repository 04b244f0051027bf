use gradient_boost::rat::{rat_add, rat_div_count, rat_eqv, rat_le, rat_lt, rat_mul, rat_sub, Rat};
use gradient_boost::regressor::DecisionStump;

fn iv(n: i64) -> Rat {
    Rat::from_int(n)
}

fn qv(num: i64, den: i64) -> Rat {
    Rat::new(num, den)
}

#[test]
fn fallback_stump_single_row() {
    let x = vec![vec![iv(5)]];
    let y = vec![iv(3)];
    let stump = DecisionStump::fit(&x, &y).unwrap();
    assert_eq!(stump.feature_index, 0);
    assert!(rat_eqv(&stump.threshold, &iv(0)));
    assert!(rat_eqv(&stump.left_value, &iv(0)));
    assert!(rat_eqv(&stump.right_value, &iv(0)));
}

#[test]
fn fallback_stump_constant_feature() {
    let x = vec![vec![iv(7)], vec![iv(7)], vec![iv(7)]];
    let y = vec![iv(1), iv(2), iv(3)];
    let stump = DecisionStump::fit(&x, &y).unwrap();
    assert_eq!(stump.feature_index, 0);
    assert!(rat_eqv(&stump.threshold, &iv(0)));
    assert!(rat_eqv(&stump.left_value, &iv(0)));
    assert!(rat_eqv(&stump.right_value, &iv(0)));
}

#[test]
fn best_split_beats_single_leaf_baseline() {
    let x: Vec<Vec<Rat>> = (1..=5).map(|v| vec![iv(v)]).collect();
    let y: Vec<Rat> = (1..=5).map(iv).collect();
    let stump = DecisionStump::fit(&x, &y).unwrap();
    assert_eq!(stump.feature_index, 0);
    assert!(rat_eqv(&stump.threshold, &iv(2)));
    assert!(rat_eqv(&stump.left_value, &qv(3, 2)));
    assert!(rat_eqv(&stump.right_value, &iv(4)));
    // Split error versus assigning the global mean 3 to every row: the
    // baseline error is 4 + 1 + 0 + 1 + 4 = 10, the split error is 2.5.
    let mut split_err = 0.0f64;
    let mut base_err = 0.0f64;
    for i in 0..y.len() {
        let p = stump.predict(&x[i]);
        let yi = y[i].num as f64 / y[i].den as f64;
        let pi = p.num as f64 / p.den as f64;
        split_err += (yi - pi) * (yi - pi);
        base_err += (yi - 3.0) * (yi - 3.0);
    }
    assert!((split_err - 2.5).abs() < 1e-9);
    assert!((base_err - 10.0).abs() < 1e-9);
    assert!(split_err <= base_err);
}

#[test]
fn first_best_split_wins_ties() {
    let x: Vec<Vec<Rat>> = (1..=4).map(|v| vec![iv(v)]).collect();
    let y = vec![iv(1), iv(1), iv(1), iv(1)];
    let stump = DecisionStump::fit(&x, &y).unwrap();
    // Every split has zero error; the first threshold in row order is kept.
    assert_eq!(stump.feature_index, 0);
    assert!(rat_eqv(&stump.threshold, &iv(1)));
    assert!(rat_eqv(&stump.left_value, &iv(1)));
    assert!(rat_eqv(&stump.right_value, &iv(1)));
}

#[test]
fn second_feature_can_win() {
    // Feature 0 never separates the targets cleanly; feature 1 does.
    let x = vec![
        vec![iv(1), iv(10)],
        vec![iv(1), iv(20)],
        vec![iv(1), iv(10)],
        vec![iv(1), iv(20)],
    ];
    let y = vec![iv(0), iv(8), iv(0), iv(8)];
    let stump = DecisionStump::fit(&x, &y).unwrap();
    assert_eq!(stump.feature_index, 1);
    assert!(rat_eqv(&stump.threshold, &iv(10)));
    assert!(rat_eqv(&stump.left_value, &iv(0)));
    assert!(rat_eqv(&stump.right_value, &iv(8)));
}

#[test]
fn tie_goes_left_in_predict() {
    let stump = DecisionStump {
        feature_index: 0,
        threshold: iv(2),
        left_value: iv(10),
        right_value: iv(20),
    };
    assert!(rat_eqv(&stump.predict(&vec![iv(2)]), &iv(10)));
    assert!(rat_eqv(&stump.predict(&vec![iv(1)]), &iv(10)));
    assert!(rat_eqv(&stump.predict(&vec![iv(3)]), &iv(20)));
}

#[test]
fn stump_predict_uses_its_feature() {
    let stump = DecisionStump {
        feature_index: 1,
        threshold: iv(0),
        left_value: iv(-1),
        right_value: iv(1),
    };
    assert!(rat_eqv(&stump.predict(&vec![iv(100), iv(-5)]), &iv(-1)));
    assert!(rat_eqv(&stump.predict(&vec![iv(-100), iv(5)]), &iv(1)));
}

#[test]
fn rational_arithmetic_is_exact() {
    let half = qv(1, 2);
    let third = qv(1, 3);
    assert!(rat_eqv(&rat_add(&half, &third).unwrap(), &qv(5, 6)));
    assert!(rat_eqv(&rat_sub(&half, &third).unwrap(), &qv(1, 6)));
    assert!(rat_eqv(&rat_mul(&qv(2, 3), &qv(3, 4)).unwrap(), &qv(1, 2)));
    assert!(rat_eqv(&rat_div_count(&qv(3, 2), 3).unwrap(), &qv(1, 2)));
    // Equal denominators are kept as they are.
    let s = rat_add(&qv(1, 4), &qv(2, 4)).unwrap();
    assert_eq!(s.num, 3);
    assert_eq!(s.den, 4);
}

#[test]
fn rational_order_is_exact() {
    assert!(rat_lt(&qv(1, 3), &qv(1, 2)));
    assert!(rat_le(&qv(2, 4), &qv(1, 2)));
    assert!(rat_le(&qv(-1, 2), &qv(1, 3)));
    assert!(!rat_le(&qv(1, 2), &qv(-1, 2)));
    assert!(rat_lt(&qv(-3, 2), &qv(-1, 3)));
}

#[test]
fn rational_overflow_is_reported() {
    let big = Rat::from_int(i64::MAX);
    assert!(rat_add(&big, &big).is_none());
    assert!(rat_mul(&big, &big).is_none());
    assert!(rat_add(&qv(1, 2), &qv(1, 3)).is_some());
}
