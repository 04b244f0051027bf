use gradient_boost::rat::{rat_eqv, Rat};
use gradient_boost::regressor::{FitOutcome, GradientBoostingRegressor};

fn ri(n: i64) -> Rat {
    Rat::from_int(n)
}

fn rq(num: i64, den: i64) -> Rat {
    Rat::new(num, den)
}

fn rat_f64(r: &Rat) -> f64 {
    r.num as f64 / r.den as f64
}

#[test]
fn guard_no_op_empty_x_and_y() {
    let mut model = GradientBoostingRegressor::new(3, rq(1, 2));
    let x: Vec<Vec<Rat>> = vec![];
    let y: Vec<Rat> = vec![];
    assert_eq!(model.fit(&x, &y), FitOutcome::SkippedInvalidInput);
    assert!(rat_eqv(&model.initial_prediction(), &ri(0)));
    assert_eq!(model.stump_count(), 0);
}

#[test]
fn guard_no_op_empty_y_only() {
    let mut model = GradientBoostingRegressor::new(3, rq(1, 2));
    let x = vec![vec![ri(1)]];
    let y: Vec<Rat> = vec![];
    assert_eq!(model.fit(&x, &y), FitOutcome::SkippedInvalidInput);
    assert!(rat_eqv(&model.initial_prediction(), &ri(0)));
    assert_eq!(model.stump_count(), 0);
}

#[test]
fn guard_no_op_mismatched_lengths() {
    let mut model = GradientBoostingRegressor::new(3, rq(1, 2));
    let x = vec![vec![ri(1)], vec![ri(2)]];
    let y = vec![ri(1)];
    assert_eq!(model.fit(&x, &y), FitOutcome::SkippedInvalidInput);
    assert!(rat_eqv(&model.initial_prediction(), &ri(0)));
    assert_eq!(model.stump_count(), 0);
}

#[test]
fn end_to_end_linear_single_round() {
    let x: Vec<Vec<Rat>> = (1..=5).map(|v| vec![ri(v)]).collect();
    let y: Vec<Rat> = (1..=5).map(ri).collect();
    let mut model = GradientBoostingRegressor::new(1, ri(1));
    assert_eq!(model.fit(&x, &y), FitOutcome::Trained);
    assert!(rat_eqv(&model.initial_prediction(), &ri(3)));
    assert_eq!(model.stump_count(), 1);
    let stump = model.stump_at(0);
    assert_eq!(stump.feature_index, 0);
    assert!(rat_eqv(&stump.threshold, &ri(2)));
    assert!(rat_eqv(&stump.left_value, &rq(-3, 2)));
    assert!(rat_eqv(&stump.right_value, &ri(1)));
    let preds = model.predict(&vec![vec![ri(1)]]).unwrap();
    assert_eq!(preds.len(), 1);
    assert!(rat_eqv(&preds[0], &rq(3, 2)));
    // The prediction moved closer to the true value 1 than the bare baseline 3.
    assert!((rat_f64(&preds[0]) - 1.0).abs() < (3.0f64 - 1.0).abs());
}

#[test]
fn prediction_shape_and_order() {
    let x: Vec<Vec<Rat>> = (1..=5).map(|v| vec![ri(v)]).collect();
    let y: Vec<Rat> = (1..=5).map(ri).collect();
    let mut model = GradientBoostingRegressor::new(1, ri(1));
    assert_eq!(model.fit(&x, &y), FitOutcome::Trained);
    let x_new = vec![vec![ri(0)], vec![ri(10)], vec![ri(2)]];
    let preds = model.predict(&x_new).unwrap();
    assert_eq!(preds.len(), 3);
    assert!(rat_eqv(&preds[0], &rq(3, 2)));
    assert!(rat_eqv(&preds[1], &ri(4)));
    assert!(rat_eqv(&preds[2], &rq(3, 2)));
}

#[test]
fn monotone_round_count() {
    let x = vec![vec![ri(1)], vec![ri(2)]];
    let y = vec![ri(1), ri(2)];
    let mut model = GradientBoostingRegressor::new(3, rq(1, 2));
    assert_eq!(model.fit(&x, &y), FitOutcome::Trained);
    assert_eq!(model.stump_count(), 3);
}

#[test]
fn deterministic_fit_and_predict() {
    let x = vec![vec![ri(1)], vec![ri(2)]];
    let y = vec![ri(1), ri(2)];
    let x_new = vec![vec![ri(1)], vec![ri(2)], vec![ri(3)]];
    let mut a = GradientBoostingRegressor::new(3, rq(1, 2));
    let mut b = GradientBoostingRegressor::new(3, rq(1, 2));
    assert_eq!(a.fit(&x, &y), FitOutcome::Trained);
    assert_eq!(b.fit(&x, &y), FitOutcome::Trained);
    assert_eq!(a.initial_prediction(), b.initial_prediction());
    assert_eq!(a.stump_count(), b.stump_count());
    for i in 0..a.stump_count() {
        assert_eq!(a.stump_at(i), b.stump_at(i));
    }
    let pa = a.predict(&x_new).unwrap();
    let pb = b.predict(&x_new).unwrap();
    assert_eq!(pa, pb);
}

#[test]
fn residual_shrinkage_across_rounds() {
    let x = vec![vec![ri(1)], vec![ri(2)]];
    let y = vec![ri(1), ri(2)];
    let mut last_sse = f64::INFINITY;
    for rounds in 1..=3 {
        let mut model = GradientBoostingRegressor::new(rounds, rq(1, 2));
        assert_eq!(model.fit(&x, &y), FitOutcome::Trained);
        let preds = model.predict(&x).unwrap();
        let mut sse = 0.0f64;
        for i in 0..y.len() {
            let d = rat_f64(&y[i]) - rat_f64(&preds[i]);
            sse += d * d;
        }
        assert!(sse <= last_sse + 1e-12);
        last_sse = sse;
    }
}

#[test]
fn refit_compounds_stumps() {
    let x: Vec<Vec<Rat>> = (1..=5).map(|v| vec![ri(v)]).collect();
    let y: Vec<Rat> = (1..=5).map(ri).collect();
    let mut model = GradientBoostingRegressor::new(1, ri(1));
    assert_eq!(model.fit(&x, &y), FitOutcome::Trained);
    assert_eq!(model.fit(&x, &y), FitOutcome::Trained);
    assert_eq!(model.stump_count(), 2);
    assert!(rat_eqv(&model.initial_prediction(), &ri(3)));
    // Both training runs fit the same stump, so both corrections apply.
    let preds = model.predict(&vec![vec![ri(1)]]).unwrap();
    assert!(rat_eqv(&preds[0], &ri(0)));
}

#[test]
fn predict_untrained_yields_baseline_zero() {
    let model = GradientBoostingRegressor::new(5, rq(1, 2));
    let preds = model.predict(&vec![vec![ri(7)], vec![ri(-7)]]).unwrap();
    assert_eq!(preds.len(), 2);
    assert!(rat_eqv(&preds[0], &ri(0)));
    assert!(rat_eqv(&preds[1], &ri(0)));
}

#[test]
fn single_row_trains_with_fallback_stumps() {
    let x = vec![vec![ri(5)]];
    let y = vec![ri(3)];
    let mut model = GradientBoostingRegressor::new(2, rq(1, 2));
    assert_eq!(model.fit(&x, &y), FitOutcome::Trained);
    assert_eq!(model.stump_count(), 2);
    assert!(rat_eqv(&model.initial_prediction(), &ri(3)));
    // Each fallback stump contributes a constant zero correction.
    for i in 0..model.stump_count() {
        let s = model.stump_at(i);
        assert!(rat_eqv(&s.left_value, &ri(0)));
        assert!(rat_eqv(&s.right_value, &ri(0)));
    }
    let preds = model.predict(&vec![vec![ri(7)]]).unwrap();
    assert!(rat_eqv(&preds[0], &ri(3)));
}

#[test]
fn overflow_reported_and_model_unchanged() {
    let x = vec![vec![ri(1)], vec![ri(2)]];
    let y = vec![ri(i64::MAX), ri(i64::MAX)];
    let mut model = GradientBoostingRegressor::new(1, rq(1, 2));
    assert_eq!(model.fit(&x, &y), FitOutcome::NumericOverflow);
    assert!(rat_eqv(&model.initial_prediction(), &ri(0)));
    assert_eq!(model.stump_count(), 0);
}
