//! The model types: the decision stump and the boosting ensemble.
//!
//! A `DecisionStump` is a one-split regressor: one feature index, one
//! threshold, and a constant value for each side of the split. The
//! `GradientBoostingRegressor` holds a baseline prediction and an ordered
//! sequence of stumps, each scaled by a fixed learning rate.

use vstd::prelude::*;
use crate::rat::{
    Rat, rat_zero, spec_add, spec_sub, spec_mul, spec_div_count, rat_add, rat_sub, rat_mul,
    rat_div_count,
};
use crate::stump::spec_fit;

verus! {

/// A decision stump: a tree with exactly one split.
///
/// For an input row, the prediction is `left_value` when
/// `row[feature_index] <= threshold`, else `right_value` (ties go left).
#[derive(Clone, Copy, Debug, PartialEq, Eq, Structural)]
pub struct DecisionStump {
    /// The index of the feature to split on.
    pub feature_index: usize,
    /// The value to split the feature at.
    pub threshold: Rat,
    /// The prediction when the feature is at most the threshold.
    pub left_value: Rat,
    /// The prediction when the feature is above the threshold.
    pub right_value: Rat,
}

impl DecisionStump {
    /// A stump is well formed when its three rationals are.
    pub open spec fn wf(self) -> bool {
        &&& self.threshold.wf()
        &&& self.left_value.wf()
        &&& self.right_value.wf()
    }
}

/// The zero-initialized fallback stump, returned when no candidate split
/// separates the data into two non-empty groups.
pub open spec fn default_stump() -> DecisionStump {
    DecisionStump {
        feature_index: 0,
        threshold: rat_zero(),
        left_value: rat_zero(),
        right_value: rat_zero(),
    }
}

/// The feature matrix as a sequence of rows of rationals.
pub open spec fn mat(x: Seq<Vec<Rat>>) -> Seq<Seq<Rat>> {
    x.map_values(|r: Vec<Rat>| r@)
}

/// Every row has the same length as the first.
pub open spec fn mat_rect(m: Seq<Seq<Rat>>) -> bool {
    forall|i: int| 0 <= i < m.len() ==> #[trigger] m[i].len() == m[0].len()
}

/// Every entry of the matrix is well formed.
pub open spec fn mat_wf(m: Seq<Seq<Rat>>) -> bool {
    forall|i: int, j: int|
        0 <= i < m.len() && 0 <= j < m[i].len() ==> (#[trigger] m[i][j]).wf()
}

/// Every entry of the sequence is well formed.
pub open spec fn seq_wf(s: Seq<Rat>) -> bool {
    forall|i: int| 0 <= i < s.len() ==> (#[trigger] s[i]).wf()
}

/// The reported outcome of a training call.
#[derive(Clone, Copy, Debug, PartialEq, Eq, Structural)]
pub enum FitOutcome {
    /// Every boosting round completed and the model was extended.
    Trained,
    /// The input was empty or length-mismatched; the model is unchanged.
    SkippedInvalidInput,
    /// A computation left the representable range; the model is unchanged.
    NumericOverflow,
}

/// Training is skipped when the input is empty or length-mismatched.
pub open spec fn fit_guard(m: Seq<Seq<Rat>>, y: Seq<Rat>) -> bool {
    m.len() == 0 || y.len() == 0 || m.len() != y.len()
}

/// The checked sum of the first `k` targets.
pub open spec fn spec_sum(y: Seq<Rat>, k: int) -> Option<Rat>
    decreases k,
{
    if k <= 0 {
        Some(rat_zero())
    } else {
        match spec_sum(y, k - 1) {
            None => None,
            Some(a) => spec_add(a, y[k - 1]),
        }
    }
}

/// The checked arithmetic mean of the targets.
pub open spec fn spec_mean(y: Seq<Rat>) -> Option<Rat> {
    match spec_sum(y, y.len() as int) {
        None => None,
        Some(s) => spec_div_count(s, y.len() as int),
    }
}

/// The checked residual vector over the first `k` rows: `y[i] - p[i]`.
pub open spec fn spec_residuals(y: Seq<Rat>, p: Seq<Rat>, k: int) -> Option<Seq<Rat>>
    decreases k,
{
    if k <= 0 {
        Some(Seq::empty())
    } else {
        match spec_residuals(y, p, k - 1) {
            None => None,
            Some(s) => match spec_sub(y[k - 1], p[k - 1]) {
                None => None,
                Some(d) => Some(s.push(d)),
            },
        }
    }
}

/// The checked prediction update over the first `k` rows:
/// `p[i] + lr * st.spec_predict(m[i])`.
pub open spec fn spec_update_preds(
    m: Seq<Seq<Rat>>,
    p: Seq<Rat>,
    lr: Rat,
    st: DecisionStump,
    k: int,
) -> Option<Seq<Rat>>
    decreases k,
{
    if k <= 0 {
        Some(Seq::empty())
    } else {
        match spec_update_preds(m, p, lr, st, k - 1) {
            None => None,
            Some(s) => match spec_mul(lr, st.spec_predict(m[k - 1])) {
                None => None,
                Some(c) => match spec_add(p[k - 1], c) {
                    None => None,
                    Some(v) => Some(s.push(v)),
                },
            },
        }
    }
}

/// One boosting round from the running predictions `p`: fit a stump to the
/// residuals, then move every prediction by the learning-rate-scaled stump
/// output.
pub open spec fn spec_round(m: Seq<Seq<Rat>>, y: Seq<Rat>, p: Seq<Rat>, lr: Rat) -> Option<
    (Seq<Rat>, DecisionStump),
> {
    match spec_residuals(y, p, y.len() as int) {
        None => None,
        Some(r) => match spec_fit(m, r) {
            None => None,
            Some(st) => match spec_update_preds(m, p, lr, st, m.len() as int) {
                None => None,
                Some(p2) => Some((p2, st)),
            },
        },
    }
}

/// `t` boosting rounds from the running predictions `p`: the final
/// predictions and the stumps in fit order.
pub open spec fn spec_rounds(m: Seq<Seq<Rat>>, y: Seq<Rat>, p: Seq<Rat>, lr: Rat, t: int) -> Option<
    (Seq<Rat>, Seq<DecisionStump>),
>
    decreases t,
{
    if t <= 0 {
        Some((p, Seq::empty()))
    } else {
        match spec_rounds(m, y, p, lr, t - 1) {
            None => None,
            Some(ps) => match spec_round(m, y, ps.0, lr) {
                None => None,
                Some(q) => Some((q.0, ps.1.push(q.1))),
            },
        }
    }
}

/// The whole training run on non-guarded input: the target mean as the
/// baseline, then `t` rounds starting from the all-mean prediction vector.
pub open spec fn spec_train(m: Seq<Seq<Rat>>, y: Seq<Rat>, lr: Rat, t: int) -> Option<
    (Rat, Seq<DecisionStump>),
> {
    match spec_mean(y) {
        None => None,
        Some(mu) => match spec_rounds(m, y, Seq::new(y.len(), |i: int| mu), lr, t) {
            None => None,
            Some(ps) => Some((mu, ps.1)),
        },
    }
}

/// The score of one row: the baseline plus, for every stump in fit order,
/// the learning-rate-scaled stump output (checked).
pub open spec fn spec_score_row(
    row: Seq<Rat>,
    init: Rat,
    lr: Rat,
    sts: Seq<DecisionStump>,
    k: int,
) -> Option<Rat>
    decreases k,
{
    if k <= 0 {
        Some(init)
    } else {
        match spec_score_row(row, init, lr, sts, k - 1) {
            None => None,
            Some(p) => match spec_mul(lr, sts[k - 1].spec_predict(row)) {
                None => None,
                Some(c) => spec_add(p, c),
            },
        }
    }
}

/// The scores of the first `k` rows, in input order (checked).
pub open spec fn spec_predict_all(
    m: Seq<Seq<Rat>>,
    init: Rat,
    lr: Rat,
    sts: Seq<DecisionStump>,
    k: int,
) -> Option<Seq<Rat>>
    decreases k,
{
    if k <= 0 {
        Some(Seq::empty())
    } else {
        match spec_predict_all(m, init, lr, sts, k - 1) {
            None => None,
            Some(s) => match spec_score_row(m[k - 1], init, lr, sts, sts.len() as int) {
                None => None,
                Some(v) => Some(s.push(v)),
            },
        }
    }
}

#[verifier::loop_isolation(false)]
fn sum_all(y: &Vec<Rat>) -> (r: Option<Rat>)
    requires
        seq_wf(y@),
    ensures
        r == spec_sum(y@, y@.len() as int),
        r matches Some(v) ==> v.wf(),
{
    let n = y.len();
    let mut acc: Option<Rat> = Some(Rat::zero());
    let mut i: usize = 0;
    while i < n
        invariant
            i <= n,
            acc == spec_sum(y@, i as int),
            acc matches Some(v) ==> v.wf(),
        decreases n - i,
    {
        match acc {
            None => {},
            Some(a) => {
                acc = rat_add(&a, &y[i]);
            },
        }
        i = i + 1;
    }
    acc
}

#[verifier::loop_isolation(false)]
fn residuals_exec(y: &Vec<Rat>, p: &Vec<Rat>) -> (r: Option<Vec<Rat>>)
    requires
        y@.len() == p@.len(),
        seq_wf(y@),
        seq_wf(p@),
    ensures
        (match spec_residuals(y@, p@, y@.len() as int) {
            None => r is None,
            Some(s) => r matches Some(v) && v@ == s,
        }),
        r matches Some(v) ==> v@.len() == y@.len() && seq_wf(v@),
{
    let n = y.len();
    let mut out: Vec<Rat> = Vec::new();
    let mut failed = false;
    let mut i: usize = 0;
    while i < n
        invariant
            i <= n,
            failed ==> spec_residuals(y@, p@, i as int) is None,
            !failed ==> spec_residuals(y@, p@, i as int) == Some(out@),
            !failed ==> out@.len() == i && seq_wf(out@),
        decreases n - i,
    {
        if !failed {
            match rat_sub(&y[i], &p[i]) {
                None => {
                    failed = true;
                },
                Some(d) => {
                    out.push(d);
                },
            }
        }
        i = i + 1;
    }
    if failed {
        None
    } else {
        Some(out)
    }
}

#[verifier::loop_isolation(false)]
fn update_preds_exec(x: &Vec<Vec<Rat>>, p: &Vec<Rat>, lr: &Rat, st: &DecisionStump) -> (r: Option<
    Vec<Rat>,
>)
    requires
        mat_rect(mat(x@)),
        mat_wf(mat(x@)),
        p@.len() == x@.len(),
        seq_wf(p@),
        lr.wf(),
        st.wf(),
        x@.len() > 0 ==> st.feature_index < mat(x@)[0].len(),
    ensures
        (match spec_update_preds(mat(x@), p@, *lr, *st, x@.len() as int) {
            None => r is None,
            Some(s) => r matches Some(v) && v@ == s,
        }),
        r matches Some(v) ==> v@.len() == x@.len() && seq_wf(v@),
{
    let n = x.len();
    let mut out: Vec<Rat> = Vec::new();
    let mut failed = false;
    let mut i: usize = 0;
    while i < n
        invariant
            i <= n,
            failed ==> spec_update_preds(mat(x@), p@, *lr, *st, i as int) is None,
            !failed ==> spec_update_preds(mat(x@), p@, *lr, *st, i as int) == Some(out@),
            !failed ==> out@.len() == i && seq_wf(out@),
        decreases n - i,
    {
        if !failed {
            proof {
                assert(mat(x@)[i as int] == x@[i as int]@);
                assert(mat(x@)[i as int].len() == mat(x@)[0].len());
            }
            let row = &x[i];
            let sp = st.predict(row);
            match rat_mul(lr, &sp) {
                None => {
                    failed = true;
                },
                Some(c) => {
                    match rat_add(&p[i], &c) {
                        None => {
                            failed = true;
                        },
                        Some(v) => {
                            out.push(v);
                        },
                    }
                },
            }
        }
        i = i + 1;
    }
    if failed {
        None
    } else {
        Some(out)
    }
}

/// The gradient boosting model: a baseline plus learning-rate-scaled stumps.
#[derive(Debug)]
pub struct GradientBoostingRegressor {
    /// The weak learners, in the order they were fitted.
    stumps: Vec<DecisionStump>,
    /// The fixed multiplier on every stump's contribution.
    learning_rate: Rat,
    /// The constant baseline: the target mean at training time, zero before.
    initial_prediction: Rat,
    /// The number of boosting rounds each training run performs.
    n_estimators: usize,
}

impl GradientBoostingRegressor {
    /// A model is well formed when its rationals and its stumps are.
    pub closed spec fn wf(self) -> bool {
        &&& self.learning_rate.wf()
        &&& self.initial_prediction.wf()
        &&& forall|i: int|
            0 <= i < self.stumps@.len() ==> (#[trigger] self.stumps@[i]).wf()
    }

    /// The fitted stumps, in fit order.
    pub closed spec fn spec_stumps(self) -> Seq<DecisionStump> {
        self.stumps@
    }

    /// The baseline prediction.
    pub closed spec fn spec_initial_prediction(self) -> Rat {
        self.initial_prediction
    }

    /// The learning rate.
    pub closed spec fn spec_learning_rate(self) -> Rat {
        self.learning_rate
    }

    /// The configured number of boosting rounds.
    pub closed spec fn spec_n_estimators(self) -> int {
        self.n_estimators as int
    }

    /// Creates an untrained model from its two hyperparameters.
    pub fn new(n_estimators: usize, learning_rate: Rat) -> (r: Self)
        requires
            learning_rate.wf(),
            n_estimators >= 1,
        ensures
            r.spec_stumps() == Seq::<DecisionStump>::empty(),
            r.spec_learning_rate() == learning_rate,
            r.spec_initial_prediction() == rat_zero(),
            r.spec_n_estimators() == n_estimators as int,
            r.wf(),
    {
        Self {
            stumps: Vec::new(),
            learning_rate,
            initial_prediction: Rat::zero(),
            n_estimators,
        }
    }

    /// The baseline prediction the model starts every score from.
    pub fn initial_prediction(&self) -> (r: Rat)
        ensures
            r == self.spec_initial_prediction(),
    {
        self.initial_prediction
    }

    /// The fixed multiplier on every stump's contribution.
    pub fn learning_rate(&self) -> (r: Rat)
        ensures
            r == self.spec_learning_rate(),
    {
        self.learning_rate
    }

    /// The configured number of boosting rounds.
    pub fn n_estimators(&self) -> (r: usize)
        ensures
            r as int == self.spec_n_estimators(),
    {
        self.n_estimators
    }

    /// How many stumps the model holds.
    pub fn stump_count(&self) -> (r: usize)
        ensures
            r as int == self.spec_stumps().len(),
    {
        self.stumps.len()
    }

    /// The `i`-th fitted stump, in fit order.
    pub fn stump_at(&self, i: usize) -> (r: DecisionStump)
        requires
            i < self.spec_stumps().len(),
        ensures
            r == self.spec_stumps()[i as int],
    {
        self.stumps[i]
    }

    /// Scores one row: the baseline plus every stump's scaled contribution.
    #[verifier::loop_isolation(false)]
    fn score_row(&self, row: &Vec<Rat>) -> (r: Option<Rat>)
        requires
            self.wf(),
            seq_wf(row@),
            forall|j: int|
                0 <= j < self.spec_stumps().len() ==> (#[trigger] self.spec_stumps()[j]).feature_index
                    < row@.len(),
        ensures
            r == spec_score_row(
                row@,
                self.spec_initial_prediction(),
                self.spec_learning_rate(),
                self.spec_stumps(),
                self.spec_stumps().len() as int,
            ),
            r matches Some(v) ==> v.wf(),
    {
        let n = self.stumps.len();
        let mut acc: Option<Rat> = Some(self.initial_prediction);
        let mut j: usize = 0;
        while j < n
            invariant
                j <= n,
                acc == spec_score_row(
                    row@,
                    self.spec_initial_prediction(),
                    self.spec_learning_rate(),
                    self.spec_stumps(),
                    j as int,
                ),
                acc matches Some(v) ==> v.wf(),
            decreases n - j,
        {
            match acc {
                None => {},
                Some(a) => {
                    let sp = self.stumps[j].predict(row);
                    match rat_mul(&self.learning_rate, &sp) {
                        None => {
                            acc = None;
                        },
                        Some(c) => {
                            acc = rat_add(&a, &c);
                        },
                    }
                },
            }
            j = j + 1;
        }
        acc
    }

    /// Trains the model in place: sets the baseline to the target mean, then
    /// runs exactly `n_estimators` boosting rounds, appending one stump per
    /// round. Empty or length-mismatched input is skipped without touching
    /// the model; a computation that leaves the representable range likewise
    /// leaves the model unchanged, and the outcome says which happened.
    #[verifier::loop_isolation(false)]
    pub fn fit(&mut self, x: &Vec<Vec<Rat>>, y: &Vec<Rat>) -> (r: FitOutcome)
        requires
            old(self).wf(),
            mat_rect(mat(x@)),
            mat_wf(mat(x@)),
            seq_wf(y@),
            x@.len() * mat(x@)[0].len() <= usize::MAX,
            !fit_guard(mat(x@), y@) ==> mat(x@)[0].len() >= 1,
        ensures
            final(self).wf(),
            final(self).spec_learning_rate() == old(self).spec_learning_rate(),
            final(self).spec_n_estimators() == old(self).spec_n_estimators(),
            (r == FitOutcome::SkippedInvalidInput) <==> fit_guard(mat(x@), y@),
            fit_guard(mat(x@), y@) ==> final(self).spec_initial_prediction() == old(
                self,
            ).spec_initial_prediction() && final(self).spec_stumps() == old(self).spec_stumps(),
            !fit_guard(mat(x@), y@) ==> (match spec_train(
                mat(x@),
                y@,
                old(self).spec_learning_rate(),
                old(self).spec_n_estimators(),
            ) {
                None => r == FitOutcome::NumericOverflow && final(self).spec_initial_prediction()
                    == old(self).spec_initial_prediction() && final(self).spec_stumps() == old(
                    self,
                ).spec_stumps(),
                Some(ms) => r == FitOutcome::Trained && final(self).spec_initial_prediction()
                    == ms.0 && final(self).spec_stumps() == old(self).spec_stumps() + ms.1,
            }),
            r == FitOutcome::Trained ==> final(self).spec_stumps().len() == old(
                self,
            ).spec_stumps().len() + old(self).spec_n_estimators(),
            forall|j: int|
                old(self).spec_stumps().len() <= j < final(self).spec_stumps().len() ==> (
                #[trigger] final(self).spec_stumps()[j]).feature_index < mat(x@)[0].len(),
    {
        if x.len() == 0 || y.len() == 0 || x.len() != y.len() {
            return FitOutcome::SkippedInvalidInput;
        }
        let n = y.len();
        let s = match sum_all(y) {
            None => {
                return FitOutcome::NumericOverflow;
            },
            Some(v) => v,
        };
        let mu = match rat_div_count(&s, n) {
            None => {
                return FitOutcome::NumericOverflow;
            },
            Some(v) => v,
        };
        let mut preds: Vec<Rat> = Vec::new();
        let mut i: usize = 0;
        while i < n
            invariant
                i <= n,
                preds@.len() == i,
                forall|j: int| 0 <= j < i ==> preds@[j] == mu,
            decreases n - i,
        {
            preds.push(mu);
            i = i + 1;
        }
        let ghost p0 = Seq::new(y@.len(), |j: int| mu);
        proof {
            assert(preds@ =~= p0);
        }
        let mut sts: Vec<DecisionStump> = Vec::new();
        let mut failed = false;
        let n_est = self.n_estimators;
        let lr = self.learning_rate;
        let ghost m = mat(x@);
        let mut t: usize = 0;
        while t < n_est
            invariant
                t <= n_est,
                failed ==> spec_rounds(m, y@, p0, lr, t as int) is None,
                !failed ==> spec_rounds(m, y@, p0, lr, t as int) == Some((preds@, sts@)),
                !failed ==> preds@.len() == x@.len() && seq_wf(preds@),
                !failed ==> sts@.len() == t,
                forall|j: int| 0 <= j < sts@.len() ==> (#[trigger] sts@[j]).wf(),
                forall|j: int|
                    0 <= j < sts@.len() ==> (#[trigger] sts@[j]).feature_index < mat(x@)[0].len(),
            decreases n_est - t,
        {
            if !failed {
                let res = match residuals_exec(y, &preds) {
                    None => {
                        failed = true;
                        t = t + 1;
                        continue;
                    },
                    Some(v) => v,
                };
                let st = match DecisionStump::fit(x, &res) {
                    None => {
                        failed = true;
                        t = t + 1;
                        continue;
                    },
                    Some(v) => v,
                };
                let newp = match update_preds_exec(x, &preds, &lr, &st) {
                    None => {
                        failed = true;
                        t = t + 1;
                        continue;
                    },
                    Some(v) => v,
                };
                preds = newp;
                sts.push(st);
            }
            t = t + 1;
        }
        if failed {
            return FitOutcome::NumericOverflow;
        }
        self.initial_prediction = mu;
        let mut k: usize = 0;
        let ghost sts0 = sts@;
        let ghost stumps0 = self.stumps@;
        while k < sts.len()
            invariant
                k <= sts0.len(),
                sts@ == sts0,
                self.stumps@ == stumps0 + sts0.subrange(0, k as int),
                self.initial_prediction == mu,
                self.learning_rate == lr,
                self.n_estimators == n_est,
            decreases sts0.len() - k,
        {
            self.stumps.push(sts[k]);
            proof {
                assert(stumps0 + sts0.subrange(0, k as int) + seq![sts0[k as int]] =~= stumps0
                    + sts0.subrange(0, k as int + 1));
            }
            k = k + 1;
        }
        proof {
            assert(sts0.subrange(0, sts0.len() as int) =~= sts0);
        }
        FitOutcome::Trained
    }

    /// Predicts one output per input row, in input order: the baseline plus
    /// every stump's learning-rate-scaled contribution. Returns `None` when
    /// a computation leaves the representable range. Every row must reach
    /// the split feature of every stored stump.
    #[verifier::loop_isolation(false)]
    pub fn predict(&self, x: &Vec<Vec<Rat>>) -> (r: Option<Vec<Rat>>)
        requires
            self.wf(),
            mat_wf(mat(x@)),
            forall|i: int, j: int|
                #![trigger self.spec_stumps()[j], mat(x@)[i]]
                0 <= i < x@.len() && 0 <= j < self.spec_stumps().len()
                    ==> self.spec_stumps()[j].feature_index < mat(x@)[i].len(),
        ensures
            (match spec_predict_all(
                mat(x@),
                self.spec_initial_prediction(),
                self.spec_learning_rate(),
                self.spec_stumps(),
                x@.len() as int,
            ) {
                None => r is None,
                Some(ps) => r matches Some(v) && v@ == ps,
            }),
            r matches Some(v) ==> v@.len() == x@.len() && seq_wf(v@),
    {
        let n = x.len();
        let mut out: Vec<Rat> = Vec::new();
        let mut failed = false;
        let mut i: usize = 0;
        while i < n
            invariant
                i <= n,
                failed ==> spec_predict_all(
                    mat(x@),
                    self.spec_initial_prediction(),
                    self.spec_learning_rate(),
                    self.spec_stumps(),
                    i as int,
                ) is None,
                !failed ==> spec_predict_all(
                    mat(x@),
                    self.spec_initial_prediction(),
                    self.spec_learning_rate(),
                    self.spec_stumps(),
                    i as int,
                ) == Some(out@),
                !failed ==> out@.len() == i && seq_wf(out@),
            decreases n - i,
        {
            if !failed {
                proof {
                    assert(mat(x@)[i as int] == x@[i as int]@);
                }
                let row = &x[i];
                match self.score_row(row) {
                    None => {
                        failed = true;
                    },
                    Some(v) => {
                        out.push(v);
                    },
                }
            }
            i = i + 1;
        }
        if failed {
            None
        } else {
            Some(out)
        }
    }
}

} // verus!
