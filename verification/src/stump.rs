//! The split search: fitting a decision stump by exhaustive enumeration.
//!
//! The search tries every `(feature, threshold)` pair, with each row's value
//! of the feature as a candidate threshold, in row order. A candidate that
//! leaves either side of the split empty is skipped. For the rest, each leaf
//! takes the mean of the targets on its side, the candidate's cost is the
//! summed squared error of the two leaves, and the first candidate with the
//! strictly smallest cost wins. When no candidate separates the data, the
//! zero-initialized fallback stump is returned.
//!
//! Everything is specified by a direct functional model: `spec_fit` folds
//! `eval_candidate` over all candidates in search order, so the result of
//! `DecisionStump::fit` is a fully determined function of its inputs.

use vstd::prelude::*;
use vstd::arithmetic::div_mod::{lemma_div_pos_is_pos, lemma_mod_bound, lemma_multiply_divide_lt};
use crate::rat::{
    Rat, rat_zero, spec_le, spec_lt, spec_add, spec_sub, spec_mul, spec_div_count, rat_le, rat_lt,
    rat_add, rat_sub, rat_mul, rat_div_count, lemma_le_trans, lemma_add_wf, lemma_sub_wf,
    lemma_mul_wf, lemma_div_count_wf,
};
use crate::regressor::{DecisionStump, default_stump, mat, mat_rect, mat_wf, seq_wf};

verus! {

/// How many of the first `k` rows go to the left of the split
/// `m[_][f] <= thr`.
pub open spec fn count_left(m: Seq<Seq<Rat>>, f: int, thr: Rat, k: int) -> int
    decreases k,
{
    if k <= 0 {
        0
    } else {
        count_left(m, f, thr, k - 1) + (if spec_le(m[k - 1][f], thr) {
            1int
        } else {
            0int
        })
    }
}

/// The checked sum of `y` over the rows among the first `k` whose membership
/// on the left of the split equals `left`.
pub open spec fn sum_side(m: Seq<Seq<Rat>>, y: Seq<Rat>, f: int, thr: Rat, left: bool, k: int) -> Option<
    Rat,
>
    decreases k,
{
    if k <= 0 {
        Some(rat_zero())
    } else {
        match sum_side(m, y, f, thr, left, k - 1) {
            None => None,
            Some(acc) => if spec_le(m[k - 1][f], thr) == left {
                spec_add(acc, y[k - 1])
            } else {
                Some(acc)
            },
        }
    }
}

/// The checked sum of `(y[i] - v)^2` over the rows among the first `k` whose
/// membership on the left of the split equals `left`.
pub open spec fn err_side(
    m: Seq<Seq<Rat>>,
    y: Seq<Rat>,
    f: int,
    thr: Rat,
    left: bool,
    v: Rat,
    k: int,
) -> Option<Rat>
    decreases k,
{
    if k <= 0 {
        Some(rat_zero())
    } else {
        match err_side(m, y, f, thr, left, v, k - 1) {
            None => None,
            Some(acc) => if spec_le(m[k - 1][f], thr) == left {
                match spec_sub(y[k - 1], v) {
                    None => None,
                    Some(d) => match spec_mul(d, d) {
                        None => None,
                        Some(s) => spec_add(acc, s),
                    },
                }
            } else {
                Some(acc)
            },
        }
    }
}

/// Evaluates the candidate split at feature `f` with row `t`'s value as the
/// threshold. `Some(None)` means the candidate is skipped because one side
/// is empty; `None` means the cost computation left the representable range.
pub open spec fn eval_candidate(m: Seq<Seq<Rat>>, y: Seq<Rat>, f: int, t: int) -> Option<
    Option<(Rat, DecisionStump)>,
> {
    let thr = m[t][f];
    let n = m.len() as int;
    let nl = count_left(m, f, thr, n);
    if nl == 0 || nl == n {
        Some(None)
    } else {
        match sum_side(m, y, f, thr, true, n) {
            None => None,
            Some(ls) => match sum_side(m, y, f, thr, false, n) {
                None => None,
                Some(rs) => match spec_div_count(ls, nl) {
                    None => None,
                    Some(lv) => match spec_div_count(rs, n - nl) {
                        None => None,
                        Some(rv) => match err_side(m, y, f, thr, true, lv, n) {
                            None => None,
                            Some(le) => match err_side(m, y, f, thr, false, rv, n) {
                                None => None,
                                Some(re) => match spec_add(le, re) {
                                    None => None,
                                    Some(tot) => Some(
                                        Some(
                                            (
                                                tot,
                                                DecisionStump {
                                                    feature_index: f as usize,
                                                    threshold: thr,
                                                    left_value: lv,
                                                    right_value: rv,
                                                },
                                            ),
                                        ),
                                    ),
                                },
                            },
                        },
                    },
                },
            },
        }
    }
}

/// The feature index of candidate `c` in search order (features outer, rows
/// inner).
pub open spec fn cand_f(m: Seq<Seq<Rat>>, c: int) -> int {
    c / m.len() as int
}

/// The threshold row index of candidate `c` in search order.
pub open spec fn cand_t(m: Seq<Seq<Rat>>, c: int) -> int {
    c % m.len() as int
}

/// Folds the first `c` candidates in search order: the running best is
/// replaced only on strict improvement, so the earliest best candidate is
/// kept. `Some(None)` means no valid split has been found yet; `None` means
/// some candidate's cost computation left the representable range.
pub open spec fn scan(m: Seq<Seq<Rat>>, y: Seq<Rat>, c: int) -> Option<
    Option<(Rat, DecisionStump)>,
>
    decreases c,
{
    if c <= 0 {
        Some(None)
    } else {
        match scan(m, y, c - 1) {
            None => None,
            Some(best) => match eval_candidate(m, y, cand_f(m, c - 1), cand_t(m, c - 1)) {
                None => None,
                Some(None) => Some(best),
                Some(Some(p)) => match best {
                    None => Some(Some(p)),
                    Some(b) => if spec_lt(p.0, b.0) {
                        Some(Some(p))
                    } else {
                        Some(Some(b))
                    },
                },
            },
        }
    }
}

/// The whole split search: the best candidate over all features and
/// thresholds, the fallback stump when no candidate is valid, and `None`
/// when a cost computation left the representable range.
pub open spec fn spec_fit(m: Seq<Seq<Rat>>, y: Seq<Rat>) -> Option<DecisionStump> {
    match scan(m, y, m.len() as int * m[0].len() as int) {
        None => None,
        Some(None) => Some(default_stump()),
        Some(Some(p)) => Some(p.1),
    }
}

/// The error kept with a found candidate or best state (zero otherwise).
pub open spec fn found_err(r: Option<Option<(Rat, DecisionStump)>>) -> Rat {
    match r {
        Some(Some(p)) => p.0,
        _ => rat_zero(),
    }
}

/// Whether a candidate evaluation or scan state holds a valid split.
pub open spec fn found(r: Option<Option<(Rat, DecisionStump)>>) -> bool {
    match r {
        Some(Some(_)) => true,
        _ => false,
    }
}

/// The left count of a split lies between 0 and the number of rows counted.
proof fn lemma_count_left_bounds(m: Seq<Seq<Rat>>, f: int, thr: Rat, k: int)
    requires
        k >= 0,
    ensures
        0 <= count_left(m, f, thr, k) <= k,
    decreases k,
{
    if k > 0 {
        lemma_count_left_bounds(m, f, thr, k - 1);
    }
}

/// A computed side sum of well-formed targets is well formed.
proof fn lemma_sum_side_wf(m: Seq<Seq<Rat>>, y: Seq<Rat>, f: int, thr: Rat, left: bool, k: int)
    requires
        seq_wf(y),
        0 <= k <= y.len(),
    ensures
        sum_side(m, y, f, thr, left, k) matches Some(v) ==> v.wf(),
    decreases k,
{
    if k > 0 {
        lemma_sum_side_wf(m, y, f, thr, left, k - 1);
        match sum_side(m, y, f, thr, left, k - 1) {
            None => {},
            Some(acc) => {
                if spec_le(m[k - 1][f], thr) == left {
                    lemma_add_wf(acc, y[k - 1]);
                }
            },
        }
    }
}

/// A computed side error of well-formed targets is well formed.
proof fn lemma_err_side_wf(
    m: Seq<Seq<Rat>>,
    y: Seq<Rat>,
    f: int,
    thr: Rat,
    left: bool,
    v: Rat,
    k: int,
)
    requires
        seq_wf(y),
        v.wf(),
        0 <= k <= y.len(),
    ensures
        err_side(m, y, f, thr, left, v, k) matches Some(e) ==> e.wf(),
    decreases k,
{
    if k > 0 {
        lemma_err_side_wf(m, y, f, thr, left, v, k - 1);
        match err_side(m, y, f, thr, left, v, k - 1) {
            None => {},
            Some(acc) => {
                if spec_le(m[k - 1][f], thr) == left {
                    lemma_sub_wf(y[k - 1], v);
                    match spec_sub(y[k - 1], v) {
                        None => {},
                        Some(d) => {
                            lemma_mul_wf(d, d);
                            match spec_mul(d, d) {
                                None => {},
                                Some(s) => {
                                    lemma_add_wf(acc, s);
                                },
                            }
                        },
                    }
                }
            },
        }
    }
}

/// A valid candidate evaluation yields a well-formed error and stump.
proof fn lemma_eval_wf(m: Seq<Seq<Rat>>, y: Seq<Rat>, f: int, t: int)
    requires
        mat_rect(m),
        mat_wf(m),
        seq_wf(y),
        y.len() == m.len(),
        0 <= t < m.len(),
        0 <= f < m[0].len(),
    ensures
        eval_candidate(m, y, f, t) matches Some(Some(p)) ==> p.0.wf() && p.1.wf(),
{
    assert(m[t].len() == m[0].len());
    let thr = m[t][f];
    assert(thr.wf());
    let n = m.len() as int;
    let nl = count_left(m, f, thr, n);
    lemma_count_left_bounds(m, f, thr, n);
    if !(nl == 0 || nl == n) {
        lemma_sum_side_wf(m, y, f, thr, true, n);
        lemma_sum_side_wf(m, y, f, thr, false, n);
        match sum_side(m, y, f, thr, true, n) {
            None => {},
            Some(ls) => {
                match sum_side(m, y, f, thr, false, n) {
                    None => {},
                    Some(rs) => {
                        lemma_div_count_wf(ls, nl);
                        lemma_div_count_wf(rs, n - nl);
                        match spec_div_count(ls, nl) {
                            None => {},
                            Some(lv) => {
                                match spec_div_count(rs, n - nl) {
                                    None => {},
                                    Some(rv) => {
                                        lemma_err_side_wf(m, y, f, thr, true, lv, n);
                                        lemma_err_side_wf(m, y, f, thr, false, rv, n);
                                        match err_side(m, y, f, thr, true, lv, n) {
                                            None => {},
                                            Some(le) => {
                                                match err_side(m, y, f, thr, false, rv, n) {
                                                    None => {},
                                                    Some(re) => {
                                                        lemma_add_wf(le, re);
                                                    },
                                                }
                                            },
                                        }
                                    },
                                }
                            },
                        }
                    },
                }
            },
        }
    }
}

/// Candidate `c`'s feature and threshold row indices are in range.
proof fn lemma_cand_bounds(m: Seq<Seq<Rat>>, c: int)
    requires
        m.len() > 0,
        0 <= c < m.len() as int * m[0].len() as int,
    ensures
        0 <= cand_f(m, c) < m[0].len(),
        0 <= cand_t(m, c) < m.len(),
{
    lemma_div_pos_is_pos(c, m.len() as int);
    lemma_multiply_divide_lt(c, m.len() as int, m[0].len() as int);
    lemma_mod_bound(c, m.len() as int);
}

/// A kept scan state holds a well-formed error and stump.
proof fn lemma_scan_wf(m: Seq<Seq<Rat>>, y: Seq<Rat>, c: int)
    requires
        m.len() > 0,
        mat_rect(m),
        mat_wf(m),
        seq_wf(y),
        y.len() == m.len(),
        0 <= c <= m.len() as int * m[0].len() as int,
    ensures
        scan(m, y, c) matches Some(Some(p)) ==> p.0.wf() && p.1.wf(),
    decreases c,
{
    if c > 0 {
        lemma_scan_wf(m, y, c - 1);
        lemma_cand_bounds(m, c - 1);
        lemma_eval_wf(m, y, cand_f(m, c - 1), cand_t(m, c - 1));
    }
}

/// A scan over candidates that are all skipped keeps the empty state.
proof fn lemma_scan_all_skipped(m: Seq<Seq<Rat>>, y: Seq<Rat>, c: int)
    requires
        forall|k: int|
            0 <= k < c ==> #[trigger] eval_candidate(m, y, cand_f(m, k), cand_t(m, k)) == Some(
                Option::<(Rat, DecisionStump)>::None,
            ),
    ensures
        scan(m, y, c) == Some(Option::<(Rat, DecisionStump)>::None),
    decreases c,
{
    if c > 0 {
        lemma_scan_all_skipped(m, y, c - 1);
    }
}

/// Unsplittable data falls back to the zero stump: when every candidate
/// threshold puts all rows on one side (its left count is zero or the whole
/// row count, so no candidate separates the data into two non-empty
/// groups), the split search returns exactly the zero-initialized fallback
/// stump.
pub proof fn lemma_unsplittable_gives_fallback(m: Seq<Seq<Rat>>, y: Seq<Rat>)
    requires
        m.len() > 0,
        forall|f: int, t: int|
            0 <= f < m[0].len() && 0 <= t < m.len() ==> (#[trigger] count_left(
                m,
                f,
                m[t][f],
                m.len() as int,
            ) == 0 || count_left(m, f, m[t][f], m.len() as int) == m.len() as int),
    ensures
        spec_fit(m, y) == Some(default_stump()),
{
    let total = m.len() as int * m[0].len() as int;
    assert forall|k: int| 0 <= k < total implies #[trigger] eval_candidate(
        m,
        y,
        cand_f(m, k),
        cand_t(m, k),
    ) == Some(Option::<(Rat, DecisionStump)>::None) by {
        lemma_cand_bounds(m, k);
    }
    lemma_scan_all_skipped(m, y, total);
}

/// The split search is exhaustive-minimal. After the scan of the first `c`
/// candidates in search order, if some candidate `k` among them evaluated to
/// a valid split, then the scan has kept a valid split, and the kept split's
/// summed squared leaf error is at most candidate `k`'s. In particular the
/// error of the split that `DecisionStump::fit` returns never exceeds the
/// error of any valid candidate split of the data.
pub proof fn lemma_best_error_minimal(m: Seq<Seq<Rat>>, y: Seq<Rat>, c: int, k: int)
    requires
        m.len() > 0,
        mat_rect(m),
        mat_wf(m),
        seq_wf(y),
        y.len() == m.len(),
        0 <= k < c,
        c <= m.len() as int * m[0].len() as int,
        scan(m, y, c) is Some,
        found(eval_candidate(m, y, cand_f(m, k), cand_t(m, k))),
    ensures
        found(scan(m, y, c)),
        spec_le(
            found_err(scan(m, y, c)),
            found_err(eval_candidate(m, y, cand_f(m, k), cand_t(m, k))),
        ),
    decreases c,
{
    let ev_k = eval_candidate(m, y, cand_f(m, k), cand_t(m, k));
    let prev = scan(m, y, c - 1);
    let ev_last = eval_candidate(m, y, cand_f(m, c - 1), cand_t(m, c - 1));
    assert(prev is Some);
    if k < c - 1 {
        lemma_best_error_minimal(m, y, c - 1, k);
        match ev_last {
            None => {},
            Some(None) => {},
            Some(Some(p)) => {
                lemma_scan_wf(m, y, c - 1);
                lemma_cand_bounds(m, c - 1);
                lemma_eval_wf(m, y, cand_f(m, c - 1), cand_t(m, c - 1));
                lemma_cand_bounds(m, k);
                lemma_eval_wf(m, y, cand_f(m, k), cand_t(m, k));
                if spec_lt(p.0, found_err(prev)) {
                    lemma_le_trans(p.0, found_err(prev), found_err(ev_k));
                }
            },
        }
    }
}

#[verifier::loop_isolation(false)]
fn count_left_exec(x: &Vec<Vec<Rat>>, f: usize, thr: &Rat) -> (c: usize)
    requires
        x@.len() >= 1,
        mat_rect(mat(x@)),
        mat_wf(mat(x@)),
        thr.wf(),
        f < mat(x@)[0].len(),
    ensures
        c as int == count_left(mat(x@), f as int, *thr, x@.len() as int),
        c <= x@.len(),
{
    let n = x.len();
    let mut c: usize = 0;
    let mut i: usize = 0;
    while i < n
        invariant
            i <= n,
            c <= i,
            c as int == count_left(mat(x@), f as int, *thr, i as int),
        decreases n - i,
    {
        proof {
            assert(mat(x@)[i as int] == x@[i as int]@);
            assert(mat(x@)[i as int].len() == mat(x@)[0].len());
        }
        let row = &x[i];
        let v = row[f];
        if rat_le(&v, thr) {
            c = c + 1;
        }
        i = i + 1;
    }
    c
}

#[verifier::loop_isolation(false)]
fn sum_side_exec(x: &Vec<Vec<Rat>>, y: &Vec<Rat>, f: usize, thr: &Rat, left: bool) -> (r: Option<
    Rat,
>)
    requires
        x@.len() >= 1,
        y@.len() == x@.len(),
        mat_rect(mat(x@)),
        mat_wf(mat(x@)),
        seq_wf(y@),
        thr.wf(),
        f < mat(x@)[0].len(),
    ensures
        r == sum_side(mat(x@), y@, f as int, *thr, left, x@.len() as int),
        r matches Some(v) ==> v.wf(),
{
    let n = x.len();
    let mut acc: Option<Rat> = Some(Rat::zero());
    let mut i: usize = 0;
    while i < n
        invariant
            i <= n,
            acc == sum_side(mat(x@), y@, f as int, *thr, left, i as int),
            acc matches Some(v) ==> v.wf(),
        decreases n - i,
    {
        match acc {
            None => {},
            Some(a) => {
                proof {
                    assert(mat(x@)[i as int] == x@[i as int]@);
                    assert(mat(x@)[i as int].len() == mat(x@)[0].len());
                }
                let row = &x[i];
                let v = row[f];
                if rat_le(&v, thr) == left {
                    acc = rat_add(&a, &y[i]);
                }
            },
        }
        i = i + 1;
    }
    acc
}

#[verifier::loop_isolation(false)]
fn err_side_exec(x: &Vec<Vec<Rat>>, y: &Vec<Rat>, f: usize, thr: &Rat, left: bool, v: &Rat) -> (r:
    Option<Rat>)
    requires
        x@.len() >= 1,
        y@.len() == x@.len(),
        mat_rect(mat(x@)),
        mat_wf(mat(x@)),
        seq_wf(y@),
        thr.wf(),
        v.wf(),
        f < mat(x@)[0].len(),
    ensures
        r == err_side(mat(x@), y@, f as int, *thr, left, *v, x@.len() as int),
        r matches Some(e) ==> e.wf(),
{
    let n = x.len();
    let mut acc: Option<Rat> = Some(Rat::zero());
    let mut i: usize = 0;
    while i < n
        invariant
            i <= n,
            acc == err_side(mat(x@), y@, f as int, *thr, left, *v, i as int),
            acc matches Some(e) ==> e.wf(),
        decreases n - i,
    {
        match acc {
            None => {},
            Some(a) => {
                proof {
                    assert(mat(x@)[i as int] == x@[i as int]@);
                    assert(mat(x@)[i as int].len() == mat(x@)[0].len());
                }
                let row = &x[i];
                let fv = row[f];
                if rat_le(&fv, thr) == left {
                    match rat_sub(&y[i], v) {
                        None => {
                            acc = None;
                        },
                        Some(d) => {
                            match rat_mul(&d, &d) {
                                None => {
                                    acc = None;
                                },
                                Some(s) => {
                                    acc = rat_add(&a, &s);
                                },
                            }
                        },
                    }
                }
            },
        }
        i = i + 1;
    }
    acc
}

fn eval_candidate_exec(x: &Vec<Vec<Rat>>, y: &Vec<Rat>, f: usize, t: usize) -> (r: Option<
    Option<(Rat, DecisionStump)>,
>)
    requires
        x@.len() >= 1,
        y@.len() == x@.len(),
        mat_rect(mat(x@)),
        mat_wf(mat(x@)),
        seq_wf(y@),
        t < x@.len(),
        f < mat(x@)[0].len(),
    ensures
        r == eval_candidate(mat(x@), y@, f as int, t as int),
        r matches Some(Some(p)) ==> p.0.wf() && p.1.wf() && p.1.feature_index == f,
{
    proof {
        assert(mat(x@)[t as int] == x@[t as int]@);
        assert(mat(x@)[t as int].len() == mat(x@)[0].len());
    }
    let row_t = &x[t];
    let thr: Rat = row_t[f];
    let n = x.len();
    let nl = count_left_exec(x, f, &thr);
    if nl == 0 || nl == n {
        return Some(None);
    }
    let ls = match sum_side_exec(x, y, f, &thr, true) {
        None => {
            return None;
        },
        Some(v) => v,
    };
    let rs = match sum_side_exec(x, y, f, &thr, false) {
        None => {
            return None;
        },
        Some(v) => v,
    };
    let lv = match rat_div_count(&ls, nl) {
        None => {
            return None;
        },
        Some(v) => v,
    };
    let rv = match rat_div_count(&rs, n - nl) {
        None => {
            return None;
        },
        Some(v) => v,
    };
    let le = match err_side_exec(x, y, f, &thr, true, &lv) {
        None => {
            return None;
        },
        Some(v) => v,
    };
    let re = match err_side_exec(x, y, f, &thr, false, &rv) {
        None => {
            return None;
        },
        Some(v) => v,
    };
    match rat_add(&le, &re) {
        None => None,
        Some(tot) => Some(
            Some(
                (
                    tot,
                    DecisionStump {
                        feature_index: f,
                        threshold: thr,
                        left_value: lv,
                        right_value: rv,
                    },
                ),
            ),
        ),
    }
}

impl DecisionStump {
    /// The stump's prediction for one row: the left value when the split
    /// feature is at most the threshold, else the right value.
    pub open spec fn spec_predict(self, row: Seq<Rat>) -> Rat {
        if spec_le(row[self.feature_index as int], self.threshold) {
            self.left_value
        } else {
            self.right_value
        }
    }

    /// Predicts the output for a single data point. The row must reach the
    /// stump's split feature.
    pub fn predict(&self, features: &Vec<Rat>) -> (r: Rat)
        requires
            self.wf(),
            self.feature_index < features@.len(),
            seq_wf(features@),
        ensures
            r == self.spec_predict(features@),
    {
        if rat_le(&features[self.feature_index], &self.threshold) {
            self.left_value
        } else {
            self.right_value
        }
    }

    /// Finds the best split of `x` against the targets `y`: the first
    /// candidate, features outer and rows inner, with the strictly smallest
    /// summed squared leaf error. Returns the fallback stump when no
    /// candidate separates the data, and `None` when a cost computation left
    /// the representable range.
    #[verifier::loop_isolation(false)]
    pub fn fit(x: &Vec<Vec<Rat>>, y: &Vec<Rat>) -> (r: Option<DecisionStump>)
        requires
            x@.len() >= 1,
            y@.len() == x@.len(),
            mat_rect(mat(x@)),
            mat_wf(mat(x@)),
            seq_wf(y@),
            x@.len() * mat(x@)[0].len() <= usize::MAX,
        ensures
            r == spec_fit(mat(x@), y@),
            r matches Some(s) ==> s.wf(),
            r matches Some(s) ==> s.feature_index < mat(x@)[0].len() || s.feature_index == 0,
    {
        let n_rows = x.len();
        let row0 = &x[0];
        let n_features = row0.len();
        proof {
            assert(mat(x@)[0] == x@[0]@);
        }
        let total = n_rows * n_features;
        let mut st: Option<Option<(Rat, DecisionStump)>> = Some(None);
        let mut c: usize = 0;
        while c < total
            invariant
                c <= total,
                st == scan(mat(x@), y@, c as int),
                st matches Some(Some(p)) ==> p.0.wf() && p.1.wf() && p.1.feature_index
                    < n_features,
            decreases total - c,
        {
            match st {
                None => {},
                Some(best) => {
                    proof {
                        lemma_div_pos_is_pos(c as int, n_rows as int);
                        lemma_multiply_divide_lt(c as int, n_rows as int, n_features as int);
                        lemma_mod_bound(c as int, n_rows as int);
                    }
                    let f = c / n_rows;
                    let t = c % n_rows;
                    let cand = eval_candidate_exec(x, y, f, t);
                    proof {
                        assert(cand_f(mat(x@), c as int) == f as int);
                        assert(cand_t(mat(x@), c as int) == t as int);
                    }
                    match cand {
                        None => {
                            st = None;
                        },
                        Some(None) => {},
                        Some(Some(p)) => {
                            match best {
                                None => {
                                    st = Some(Some(p));
                                },
                                Some(b) => {
                                    if rat_lt(&p.0, &b.0) {
                                        st = Some(Some(p));
                                    } else {
                                        st = Some(Some(b));
                                    }
                                },
                            }
                        },
                    }
                },
            }
            c = c + 1;
        }
        match st {
            None => None,
            Some(None) => Some(
                DecisionStump {
                    feature_index: 0,
                    threshold: Rat::zero(),
                    left_value: Rat::zero(),
                    right_value: Rat::zero(),
                },
            ),
            Some(Some(p)) => Some(p.1),
        }
    }
}

} // verus!
