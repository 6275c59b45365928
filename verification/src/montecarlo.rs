//! The Monte Carlo simulation engine: repeated sampling over task or risk
//! estimates, sorted totals, and confidence-percentile queries.

use vstd::prelude::*;
use vstd::arithmetic::div_mod::lemma_div_is_ordered;
use vstd::arithmetic::mul::{lemma_mul_inequality, lemma_mul_nonnegative};
use crate::SimError;
use crate::fixed::MAX_ABS_MILLI;
use crate::pert::PertValues;
use crate::risktype::RiskValues;
use crate::sorting::{sort_i64, sorted_asc};
use crate::text::str_eq;

verus! {

/// Most entities one engine will sum in a single iteration; together with
/// the bound on each sampling range this keeps every iteration total inside
/// `i64`.
pub const MAX_ENTITIES: usize = 1_000_000;

/// The closed set of probability category labels.
pub open spec fn valid_category(c: Seq<char>) -> bool {
    ||| c == "Certain"@
    ||| c == "Likely"@
    ||| c == "Moderate"@
    ||| c == "Unlikely"@
    ||| c == "Rare"@
}

/// Lower end of a category's occurrence band, in milli-percent.
pub open spec fn category_lower(c: Seq<char>) -> int {
    if c == "Certain"@ {
        90_000
    } else if c == "Likely"@ {
        50_000
    } else if c == "Moderate"@ {
        10_000
    } else if c == "Unlikely"@ {
        3_000
    } else {
        100
    }
}

/// Upper end of a category's occurrence band, in milli-percent (exclusive).
pub open spec fn category_upper(c: Seq<char>) -> int {
    if c == "Certain"@ {
        99_000
    } else if c == "Likely"@ {
        90_000
    } else if c == "Moderate"@ {
        50_000
    } else if c == "Unlikely"@ {
        10_000
    } else {
        3_000
    }
}

/// The occurrence bands do not overlap at their extremes: every threshold
/// the model can draw for `Certain` lies above every threshold it can draw
/// for `Rare`. The empirical occurrence rates themselves are a matter of
/// sampling and are exercised by tests.
pub proof fn lemma_certain_band_above_rare()
    ensures
        category_upper("Rare"@) <= category_lower("Certain"@),
{
    reveal_strlit("Certain");
    reveal_strlit("Likely");
    reveal_strlit("Moderate");
    reveal_strlit("Unlikely");
    reveal_strlit("Rare");
    assert("Rare"@.len() == 4);
    assert("Certain"@.len() == 7);
    assert("Likely"@.len() == 6);
    assert("Moderate"@.len() == 8);
    assert("Unlikely"@.len() == 8);
    assert(category_upper("Rare"@) == 3_000);
    assert(category_lower("Certain"@) == 90_000);
}

/// Relies on rand::random_range: a uniform draw from a non-empty half-open
/// integer range lies within that range (it panics only on an empty range,
/// which the precondition rules out).
#[verifier::external_body]
fn sample_uniform(lower: i64, upper: i64) -> (r: i64)
    requires
        lower < upper,
    ensures
        lower <= r < upper,
{
    rand::random_range(lower..upper)
}

/// The occurrence decision on the two drawn values: the risk occurs
/// exactly when the roll is at or below the threshold.
pub fn occurs(threshold: i64, roll: i64) -> (r: bool)
    ensures
        r == (roll <= threshold),
{
    threshold >= roll
}

/// Tests a label against the closed category set.
pub fn is_valid_category(c: &str) -> (r: bool)
    ensures
        r == valid_category(c@),
{
    str_eq(c, "Certain") || str_eq(c, "Likely") || str_eq(c, "Moderate") || str_eq(c, "Unlikely")
        || str_eq(c, "Rare")
}

/// Draws the occurrence threshold for a probability category: a uniform
/// milli-percent value in the category's fixed `[lower, upper)` band, or
/// `ConfigurationError` for a label outside the closed category set.
pub fn define_upper_bound(risk_category: &str) -> (r: Result<i64, SimError>)
    ensures
        r is Ok <==> valid_category(risk_category@),
        r is Ok ==> category_lower(risk_category@) <= r->Ok_0 < category_upper(risk_category@),
        r is Err ==> r->Err_0 == SimError::ConfigurationError,
{
    let lower: i64;
    let upper: i64;
    if str_eq(risk_category, "Certain") {
        upper = 99_000;
        lower = 90_000;
    } else if str_eq(risk_category, "Likely") {
        upper = 90_000;
        lower = 50_000;
    } else if str_eq(risk_category, "Moderate") {
        upper = 50_000;
        lower = 10_000;
    } else if str_eq(risk_category, "Unlikely") {
        upper = 10_000;
        lower = 3_000;
    } else if str_eq(risk_category, "Rare") {
        upper = 3_000;
        lower = 100;
    } else {
        return Err(SimError::ConfigurationError);
    }
    Ok(sample_uniform(lower, upper))
}

/// Sum of the lower sampling bounds of a set of task estimates.
pub open spec fn sum_lower(s: Seq<PertValues>) -> int
    decreases s.len(),
{
    if s.len() == 0 {
        0
    } else {
        sum_lower(s.drop_last()) + s.last().range_lower
    }
}

/// Sum of the upper sampling bounds of a set of task estimates.
pub open spec fn sum_upper(s: Seq<PertValues>) -> int
    decreases s.len(),
{
    if s.len() == 0 {
        0
    } else {
        sum_upper(s.drop_last()) + s.last().range_upper
    }
}

/// Every estimate's sampling range runs upward: its lower bound does not
/// exceed its upper bound.
pub open spec fn proper_ranges(s: Seq<PertValues>) -> bool {
    forall|i: int| 0 <= i < s.len() ==> (#[trigger] s[i]).range_lower <= s[i].range_upper
}

/// Every risk carries a label from the closed category set.
pub open spec fn all_valid_categories(s: Seq<RiskValues>) -> bool {
    forall|i: int| 0 <= i < s.len() ==> valid_category(#[trigger] s[i].probability@)
}

/// Every risk's impact sampling range runs upward.
pub open spec fn proper_risk_ranges(s: Seq<RiskValues>) -> bool {
    forall|i: int| 0 <= i < s.len() ==> (#[trigger] s[i]).range_lower <= s[i].range_upper
}

/// The least a risk can add to an iteration total: nothing when it does not
/// occur, its lower impact bound when that is negative.
pub open spec fn risk_contribution_lower(r: RiskValues) -> int {
    if r.range_lower < 0 {
        r.range_lower as int
    } else {
        0
    }
}

/// The most a risk can add to an iteration total: nothing when it does not
/// occur, its upper impact bound when that is positive.
pub open spec fn risk_contribution_upper(r: RiskValues) -> int {
    if r.range_upper > 0 {
        r.range_upper as int
    } else {
        0
    }
}

/// Sum of the least possible contributions of a set of risks.
pub open spec fn risk_sum_lower(s: Seq<RiskValues>) -> int
    decreases s.len(),
{
    if s.len() == 0 {
        0
    } else {
        risk_sum_lower(s.drop_last()) + risk_contribution_lower(s.last())
    }
}

/// Sum of the greatest possible contributions of a set of risks.
pub open spec fn risk_sum_upper(s: Seq<RiskValues>) -> int
    decreases s.len(),
{
    if s.len() == 0 {
        0
    } else {
        risk_sum_upper(s.drop_last()) + risk_contribution_upper(s.last())
    }
}

/// Extending a prefix of the risks by one element extends both contribution
/// sums by that risk's envelope.
proof fn lemma_risk_sum_prefix(s: Seq<RiskValues>, i: int)
    requires
        0 <= i < s.len(),
    ensures
        risk_sum_lower(s.subrange(0, i + 1)) == risk_sum_lower(s.subrange(0, i))
            + risk_contribution_lower(s[i]),
        risk_sum_upper(s.subrange(0, i + 1)) == risk_sum_upper(s.subrange(0, i))
            + risk_contribution_upper(s[i]),
{
    let t = s.subrange(0, i + 1);
    assert(t.drop_last() =~= s.subrange(0, i));
    assert(t.last() == s[i]);
}

/// Two sequences with the same multiset have the same elements, so a bound
/// that holds of every element of one holds of every element of the other.
proof fn lemma_bounds_cross_multiset(s1: Seq<i64>, s2: Seq<i64>, lo: int, hi: int)
    requires
        s1.to_multiset() == s2.to_multiset(),
        forall|i: int| 0 <= i < s1.len() ==> lo <= #[trigger] s1[i] <= hi,
    ensures
        forall|i: int| 0 <= i < s2.len() ==> lo <= #[trigger] s2[i] <= hi,
{
    broadcast use vstd::seq_lib::group_to_multiset_ensures;

    assert forall|i: int| 0 <= i < s2.len() implies lo <= #[trigger] s2[i] <= hi by {
        assert(s2.contains(s2[i]));
        assert(s1.to_multiset().count(s2[i]) > 0);
        assert(s1.contains(s2[i]));
        let j = choose|j: int| 0 <= j < s1.len() && s1[j] == s2[i];
        assert(lo <= s1[j] <= hi);
    };
}

/// Accumulating one more bounded contribution keeps a running total inside
/// the per-prefix envelope, which itself stays far inside `i64`.
proof fn lemma_sum_step_bound(i: int, n: int, c: int, sum: int, x: int)
    requires
        0 <= i < n <= 1_000_000,
        0 <= c <= 2_000_000_000_000,
        -(i * c) <= sum <= i * c,
        -c <= x <= c,
    ensures
        -((i + 1) * c) <= sum + x <= (i + 1) * c,
        -3_000_000_000_000_000_000 <= sum + x <= 3_000_000_000_000_000_000,
{
    assert((-((i + 1) * c) <= sum + x <= (i + 1) * c) && ((i + 1) * c <= 1_000_000 * c))
        by (nonlinear_arith)
        requires
            0 <= i < n <= 1_000_000,
            0 <= c,
            -(i * c) <= sum <= i * c,
            -c <= x <= c,
    ;
    assert(1_000_000 * c <= 3_000_000_000_000_000_000);
}

/// Extending a prefix of the estimates by one element extends both bound
/// sums by that element's bounds.
proof fn lemma_sum_prefix(s: Seq<PertValues>, i: int)
    requires
        0 <= i < s.len(),
    ensures
        sum_lower(s.subrange(0, i + 1)) == sum_lower(s.subrange(0, i)) + s[i].range_lower,
        sum_upper(s.subrange(0, i + 1)) == sum_upper(s.subrange(0, i)) + s[i].range_upper,
{
    let t = s.subrange(0, i + 1);
    assert(t.drop_last() =~= s.subrange(0, i));
    assert(t.last() == s[i]);
}

/// The nearest rank inspected by a confidence query: the whole-number count
/// of iterations per percent times the percentile, rounded half up to the
/// nearest whole rank. The percentile is in milli-percent, hence the
/// division by one thousand.
pub open spec fn conf_index(iterations: int, percentile: int) -> int {
    ((iterations / 100) * percentile + 500) / 1000
}

/// The simulation engine: a collection of task estimates, a collection of
/// risks, a fixed iteration count, and the totals of the most recent run.
/// `estimates` is empty until `iterate` succeeds; afterwards it holds one
/// total per iteration, sorted ascending.
#[derive(Debug)]
pub struct MonteCarlo {
    pub perts: Vec<PertValues>,
    pub risks: Vec<RiskValues>,
    pub iterations: usize,
    pub estimates: Vec<i64>,
}

impl MonteCarlo {
    /// Every entity is well formed and the collections are small enough
    /// that an iteration total cannot overflow.
    pub open spec fn wf(self) -> bool {
        &&& self.perts@.len() <= MAX_ENTITIES
        &&& self.risks@.len() <= MAX_ENTITIES
        &&& forall|i: int| 0 <= i < self.perts@.len() ==> (#[trigger] self.perts@[i]).wf()
        &&& forall|i: int| 0 <= i < self.risks@.len() ==> (#[trigger] self.risks@[i]).wf()
    }

    /// A fresh engine: the target iteration count, no entities, no totals.
    pub fn new(its: usize) -> (result: MonteCarlo)
        ensures
            result.iterations == its,
            result.perts@.len() == 0,
            result.risks@.len() == 0,
            result.estimates@.len() == 0,
            result.wf(),
    {
        MonteCarlo {
            iterations: its,
            perts: Vec::new(),
            risks: Vec::new(),
            estimates: Vec::new(),
        }
    }

    /// One uniform sample from `[lower, upper)`. A degenerate or inverted
    /// range (`upper <= lower`, possible when a pessimistic input lies at or
    /// below the optimistic one) collapses to its lower endpoint rather than
    /// being reordered or rejected.
    fn single_estimate(&self, lower: i64, upper: i64) -> (r: i64)
        ensures
            lower < upper ==> lower <= r < upper,
            upper <= lower ==> r == lower,
    {
        if lower < upper {
            sample_uniform(lower, upper)
        } else {
            lower
        }
    }

    /// One occurrence trial: draws a roll uniformly from `[0, 100)` percent
    /// and a threshold from the category's band, and answers through
    /// `occurs`, which fixes the decision on the two drawn values. Each
    /// call makes two independent draws. Fails exactly on a label outside
    /// the category set.
    pub fn single_risk_occurrence(&self, probability: &str) -> (r: Result<bool, SimError>)
        ensures
            r is Ok <==> valid_category(probability@),
            r is Err ==> r->Err_0 == SimError::ConfigurationError,
    {
        let occurrence = sample_uniform(0, 100_000);
        match define_upper_bound(probability) {
            Ok(probability_percent) => Ok(occurs(probability_percent, occurrence)),
            Err(e) => Err(e),
        }
    }

    /// One task-mode pass: sums one sample per task estimate and appends
    /// the total to the run's totals. When every estimate's range runs
    /// upward the total lies between the sums of the lower and of the upper
    /// bounds.
    fn single_iteration(&mut self)
        requires
            old(self).wf(),
        ensures
            final(self).perts == old(self).perts,
            final(self).risks == old(self).risks,
            final(self).iterations == old(self).iterations,
            final(self).estimates@.len() == old(self).estimates@.len() + 1,
            final(self).estimates@ == old(self).estimates@.push(final(self).estimates@.last()),
            proper_ranges(old(self).perts@) ==> sum_lower(old(self).perts@)
                <= final(self).estimates@.last() <= sum_upper(old(self).perts@),
    {
        let ghost perts = self.perts@;
        let mut estimate_sum: i64 = 0;
        let mut i: usize = 0;
        proof {
            assert(perts.subrange(0, 0) =~= Seq::<PertValues>::empty());
        }
        while i < self.perts.len()
            invariant
                old(self).wf(),
                self.perts == old(self).perts,
                self.perts@ == perts,
                self.risks == old(self).risks,
                self.iterations == old(self).iterations,
                self.estimates == old(self).estimates,
                i <= perts.len(),
                perts.len() <= MAX_ENTITIES,
                -((i as int) * (2 * MAX_ABS_MILLI as int)) <= estimate_sum as int <= (i as int)
                    * (2 * MAX_ABS_MILLI as int),
                proper_ranges(perts) ==> sum_lower(perts.subrange(0, i as int)) <= estimate_sum
                    <= sum_upper(perts.subrange(0, i as int)),
            decreases perts.len() - i,
        {
            let lower = self.perts[i].range_lower;
            let upper = self.perts[i].range_upper;
            let sample = self.single_estimate(lower, upper);
            proof {
                assert(perts[i as int].wf());
                lemma_sum_prefix(perts, i as int);
                lemma_sum_step_bound(
                    i as int,
                    perts.len() as int,
                    2 * MAX_ABS_MILLI as int,
                    estimate_sum as int,
                    sample as int,
                );
            }
            estimate_sum = estimate_sum + sample;
            i = i + 1;
        }
        proof {
            assert(perts.subrange(0, perts.len() as int) =~= perts);
        }
        self.estimates.push(estimate_sum);
    }

    /// One risk-mode pass: each risk whose occurrence trial fires
    /// contributes one sample of its impact distribution, the others
    /// contribute nothing; appends the iteration total. Callers establish
    /// beforehand that every category label is valid, so no trial fails.
    /// When every impact range runs upward the total lies between the sums
    /// of the least and of the greatest possible contributions.
    fn single_risk_iteration(&mut self)
        requires
            old(self).wf(),
            all_valid_categories(old(self).risks@),
        ensures
            final(self).perts == old(self).perts,
            final(self).risks == old(self).risks,
            final(self).iterations == old(self).iterations,
            final(self).estimates@.len() == old(self).estimates@.len() + 1,
            final(self).estimates@ == old(self).estimates@.push(final(self).estimates@.last()),
            proper_risk_ranges(old(self).risks@) ==> risk_sum_lower(old(self).risks@)
                <= final(self).estimates@.last() <= risk_sum_upper(old(self).risks@),
    {
        let ghost risks = self.risks@;
        let mut total_impact: i64 = 0;
        let mut i: usize = 0;
        proof {
            assert(risks.subrange(0, 0) =~= Seq::<RiskValues>::empty());
        }
        while i < self.risks.len()
            invariant
                old(self).wf(),
                all_valid_categories(risks),
                self.perts == old(self).perts,
                self.risks == old(self).risks,
                self.risks@ == risks,
                self.iterations == old(self).iterations,
                self.estimates == old(self).estimates,
                i <= risks.len(),
                risks.len() <= MAX_ENTITIES,
                -((i as int) * (2 * MAX_ABS_MILLI as int)) <= total_impact as int <= (i as int)
                    * (2 * MAX_ABS_MILLI as int),
                proper_risk_ranges(risks) ==> risk_sum_lower(risks.subrange(0, i as int))
                    <= total_impact <= risk_sum_upper(risks.subrange(0, i as int)),
            decreases risks.len() - i,
        {
            let lower = self.risks[i].range_lower;
            let upper = self.risks[i].range_upper;
            proof {
                assert(risks[i as int].wf());
                assert(valid_category(risks[i as int].probability@));
            }
            let risk_occurred = match self.single_risk_occurrence(self.risks[i].probability.as_str()) {
                Ok(occurred) => occurred,
                Err(_) => {
                    proof {
                        assert(false);
                    }
                    false
                },
            };
            let mut contribution: i64 = 0;
            if risk_occurred {
                contribution = self.single_estimate(lower, upper);
            }
            proof {
                lemma_sum_step_bound(
                    i as int,
                    risks.len() as int,
                    2 * MAX_ABS_MILLI as int,
                    total_impact as int,
                    contribution as int,
                );
                lemma_risk_sum_prefix(risks, i as int);
            }
            total_impact = total_impact + contribution;
            i = i + 1;
        }
        proof {
            assert(risks.subrange(0, risks.len() as int) =~= risks);
        }
        self.estimates.push(total_impact);
    }

    /// Tests every risk's category label against the closed category set.
    fn check_categories(&self) -> (r: bool)
        ensures
            r == all_valid_categories(self.risks@),
    {
        let mut i: usize = 0;
        while i < self.risks.len()
            invariant
                i <= self.risks@.len(),
                forall|k: int| 0 <= k < i ==> valid_category(
                    #[trigger] self.risks@[k].probability@,
                ),
            decreases self.risks@.len() - i,
        {
            if !is_valid_category(self.risks[i].probability.as_str()) {
                return false;
            }
            i += 1;
        }
        true
    }

    /// Runs the whole batch: one independent iteration per unit of the
    /// iteration count, in the given mode, then sorts the totals ascending.
    /// The previous run's totals are replaced from scratch. An unknown mode
    /// string, or (in risk mode) any label outside the category set, fails
    /// with `ConfigurationError` and leaves the engine untouched.
    pub fn iterate(&mut self, task: &str) -> (r: Result<(), SimError>)
        requires
            old(self).wf(),
        ensures
            r is Ok <==> (task@ == "pert"@ || (task@ == "risk"@ && all_valid_categories(
                old(self).risks@,
            ))),
            r is Err ==> *final(self) == *old(self) && r->Err_0 == SimError::ConfigurationError,
            r is Ok ==> final(self).perts == old(self).perts && final(self).risks == old(
                self,
            ).risks && final(self).iterations == old(self).iterations && final(self).wf(),
            r is Ok ==> final(self).estimates@.len() == old(self).iterations && sorted_asc(
                final(self).estimates@,
            ),
            r is Ok && task@ == "pert"@ && proper_ranges(old(self).perts@) ==> forall|i: int|
                0 <= i < final(self).estimates@.len() ==> sum_lower(old(self).perts@)
                    <= #[trigger] final(self).estimates@[i] <= sum_upper(old(self).perts@),
            r is Ok && task@ == "risk"@ && proper_risk_ranges(old(self).risks@) ==> forall|i: int|
                0 <= i < final(self).estimates@.len() ==> risk_sum_lower(old(self).risks@)
                    <= #[trigger] final(self).estimates@[i] <= risk_sum_upper(old(self).risks@),
    {
        proof {
            reveal_strlit("pert");
            reveal_strlit("risk");
            assert("pert"@[0] != "risk"@[0]);
            assert("pert"@ != "risk"@);
        }
        let run_risk = str_eq(task, "risk");
        let run_pert = str_eq(task, "pert");
        if !run_risk && !run_pert {
            return Err(SimError::ConfigurationError);
        }
        if run_risk && !self.check_categories() {
            return Err(SimError::ConfigurationError);
        }
        let ghost perts0 = self.perts@;
        let ghost risks0 = self.risks@;
        self.estimates = Vec::new();
        let mut x: usize = 0;
        if run_risk {
            while x < self.iterations
                invariant
                    self.wf(),
                    all_valid_categories(self.risks@),
                    self.perts == old(self).perts,
                    self.risks == old(self).risks,
                    self.risks@ == risks0,
                    self.iterations == old(self).iterations,
                    x <= self.iterations,
                    self.estimates@.len() == x,
                    proper_risk_ranges(risks0) ==> forall|k: int|
                        0 <= k < x ==> risk_sum_lower(risks0) <= #[trigger] self.estimates@[k]
                            <= risk_sum_upper(risks0),
                decreases self.iterations - x,
            {
                self.single_risk_iteration();
                x += 1;
            }
        } else {
            while x < self.iterations
                invariant
                    self.wf(),
                    self.perts == old(self).perts,
                    self.perts@ == perts0,
                    self.risks == old(self).risks,
                    self.iterations == old(self).iterations,
                    x <= self.iterations,
                    self.estimates@.len() == x,
                    proper_ranges(perts0) ==> forall|k: int|
                        0 <= k < x ==> sum_lower(perts0) <= #[trigger] self.estimates@[k]
                            <= sum_upper(perts0),
                decreases self.iterations - x,
            {
                self.single_iteration();
                x += 1;
            }
        }
        let ghost unsorted = self.estimates@;
        sort_i64(&mut self.estimates);
        proof {
            if run_pert && proper_ranges(perts0) {
                lemma_bounds_cross_multiset(
                    unsorted,
                    self.estimates@,
                    sum_lower(perts0),
                    sum_upper(perts0),
                );
            }
            if run_risk && proper_risk_ranges(risks0) {
                lemma_bounds_cross_multiset(
                    unsorted,
                    self.estimates@,
                    risk_sum_lower(risks0),
                    risk_sum_upper(risks0),
                );
            }
        }
        Ok(())
    }

    /// Nearest-rank confidence lookup over the most recent run. The
    /// percentile is in milli-percent (99_900 is 99.9%); the inspected rank
    /// is the whole-number count of iterations per percent times the
    /// percentile, rounded half up. Fails with `PreconditionViolation`
    /// before any run has populated the totals, and with `IndexOutOfRange`
    /// when the rank falls outside them.
    pub fn confidence(&self, percentile: u64) -> (r: Result<i64, SimError>)
        ensures
            self.estimates@.len() == 0 ==> r == Err::<i64, SimError>(
                SimError::PreconditionViolation,
            ),
            self.estimates@.len() > 0 && conf_index(self.iterations as int, percentile as int)
                < self.estimates@.len() ==> r == Ok::<i64, SimError>(
                self.estimates@[conf_index(self.iterations as int, percentile as int)],
            ),
            self.estimates@.len() > 0 && conf_index(self.iterations as int, percentile as int)
                >= self.estimates@.len() ==> r == Err::<i64, SimError>(SimError::IndexOutOfRange),
    {
        if self.estimates.len() == 0 {
            return Err(SimError::PreconditionViolation);
        }
        let single_percent: usize = self.iterations / 100;
        proof {
            lemma_mul_upper_bound_u128(single_percent as int, percentile as int);
        }
        let numerator: u128 = (single_percent as u128) * (percentile as u128) + 500;
        let index_wide: u128 = numerator / 1_000;
        if index_wide >= self.estimates.len() as u128 {
            return Err(SimError::IndexOutOfRange);
        }
        let index: usize = index_wide as usize;
        Ok(self.estimates[index])
    }

    /// Confidence is monotone in the percentile: against one completed
    /// (sorted) run, a higher percentile never selects a smaller total.
    pub proof fn lemma_confidence_monotonic(self, p1: int, p2: int)
        requires
            sorted_asc(self.estimates@),
            0 <= p1 <= p2,
            conf_index(self.iterations as int, p2) < self.estimates@.len(),
        ensures
            0 <= conf_index(self.iterations as int, p1) <= conf_index(
                self.iterations as int,
                p2,
            ),
            self.estimates@[conf_index(self.iterations as int, p1)]
                <= self.estimates@[conf_index(self.iterations as int, p2)],
    {
        let q = self.iterations as int / 100;
        lemma_div_is_ordered(0, self.iterations as int, 100);
        lemma_mul_nonnegative(q, p1);
        lemma_mul_inequality(p1, p2, q);
        assert(q * p1 == p1 * q && q * p2 == p2 * q);
        lemma_div_is_ordered(0, q * p1 + 500, 1000);
        lemma_div_is_ordered(q * p1 + 500, q * p2 + 500, 1000);
        let i1 = conf_index(self.iterations as int, p1);
        let i2 = conf_index(self.iterations as int, p2);
        assert(self.estimates@[i1] <= self.estimates@[i2]);
    }
}

/// The product of two values that each fit in 64 bits leaves ample room in
/// 128 bits for the rounding addend.
proof fn lemma_mul_upper_bound_u128(a: int, b: int)
    requires
        0 <= a <= 0xffff_ffff_ffff_ffff,
        0 <= b <= 0xffff_ffff_ffff_ffff,
    ensures
        0 <= a * b,
        a * b + 500 <= 0xffff_ffff_ffff_ffff_ffff_ffff_ffff_ffff,
{
    lemma_mul_nonnegative(a, b);
    vstd::arithmetic::mul::lemma_mul_upper_bound(
        a,
        0xffff_ffff_ffff_ffff,
        b,
        0xffff_ffff_ffff_ffff,
    );
}

} // verus!
