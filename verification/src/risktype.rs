//! Risk records: a categorical occurrence probability plus a PERT-shaped
//! impact distribution.

use vstd::prelude::*;
use crate::fixed::{div6, div6_trunc, pert_mean, pert_std_dev, MAX_ABS_MILLI};

verus! {

/// One risk: a name, a probability category label (validated where it is
/// used, see the occurrence model), a free-text consequence label, and the
/// PERT statistics of its impact, in milli-units.
#[derive(Debug)]
pub struct RiskValues {
    pub name: String,
    pub probability: String,
    pub consequence: String,
    pub optimistic: i64,
    pub most_likely: i64,
    pub pessimistic: i64,
    pub pert_estimate: i64,
    pub pm_standard_dev: i64,
    pub range_upper: i64,
    pub range_lower: i64,
}

impl RiskValues {
    /// The derived impact fields agree with the three inputs and every field
    /// is small enough that sums over many risks stay inside `i64`.
    pub open spec fn wf(self) -> bool {
        &&& -MAX_ABS_MILLI <= self.optimistic <= MAX_ABS_MILLI
        &&& -MAX_ABS_MILLI <= self.most_likely <= MAX_ABS_MILLI
        &&& -MAX_ABS_MILLI <= self.pessimistic <= MAX_ABS_MILLI
        &&& self.pert_estimate == pert_mean(
            self.optimistic as int,
            self.most_likely as int,
            self.pessimistic as int,
        )
        &&& self.pm_standard_dev == pert_std_dev(
            self.optimistic as int,
            self.pessimistic as int,
        )
        &&& self.range_upper == self.pert_estimate + self.pm_standard_dev
        &&& self.range_lower == self.pert_estimate - self.pm_standard_dev
        &&& -2 * MAX_ABS_MILLI <= self.range_lower <= 2 * MAX_ABS_MILLI
        &&& -2 * MAX_ABS_MILLI <= self.range_upper <= 2 * MAX_ABS_MILLI
    }

    /// Derives the PERT statistics of the risk's impact exactly as for a
    /// task estimate; the probability and consequence labels are stored
    /// untouched.
    pub fn new(
        nom: String,
        prob: String,
        cons: String,
        opti: i64,
        most: i64,
        pes: i64,
    ) -> (result: RiskValues)
        requires
            -MAX_ABS_MILLI <= opti <= MAX_ABS_MILLI,
            -MAX_ABS_MILLI <= most <= MAX_ABS_MILLI,
            -MAX_ABS_MILLI <= pes <= MAX_ABS_MILLI,
        ensures
            result.wf(),
            result.name@ == nom@,
            result.probability@ == prob@,
            result.consequence@ == cons@,
            result.optimistic == opti,
            result.most_likely == most,
            result.pessimistic == pes,
            result.pert_estimate == pert_mean(opti as int, most as int, pes as int),
            result.pm_standard_dev == pert_std_dev(opti as int, pes as int),
            result.range_upper == result.pert_estimate + result.pm_standard_dev,
            result.range_lower == result.pert_estimate - result.pm_standard_dev,
            result.range_upper - result.range_lower == 2 * result.pm_standard_dev,
    {
        let pert_estimate = div6(opti + 4 * most + pes);
        let pm_std_dev = div6(pes - opti);
        assert(-MAX_ABS_MILLI <= pert_estimate <= MAX_ABS_MILLI) by {
            assert(div6_trunc(opti + 4 * most + pes) <= MAX_ABS_MILLI);
            assert(div6_trunc(opti + 4 * most + pes) >= -MAX_ABS_MILLI);
        };
        assert(-MAX_ABS_MILLI <= pm_std_dev <= MAX_ABS_MILLI) by {
            assert(div6_trunc(pes - opti) <= MAX_ABS_MILLI);
            assert(div6_trunc(pes - opti) >= -MAX_ABS_MILLI);
        };
        RiskValues {
            name: nom,
            probability: prob,
            consequence: cons,
            optimistic: opti,
            most_likely: most,
            pessimistic: pes,
            pert_estimate,
            pm_standard_dev: pm_std_dev,
            range_upper: pert_estimate + pm_std_dev,
            range_lower: pert_estimate - pm_std_dev,
        }
    }
}

/// Identity of a risk is its name, its two labels and its three impact
/// inputs; the derived fields take no part in comparison.
impl PartialEq for RiskValues {
    fn eq(&self, comparator: &Self) -> (r: bool) {
        self.name == comparator.name && self.probability == comparator.probability
            && self.consequence == comparator.consequence && self.optimistic
            == comparator.optimistic && self.most_likely == comparator.most_likely
            && self.pessimistic == comparator.pessimistic
    }
}

impl vstd::std_specs::cmp::PartialEqSpecImpl for RiskValues {
    open spec fn obeys_eq_spec() -> bool {
        true
    }

    open spec fn eq_spec(&self, comparator: &Self) -> bool {
        &&& self.name@ == comparator.name@
        &&& self.probability@ == comparator.probability@
        &&& self.consequence@ == comparator.consequence@
        &&& self.optimistic == comparator.optimistic
        &&& self.most_likely == comparator.most_likely
        &&& self.pessimistic == comparator.pessimistic
    }
}

} // verus!
