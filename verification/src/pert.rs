//! Three-point PERT estimates and their derived statistics.

use vstd::prelude::*;
use crate::fixed::{div6, div6_trunc, pert_mean, pert_std_dev, MAX_ABS_MILLI};

verus! {

/// A task's three-point estimate together with its derived PERT statistics.
/// All quantities are milli-units. The derived fields are a pure function of
/// the three inputs and never change after construction.
#[derive(Debug)]
pub struct PertValues {
    pub name: String,
    pub optimistic: i64,
    pub most_likely: i64,
    pub pessimistic: i64,
    pub pert_estimate: i64,
    pub pm_standard_dev: i64,
    pub range_upper: i64,
    pub range_lower: i64,
}

impl PertValues {
    /// The derived fields agree with the three inputs and every field is
    /// small enough that sums over many estimates stay inside `i64`.
    pub open spec fn wf(self) -> bool {
        &&& -MAX_ABS_MILLI <= self.optimistic <= MAX_ABS_MILLI
        &&& -MAX_ABS_MILLI <= self.most_likely <= MAX_ABS_MILLI
        &&& -MAX_ABS_MILLI <= self.pessimistic <= MAX_ABS_MILLI
        &&& self.pert_estimate == pert_mean(
            self.optimistic as int,
            self.most_likely as int,
            self.pessimistic as int,
        )
        &&& self.pm_standard_dev == pert_std_dev(
            self.optimistic as int,
            self.pessimistic as int,
        )
        &&& self.range_upper == self.pert_estimate + self.pm_standard_dev
        &&& self.range_lower == self.pert_estimate - self.pm_standard_dev
        &&& -2 * MAX_ABS_MILLI <= self.range_lower <= 2 * MAX_ABS_MILLI
        &&& -2 * MAX_ABS_MILLI <= self.range_upper <= 2 * MAX_ABS_MILLI
    }

    /// Derives the PERT statistics for one task: the weighted mean
    /// `(o + 4m + p) / 6`, the standard deviation `(p - o) / 6`, and the
    /// sampling range `mean ± std_dev`. Total over all in-bounds inputs; no
    /// ordering among the three inputs is required, so a pessimistic value
    /// below the optimistic one yields a negative standard deviation and an
    /// inverted range, which the sampler later treats as degenerate.
    pub fn new(nom: String, opti: i64, most: i64, pes: i64) -> (result: PertValues)
        requires
            -MAX_ABS_MILLI <= opti <= MAX_ABS_MILLI,
            -MAX_ABS_MILLI <= most <= MAX_ABS_MILLI,
            -MAX_ABS_MILLI <= pes <= MAX_ABS_MILLI,
        ensures
            result.wf(),
            result.name@ == nom@,
            result.optimistic == opti,
            result.most_likely == most,
            result.pessimistic == pes,
            result.pert_estimate == pert_mean(opti as int, most as int, pes as int),
            result.pm_standard_dev == pert_std_dev(opti as int, pes as int),
            result.range_upper == result.pert_estimate + result.pm_standard_dev,
            result.range_lower == result.pert_estimate - result.pm_standard_dev,
            result.range_upper - result.range_lower == 2 * result.pm_standard_dev,
    {
        let pert_estimate = div6(opti + 4 * most + pes);
        let pm_std_dev = div6(pes - opti);
        assert(-MAX_ABS_MILLI <= pert_estimate <= MAX_ABS_MILLI) by {
            assert(div6_trunc(opti + 4 * most + pes) <= MAX_ABS_MILLI);
            assert(div6_trunc(opti + 4 * most + pes) >= -MAX_ABS_MILLI);
        };
        assert(-MAX_ABS_MILLI <= pm_std_dev <= MAX_ABS_MILLI) by {
            assert(div6_trunc(pes - opti) <= MAX_ABS_MILLI);
            assert(div6_trunc(pes - opti) >= -MAX_ABS_MILLI);
        };
        PertValues {
            name: nom,
            optimistic: opti,
            most_likely: most,
            pessimistic: pes,
            pert_estimate,
            pm_standard_dev: pm_std_dev,
            range_upper: pert_estimate + pm_std_dev,
            range_lower: pert_estimate - pm_std_dev,
        }
    }
}

/// Identity of an estimate is its name and its three inputs alone: the
/// derived fields are redundant given the inputs and take no part in
/// comparison.
impl PartialEq for PertValues {
    fn eq(&self, comparator: &Self) -> (r: bool) {
        self.name == comparator.name && self.optimistic == comparator.optimistic
            && self.most_likely == comparator.most_likely && self.pessimistic
            == comparator.pessimistic
    }
}

impl vstd::std_specs::cmp::PartialEqSpecImpl for PertValues {
    open spec fn obeys_eq_spec() -> bool {
        true
    }

    open spec fn eq_spec(&self, comparator: &Self) -> bool {
        &&& self.name@ == comparator.name@
        &&& self.optimistic == comparator.optimistic
        &&& self.most_likely == comparator.most_likely
        &&& self.pessimistic == comparator.pessimistic
    }
}

} // verus!
