//! Monte Carlo estimation over PERT-derived task and risk distributions.
//!
//! Quantities with decimal fractions (estimates, percentiles, probability
//! bounds) are carried as fixed-point integers with three decimal places:
//! a value of `8.45` is stored as `8450` milli-units.

use vstd::prelude::*;

pub mod filehandler;
pub mod fixed;
pub mod montecarlo;
pub mod pert;
pub mod risktype;
pub mod sorting;
pub mod text;

verus! {

/// Failures of the simulation core. All are input or usage errors; none is
/// transient, so callers never retry.
#[derive(Debug, Clone, Copy, PartialEq, Eq, Structural)]
pub enum SimError {
    /// An invalid mode string or an invalid probability category was supplied.
    ConfigurationError,
    /// A confidence query asked for a rank outside the populated totals.
    IndexOutOfRange,
    /// A confidence query was issued before any run populated the totals.
    PreconditionViolation,
}

} // verus!
