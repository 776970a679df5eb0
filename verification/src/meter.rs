//! Gas accounting over a transaction's execution effects.
//!
//! The live fee price and the dry-run come from chain RPC outside the
//! library; what the effects cost is computed here.  The budget bound keeps
//! the storage rebate in, deliberately over-estimating the way client
//! libraries do.

use vstd::prelude::*;

verus! {

/// The cost section of a transaction's effects.
#[derive(Clone, Copy, Debug, PartialEq, Eq, Structural)]
pub struct GasCostSummary {
    pub computation_cost: u64,
    pub storage_cost: u64,
    pub storage_rebate: u64,
}

/// Fee arithmetic over effects; the price and dry-run RPC calls stay with
/// the caller, which hands the resulting summary in.
pub struct GasMeter {}

impl GasMeter {
    pub fn new() -> (r: GasMeter) {
        GasMeter {  }
    }

    /// What execution actually cost: computation plus storage, minus the
    /// storage rebate.
    pub fn total_gas_used(summary: &GasCostSummary) -> (r: u64)
        requires
            summary.computation_cost + summary.storage_cost <= u64::MAX,
            summary.storage_rebate <= summary.computation_cost + summary.storage_cost,
        ensures
            r == summary.computation_cost + summary.storage_cost - summary.storage_rebate,
    {
        summary.computation_cost + summary.storage_cost - summary.storage_rebate
    }

    /// An upper bound on what execution can cost: computation plus storage,
    /// rebate not subtracted.
    pub fn total_gas_used_upper_bound(summary: &GasCostSummary) -> (r: u64)
        requires
            summary.computation_cost + summary.storage_cost <= u64::MAX,
        ensures
            r == summary.computation_cost + summary.storage_cost,
    {
        summary.computation_cost + summary.storage_cost
    }
}

} // verus!
