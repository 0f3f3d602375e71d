//! The config hot-reload bridge's decision logic: a freshly received
//! configuration snapshot replaces the shared configuration unconditionally,
//! and a failure to apply it to the devices is reported but never rolls the
//! swap back.

use vstd::prelude::*;

verus! {

/// The outcome of one hot-reload episode, for the surrounding task to log.
#[derive(Clone, Copy, PartialEq, Eq, Structural, Debug)]
pub enum ReloadOutcome {
    /// The new configuration was swapped in and applied to every device.
    Applied,
    /// The new configuration was swapped in, but applying it failed; it
    /// stays in effect and an operator must correct and re-save the file.
    ApplyFailedConfigRetained,
}

/// Swaps a freshly received configuration snapshot into the shared slot.
/// The swap is unconditional, and nothing in the bridge ever rolls it back:
/// the apply that follows can fail but cannot undo it.
pub fn hot_reload_step<C>(shared: &mut C, new_config: C)
    ensures
        *final(shared) == new_config,
{
    *shared = new_config;
}

/// Classifies the apply that followed a swap: success, or a failure that
/// leaves the already-swapped configuration in effect.
pub fn reload_outcome(apply_ok: bool) -> (r: ReloadOutcome)
    ensures
        r == (if apply_ok {
            ReloadOutcome::Applied
        } else {
            ReloadOutcome::ApplyFailedConfigRetained
        }),
{
    if apply_ok {
        ReloadOutcome::Applied
    } else {
        ReloadOutcome::ApplyFailedConfigRetained
    }
}

} // verus!
