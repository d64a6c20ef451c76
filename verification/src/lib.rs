//! Core of an incremental-computation runtime fragment: resolved references
//! into a task graph, with capability casts checked against a type registry,
//! and a deferred effect channel that registers one-shot side effects and
//! later drains and applies them with aggregated failure semantics.
pub mod effect;
pub mod registry;
pub mod resolved;
pub mod task;

use vstd::prelude::*;

verus! {

/// Type identifier reserved for the concrete effect-instance value type.
pub const EFFECT_TYPE_ID: u64 = 1;

/// Capability identifier reserved for the erased "Effect" capability under
/// which effect collectibles are emitted.
pub const EFFECT_CAPABILITY_ID: u64 = 2;

} // verus!
