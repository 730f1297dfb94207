use vstd::prelude::*;

verus! {

/// Opaque identifier of a fungible asset. Only equality matters to the
/// exchange core; a pair of distinct assets is matched without regard to
/// order.
#[derive(Clone, Copy, Debug, PartialEq, Eq, Structural)]
pub struct AssetId(pub u64);

/// Opaque identifier of the account on whose behalf an operation runs.
/// The core records it in trade descriptions but never branches on it;
/// authority checks belong to the ledger around the core.
#[derive(Clone, Copy, Debug, PartialEq, Eq, Structural)]
pub struct UserId(pub u64);

} // verus!
