//! Pool state and pool metadata.

pub mod curve_registry;
pub mod kyber_pool_state;
pub mod pool_state;
pub mod table;

pub use pool_state::PoolState;

use vstd::prelude::*;

verus! {

/// A container of pool state that adapters read. Downstream projects implement it for their own
/// storage.
pub trait PoolStateProvider {

}

impl PoolStateProvider for () {

}

} // verus!
