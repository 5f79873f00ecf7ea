pub mod error;
pub mod precision;
pub mod types;

pub use error::{DexError, MathError};
pub use precision::BasisPoints;
pub use types::{Address, DexType, PoolKey};
