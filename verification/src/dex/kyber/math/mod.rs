//! Kyber Elastic core mathematics: tick and price conversions, swap steps and liquidity changes.

pub mod liq_delta_math;
pub mod swap_math;
pub mod tick_math;
