pub mod adapter_math;
pub mod math;
