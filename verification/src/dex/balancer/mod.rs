pub mod adapter_math;
pub mod conversions;
pub mod math;
