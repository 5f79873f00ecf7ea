pub mod adapter_math;
pub mod closed_form;
pub mod curve_math_pool;
pub mod laws;
pub mod math;
pub mod newton;
pub mod newton_start;
pub mod solver_range;
