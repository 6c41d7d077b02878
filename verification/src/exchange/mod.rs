//! Execution clients of specific exchanges.
pub mod simulated;
pub mod sushiswapv3;
