//! A constant-product automated-market-maker exchange core: liquidity pools
//! over a pair of assets, a pair registry that keeps one pool per unordered
//! pair, a multi-hop trade router, and an independent trade verifier.

pub mod audit;
pub mod errors;
pub mod ids;
pub mod math;
pub mod pool;
pub mod registry;
pub mod router;
