//! NarrowSwap: a concentrated liquidity automated market maker.

pub mod accounts;
pub mod arith;
pub mod bytes;
pub mod pool_core;
pub mod position_mgr;
pub mod pubkey;
pub mod tick_manager;
