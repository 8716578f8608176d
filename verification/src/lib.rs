//! A verified time-locked staking engine.
//!
//! Holders lock principal for a chosen duration tier and accrue rewards at a
//! tier-specific annual rate. The library keeps per-holder positions, the
//! pooled stake vault and the reward reserve consistent across repeated
//! stake / claim / unstake cycles: elapsed time is never counted twice,
//! arithmetic is checked, and principal is never released before the lock
//! expires. Moving actual funds is the caller's business; the engine decides
//! how much moves and accounts for it.

pub mod engine;
pub mod errors;
pub mod policy;
pub mod position;
pub mod reward;
