//! A stake-weighted reward distribution and delegation ledger.
//!
//! Stakers lock value, earn a proportional share of each reward deposit
//! through a global reward index, may delegate their voting weight to
//! another account, and leave through a timed unbonding period.
//!
//! The escrow module holds the vocabulary of a companion bill-splitting
//! escrow and the funding test of its splits.
use vstd::prelude::*;

pub mod accounting;
pub mod errors;
pub mod records;
pub mod rewards;
pub mod split_escrow;
pub mod staking;
pub mod types;

pub use crate::errors::Error;
pub use crate::rewards::{COOLDOWN_SECONDS, REWARD_SCALE};
pub use crate::staking::{StakingContract, MAX_TOTAL_STAKED};
pub use crate::types::{AccountId, DelegationTotal, StakerEntry, StakerInfo};

verus! {

} // verus!
