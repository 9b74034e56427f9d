use vstd::prelude::*;

verus! {

/// An account reference: the ledger names accounts by a 64-bit id.
pub type AccountId = u64;

/// What the ledger keeps for one staker.
#[derive(Copy, Clone, Debug, PartialEq, Eq, Structural)]
pub struct StakerInfo {
    /// Currently staked; counts for rewards and voting.
    pub amount: i128,
    /// Unstaked, waiting for its unbonding period to end.
    pub pending_withdrawal: i128,
    /// When the pending withdrawal may be taken out.
    pub unlock_time: u64,
    /// The global reward index at which this record was last synchronized.
    pub last_reward_index: i128,
    /// Rewards harvested up to `last_reward_index` and not yet claimed.
    pub accumulated_rewards: i128,
    /// The account this staker's voting weight is delegated to, if any.
    pub delegated_to: Option<AccountId>,
}

/// One staker's record, under the staker's account.
#[derive(Copy, Clone, Debug, PartialEq, Eq, Structural)]
pub struct StakerEntry {
    pub account: AccountId,
    pub info: StakerInfo,
}

/// The stake delegated to one account by others.
#[derive(Copy, Clone, Debug, PartialEq, Eq, Structural)]
pub struct DelegationTotal {
    pub delegatee: AccountId,
    pub amount: i128,
}

impl StakerInfo {
    /// A record with nothing in it, synchronized at the given reward index.
    pub open spec fn spec_fresh(index: i128) -> StakerInfo {
        StakerInfo {
            amount: 0,
            pending_withdrawal: 0,
            unlock_time: 0,
            last_reward_index: index,
            accumulated_rewards: 0,
            delegated_to: None,
        }
    }

    /// A record with nothing in it, synchronized at the given reward index.
    pub fn fresh(index: i128) -> (r: StakerInfo)
        ensures
            r == StakerInfo::spec_fresh(index),
    {
        StakerInfo {
            amount: 0,
            pending_withdrawal: 0,
            unlock_time: 0,
            last_reward_index: index,
            accumulated_rewards: 0,
            delegated_to: None,
        }
    }
}

} // verus!
