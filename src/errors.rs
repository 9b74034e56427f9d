use vstd::prelude::*;

verus! {

/// Failures of the staking ledger's operations.
///
/// Every operation checks its preconditions before it changes anything, so an
/// operation that returns one of these has left the ledger as it was.
#[derive(Copy, Clone, Debug, Eq, PartialEq, Ord, PartialOrd, Structural)]
pub enum Error {
    /// The ledger has not been initialized.
    NotInitialized,
    /// `initialize` was called a second time.
    AlreadyInitialized,
    /// A token transfer was underfunded.
    InsufficientBalance,
    /// The staker has no record, or less stake than asked for.
    InsufficientStake,
    /// The unbonding period of the pending withdrawal has not yet passed.
    CooldownActive,
    /// A non-positive amount, a withdrawal with nothing pending, or a reward
    /// deposit while nothing is staked.
    InvalidAmount,
    /// There are no accumulated rewards to claim.
    NoRewardsToClaim,
    /// The caller is not the ledger's admin.
    Unauthorized,
    /// A balance or the reward index would leave the range of `i128`.
    ArithmeticOverflow,
}

} // verus!
