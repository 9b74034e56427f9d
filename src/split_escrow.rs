//! The bill-splitting escrow's vocabulary: the states of its splits,
//! escrows, rewards, verifications, swaps, bridges and insurance, its errors,
//! and the funding test of a split.
use vstd::prelude::*;
use crate::types::AccountId;

verus! {

/// Where a split is in its lifecycle.
#[derive(Copy, Clone, Debug, PartialEq, Eq, Structural)]
pub enum SplitStatus {
    /// Created, no deposit yet.
    Pending,
    /// At least one deposit received.
    Active,
    /// Every participant has paid its share.
    Completed,
    /// The funds went to the creator.
    Released,
    /// Cancelled; refunds may be due.
    Cancelled,
}

/// The state of a user's rewards account.
#[derive(Copy, Clone, Debug, PartialEq, Eq, Structural)]
pub enum RewardsStatus {
    Active,
    Claimed,
    Suspended,
}

/// The activities that earn rewards.
#[derive(Copy, Clone, Debug, PartialEq, Eq, Structural)]
pub enum ActivityType {
    SplitCreated,
    SplitParticipated,
    DepositMade,
    SplitCompleted,
}

/// The state of a request to verify a split's legitimacy.
#[derive(Copy, Clone, Debug, PartialEq, Eq, Structural)]
pub enum VerificationStatus {
    Pending,
    Verified,
    Rejected,
    Expired,
}

/// The state of an atomic swap.
#[derive(Copy, Clone, Debug, PartialEq, Eq, Structural)]
pub enum SwapStatus {
    Pending,
    Completed,
    Refunded,
    Expired,
}

/// The state of a cross-chain bridge transfer.
#[derive(Copy, Clone, Debug, PartialEq, Eq, Structural)]
pub enum BridgeStatus {
    Initiated,
    Completed,
    Refunded,
    Failed,
}

/// The state of an insurance policy.
#[derive(Copy, Clone, Debug, PartialEq, Eq, Structural)]
pub enum InsuranceStatus {
    Active,
    Expired,
    Claimed,
    Cancelled,
}

/// The state of an insurance claim.
#[derive(Copy, Clone, Debug, PartialEq, Eq, Structural)]
pub enum ClaimStatus {
    Pending,
    Approved,
    Rejected,
    Paid,
}

/// The state of an escrow.
#[derive(Copy, Clone, Debug, PartialEq, Eq, Structural)]
pub enum EscrowStatus {
    /// Accepting payments.
    Active,
    /// Every payment received; ready for release.
    Completed,
    /// Cancelled by its creator.
    Cancelled,
    /// The deadline passed before completion.
    Expired,
}

/// Failures of the escrow's operations.
#[derive(Copy, Clone, Debug, PartialEq, Eq, Structural)]
pub enum Error {
    SplitNotFound,
    SplitCancelled,
    SplitReleased,
    SplitNotFunded,
    SplitFullyFunded,
    NoFundsAvailable,
    InvalidAmount,
    InsuranceNotFound,
    InsuranceAlreadyExists,
    ClaimNotFound,
    InvalidClaimStatus,
    InsufficientPremium,
    InsuranceExpired,
    ParticipantNotFound,
    UserNotFound,
    InsufficientRewards,
    RewardsAlreadyClaimed,
    VerificationNotFound,
    VerificationAlreadyExists,
    InvalidVerificationStatus,
    OracleNotAuthorized,
    InsufficientOracles,
    SwapNotFound,
    SwapAlreadyExists,
    InvalidSwapStatus,
    SecretInvalid,
    SwapExpired,
    OracleNotRegistered,
    InsufficientStake,
    PriceSubmissionInvalid,
    BridgeNotFound,
    BridgeAlreadyExists,
    InvalidBridgeStatus,
    ProofInvalid,
}

/// Failures of the escrow's two-step admin transfer.
#[derive(Copy, Clone, Debug, PartialEq, Eq, Structural)]
pub enum AdminError {
    /// The caller is not the current admin.
    Unauthorized,
    /// No admin nomination is pending.
    NoPendingAdmin,
    /// The caller is not the nominated admin.
    NotPendingAdmin,
    /// No admin has been set yet.
    AdminNotSet,
}

/// One participant of a split.
#[derive(Copy, Clone, Debug)]
pub struct Participant {
    pub address: AccountId,
    /// What the participant owes.
    pub share_amount: i128,
    /// What the participant has paid so far.
    pub amount_paid: i128,
    /// Whether the participant has paid its whole share.
    pub has_paid: bool,
}

/// A bill shared among participants.
#[derive(Clone, Debug)]
pub struct Split {
    pub id: u64,
    pub creator: AccountId,
    pub description: String,
    /// The amount to be collected from all participants together.
    pub total_amount: i128,
    pub amount_collected: i128,
    pub amount_released: i128,
    pub participants: Vec<Participant>,
    pub status: SplitStatus,
    pub created_at: u64,
}

/// What the given participants have paid together.
pub open spec fn paid_total(ps: Seq<Participant>) -> int
    decreases ps.len(),
{
    if ps.len() == 0 {
        0
    } else {
        paid_total(ps.drop_last()) + ps.last().amount_paid
    }
}

/// Whether summing the payments in order stays within `i128` at every step.
pub open spec fn paid_sums_fit(ps: Seq<Participant>) -> bool {
    forall|k: int| 0 <= k <= ps.len() ==> i128::MIN <= #[trigger] paid_total(ps.take(k)) <= i128::MAX
}

/// The escrow contract.
pub struct SplitEscrowContract;

impl SplitEscrowContract {
    /// Whether the participants together have paid at least the split's total.
    pub fn is_fully_funded_internal(split: &Split) -> (r: bool)
        requires
            paid_sums_fit(split.participants@),
        ensures
            r == (paid_total(split.participants@) >= split.total_amount),
    {
        let ghost ps = split.participants@;
        let mut total_paid: i128 = 0;
        let mut i: usize = 0;
        while i < split.participants.len()
            invariant
                ps == split.participants@,
                paid_sums_fit(ps),
                i <= ps.len(),
                total_paid == paid_total(ps.take(i as int)),
            decreases ps.len() - i,
        {
            proof {
                assert(ps.take(i as int + 1).drop_last() =~= ps.take(i as int));
                assert(i128::MIN <= paid_total(ps.take(i as int + 1)) <= i128::MAX);
            }
            total_paid = total_paid + split.participants[i].amount_paid;
            i = i + 1;
        }
        proof {
            assert(ps.take(ps.len() as int) =~= ps);
        }
        total_paid >= split.total_amount
    }
}

} // verus!
