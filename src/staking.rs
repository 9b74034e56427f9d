//! The staking engine: stake, unstake with an unbonding period, withdraw,
//! reward deposits and claims, and delegation of voting weight.
//!
//! Each operation either succeeds or returns an error and leaves the ledger
//! as it was. Authorization of the caller, the clock and the token transfers
//! belong to the host: an operation that moves tokens says in its contract
//! which amount moves, and the host makes the transfer.
use vstd::prelude::*;
use crate::accounting::{
    delegated_term, lemma_sum_bounded, lemma_sum_linear, lemma_sum_push,
    lemma_sum_bounded_single, lemma_sum_update, owed_term, staked_term, sum_of,
};
use crate::errors::Error;
use crate::records::{
    adjust_delegated, delegated_in, delegations_unique, find_staker, lemma_lookup_staker_at,
    lemma_lookup_staker_push, lemma_lookup_staker_update, lookup_staker, stakers_unique,
};
use crate::rewards::{
    index_increase, lemma_index_increase_bounded, lemma_owed_nonneg,
    lemma_sync_owed, owed_scaled, sync_fits, sync_rewards, synced, COOLDOWN_SECONDS, REWARD_SCALE,
};
use crate::types::{AccountId, DelegationTotal, StakerEntry, StakerInfo};

verus! {

/// The largest total stake the ledger accepts, half of `i128::MAX` rounded
/// down: an account's own stake plus the stake delegated to it then always
/// fits in `i128`.
pub const MAX_TOTAL_STAKED: i128 = 85070591730234615865843651857942052863;

/// The staking ledger.
pub struct StakingContract {
    /// The account allowed to deposit rewards; `None` before `initialize`.
    pub admin: Option<AccountId>,
    /// The staked token; `None` before `initialize`.
    pub token: Option<AccountId>,
    /// Cumulative rewards per staked unit, scaled by `REWARD_SCALE`.
    pub reward_index: i128,
    /// The sum of all stakers' staked amounts.
    pub total_staked: i128,
    /// One record per account that has ever staked.
    pub stakers: Vec<StakerEntry>,
    /// The stake delegated to each account, kept up to date on every change.
    pub delegations: Vec<DelegationTotal>,
    /// Rewards deposited and not yet claimed.
    pub reward_pool: i128,
}

/// The bounds every staker record keeps at reward index `index`.
pub open spec fn record_ok(info: StakerInfo, index: int) -> bool {
    &&& info.amount >= 0
    &&& info.pending_withdrawal >= 0
    &&& info.accumulated_rewards >= 0
    &&& 0 <= info.last_reward_index <= index
}

impl StakingContract {
    /// The record of account `a`, if it has staked.
    pub open spec fn record(&self, a: AccountId) -> Option<StakerInfo> {
        lookup_staker(self.stakers@, a)
    }

    /// The stake delegated to account `a` by others.
    pub open spec fn delegated_amount(&self, a: AccountId) -> int {
        delegated_in(self.delegations@, a)
    }

    /// The stake of account `a`: zero where it has no record.
    pub open spec fn staked_of(&self, a: AccountId) -> int {
        match self.record(a) {
            Some(info) => info.amount as int,
            None => 0,
        }
    }

    /// The voting weight of account `a`: its own stake plus the stake
    /// delegated to it.
    pub open spec fn voting_power(&self, a: AccountId) -> int {
        self.staked_of(a) + self.delegated_amount(a)
    }

    /// The record of `a` as an operation sees it after synchronizing its
    /// rewards: a fresh one where `a` has none.
    pub open spec fn synced_record(&self, a: AccountId) -> StakerInfo {
        match self.record(a) {
            Some(info) => synced(info, self.reward_index),
            None => StakerInfo::spec_fresh(self.reward_index),
        }
    }

    /// Whether synchronizing the record of `a` stays within `i128`.
    pub open spec fn sync_fits_for(&self, a: AccountId) -> bool {
        match self.record(a) {
            Some(info) => sync_fits(info, self.reward_index),
            None => true,
        }
    }

    /// The ledger's invariant.
    pub open spec fn wf(&self) -> bool {
        &&& stakers_unique(self.stakers@)
        &&& delegations_unique(self.delegations@)
        &&& self.admin.is_some() == self.token.is_some()
        &&& self.admin.is_none() ==> {
            &&& self.stakers@.len() == 0
            &&& self.reward_index == 0
            &&& self.reward_pool == 0
        }
        &&& self.reward_index >= 0
        &&& 0 <= self.total_staked <= MAX_TOTAL_STAKED
        &&& forall|i: int| 0 <= i < self.stakers@.len() ==> record_ok(#[trigger] self.stakers@[i].info, self.reward_index as int)
        &&& self.total_staked == sum_of(self.stakers@, staked_term())
        &&& forall|d: AccountId| #[trigger] self.delegated_amount(d) == sum_of(self.stakers@, delegated_term(d))
        &&& sum_of(self.stakers@, owed_term(self.reward_index as int)) <= REWARD_SCALE * self.reward_pool
    }

    /// An empty ledger, not yet initialized.
    pub fn new() -> (r: StakingContract)
        ensures
            r.wf(),
            r.admin is None,
            r.token is None,
            r.reward_index == 0,
            r.total_staked == 0,
            forall|a: AccountId| r.record(a) is None,
            forall|a: AccountId| r.delegated_amount(a) == 0,
    {
        let r = StakingContract {
            admin: None,
            token: None,
            reward_index: 0,
            total_staked: 0,
            stakers: Vec::new(),
            delegations: Vec::new(),
            reward_pool: 0,
        };
        proof {
            assert forall|d: AccountId| #[trigger] r.delegated_amount(d) == sum_of(r.stakers@, delegated_term(d)) by {
            }
        }
        r
    }

    /// Sets the admin and the token, once; the reward index and the total
    /// stake start at zero.
    pub fn initialize(&mut self, admin: AccountId, token: AccountId) -> (r: Result<(), Error>)
        requires
            old(self).wf(),
        ensures
            final(self).wf(),
            old(self).admin is Some ==> r == Err::<(), Error>(Error::AlreadyInitialized) && *final(self) == *old(self),
            old(self).admin is None ==> {
                &&& r is Ok
                &&& final(self).admin == Some(admin)
                &&& final(self).token == Some(token)
                &&& final(self).reward_index == 0
                &&& final(self).total_staked == 0
                &&& final(self).stakers@ == old(self).stakers@
                &&& final(self).delegations@ == old(self).delegations@
                &&& final(self).reward_pool == 0
            },
    {
        if self.admin.is_some() {
            return Err(Error::AlreadyInitialized);
        }
        self.admin = Some(admin);
        self.token = Some(token);
        self.reward_index = 0;
        self.total_staked = 0;
        proof {
            assert(forall|d: AccountId| #[trigger] self.delegated_amount(d) == old(self).delegated_amount(d));
        }
        Ok(())
    }

    /// The voting weight of `account`: its own stake plus the stake
    /// delegated to it. A delegating account keeps its own stake here.
    pub fn get_voting_power(&self, account: AccountId) -> (r: i128)
        requires
            self.wf(),
        ensures
            r == self.voting_power(account),
    {
        let staked: i128 = match find_staker(&self.stakers, account) {
            Some(i) => self.stakers[i].info.amount,
            None => 0,
        };
        let delegated: i128 = match crate::records::find_delegation(&self.delegations, account) {
            Some(i) => self.delegations[i].amount,
            None => 0,
        };
        proof {
            self.lemma_bounds(account);
        }
        staked + delegated
    }

    /// The record of `staker`, if it has ever staked.
    pub fn get_staker_info(&self, staker: AccountId) -> (r: Option<StakerInfo>)
        requires
            self.wf(),
        ensures
            r == self.record(staker),
    {
        match find_staker(&self.stakers, staker) {
            Some(i) => Some(self.stakers[i].info),
            None => None,
        }
    }

    /// The stake delegated to `delegatee` by others.
    pub fn get_delegated_amount(&self, delegatee: AccountId) -> (r: i128)
        requires
            self.wf(),
        ensures
            r == self.delegated_amount(delegatee),
    {
        match crate::records::find_delegation(&self.delegations, delegatee) {
            Some(i) => self.delegations[i].amount,
            None => 0,
        }
    }

    /// Every stake and every delegated total lies between zero and the total
    /// stake.
    pub proof fn lemma_bounds(&self, a: AccountId)
        requires
            self.wf(),
        ensures
            0 <= self.staked_of(a) <= self.total_staked,
            0 <= self.delegated_amount(a) <= self.total_staked,
    {
        let s = self.stakers@;
        assert forall|j: int| 0 <= j < s.len() implies 0 <= #[trigger] delegated_term(a)(s[j]) <= staked_term()(s[j]) by {
            assert(record_ok(s[j].info, self.reward_index as int));
        }
        lemma_sum_bounded(s, delegated_term(a), staked_term());
        assert(self.delegated_amount(a) == sum_of(s, delegated_term(a)));
        if exists|j: int| 0 <= j < s.len() && s[j].account == a {
            let j = choose|j: int| 0 <= j < s.len() && s[j].account == a;
            lemma_lookup_staker_at(s, j);
            let z = StakerEntry { account: a, info: StakerInfo { amount: 0, ..s[j].info } };
            lemma_sum_update(s, j, z, staked_term());
            assert forall|k: int| 0 <= k < s.update(j, z).len() implies 0 <= #[trigger] staked_term()(s.update(j, z)[k]) <= staked_term()(s.update(j, z)[k]) by {
                assert(record_ok(s[k].info, self.reward_index as int));
            }
            lemma_sum_bounded(s.update(j, z), staked_term(), staked_term());
            assert(record_ok(s[j].info, self.reward_index as int));
        } else {
            crate::records::lemma_lookup_staker_absent(s, a);
        }
    }

    /// No history pays out more rewards than were deposited. The pool starts
    /// at zero, every deposit adds its amount and every claim takes out what it
    /// pays, so the pool is the deposits so far minus the claims so far; it
    /// never falls below zero, and what the stakers have earned and not yet
    /// claimed is always covered by it.
    pub proof fn lemma_no_over_distribution(&self)
        requires
            self.wf(),
        ensures
            self.reward_pool >= 0,
            sum_of(self.stakers@, owed_term(self.reward_index as int)) <= REWARD_SCALE * self.reward_pool,
    {
        let s = self.stakers@;
        let r = self.reward_index as int;
        assert forall|j: int| 0 <= j < s.len() implies 0 <= #[trigger] owed_term(r)(s[j]) <= owed_term(r)(s[j]) by {
            assert(record_ok(s[j].info, r));
            lemma_owed_nonneg(s[j].info, r);
        }
        lemma_sum_bounded(s, owed_term(r), owed_term(r));
    }

    /// Conservation: the total stake is the sum of all stakers' amounts.
    pub proof fn lemma_conservation(&self)
        requires
            self.wf(),
        ensures
            self.total_staked == sum_of(self.stakers@, staked_term()),
    {
    }

    /// Stakes `amount` for `staker`, after synchronizing its rewards; the host
    /// moves `amount` of the token from `staker` to the ledger.
    ///
    /// A first stake creates the staker's record, synchronized at the current
    /// index. Where the staker delegates, its delegatee's total grows by
    /// `amount` too.
    pub fn stake(&mut self, staker: AccountId, amount: i128) -> (r: Result<(), Error>)
        requires
            old(self).wf(),
        ensures
            final(self).wf(),
            r is Err ==> *final(self) == *old(self),
            amount <= 0 ==> r == Err::<(), Error>(Error::InvalidAmount),
            amount > 0 && old(self).token is None ==> r == Err::<(), Error>(Error::NotInitialized),
            amount > 0 && old(self).token is Some ==> (r == Err::<(), Error>(Error::ArithmeticOverflow) <==> (
                old(self).total_staked + amount > MAX_TOTAL_STAKED || !old(self).sync_fits_for(staker))),
            r is Ok <==> (amount > 0 && old(self).token is Some && old(self).total_staked + amount <= MAX_TOTAL_STAKED
                && old(self).sync_fits_for(staker)),
            r is Ok ==> {
                let base = old(self).synced_record(staker);
                &&& final(self).record(staker) == Some(StakerInfo { amount: (base.amount + amount) as i128, ..base })
                &&& forall|a: AccountId| a != staker ==> #[trigger] final(self).record(a) == old(self).record(a)
                &&& final(self).total_staked == old(self).total_staked + amount
                &&& forall|d: AccountId| #[trigger] final(self).delegated_amount(d) == old(self).delegated_amount(d)
                    + if base.delegated_to == Some(d) { amount as int } else { 0 }
                &&& final(self).admin == old(self).admin
                &&& final(self).token == old(self).token
                &&& final(self).reward_index == old(self).reward_index
                &&& final(self).reward_pool == old(self).reward_pool
            },
    {
        if amount <= 0 {
            return Err(Error::InvalidAmount);
        }
        if self.token.is_none() {
            return Err(Error::NotInitialized);
        }
        if amount > MAX_TOTAL_STAKED - self.total_staked {
            return Err(Error::ArithmeticOverflow);
        }
        let found = find_staker(&self.stakers, staker);
        let mut info = match found {
            Some(i) => self.stakers[i].info,
            None => StakerInfo::fresh(self.reward_index),
        };
        proof {
            if found is Some {
                assert(record_ok(info, self.reward_index as int));
            }
        }
        match sync_rewards(&mut info, self.reward_index) {
            Ok(()) => {},
            Err(e) => {
                return Err(e);
            },
        }
        let ghost base = info;
        let ghost old_s = self.stakers@;
        let ghost index = self.reward_index as int;
        proof {
            old(self).lemma_bounds(staker);
            match found {
                Some(i) => {
                    lemma_sync_owed(old_s[i as int].info, self.reward_index);
                },
                None => {},
            }
            if let Some(d) = base.delegated_to {
                old(self).lemma_bounds(d);
            }
        }
        info.amount = info.amount + amount;
        let entry = StakerEntry { account: staker, info };
        proof {
            assert(owed_scaled(entry.info, index) == owed_scaled(base, index)) by (nonlinear_arith)
                requires
                    entry.info.last_reward_index == index,
                    base.last_reward_index == index,
                    entry.info.accumulated_rewards == base.accumulated_rewards;
        }
        match found {
            Some(i) => {
                proof {
                    lemma_lookup_staker_update(old_s, i as int, entry);
                    lemma_sum_update(old_s, i as int, entry, staked_term());
                    lemma_sum_update(old_s, i as int, entry, owed_term(index));
                    assert forall|d: AccountId| #[trigger] sum_of(old_s.update(i as int, entry), delegated_term(d))
                        == sum_of(old_s, delegated_term(d)) + if base.delegated_to == Some(d) { amount as int } else { 0 } by {
                        lemma_sum_update(old_s, i as int, entry, delegated_term(d));
                    }
                }
                self.stakers.set(i, entry);
            },
            None => {
                proof {
                    lemma_lookup_staker_push(old_s, entry);
                    lemma_sum_push(old_s, entry, staked_term());
                    lemma_sum_push(old_s, entry, owed_term(index));
                    assert forall|d: AccountId| #[trigger] sum_of(old_s.push(entry), delegated_term(d))
                        == sum_of(old_s, delegated_term(d)) + if base.delegated_to == Some(d) { amount as int } else { 0 } by {
                        lemma_sum_push(old_s, entry, delegated_term(d));
                    }
                }
                self.stakers.push(entry);
            },
        }
        self.total_staked = self.total_staked + amount;
        if let Some(d) = info.delegated_to {
            adjust_delegated(&mut self.delegations, d, amount);
        }
        proof {
            assert forall|i: int| 0 <= i < self.stakers@.len() implies record_ok(#[trigger] self.stakers@[i].info, index) by {
                if i < old_s.len() && old_s[i].account != staker {
                    assert(self.stakers@[i] == old_s[i]);
                }
            }
            assert forall|d: AccountId| #[trigger] self.delegated_amount(d) == sum_of(self.stakers@, delegated_term(d)) by {
                assert(old(self).delegated_amount(d) == sum_of(old_s, delegated_term(d)));
            }
        }
        Ok(())
    }

    /// Moves `amount` of `staker`'s stake to its pending withdrawal, after
    /// synchronizing its rewards, and restarts the shared unbonding timer: the
    /// whole pending withdrawal unlocks `COOLDOWN_SECONDS` after `now`.
    ///
    /// Where the staker delegates, its delegatee's total shrinks by `amount`.
    pub fn unstake(&mut self, staker: AccountId, amount: i128, now: u64) -> (r: Result<(), Error>)
        requires
            old(self).wf(),
        ensures
            final(self).wf(),
            r is Err ==> *final(self) == *old(self),
            amount <= 0 ==> r == Err::<(), Error>(Error::InvalidAmount),
            amount > 0 && old(self).record(staker) is None ==> r == Err::<(), Error>(Error::InsufficientStake),
            amount > 0 && old(self).record(staker) is Some ==> {
                let info = old(self).record(staker)->Some_0;
                &&& info.amount < amount ==> r == Err::<(), Error>(Error::InsufficientStake)
                &&& info.amount >= amount ==> (r == Err::<(), Error>(Error::ArithmeticOverflow) <==> (
                    !sync_fits(info, old(self).reward_index)
                    || info.pending_withdrawal + amount > i128::MAX
                    || now + COOLDOWN_SECONDS > u64::MAX))
                &&& r is Ok <==> (info.amount >= amount && sync_fits(info, old(self).reward_index)
                    && info.pending_withdrawal + amount <= i128::MAX && now + COOLDOWN_SECONDS <= u64::MAX)
            },
            r is Ok ==> {
                let base = old(self).synced_record(staker);
                &&& final(self).record(staker) == Some(StakerInfo {
                    amount: (base.amount - amount) as i128,
                    pending_withdrawal: (base.pending_withdrawal + amount) as i128,
                    unlock_time: (now + COOLDOWN_SECONDS) as u64,
                    ..base
                })
                &&& forall|a: AccountId| a != staker ==> #[trigger] final(self).record(a) == old(self).record(a)
                &&& final(self).total_staked == old(self).total_staked - amount
                &&& forall|d: AccountId| #[trigger] final(self).delegated_amount(d) == old(self).delegated_amount(d)
                    - if base.delegated_to == Some(d) { amount as int } else { 0 }
                &&& final(self).admin == old(self).admin
                &&& final(self).token == old(self).token
                &&& final(self).reward_index == old(self).reward_index
                &&& final(self).reward_pool == old(self).reward_pool
            },
    {
        if amount <= 0 {
            return Err(Error::InvalidAmount);
        }
        let i = match find_staker(&self.stakers, staker) {
            Some(i) => i,
            None => {
                return Err(Error::InsufficientStake);
            },
        };
        let mut info = self.stakers[i].info;
        if info.amount < amount {
            return Err(Error::InsufficientStake);
        }
        if info.pending_withdrawal > i128::MAX - amount || now > u64::MAX - COOLDOWN_SECONDS {
            return Err(Error::ArithmeticOverflow);
        }
        proof {
            assert(record_ok(info, self.reward_index as int));
        }
        match sync_rewards(&mut info, self.reward_index) {
            Ok(()) => {},
            Err(e) => {
                return Err(e);
            },
        }
        let ghost base = info;
        let ghost old_s = self.stakers@;
        let ghost index = self.reward_index as int;
        proof {
            lemma_sync_owed(old_s[i as int].info, self.reward_index);
            old(self).lemma_bounds(staker);
            if let Some(d) = base.delegated_to {
                old(self).lemma_bounds(d);
                assert(old(self).delegated_amount(d) >= base.amount) by {
                    lemma_sum_bounded_single(old_s, i as int, delegated_term(d));
                }
            }
        }
        info.amount = info.amount - amount;
        info.pending_withdrawal = info.pending_withdrawal + amount;
        info.unlock_time = now + COOLDOWN_SECONDS;
        let entry = StakerEntry { account: staker, info };
        proof {
            assert(owed_scaled(entry.info, index) == owed_scaled(base, index)) by (nonlinear_arith)
                requires
                    entry.info.last_reward_index == index,
                    base.last_reward_index == index,
                    entry.info.accumulated_rewards == base.accumulated_rewards;
            lemma_lookup_staker_update(old_s, i as int, entry);
            lemma_sum_update(old_s, i as int, entry, staked_term());
            lemma_sum_update(old_s, i as int, entry, owed_term(index));
            assert forall|d: AccountId| #[trigger] sum_of(old_s.update(i as int, entry), delegated_term(d))
                == sum_of(old_s, delegated_term(d)) - if base.delegated_to == Some(d) { amount as int } else { 0 } by {
                lemma_sum_update(old_s, i as int, entry, delegated_term(d));
            }
        }
        self.stakers.set(i, entry);
        self.total_staked = self.total_staked - amount;
        if let Some(d) = info.delegated_to {
            adjust_delegated(&mut self.delegations, d, -amount);
        }
        proof {
            assert forall|j: int| 0 <= j < self.stakers@.len() implies record_ok(#[trigger] self.stakers@[j].info, index) by {
                if j != i {
                    assert(self.stakers@[j] == old_s[j]);
                }
            }
            assert forall|d: AccountId| #[trigger] self.delegated_amount(d) == sum_of(self.stakers@, delegated_term(d)) by {
                assert(old(self).delegated_amount(d) == sum_of(old_s, delegated_term(d)));
            }
        }
        Ok(())
    }

    /// Pays out `staker`'s whole pending withdrawal once its unbonding period
    /// has passed, and returns the amount the host moves from the ledger to
    /// `staker`.
    pub fn withdraw(&mut self, staker: AccountId, now: u64) -> (r: Result<i128, Error>)
        requires
            old(self).wf(),
        ensures
            final(self).wf(),
            r is Err ==> *final(self) == *old(self),
            old(self).record(staker) is None ==> r == Err::<i128, Error>(Error::InsufficientStake),
            old(self).record(staker) is Some ==> {
                let info = old(self).record(staker)->Some_0;
                &&& info.pending_withdrawal <= 0 ==> r == Err::<i128, Error>(Error::InvalidAmount)
                &&& info.pending_withdrawal > 0 && now < info.unlock_time ==> r == Err::<i128, Error>(Error::CooldownActive)
                &&& info.pending_withdrawal > 0 && now >= info.unlock_time ==> {
                    &&& r == Ok::<i128, Error>(info.pending_withdrawal)
                    &&& final(self).record(staker) == Some(StakerInfo { pending_withdrawal: 0, unlock_time: 0, ..info })
                }
            },
            r is Ok ==> {
                &&& forall|a: AccountId| a != staker ==> #[trigger] final(self).record(a) == old(self).record(a)
                &&& final(self).total_staked == old(self).total_staked
                &&& forall|d: AccountId| #[trigger] final(self).delegated_amount(d) == old(self).delegated_amount(d)
                &&& final(self).admin == old(self).admin
                &&& final(self).token == old(self).token
                &&& final(self).reward_index == old(self).reward_index
                &&& final(self).reward_pool == old(self).reward_pool
            },
    {
        let i = match find_staker(&self.stakers, staker) {
            Some(i) => i,
            None => {
                return Err(Error::InsufficientStake);
            },
        };
        let info = self.stakers[i].info;
        if info.pending_withdrawal <= 0 {
            return Err(Error::InvalidAmount);
        }
        if now < info.unlock_time {
            return Err(Error::CooldownActive);
        }
        let paid = info.pending_withdrawal;
        let entry = StakerEntry { account: staker, info: StakerInfo { pending_withdrawal: 0, unlock_time: 0, ..info } };
        let ghost old_s = self.stakers@;
        let ghost index = self.reward_index as int;
        proof {
            assert(record_ok(info, index));
            lemma_lookup_staker_update(old_s, i as int, entry);
            lemma_sum_update(old_s, i as int, entry, staked_term());
            lemma_sum_update(old_s, i as int, entry, owed_term(index));
            assert forall|d: AccountId| #[trigger] sum_of(old_s.update(i as int, entry), delegated_term(d))
                == sum_of(old_s, delegated_term(d)) by {
                lemma_sum_update(old_s, i as int, entry, delegated_term(d));
            }
        }
        self.stakers.set(i, entry);
        proof {
            assert forall|j: int| 0 <= j < self.stakers@.len() implies record_ok(#[trigger] self.stakers@[j].info, index) by {
                if j != i {
                    assert(self.stakers@[j] == old_s[j]);
                }
            }
            assert forall|d: AccountId| #[trigger] self.delegated_amount(d) == sum_of(self.stakers@, delegated_term(d)) by {
                assert(old(self).delegated_amount(d) == sum_of(old_s, delegated_term(d)));
            }
        }
        Ok(paid)
    }

    /// Synchronizes `staker`'s rewards with the current index: what its stake
    /// earned since its last synchronization, rounded down, is added to its
    /// accumulated rewards. An account without a record is left alone.
    pub fn update_staker_rewards(&mut self, staker: AccountId) -> (r: Result<(), Error>)
        requires
            old(self).wf(),
        ensures
            final(self).wf(),
            r is Err ==> *final(self) == *old(self),
            r is Ok <==> old(self).sync_fits_for(staker),
            r is Err ==> r == Err::<(), Error>(Error::ArithmeticOverflow),
            r is Ok ==> {
                &&& final(self).record(staker) == match old(self).record(staker) {
                    Some(info) => Some(synced(info, old(self).reward_index)),
                    None => None,
                }
                &&& forall|a: AccountId| a != staker ==> #[trigger] final(self).record(a) == old(self).record(a)
                &&& final(self).total_staked == old(self).total_staked
                &&& forall|d: AccountId| #[trigger] final(self).delegated_amount(d) == old(self).delegated_amount(d)
                &&& final(self).admin == old(self).admin
                &&& final(self).token == old(self).token
                &&& final(self).reward_index == old(self).reward_index
                &&& final(self).reward_pool == old(self).reward_pool
            },
    {
        let i = match find_staker(&self.stakers, staker) {
            Some(i) => i,
            None => {
                return Ok(());
            },
        };
        let mut info = self.stakers[i].info;
        proof {
            assert(record_ok(info, self.reward_index as int));
        }
        match sync_rewards(&mut info, self.reward_index) {
            Ok(()) => {},
            Err(e) => {
                return Err(e);
            },
        }
        let entry = StakerEntry { account: staker, info };
        let ghost old_s = self.stakers@;
        let ghost index = self.reward_index as int;
        proof {
            lemma_sync_owed(old_s[i as int].info, self.reward_index);
            lemma_lookup_staker_update(old_s, i as int, entry);
            lemma_sum_update(old_s, i as int, entry, staked_term());
            lemma_sum_update(old_s, i as int, entry, owed_term(index));
            assert forall|d: AccountId| #[trigger] sum_of(old_s.update(i as int, entry), delegated_term(d))
                == sum_of(old_s, delegated_term(d)) by {
                lemma_sum_update(old_s, i as int, entry, delegated_term(d));
            }
        }
        self.stakers.set(i, entry);
        proof {
            assert forall|j: int| 0 <= j < self.stakers@.len() implies record_ok(#[trigger] self.stakers@[j].info, index) by {
                if j != i {
                    assert(self.stakers@[j] == old_s[j]);
                }
            }
            assert forall|d: AccountId| #[trigger] self.delegated_amount(d) == sum_of(self.stakers@, delegated_term(d)) by {
                assert(old(self).delegated_amount(d) == sum_of(old_s, delegated_term(d)));
            }
        }
        Ok(())
    }

    /// Synchronizes `staker`'s rewards and pays out all of them: returns the
    /// amount the host moves from the ledger to `staker`.
    pub fn claim_staking_rewards(&mut self, staker: AccountId) -> (r: Result<i128, Error>)
        requires
            old(self).wf(),
        ensures
            final(self).wf(),
            r is Err ==> *final(self) == *old(self),
            old(self).record(staker) is None ==> r == Err::<i128, Error>(Error::NoRewardsToClaim),
            old(self).record(staker) is Some ==> {
                let info = old(self).record(staker)->Some_0;
                let base = synced(info, old(self).reward_index);
                &&& !sync_fits(info, old(self).reward_index) ==> r == Err::<i128, Error>(Error::ArithmeticOverflow)
                &&& sync_fits(info, old(self).reward_index) && base.accumulated_rewards <= 0
                    ==> r == Err::<i128, Error>(Error::NoRewardsToClaim)
                &&& sync_fits(info, old(self).reward_index) && base.accumulated_rewards > 0 ==> {
                    &&& r == Ok::<i128, Error>(base.accumulated_rewards)
                    &&& final(self).record(staker) == Some(StakerInfo { accumulated_rewards: 0, ..base })
                    &&& final(self).reward_pool == old(self).reward_pool - base.accumulated_rewards
                }
            },
            r is Ok ==> {
                &&& forall|a: AccountId| a != staker ==> #[trigger] final(self).record(a) == old(self).record(a)
                &&& final(self).total_staked == old(self).total_staked
                &&& forall|d: AccountId| #[trigger] final(self).delegated_amount(d) == old(self).delegated_amount(d)
                &&& final(self).admin == old(self).admin
                &&& final(self).token == old(self).token
                &&& final(self).reward_index == old(self).reward_index
            },
    {
        let i = match find_staker(&self.stakers, staker) {
            Some(i) => i,
            None => {
                return Err(Error::NoRewardsToClaim);
            },
        };
        let mut info = self.stakers[i].info;
        proof {
            assert(record_ok(info, self.reward_index as int));
        }
        match sync_rewards(&mut info, self.reward_index) {
            Ok(()) => {},
            Err(e) => {
                return Err(e);
            },
        }
        let rewards = info.accumulated_rewards;
        if rewards <= 0 {
            return Err(Error::NoRewardsToClaim);
        }
        let ghost base = info;
        let ghost pool = self.reward_pool;
        info.accumulated_rewards = 0;
        let entry = StakerEntry { account: staker, info };
        let ghost old_s = self.stakers@;
        let ghost index = self.reward_index as int;
        proof {
            lemma_sync_owed(old_s[i as int].info, self.reward_index);
            assert(owed_scaled(entry.info, index) == 0 && owed_scaled(base, index) == REWARD_SCALE * rewards)
                by (nonlinear_arith)
                requires
                    entry.info.last_reward_index == index,
                    base.last_reward_index == index,
                    entry.info.accumulated_rewards == 0,
                    base.accumulated_rewards == rewards;
            assert forall|j: int| 0 <= j < old_s.len() implies 0 <= #[trigger] owed_term(index)(old_s[j]) by {
                assert(record_ok(old_s[j].info, index));
                lemma_owed_nonneg(old_s[j].info, index);
            }
            lemma_sum_bounded_single(old_s, i as int, owed_term(index));
            assert(rewards <= pool) by (nonlinear_arith)
                requires
                    REWARD_SCALE * rewards <= REWARD_SCALE * pool,
                    REWARD_SCALE > 0;
            lemma_lookup_staker_update(old_s, i as int, entry);
            lemma_sum_update(old_s, i as int, entry, staked_term());
            lemma_sum_update(old_s, i as int, entry, owed_term(index));
            assert forall|d: AccountId| #[trigger] sum_of(old_s.update(i as int, entry), delegated_term(d))
                == sum_of(old_s, delegated_term(d)) by {
                lemma_sum_update(old_s, i as int, entry, delegated_term(d));
            }
        }
        self.stakers.set(i, entry);
        self.reward_pool = self.reward_pool - rewards;
        proof {
            assert forall|j: int| 0 <= j < self.stakers@.len() implies record_ok(#[trigger] self.stakers@[j].info, index) by {
                if j != i {
                    assert(self.stakers@[j] == old_s[j]);
                }
            }
            assert forall|d: AccountId| #[trigger] self.delegated_amount(d) == sum_of(self.stakers@, delegated_term(d)) by {
                assert(old(self).delegated_amount(d) == sum_of(old_s, delegated_term(d)));
            }
        }
        Ok(rewards)
    }

    /// Points `delegator`'s voting weight at `delegatee`, or at nobody: its
    /// stake leaves the total of its former delegatee and joins the new one's.
    pub fn delegate_voting_power(&mut self, delegator: AccountId, delegatee: Option<AccountId>) -> (r: Result<(), Error>)
        requires
            old(self).wf(),
        ensures
            final(self).wf(),
            r is Err ==> *final(self) == *old(self),
            r is Ok <==> old(self).record(delegator) is Some,
            r is Err ==> r == Err::<(), Error>(Error::InsufficientStake),
            r is Ok ==> {
                let info = old(self).record(delegator)->Some_0;
                &&& final(self).record(delegator) == Some(StakerInfo { delegated_to: delegatee, ..info })
                &&& forall|a: AccountId| a != delegator ==> #[trigger] final(self).record(a) == old(self).record(a)
                &&& forall|d: AccountId| #[trigger] final(self).delegated_amount(d) == old(self).delegated_amount(d)
                    - (if info.delegated_to == Some(d) { info.amount as int } else { 0 })
                    + (if delegatee == Some(d) { info.amount as int } else { 0 })
                &&& forall|b: AccountId| delegatee == Some(b) && info.delegated_to != Some(b)
                    ==> #[trigger] final(self).voting_power(b) == old(self).voting_power(b) + info.amount
                &&& forall|b: AccountId| delegatee is None && info.delegated_to == Some(b)
                    ==> #[trigger] final(self).voting_power(b) == old(self).voting_power(b) - info.amount
                &&& final(self).total_staked == old(self).total_staked
                &&& final(self).admin == old(self).admin
                &&& final(self).token == old(self).token
                &&& final(self).reward_index == old(self).reward_index
                &&& final(self).reward_pool == old(self).reward_pool
            },
    {
        let i = match find_staker(&self.stakers, delegator) {
            Some(i) => i,
            None => {
                return Err(Error::InsufficientStake);
            },
        };
        let info = self.stakers[i].info;
        let ghost old_s = self.stakers@;
        let ghost index = self.reward_index as int;
        let entry = StakerEntry { account: delegator, info: StakerInfo { delegated_to: delegatee, ..info } };
        proof {
            assert(record_ok(info, index));
            old(self).lemma_bounds(delegator);
            lemma_lookup_staker_update(old_s, i as int, entry);
            lemma_sum_update(old_s, i as int, entry, staked_term());
            lemma_sum_update(old_s, i as int, entry, owed_term(index));
            assert forall|d: AccountId| #[trigger] sum_of(old_s.update(i as int, entry), delegated_term(d))
                == sum_of(old_s, delegated_term(d))
                    - (if info.delegated_to == Some(d) { info.amount as int } else { 0 })
                    + (if delegatee == Some(d) { info.amount as int } else { 0 }) by {
                lemma_sum_update(old_s, i as int, entry, delegated_term(d));
            }
            if let Some(d) = info.delegated_to {
                assert(old(self).delegated_amount(d) >= info.amount) by {
                    assert forall|j: int| 0 <= j < old_s.len() implies 0 <= #[trigger] delegated_term(d)(old_s[j]) by {
                        assert(record_ok(old_s[j].info, index));
                    }
                    lemma_sum_bounded_single(old_s, i as int, delegated_term(d));
                }
            }
            if let Some(d) = delegatee {
                old(self).lemma_bounds(d);
            }
        }
        if let Some(d) = info.delegated_to {
            adjust_delegated(&mut self.delegations, d, -info.amount);
        }
        if let Some(d) = delegatee {
            adjust_delegated(&mut self.delegations, d, info.amount);
        }
        self.stakers.set(i, entry);
        proof {
            assert forall|j: int| 0 <= j < self.stakers@.len() implies record_ok(#[trigger] self.stakers@[j].info, index) by {
                if j != i {
                    assert(self.stakers@[j] == old_s[j]);
                }
            }
            assert forall|d: AccountId| #[trigger] self.delegated_amount(d) == sum_of(self.stakers@, delegated_term(d)) by {
                assert(old(self).delegated_amount(d) == sum_of(old_s, delegated_term(d)));
            }
            assert forall|b: AccountId| #[trigger] self.staked_of(b) == old(self).staked_of(b) by {
            }
        }
        Ok(())
    }

    /// Adds a reward deposit by the admin: the host moves `amount` from the
    /// admin to the ledger, and the reward index grows by
    /// `amount * REWARD_SCALE / total_staked`, rounded down.
    pub fn deposit_rewards(&mut self, caller: AccountId, amount: i128) -> (r: Result<(), Error>)
        requires
            old(self).wf(),
        ensures
            final(self).wf(),
            r is Err ==> *final(self) == *old(self),
            old(self).admin is None ==> r == Err::<(), Error>(Error::NotInitialized),
            old(self).admin is Some && old(self).admin != Some(caller) ==> r == Err::<(), Error>(Error::Unauthorized),
            old(self).admin == Some(caller) ==> {
                &&& amount <= 0 || old(self).total_staked == 0 ==> r == Err::<(), Error>(Error::InvalidAmount)
                &&& amount > 0 && old(self).total_staked > 0 ==> (r == Err::<(), Error>(Error::ArithmeticOverflow) <==> (
                    amount * REWARD_SCALE > i128::MAX
                    || old(self).reward_index + index_increase(amount as int, old(self).total_staked as int) > i128::MAX
                    || old(self).reward_pool + amount > i128::MAX))
                &&& r is Ok <==> (amount > 0 && old(self).total_staked > 0 && amount * REWARD_SCALE <= i128::MAX
                    && old(self).reward_index + index_increase(amount as int, old(self).total_staked as int) <= i128::MAX
                    && old(self).reward_pool + amount <= i128::MAX)
            },
            r is Ok ==> {
                &&& final(self).reward_index == old(self).reward_index + index_increase(amount as int, old(self).total_staked as int)
                &&& final(self).reward_index >= old(self).reward_index
                &&& final(self).reward_pool == old(self).reward_pool + amount
                &&& final(self).stakers@ == old(self).stakers@
                &&& final(self).delegations@ == old(self).delegations@
                &&& final(self).total_staked == old(self).total_staked
                &&& final(self).admin == old(self).admin
                &&& final(self).token == old(self).token
            },
    {
        let admin = match self.admin {
            Some(a) => a,
            None => {
                return Err(Error::NotInitialized);
            },
        };
        if caller != admin {
            return Err(Error::Unauthorized);
        }
        if amount <= 0 {
            return Err(Error::InvalidAmount);
        }
        let total = self.total_staked;
        if total == 0 {
            return Err(Error::InvalidAmount);
        }
        let scaled = match amount.checked_mul(REWARD_SCALE) {
            Some(x) => x,
            None => {
                return Err(Error::ArithmeticOverflow);
            },
        };
        let increase = scaled / total;
        let new_index = match self.reward_index.checked_add(increase) {
            Some(x) => x,
            None => {
                return Err(Error::ArithmeticOverflow);
            },
        };
        let new_pool = match self.reward_pool.checked_add(amount) {
            Some(x) => x,
            None => {
                return Err(Error::ArithmeticOverflow);
            },
        };
        let ghost s = self.stakers@;
        let ghost old_index = self.reward_index as int;
        proof {
            lemma_index_increase_bounded(amount as int, total as int);
            assert forall|j: int| 0 <= j < s.len() implies #[trigger] owed_term(new_index as int)(s[j])
                == owed_term(old_index)(s[j]) + increase * staked_term()(s[j]) by {
                let e = s[j];
                assert(e.info.amount * (new_index - e.info.last_reward_index)
                    == e.info.amount * (old_index - e.info.last_reward_index) + increase * e.info.amount)
                    by (nonlinear_arith)
                    requires new_index == old_index + increase;
            }
            lemma_sum_linear(s, owed_term(new_index as int), owed_term(old_index), staked_term(), increase as int);
            assert(increase * total == total * increase) by (nonlinear_arith);
        }
        self.reward_index = new_index;
        self.reward_pool = new_pool;
        proof {
            assert forall|j: int| 0 <= j < self.stakers@.len() implies record_ok(#[trigger] self.stakers@[j].info, new_index as int) by {
                assert(record_ok(s[j].info, old_index));
            }
            assert forall|d: AccountId| #[trigger] self.delegated_amount(d) == sum_of(self.stakers@, delegated_term(d)) by {
                assert(old(self).delegated_amount(d) == sum_of(s, delegated_term(d)));
            }
        }
        Ok(())
    }
}

} // verus!
