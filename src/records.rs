//! Lookup of staker records and delegation totals, kept in sequences whose
//! accounts are unique.
use vstd::prelude::*;
use crate::rewards::fits_i128;
use crate::types::{AccountId, DelegationTotal, StakerEntry, StakerInfo};

verus! {

/// No account has two staker records.
pub open spec fn stakers_unique(s: Seq<StakerEntry>) -> bool {
    forall|i: int, j: int| 0 <= i < j < s.len() ==> s[i].account != s[j].account
}

/// No account has two delegation totals.
pub open spec fn delegations_unique(s: Seq<DelegationTotal>) -> bool {
    forall|i: int, j: int| 0 <= i < j < s.len() ==> s[i].delegatee != s[j].delegatee
}

/// The record of account `a`, if it has one.
pub open spec fn lookup_staker(s: Seq<StakerEntry>, a: AccountId) -> Option<StakerInfo>
    decreases s.len(),
{
    if s.len() == 0 {
        None
    } else if s.last().account == a {
        Some(s.last().info)
    } else {
        lookup_staker(s.drop_last(), a)
    }
}

/// The stake delegated to account `a`, if an entry for it exists.
pub open spec fn lookup_delegation(s: Seq<DelegationTotal>, a: AccountId) -> Option<i128>
    decreases s.len(),
{
    if s.len() == 0 {
        None
    } else if s.last().delegatee == a {
        Some(s.last().amount)
    } else {
        lookup_delegation(s.drop_last(), a)
    }
}

pub proof fn lemma_lookup_staker_at(s: Seq<StakerEntry>, i: int)
    requires
        stakers_unique(s),
        0 <= i < s.len(),
    ensures
        lookup_staker(s, s[i].account) == Some(s[i].info),
    decreases s.len(),
{
    if i < s.len() - 1 {
        assert(s.last() == s[s.len() - 1]);
        assert(s.drop_last()[i] == s[i]);
        lemma_lookup_staker_at(s.drop_last(), i);
    }
}

pub proof fn lemma_lookup_staker_absent(s: Seq<StakerEntry>, a: AccountId)
    requires
        forall|i: int| 0 <= i < s.len() ==> s[i].account != a,
    ensures
        lookup_staker(s, a) is None,
    decreases s.len(),
{
    if s.len() > 0 {
        assert(s.last() == s[s.len() - 1]);
        assert forall|i: int| 0 <= i < s.drop_last().len() implies s.drop_last()[i].account != a by {
            assert(s.drop_last()[i] == s[i]);
        }
        lemma_lookup_staker_absent(s.drop_last(), a);
    }
}

/// Replacing the record at `i` by one of the same account changes the lookup
/// of that account only.
pub proof fn lemma_lookup_staker_update(s: Seq<StakerEntry>, i: int, e: StakerEntry)
    requires
        stakers_unique(s),
        0 <= i < s.len(),
        e.account == s[i].account,
    ensures
        stakers_unique(s.update(i, e)),
        lookup_staker(s.update(i, e), e.account) == Some(e.info),
        forall|b: AccountId| b != e.account ==> lookup_staker(s.update(i, e), b) == lookup_staker(s, b),
{
    let t = s.update(i, e);
    lemma_lookup_staker_at(t, i);
    assert forall|b: AccountId| b != e.account implies lookup_staker(t, b) == lookup_staker(s, b) by {
        if exists|j: int| 0 <= j < s.len() && s[j].account == b {
            let j = choose|j: int| 0 <= j < s.len() && s[j].account == b;
            lemma_lookup_staker_at(s, j);
            lemma_lookup_staker_at(t, j);
        } else {
            lemma_lookup_staker_absent(s, b);
            lemma_lookup_staker_absent(t, b);
        }
    }
}

/// Appending a record of a new account adds that account only.
pub proof fn lemma_lookup_staker_push(s: Seq<StakerEntry>, e: StakerEntry)
    requires
        stakers_unique(s),
        lookup_staker(s, e.account) is None,
    ensures
        stakers_unique(s.push(e)),
        lookup_staker(s.push(e), e.account) == Some(e.info),
        forall|b: AccountId| b != e.account ==> lookup_staker(s.push(e), b) == lookup_staker(s, b),
{
    let t = s.push(e);
    assert(t.drop_last() =~= s);
    assert forall|i: int| 0 <= i < s.len() implies s[i].account != e.account by {
        lemma_lookup_staker_at(s, i);
    }
}

pub proof fn lemma_lookup_delegation_at(s: Seq<DelegationTotal>, i: int)
    requires
        delegations_unique(s),
        0 <= i < s.len(),
    ensures
        lookup_delegation(s, s[i].delegatee) == Some(s[i].amount),
    decreases s.len(),
{
    if i < s.len() - 1 {
        assert(s.last() == s[s.len() - 1]);
        assert(s.drop_last()[i] == s[i]);
        lemma_lookup_delegation_at(s.drop_last(), i);
    }
}

pub proof fn lemma_lookup_delegation_absent(s: Seq<DelegationTotal>, a: AccountId)
    requires
        forall|i: int| 0 <= i < s.len() ==> s[i].delegatee != a,
    ensures
        lookup_delegation(s, a) is None,
    decreases s.len(),
{
    if s.len() > 0 {
        assert(s.last() == s[s.len() - 1]);
        assert forall|i: int| 0 <= i < s.drop_last().len() implies s.drop_last()[i].delegatee != a by {
            assert(s.drop_last()[i] == s[i]);
        }
        lemma_lookup_delegation_absent(s.drop_last(), a);
    }
}

pub proof fn lemma_lookup_delegation_update(s: Seq<DelegationTotal>, i: int, e: DelegationTotal)
    requires
        delegations_unique(s),
        0 <= i < s.len(),
        e.delegatee == s[i].delegatee,
    ensures
        delegations_unique(s.update(i, e)),
        lookup_delegation(s.update(i, e), e.delegatee) == Some(e.amount),
        forall|b: AccountId| b != e.delegatee ==> lookup_delegation(s.update(i, e), b) == lookup_delegation(s, b),
{
    let t = s.update(i, e);
    lemma_lookup_delegation_at(t, i);
    assert forall|b: AccountId| b != e.delegatee implies lookup_delegation(t, b) == lookup_delegation(s, b) by {
        if exists|j: int| 0 <= j < s.len() && s[j].delegatee == b {
            let j = choose|j: int| 0 <= j < s.len() && s[j].delegatee == b;
            lemma_lookup_delegation_at(s, j);
            lemma_lookup_delegation_at(t, j);
        } else {
            lemma_lookup_delegation_absent(s, b);
            lemma_lookup_delegation_absent(t, b);
        }
    }
}

pub proof fn lemma_lookup_delegation_push(s: Seq<DelegationTotal>, e: DelegationTotal)
    requires
        delegations_unique(s),
        lookup_delegation(s, e.delegatee) is None,
    ensures
        delegations_unique(s.push(e)),
        lookup_delegation(s.push(e), e.delegatee) == Some(e.amount),
        forall|b: AccountId| b != e.delegatee ==> lookup_delegation(s.push(e), b) == lookup_delegation(s, b),
{
    let t = s.push(e);
    assert(t.drop_last() =~= s);
    assert forall|i: int| 0 <= i < s.len() implies s[i].delegatee != e.delegatee by {
        lemma_lookup_delegation_at(s, i);
    }
}

/// The position of `a`'s record in `s`, found by a linear scan.
pub fn find_staker(s: &Vec<StakerEntry>, a: AccountId) -> (r: Option<usize>)
    requires
        stakers_unique(s@),
    ensures
        match r {
            Some(i) => i < s@.len() && s@[i as int].account == a && lookup_staker(s@, a) == Some(s@[i as int].info),
            None => lookup_staker(s@, a) is None,
        },
{
    let mut i: usize = 0;
    while i < s.len()
        invariant
            i <= s@.len(),
            stakers_unique(s@),
            forall|j: int| 0 <= j < i ==> s@[j].account != a,
        decreases s@.len() - i,
    {
        if s[i].account == a {
            proof {
                lemma_lookup_staker_at(s@, i as int);
            }
            return Some(i);
        }
        i = i + 1;
    }
    proof {
        lemma_lookup_staker_absent(s@, a);
    }
    None
}

/// The position of `a`'s delegation total in `s`, found by a linear scan.
pub fn find_delegation(s: &Vec<DelegationTotal>, a: AccountId) -> (r: Option<usize>)
    requires
        delegations_unique(s@),
    ensures
        match r {
            Some(i) => i < s@.len() && s@[i as int].delegatee == a && lookup_delegation(s@, a) == Some(s@[i as int].amount),
            None => lookup_delegation(s@, a) is None,
        },
{
    let mut i: usize = 0;
    while i < s.len()
        invariant
            i <= s@.len(),
            delegations_unique(s@),
            forall|j: int| 0 <= j < i ==> s@[j].delegatee != a,
        decreases s@.len() - i,
    {
        if s[i].delegatee == a {
            proof {
                lemma_lookup_delegation_at(s@, i as int);
            }
            return Some(i);
        }
        i = i + 1;
    }
    proof {
        lemma_lookup_delegation_absent(s@, a);
    }
    None
}

/// The stake delegated to `a`: zero where no entry exists.
pub open spec fn delegated_in(s: Seq<DelegationTotal>, a: AccountId) -> int {
    match lookup_delegation(s, a) {
        Some(v) => v as int,
        None => 0,
    }
}

/// Adds `delta` to the stake delegated to `d`, creating its entry if needed.
pub fn adjust_delegated(s: &mut Vec<DelegationTotal>, d: AccountId, delta: i128)
    requires
        delegations_unique(old(s)@),
        fits_i128(delegated_in(old(s)@, d) + delta),
    ensures
        delegations_unique(final(s)@),
        forall|x: AccountId|
            #[trigger] delegated_in(final(s)@, x) == delegated_in(old(s)@, x) + if x == d {
                delta as int
            } else {
                0
            },
{
    match find_delegation(s, d) {
        Some(i) => {
            let current = s[i].amount;
            let e = DelegationTotal { delegatee: d, amount: current + delta };
            proof {
                lemma_lookup_delegation_update(s@, i as int, e);
            }
            s.set(i, e);
        },
        None => {
            let e = DelegationTotal { delegatee: d, amount: delta };
            proof {
                lemma_lookup_delegation_push(s@, e);
            }
            s.push(e);
        },
    }
}

} // verus!
