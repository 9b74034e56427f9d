//! Sums over the staker records, and the facts about them that the ledger's
//! invariants rest on.
use vstd::prelude::*;
use crate::rewards::owed_scaled;
use crate::types::{AccountId, StakerEntry};

verus! {

/// The sum of `f` over the records of `s`.
pub open spec fn sum_of(s: Seq<StakerEntry>, f: spec_fn(StakerEntry) -> int) -> int
    decreases s.len(),
{
    if s.len() == 0 {
        0
    } else {
        sum_of(s.drop_last(), f) + f(s.last())
    }
}

/// Appending a record adds its term.
pub proof fn lemma_sum_push(s: Seq<StakerEntry>, e: StakerEntry, f: spec_fn(StakerEntry) -> int)
    ensures
        sum_of(s.push(e), f) == sum_of(s, f) + f(e),
{
    assert(s.push(e).drop_last() =~= s);
}

/// Replacing one record replaces its term.
pub proof fn lemma_sum_update(
    s: Seq<StakerEntry>,
    i: int,
    e: StakerEntry,
    f: spec_fn(StakerEntry) -> int,
)
    requires
        0 <= i < s.len(),
    ensures
        sum_of(s.update(i, e), f) == sum_of(s, f) - f(s[i]) + f(e),
    decreases s.len(),
{
    let t = s.update(i, e);
    if i == s.len() - 1 {
        assert(t.drop_last() =~= s.drop_last());
    } else {
        assert(t.drop_last() =~= s.drop_last().update(i, e));
        lemma_sum_update(s.drop_last(), i, e, f);
    }
}

/// Pointwise `0 <= g <= f` carries over to the sums.
pub proof fn lemma_sum_bounded(
    s: Seq<StakerEntry>,
    g: spec_fn(StakerEntry) -> int,
    f: spec_fn(StakerEntry) -> int,
)
    requires
        forall|j: int| 0 <= j < s.len() ==> 0 <= #[trigger] g(s[j]) <= f(s[j]),
    ensures
        0 <= sum_of(s, g) <= sum_of(s, f),
    decreases s.len(),
{
    if s.len() > 0 {
        let t = s.drop_last();
        assert forall|j: int| 0 <= j < t.len() implies 0 <= #[trigger] g(t[j]) <= f(t[j]) by {
            assert(t[j] == s[j]);
        }
        lemma_sum_bounded(t, g, f);
        assert(s.last() == s[s.len() - 1]);
    }
}

/// Where every term is non-negative, no single term exceeds the sum.
pub proof fn lemma_sum_bounded_single(s: Seq<StakerEntry>, i: int, f: spec_fn(StakerEntry) -> int)
    requires
        0 <= i < s.len(),
        forall|j: int| 0 <= j < s.len() ==> 0 <= #[trigger] f(s[j]),
    ensures
        f(s[i]) <= sum_of(s, f),
    decreases s.len(),
{
    let t = s.drop_last();
    assert forall|j: int| 0 <= j < t.len() implies 0 <= #[trigger] f(t[j]) <= f(t[j]) by {
        assert(t[j] == s[j]);
    }
    lemma_sum_bounded(t, f, f);
    assert(s.last() == s[s.len() - 1]);
    if i < s.len() - 1 {
        assert forall|j: int| 0 <= j < t.len() implies 0 <= #[trigger] f(t[j]) by {
            assert(t[j] == s[j]);
        }
        assert(t[i] == s[i]);
        lemma_sum_bounded_single(t, i, f);
    }
}

/// Pointwise `g == f + c * h` carries over to the sums.
pub proof fn lemma_sum_linear(
    s: Seq<StakerEntry>,
    g: spec_fn(StakerEntry) -> int,
    f: spec_fn(StakerEntry) -> int,
    h: spec_fn(StakerEntry) -> int,
    c: int,
)
    requires
        forall|j: int| 0 <= j < s.len() ==> #[trigger] g(s[j]) == f(s[j]) + c * h(s[j]),
    ensures
        sum_of(s, g) == sum_of(s, f) + c * sum_of(s, h),
    decreases s.len(),
{
    if s.len() > 0 {
        let t = s.drop_last();
        assert forall|j: int| 0 <= j < t.len() implies #[trigger] g(t[j]) == f(t[j]) + c * h(t[j]) by {
            assert(t[j] == s[j]);
        }
        lemma_sum_linear(t, g, f, h, c);
        assert(s.last() == s[s.len() - 1]);
        let a = sum_of(t, h);
        let b = h(s.last());
        assert(c * (a + b) == c * a + c * b) by (nonlinear_arith);
    }
}

/// A record's stake.
pub open spec fn staked_term() -> spec_fn(StakerEntry) -> int {
    |e: StakerEntry| e.info.amount as int
}

/// A record's stake where it is delegated to `d`, else nothing.
pub open spec fn delegated_term(d: AccountId) -> spec_fn(StakerEntry) -> int {
    |e: StakerEntry|
        if e.info.delegated_to == Some(d) {
            e.info.amount as int
        } else {
            0
        }
}

/// A record's scaled claim on the reward pool at `index`.
pub open spec fn owed_term(index: int) -> spec_fn(StakerEntry) -> int {
    |e: StakerEntry| owed_scaled(e.info, index)
}

} // verus!
