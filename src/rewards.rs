//! Fixed-point reward arithmetic: the global reward index and the
//! synchronization of one staker's record against it.
use vstd::prelude::*;
use crate::errors::Error;
use crate::types::StakerInfo;

verus! {

/// The fixed-point scale of the reward index: one staked unit earns one
/// reward unit when the index grows by this much.
pub const REWARD_SCALE: i128 = 1_000_000_000_000;

/// The unbonding period, in seconds (seven days).
pub const COOLDOWN_SECONDS: u64 = 604800;

/// Whether `x` is a value of `i128`.
pub open spec fn fits_i128(x: int) -> bool {
    i128::MIN <= x <= i128::MAX
}

/// What `amount` staked units earn while the index moves from `from` to `to`,
/// rounded down.
pub open spec fn earned(amount: int, from: int, to: int) -> int {
    if from < to {
        amount * (to - from) / (REWARD_SCALE as int)
    } else {
        0
    }
}

/// How much a deposit of `amount` raises the index while `total_staked` is staked.
pub open spec fn index_increase(amount: int, total_staked: int) -> int {
    amount * (REWARD_SCALE as int) / total_staked
}

/// Whether synchronizing `info` at `index` stays within `i128`: the product
/// of the stake and the index difference, and the new accumulated rewards.
pub open spec fn sync_fits(info: StakerInfo, index: i128) -> bool {
    info.last_reward_index < index ==> {
        &&& fits_i128(info.amount * (index - info.last_reward_index))
        &&& fits_i128(info.accumulated_rewards + earned(info.amount as int, info.last_reward_index as int, index as int))
    }
}

/// `info` with the rewards earned since its last synchronization harvested,
/// synchronized at `index`. An index that has not grown changes nothing.
pub open spec fn synced(info: StakerInfo, index: i128) -> StakerInfo {
    if info.last_reward_index < index {
        StakerInfo {
            accumulated_rewards: (info.accumulated_rewards + earned(
                info.amount as int,
                info.last_reward_index as int,
                index as int,
            )) as i128,
            last_reward_index: index,
            ..info
        }
    } else {
        info
    }
}

/// Harvests into `info` what it earned since its last synchronization.
///
/// Fails with `ArithmeticOverflow`, and leaves `info` as it was, exactly where
/// the arithmetic would leave `i128`.
pub fn sync_rewards(info: &mut StakerInfo, index: i128) -> (r: Result<(), Error>)
    requires
        old(info).amount >= 0,
        old(info).last_reward_index >= 0,
    ensures
        r is Ok <==> sync_fits(*old(info), index),
        r is Ok ==> *final(info) == synced(*old(info), index),
        r is Err ==> r == Err::<(), Error>(Error::ArithmeticOverflow) && *final(info) == *old(info),
{
    if info.last_reward_index < index {
        let delta = index - info.last_reward_index;
        let product = match info.amount.checked_mul(delta) {
            Some(p) => p,
            None => {
                return Err(Error::ArithmeticOverflow);
            },
        };
        let gained = product / REWARD_SCALE;
        let total = match info.accumulated_rewards.checked_add(gained) {
            Some(t) => t,
            None => {
                return Err(Error::ArithmeticOverflow);
            },
        };
        info.accumulated_rewards = total;
        info.last_reward_index = index;
    }
    Ok(())
}

/// Synchronizing twice at the same index, with no deposit between, changes
/// nothing the second time: the accumulated rewards stay as the first left them.
pub proof fn lemma_sync_idempotent(info: StakerInfo, index: i128)
    ensures
        synced(synced(info, index), index) == synced(info, index),
        synced(synced(info, index), index).accumulated_rewards == synced(info, index).accumulated_rewards,
        sync_fits(synced(info, index), index),
{
}

/// Rounding each staker's share down loses less than one unit: where staker A
/// holds twice staker B's stake over the same index interval, A earns twice
/// what B earns, or one unit more.
pub proof fn lemma_reward_fairness(amount_a: int, amount_b: int, from: int, to: int)
    requires
        amount_b >= 0,
        amount_a == 2 * amount_b,
    ensures
        2 * earned(amount_b, from, to) <= earned(amount_a, from, to) <= 2 * earned(amount_b, from, to) + 1,
{
    if from < to {
        let s = REWARD_SCALE as int;
        let x = amount_b * (to - from);
        assert(amount_a * (to - from) == 2 * x) by (nonlinear_arith)
            requires amount_a == 2 * amount_b, x == amount_b * (to - from);
        let q = x / s;
        let r = x % s;
        assert(x == s * q + r && 0 <= r < s) by {
            vstd::arithmetic::div_mod::lemma_fundamental_div_mod(x, s);
        }
        let q2 = (2 * x) / s;
        assert(2 * q <= q2 <= 2 * q + 1) by {
            vstd::arithmetic::div_mod::lemma_fundamental_div_mod(2 * x, s);
            assert(2 * x == s * (2 * q) + 2 * r);
            if q2 < 2 * q {
                assert(s * q2 <= s * (2 * q - 1)) by (nonlinear_arith)
                    requires q2 <= 2 * q - 1, s > 0;
            }
            if q2 > 2 * q + 1 {
                assert(s * q2 >= s * (2 * q + 2)) by (nonlinear_arith)
                    requires q2 >= 2 * q + 2, s > 0;
            }
        }
    }
}

/// A staker's claim on the pool, scaled by `REWARD_SCALE`: what it has
/// harvested, plus what its stake earned, unrounded, since it last synchronized.
pub open spec fn owed_scaled(info: StakerInfo, index: int) -> int {
    REWARD_SCALE * info.accumulated_rewards + info.amount * (index - info.last_reward_index)
}

/// Synchronizing rounds down, so it never raises a staker's scaled claim.
pub proof fn lemma_sync_owed(info: StakerInfo, index: i128)
    requires
        info.amount >= 0,
        info.accumulated_rewards >= 0,
        info.last_reward_index <= index,
        sync_fits(info, index),
    ensures
        owed_scaled(synced(info, index), index as int) <= owed_scaled(info, index as int),
        synced(info, index).accumulated_rewards >= info.accumulated_rewards,
        synced(info, index).last_reward_index == index,
        synced(info, index).amount == info.amount,
        synced(info, index).pending_withdrawal == info.pending_withdrawal,
        synced(info, index).unlock_time == info.unlock_time,
        synced(info, index).delegated_to == info.delegated_to,
{
    if info.last_reward_index < index {
        let s = REWARD_SCALE as int;
        let x = info.amount * (index - info.last_reward_index);
        assert(x >= 0) by (nonlinear_arith)
            requires info.amount >= 0, index - info.last_reward_index > 0, x == info.amount * (index - info.last_reward_index);
        vstd::arithmetic::div_mod::lemma_fundamental_div_mod(x, s);
        assert(x / s >= 0);
        assert(s * (info.accumulated_rewards + x / s) == s * info.accumulated_rewards + s * (x / s)) by (nonlinear_arith);
        let si = synced(info, index);
        assert(si.accumulated_rewards == info.accumulated_rewards + x / s);
        assert(si.amount * (index - si.last_reward_index) == 0) by (nonlinear_arith)
            requires si.last_reward_index == index;
    }
}

/// A staker's scaled claim is never negative.
pub proof fn lemma_owed_nonneg(info: StakerInfo, index: int)
    requires
        info.amount >= 0,
        info.accumulated_rewards >= 0,
        info.last_reward_index <= index,
    ensures
        owed_scaled(info, index) >= 0,
{
    assert(info.amount * (index - info.last_reward_index) >= 0) by (nonlinear_arith)
        requires info.amount >= 0, index - info.last_reward_index >= 0;
}

/// The index increase of a deposit, spread over the whole stake, pays out at
/// most the deposit.
pub proof fn lemma_index_increase_bounded(amount: int, total_staked: int)
    requires
        amount >= 0,
        total_staked > 0,
    ensures
        0 <= index_increase(amount, total_staked),
        total_staked * index_increase(amount, total_staked) <= REWARD_SCALE * amount,
{
    let x = amount * (REWARD_SCALE as int);
    assert(x >= 0) by (nonlinear_arith)
        requires amount >= 0, x == amount * (REWARD_SCALE as int);
    vstd::arithmetic::div_mod::lemma_fundamental_div_mod(x, total_staked);
}

} // verus!
