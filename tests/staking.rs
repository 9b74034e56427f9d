use stake_ledger::{Error, StakingContract, COOLDOWN_SECONDS, MAX_TOTAL_STAKED};

const ADMIN: u64 = 1;
const TOKEN: u64 = 2;
const STAKER: u64 = 10;
const STAKER1: u64 = 10;
const STAKER2: u64 = 11;
const STAKER3: u64 = 12;

fn ledger() -> StakingContract {
    let mut s = StakingContract::new();
    s.initialize(ADMIN, TOKEN).unwrap();
    s
}

fn sum_of_amounts(s: &StakingContract) -> i128 {
    s.stakers.iter().map(|e| e.info.amount).sum()
}

#[test]
fn test_staking_success() {
    let mut s = ledger();
    let mut staker_balance: i128 = 1000;
    let mut ledger_balance: i128 = 0;

    s.stake(STAKER, 500).unwrap();
    staker_balance -= 500;
    ledger_balance += 500;
    assert_eq!(staker_balance, 500);
    assert_eq!(ledger_balance, 500);
    assert_eq!(s.get_voting_power(STAKER), 500);

    s.unstake(STAKER, 200, 0).unwrap();
    assert_eq!(s.get_voting_power(STAKER), 300);

    let result = s.withdraw(STAKER, 0);
    assert!(result.is_err());

    let paid = s.withdraw(STAKER, 604801).unwrap();
    staker_balance += paid;
    ledger_balance -= paid;
    assert_eq!(staker_balance, 700);
    assert_eq!(ledger_balance, 300);
}

#[test]
fn test_staking_rewards() {
    let mut s = ledger();
    s.stake(STAKER1, 600).unwrap();
    s.stake(STAKER2, 400).unwrap();

    s.deposit_rewards(ADMIN, 100).unwrap();

    let claimed1 = s.claim_staking_rewards(STAKER1).unwrap();
    let claimed2 = s.claim_staking_rewards(STAKER2).unwrap();

    assert_eq!(claimed1, 60);
    assert_eq!(claimed2, 40);
}

#[test]
fn test_delegation() {
    let mut s = ledger();
    s.stake(STAKER1, 600).unwrap();
    s.stake(STAKER2, 400).unwrap();

    assert_eq!(s.get_voting_power(STAKER1), 600);
    assert_eq!(s.get_voting_power(STAKER2), 400);

    s.delegate_voting_power(STAKER1, Some(STAKER2)).unwrap();

    assert_eq!(s.get_voting_power(STAKER1), 600);
    assert_eq!(s.get_voting_power(STAKER2), 1000);

    s.unstake(STAKER1, 100, 0).unwrap();
    assert_eq!(s.get_voting_power(STAKER2), 900);

    s.delegate_voting_power(STAKER1, None).unwrap();
    assert_eq!(s.get_voting_power(STAKER2), 400);
}

#[test]
fn initialize_twice_fails() {
    let mut s = ledger();
    assert_eq!(s.initialize(ADMIN, TOKEN), Err(Error::AlreadyInitialized));
    assert_eq!(s.admin, Some(ADMIN));
    assert_eq!(s.token, Some(TOKEN));
    assert_eq!(s.reward_index, 0);
    assert_eq!(s.total_staked, 0);
}

#[test]
fn stake_before_initialize_fails() {
    let mut s = StakingContract::new();
    assert_eq!(s.stake(STAKER, 100), Err(Error::NotInitialized));
    assert_eq!(s.get_staker_info(STAKER), None);
}

#[test]
fn stake_rejects_non_positive_amounts() {
    let mut s = ledger();
    assert_eq!(s.stake(STAKER, 0), Err(Error::InvalidAmount));
    assert_eq!(s.stake(STAKER, -5), Err(Error::InvalidAmount));
    assert_eq!(s.total_staked, 0);
}

#[test]
fn stake_beyond_the_largest_total_overflows() {
    let mut s = ledger();
    s.stake(STAKER1, MAX_TOTAL_STAKED - 10).unwrap();
    assert_eq!(s.stake(STAKER2, 11), Err(Error::ArithmeticOverflow));
    s.stake(STAKER2, 10).unwrap();
    assert_eq!(s.total_staked, MAX_TOTAL_STAKED);
    assert_eq!(MAX_TOTAL_STAKED, i128::MAX / 2);
    s.delegate_voting_power(STAKER2, Some(STAKER2)).unwrap();
    s.delegate_voting_power(STAKER1, Some(STAKER2)).unwrap();
    assert_eq!(s.get_voting_power(STAKER2), 10 + MAX_TOTAL_STAKED);
}

#[test]
fn first_stake_creates_a_synchronized_record() {
    let mut s = ledger();
    s.stake(STAKER1, 100).unwrap();
    s.deposit_rewards(ADMIN, 50).unwrap();
    s.stake(STAKER2, 100).unwrap();
    let info = s.get_staker_info(STAKER2).unwrap();
    assert_eq!(info.amount, 100);
    assert_eq!(info.last_reward_index, s.reward_index);
    assert_eq!(info.accumulated_rewards, 0);
    assert_eq!(s.claim_staking_rewards(STAKER2), Err(Error::NoRewardsToClaim));
    assert_eq!(s.claim_staking_rewards(STAKER1), Ok(50));
}

#[test]
fn stake_harvests_rewards_before_the_amount_changes() {
    let mut s = ledger();
    s.stake(STAKER, 100).unwrap();
    s.deposit_rewards(ADMIN, 30).unwrap();
    s.stake(STAKER, 900).unwrap();
    let info = s.get_staker_info(STAKER).unwrap();
    assert_eq!(info.accumulated_rewards, 30);
    assert_eq!(info.amount, 1000);
    assert_eq!(info.last_reward_index, 300_000_000_000);
}

#[test]
fn unstake_errors() {
    let mut s = ledger();
    assert_eq!(s.unstake(STAKER, 10, 0), Err(Error::InsufficientStake));
    s.stake(STAKER, 100).unwrap();
    assert_eq!(s.unstake(STAKER, 0, 0), Err(Error::InvalidAmount));
    assert_eq!(s.unstake(STAKER, 101, 0), Err(Error::InsufficientStake));
    assert_eq!(s.unstake(STAKER, 10, u64::MAX), Err(Error::ArithmeticOverflow));
    assert_eq!(s.get_staker_info(STAKER).unwrap().amount, 100);
}

#[test]
fn unstake_keeps_rewards_earned_before_it() {
    let mut s = ledger();
    s.stake(STAKER, 1000).unwrap();
    s.deposit_rewards(ADMIN, 70).unwrap();
    s.unstake(STAKER, 400, 5).unwrap();
    let info = s.get_staker_info(STAKER).unwrap();
    assert_eq!(info.accumulated_rewards, 70);
    assert_eq!(info.amount, 600);
    assert_eq!(info.pending_withdrawal, 400);
    assert_eq!(info.unlock_time, 5 + COOLDOWN_SECONDS);
    assert_eq!(s.claim_staking_rewards(STAKER), Ok(70));
}

#[test]
fn repeated_unstake_restarts_the_shared_timer() {
    let mut s = ledger();
    s.stake(STAKER, 1000).unwrap();
    s.unstake(STAKER, 100, 0).unwrap();
    s.unstake(STAKER, 200, 1000).unwrap();
    let info = s.get_staker_info(STAKER).unwrap();
    assert_eq!(info.pending_withdrawal, 300);
    assert_eq!(info.unlock_time, 1000 + 604800);
    assert_eq!(s.withdraw(STAKER, 604800), Err(Error::CooldownActive));
    assert_eq!(s.withdraw(STAKER, 605800), Ok(300));
}

#[test]
fn withdraw_succeeds_exactly_from_the_unlock_time() {
    let mut s = ledger();
    s.stake(STAKER, 500).unwrap();
    s.unstake(STAKER, 500, 100).unwrap();
    let unlock = 100 + COOLDOWN_SECONDS;
    assert_eq!(s.withdraw(STAKER, unlock - 1), Err(Error::CooldownActive));
    assert_eq!(s.withdraw(STAKER, unlock), Ok(500));
    let info = s.get_staker_info(STAKER).unwrap();
    assert_eq!(info.pending_withdrawal, 0);
    assert_eq!(info.unlock_time, 0);
    assert_eq!(s.withdraw(STAKER, unlock), Err(Error::InvalidAmount));
}

#[test]
fn withdraw_without_record_fails() {
    let mut s = ledger();
    assert_eq!(s.withdraw(STAKER, 0), Err(Error::InsufficientStake));
}

#[test]
fn deposit_errors() {
    let mut s = StakingContract::new();
    assert_eq!(s.deposit_rewards(ADMIN, 10), Err(Error::NotInitialized));
    s.initialize(ADMIN, TOKEN).unwrap();
    assert_eq!(s.deposit_rewards(STAKER, 10), Err(Error::Unauthorized));
    assert_eq!(s.deposit_rewards(ADMIN, 0), Err(Error::InvalidAmount));
    assert_eq!(s.deposit_rewards(ADMIN, 10), Err(Error::InvalidAmount));
    s.stake(STAKER, 1).unwrap();
    assert_eq!(s.deposit_rewards(ADMIN, i128::MAX / 1_000_000_000_000 + 1), Err(Error::ArithmeticOverflow));
    assert_eq!(s.reward_index, 0);
}

#[test]
fn deposit_rounds_the_index_down() {
    let mut s = ledger();
    s.stake(STAKER, 3).unwrap();
    s.deposit_rewards(ADMIN, 1).unwrap();
    assert_eq!(s.reward_index, 333_333_333_333);
    assert_eq!(s.claim_staking_rewards(STAKER), Err(Error::NoRewardsToClaim));
    s.deposit_rewards(ADMIN, 2).unwrap();
    assert_eq!(s.reward_index, 999_999_999_999);
    assert_eq!(s.claim_staking_rewards(STAKER), Ok(2));
}

#[test]
fn claim_errors() {
    let mut s = ledger();
    assert_eq!(s.claim_staking_rewards(STAKER), Err(Error::NoRewardsToClaim));
    s.stake(STAKER, 10).unwrap();
    assert_eq!(s.claim_staking_rewards(STAKER), Err(Error::NoRewardsToClaim));
    s.deposit_rewards(ADMIN, 10).unwrap();
    assert_eq!(s.claim_staking_rewards(STAKER), Ok(10));
    assert_eq!(s.claim_staking_rewards(STAKER), Err(Error::NoRewardsToClaim));
}

#[test]
fn delegate_without_record_fails() {
    let mut s = ledger();
    assert_eq!(s.delegate_voting_power(STAKER1, Some(STAKER2)), Err(Error::InsufficientStake));
    assert_eq!(s.get_delegated_amount(STAKER2), 0);
}

#[test]
fn total_staked_is_the_sum_of_amounts() {
    let mut s = ledger();
    s.stake(STAKER1, 300).unwrap();
    assert_eq!(s.total_staked, sum_of_amounts(&s));
    s.stake(STAKER2, 700).unwrap();
    assert_eq!(s.total_staked, sum_of_amounts(&s));
    s.unstake(STAKER1, 120, 0).unwrap();
    assert_eq!(s.total_staked, sum_of_amounts(&s));
    s.withdraw(STAKER1, COOLDOWN_SECONDS).unwrap();
    assert_eq!(s.total_staked, sum_of_amounts(&s));
    s.stake(STAKER3, 5).unwrap();
    s.unstake(STAKER2, 700, 0).unwrap();
    assert_eq!(s.total_staked, 185);
    assert_eq!(s.total_staked, sum_of_amounts(&s));
}

#[test]
fn double_stake_earns_double_within_one_unit() {
    let mut s = ledger();
    s.stake(STAKER1, 2000).unwrap();
    s.stake(STAKER2, 1000).unwrap();
    s.stake(STAKER3, 7).unwrap();
    s.deposit_rewards(ADMIN, 1001).unwrap();
    let a = s.claim_staking_rewards(STAKER1).unwrap();
    let b = s.claim_staking_rewards(STAKER2).unwrap();
    assert_eq!(a, 665);
    assert_eq!(b, 332);
    assert!(2 * b <= a && a <= 2 * b + 1);
}

#[test]
fn claims_never_exceed_deposits() {
    let mut s = ledger();
    s.stake(STAKER1, 3).unwrap();
    s.stake(STAKER2, 3).unwrap();
    s.stake(STAKER3, 1).unwrap();
    let mut deposited: i128 = 0;
    let mut claimed: i128 = 0;
    for amount in [5i128, 11, 2, 9] {
        s.deposit_rewards(ADMIN, amount).unwrap();
        deposited += amount;
        for who in [STAKER1, STAKER2, STAKER3] {
            if let Ok(r) = s.claim_staking_rewards(who) {
                claimed += r;
            }
        }
        assert!(claimed <= deposited);
    }
    assert_eq!(deposited, 27);
    assert_eq!(claimed, 23);
    assert_eq!(s.reward_pool, deposited - claimed);
}

#[test]
fn syncing_twice_changes_nothing_the_second_time() {
    let mut s = ledger();
    s.stake(STAKER, 400).unwrap();
    s.deposit_rewards(ADMIN, 10).unwrap();
    s.update_staker_rewards(STAKER).unwrap();
    let first = s.get_staker_info(STAKER).unwrap();
    assert_eq!(first.accumulated_rewards, 10);
    s.update_staker_rewards(STAKER).unwrap();
    let second = s.get_staker_info(STAKER).unwrap();
    assert_eq!(second, first);
    s.update_staker_rewards(STAKER2).unwrap();
    assert_eq!(s.get_staker_info(STAKER2), None);
}

#[test]
fn delegation_moves_exactly_the_delegators_amount() {
    let mut s = ledger();
    s.stake(STAKER1, 250).unwrap();
    s.stake(STAKER2, 40).unwrap();
    s.stake(STAKER3, 9).unwrap();
    let before = s.get_voting_power(STAKER3);
    s.delegate_voting_power(STAKER1, Some(STAKER3)).unwrap();
    assert_eq!(s.get_voting_power(STAKER3), before + 250);
    assert_eq!(s.get_delegated_amount(STAKER3), 250);
    s.delegate_voting_power(STAKER1, Some(STAKER2)).unwrap();
    assert_eq!(s.get_voting_power(STAKER3), before);
    assert_eq!(s.get_voting_power(STAKER2), 290);
    s.stake(STAKER1, 50).unwrap();
    assert_eq!(s.get_delegated_amount(STAKER2), 300);
    s.delegate_voting_power(STAKER1, None).unwrap();
    assert_eq!(s.get_voting_power(STAKER2), 40);
    assert_eq!(s.get_delegated_amount(STAKER2), 0);
    assert_eq!(s.get_staker_info(STAKER1).unwrap().delegated_to, None);
}
