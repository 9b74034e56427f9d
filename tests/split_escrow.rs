use stake_ledger::split_escrow::{EscrowStatus, Participant, Split, SplitEscrowContract, SplitStatus};

fn participant(address: u64, share_amount: i128, amount_paid: i128) -> Participant {
    Participant { address, share_amount, amount_paid, has_paid: amount_paid >= share_amount }
}

fn split(total_amount: i128, participants: Vec<Participant>) -> Split {
    Split {
        id: 1,
        creator: 7,
        description: String::from("Dinner"),
        total_amount,
        amount_collected: participants.iter().map(|p| p.amount_paid).sum(),
        amount_released: 0,
        participants,
        status: SplitStatus::Active,
        created_at: 0,
    }
}

#[test]
fn test_escrow_status_values() {
    let active = EscrowStatus::Active;
    let completed = EscrowStatus::Completed;
    let cancelled = EscrowStatus::Cancelled;
    let expired = EscrowStatus::Expired;

    assert_eq!(active, EscrowStatus::Active);
    assert_ne!(active, completed);
    assert_ne!(completed, cancelled);
    assert_ne!(cancelled, expired);
}

#[test]
fn split_paid_in_full_is_fully_funded() {
    let s = split(1000, vec![participant(1, 600, 600), participant(2, 400, 400)]);
    assert!(SplitEscrowContract::is_fully_funded_internal(&s));
}

#[test]
fn split_paid_in_part_is_not_fully_funded() {
    let s = split(1000, vec![participant(1, 600, 600), participant(2, 400, 399)]);
    assert!(!SplitEscrowContract::is_fully_funded_internal(&s));
}

#[test]
fn split_without_participants_is_funded_only_at_zero() {
    assert!(!SplitEscrowContract::is_fully_funded_internal(&split(1, vec![])));
    assert!(SplitEscrowContract::is_fully_funded_internal(&split(0, vec![])));
}
