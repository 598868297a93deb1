//! Bond, unbond, slash and withdrawal arithmetic, and the epoch discipline
//! of the proof-of-stake state.

use ledger_shell::address::{xan, Address};
use ledger_shell::pos::{
    apply_slashes, PosParams, PosState, Slash, SlashType,
};
use ledger_shell::token::Balances;

fn setup_pos(votes_per_token_bp: u64) -> (PosState, Balances, Address, Address) {
    let mut params = PosParams::default_params();
    params.votes_per_token_bp = votes_per_token_bp;
    let mut pos = PosState::new(params);
    let validator = Address::Established(vec![5u8; 20]);
    let source = Address::Implicit(vec![6u8; 32]);
    pos.init_validator(validator.clone_addr(), vec![1u8; 32]).expect("Test failed");
    let mut balances = Balances::new();
    balances.set_balance(&xan(), &source, 1_000);
    (pos, balances, source, validator)
}

/// Bond 100 at epoch 0 with pipeline 2 and unbonding 6; unbond at 5;
/// withdraw at 11. The balance drops by 100 at the bond and returns at the
/// withdrawal; the voting power runs at the formula from epoch 2 through 5
/// and is zero from 6 on.
#[test]
fn test_bond_unbond_withdraw_round_trip() {
    // One voting power per token makes the powers visible.
    let (mut pos, mut balances, source, validator) = setup_pos(10_000);
    pos.bond_tokens(&mut balances, &source, &validator, 100).expect("Test failed");
    assert_eq!(balances.balance_of(&xan(), &source), 900);

    // Advance to epoch 5 and unbond everything.
    for _ in 0..5 {
        pos.advance_epoch();
    }
    assert_eq!(pos.current_epoch, 5);
    for e in 2..=5u64 {
        assert_eq!(pos.voting_power_at(&validator, e), 100);
    }
    pos.unbond_tokens(&source, &validator, 100).expect("Test failed");
    for e in 6..=11u64 {
        assert_eq!(pos.voting_power_at(&validator, e), 0);
    }

    // Advance to epoch 11, where the unbond becomes withdrawable.
    for _ in 0..6 {
        pos.advance_epoch();
    }
    assert_eq!(pos.current_epoch, 11);
    let withdrawn = pos.withdraw_tokens(&mut balances, &source, &validator).expect("Test failed");
    assert_eq!(withdrawn, 100);
    assert_eq!(balances.balance_of(&xan(), &source), 1_000);
}

/// With the default ratio of one vote per thousand tokens, a bond of 100
/// carries no whole vote.
#[test]
fn test_voting_power_default_ratio() {
    let (mut pos, mut balances, source, validator) = setup_pos(10);
    pos.bond_tokens(&mut balances, &source, &validator, 100).expect("Test failed");
    for _ in 0..2 {
        pos.advance_epoch();
    }
    // floor(100 * 10 / 10000) == 0
    assert_eq!(pos.voting_power_at(&validator, 2), 0);
}

/// A bond contributes to the total deltas exactly from the pipeline offset.
#[test]
fn test_bond_contributes_from_pipeline() {
    let (mut pos, mut balances, source, validator) = setup_pos(10_000);
    pos.bond_tokens(&mut balances, &source, &validator, 100).expect("Test failed");
    assert_eq!(pos.total_deltas_at(&validator, 0), 0);
    assert_eq!(pos.total_deltas_at(&validator, 1), 0);
    assert_eq!(pos.total_deltas_at(&validator, 2), 100);
    assert_eq!(pos.total_deltas_at(&validator, 9), 100);
}

/// A withdrawal pays the original minus the slashes inside the activity
/// window, clamped at zero.
#[test]
fn test_withdraw_after_slash() {
    let (mut pos, mut balances, source, validator) = setup_pos(10_000);
    pos.bond_tokens(&mut balances, &source, &validator, 100).expect("Test failed");
    for _ in 0..5 {
        pos.advance_epoch();
    }
    pos.unbond_tokens(&source, &validator, 100).expect("Test failed");
    // A duplicate vote at epoch 4, inside [2, 11): one percent of 100.
    pos.record_slash(&validator, 4, 77, SlashType::DuplicateVote).expect("Test failed");
    for _ in 0..6 {
        pos.advance_epoch();
    }
    let withdrawn = pos.withdraw_tokens(&mut balances, &source, &validator).expect("Test failed");
    assert_eq!(withdrawn, 99);
    assert_eq!(balances.balance_of(&xan(), &source), 999);
}

/// Slashes compose additively on the raw delta and the total is clamped.
#[test]
fn test_apply_slashes_exact() {
    let slashes = vec![
        Slash { epoch: 3, block_height: 10, rate_bp: 100, kind: SlashType::DuplicateVote },
        Slash { epoch: 5, block_height: 20, rate_bp: 500, kind: SlashType::LightClientAttack },
        Slash { epoch: 9, block_height: 30, rate_bp: 100, kind: SlashType::DuplicateVote },
    ];
    // Only the slashes at epochs 3 and 5 fall inside [2, 8).
    assert_eq!(apply_slashes(&slashes, 1_000, 2, Some(8)), 1_000 - 10 - 50);
    // No bound: all three apply.
    assert_eq!(apply_slashes(&slashes, 1_000, 2, None), 1_000 - 10 - 50 - 10);
    // Rates over the whole are clamped to the raw delta.
    let heavy = vec![
        Slash { epoch: 3, block_height: 1, rate_bp: 9_000, kind: SlashType::DuplicateVote },
        Slash { epoch: 4, block_height: 2, rate_bp: 9_000, kind: SlashType::DuplicateVote },
    ];
    assert_eq!(apply_slashes(&heavy, 100, 0, None), 0);
}

/// Unbonding twice more than the bond holds is refused.
#[test]
fn test_unbond_more_than_bonded() {
    let (mut pos, mut balances, source, validator) = setup_pos(10_000);
    pos.bond_tokens(&mut balances, &source, &validator, 100).expect("Test failed");
    assert!(pos.unbond_tokens(&source, &validator, 101).is_err());
}

/// Bonding more than the balance is refused and changes nothing.
#[test]
fn test_bond_insufficient_balance() {
    let (mut pos, mut balances, source, validator) = setup_pos(10_000);
    assert!(pos.bond_tokens(&mut balances, &source, &validator, 2_000).is_err());
    assert_eq!(balances.balance_of(&xan(), &source), 1_000);
}

/// The validator sets split at the cap, ordered by falling power.
#[test]
fn test_validator_set_split() {
    let mut params = PosParams::default_params();
    params.votes_per_token_bp = 10_000;
    params.max_validator_slots = 2;
    let mut pos = PosState::new(params);
    let mut balances = Balances::new();
    let source = Address::Implicit(vec![6u8; 32]);
    balances.set_balance(&xan(), &source, 10_000);
    for (i, stake) in [(1u8, 300u64), (2, 100), (3, 200)] {
        let v = Address::Established(vec![i; 20]);
        pos.init_validator(v.clone_addr(), vec![i; 32]).expect("Test failed");
        pos.bond_tokens(&mut balances, &source, &v, stake).expect("Test failed");
    }
    for _ in 0..2 {
        pos.advance_epoch();
    }
    let set = pos.validator_set_at(2);
    assert_eq!(set.active.len(), 2);
    assert_eq!(set.inactive.len(), 1);
    assert_eq!(set.active[0].voting_power, 300);
    assert_eq!(set.active[1].voting_power, 200);
    assert_eq!(set.inactive[0].voting_power, 100);
    assert_eq!(pos.total_voting_power_at(2), Some(500));
}
