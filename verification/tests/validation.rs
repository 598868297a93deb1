//! The declarative proof-of-stake validity predicate over typed change
//! records.

use ledger_shell::address::Address;
use ledger_shell::pos::{
    Bond, BondEntry, PosParams, Slash, SlashType, Unbond, UnbondEntry, ValidatorSet,
    WeightedValidator,
};
use ledger_shell::pos_vp::{validate_changes, PosKeyChange};

fn validator() -> Address {
    Address::Established(vec![8u8; 20])
}

/// A bond matched by the total deltas, dated at the pipeline offset, passes.
#[test]
fn test_vp_accepts_consistent_bond() {
    let params = PosParams::default_params();
    // Current epoch 4, so a new bond slice activates at 6.
    let changes = vec![
        PosKeyChange::BondChange {
            source: Address::Implicit(vec![1u8; 32]),
            validator: validator(),
            pre: None,
            post: Some(Bond { entries: vec![BondEntry { start: 6, amount: 100 }] }),
        },
        PosKeyChange::TotalDeltasChange { validator: validator(), pre_deltas: 0, post_deltas: 100 },
        PosKeyChange::VotingPowerChange {
            validator: validator(),
            post_power: 0,
            post_deltas: 100,
        },
        PosKeyChange::BalanceChange { pre_balance: 0, post_balance: 100 },
    ];
    assert!(validate_changes(&params, &changes, &vec![], 4));
}

/// A deltas change that does not match the bond movement is rejected.
#[test]
fn test_vp_rejects_sum_mismatch() {
    let params = PosParams::default_params();
    let changes = vec![
        PosKeyChange::BondChange {
            source: Address::Implicit(vec![1u8; 32]),
            validator: validator(),
            pre: None,
            post: Some(Bond { entries: vec![BondEntry { start: 6, amount: 100 }] }),
        },
        PosKeyChange::TotalDeltasChange { validator: validator(), pre_deltas: 0, post_deltas: 90 },
    ];
    assert!(!validate_changes(&params, &changes, &vec![], 4));
}

/// A backdated bond slice breaks the epoch discipline.
#[test]
fn test_vp_rejects_backdated_bond() {
    let params = PosParams::default_params();
    let changes = vec![
        PosKeyChange::BondChange {
            source: Address::Implicit(vec![1u8; 32]),
            validator: validator(),
            pre: None,
            post: Some(Bond { entries: vec![BondEntry { start: 3, amount: 100 }] }),
        },
        PosKeyChange::TotalDeltasChange { validator: validator(), pre_deltas: 0, post_deltas: 100 },
    ];
    assert!(!validate_changes(&params, &changes, &vec![], 4));
}

/// An unbond transition moves the amount the bond lost, with the withdraw
/// epoch at the unbonding offset.
#[test]
fn test_vp_unbond_epochs() {
    let params = PosParams::default_params();
    // Current epoch 4: withdraw must be 10. The bond loses the 50 the
    // unbond gains, and the deltas follow the bond.
    let good = vec![
        PosKeyChange::BondChange {
            source: Address::Implicit(vec![1u8; 32]),
            validator: validator(),
            pre: Some(Bond { entries: vec![BondEntry { start: 2, amount: 100 }] }),
            post: Some(Bond { entries: vec![BondEntry { start: 2, amount: 50 }] }),
        },
        PosKeyChange::UnbondChange {
            source: Address::Implicit(vec![1u8; 32]),
            validator: validator(),
            pre_unbond: None,
            post_unbond: Some(Unbond {
                entries: vec![UnbondEntry { start: 2, withdraw: 10, amount: 50 }],
            }),
            slashes: vec![],
        },
        PosKeyChange::TotalDeltasChange { validator: validator(), pre_deltas: 100, post_deltas: 50 },
    ];
    assert!(validate_changes(&params, &good, &vec![], 4));
    // A withdraw epoch off the offset is backdating.
    let bad = vec![
        PosKeyChange::BondChange {
            source: Address::Implicit(vec![1u8; 32]),
            validator: validator(),
            pre: Some(Bond { entries: vec![BondEntry { start: 2, amount: 100 }] }),
            post: Some(Bond { entries: vec![BondEntry { start: 2, amount: 50 }] }),
        },
        PosKeyChange::UnbondChange {
            source: Address::Implicit(vec![1u8; 32]),
            validator: validator(),
            pre_unbond: None,
            post_unbond: Some(Unbond {
                entries: vec![UnbondEntry { start: 2, withdraw: 9, amount: 50 }],
            }),
            slashes: vec![],
        },
        PosKeyChange::TotalDeltasChange { validator: validator(), pre_deltas: 100, post_deltas: 50 },
    ];
    assert!(!validate_changes(&params, &bad, &vec![], 4));
}

/// The active set must respect its cap and dominate the inactive set.
#[test]
fn test_vp_validator_set_shape() {
    let mut params = PosParams::default_params();
    params.max_validator_slots = 1;
    let strong = WeightedValidator { voting_power: 10, address: validator() };
    let weak = WeightedValidator {
        voting_power: 3,
        address: Address::Established(vec![9u8; 20]),
    };
    let good = PosKeyChange::ValidatorSetChange {
        post_set: ValidatorSet { active: vec![strong], inactive: vec![weak] },
    };
    assert!(validate_changes(&params, &vec![good], &vec![], 4));
    let strong = WeightedValidator { voting_power: 10, address: validator() };
    let weak = WeightedValidator {
        voting_power: 3,
        address: Address::Established(vec![9u8; 20]),
    };
    let bad = PosKeyChange::ValidatorSetChange {
        post_set: ValidatorSet { active: vec![weak], inactive: vec![strong] },
    };
    assert!(!validate_changes(&params, &vec![bad], &vec![], 4));
}

/// A voting power off the formula is rejected.
#[test]
fn test_vp_voting_power_formula() {
    let params = PosParams::default_params();
    // floor(30000 * 10 / 10000) == 30
    let good = PosKeyChange::VotingPowerChange {
        validator: validator(),
        post_power: 30,
        post_deltas: 30_000,
    };
    assert!(validate_changes(&params, &vec![good], &vec![], 4));
    let bad = PosKeyChange::VotingPowerChange {
        validator: validator(),
        post_power: 31,
        post_deltas: 30_000,
    };
    assert!(!validate_changes(&params, &vec![bad], &vec![], 4));
}

/// A consensus-key change needs the validator among the verifiers.
#[test]
fn test_vp_authorization() {
    let params = PosParams::default_params();
    let change = PosKeyChange::ConsensusKeyChange { validator: validator() };
    assert!(!validate_changes(&params, &vec![change], &vec![], 4));
    let change = PosKeyChange::ConsensusKeyChange { validator: validator() };
    assert!(validate_changes(&params, &vec![change], &vec![validator()], 4));
}

/// Parameter changes need an accepted proposal; unknown keys are rejected.
#[test]
fn test_vp_params_and_unknown_keys() {
    let params = PosParams::default_params();
    assert!(!validate_changes(
        &params,
        &vec![PosKeyChange::ParamsChange { proposal_accepted: false }],
        &vec![],
        4,
    ));
    assert!(validate_changes(
        &params,
        &vec![PosKeyChange::ParamsChange { proposal_accepted: true }],
        &vec![],
        4,
    ));
    assert!(!validate_changes(&params, &vec![PosKeyChange::UnknownPosKey], &vec![], 4));
}

/// The proof-of-stake balance must move by the net of the movements: a
/// withdrawal reduces it by the slashed remainder.
#[test]
fn test_vp_balance_conservation() {
    let params = PosParams::default_params();
    // A withdrawal at epoch 12 of a slice of 100 slashed by one percent.
    let slashes = vec![Slash { epoch: 4, block_height: 9, rate_bp: 100, kind: SlashType::DuplicateVote }];
    let changes = vec![
        PosKeyChange::UnbondChange {
            source: Address::Implicit(vec![1u8; 32]),
            validator: validator(),
            pre_unbond: Some(Unbond {
                entries: vec![UnbondEntry { start: 2, withdraw: 10, amount: 100 }],
            }),
            post_unbond: Some(Unbond { entries: vec![] }),
            slashes,
        },
        PosKeyChange::BalanceChange { pre_balance: 500, post_balance: 401 },
    ];
    assert!(validate_changes(&params, &changes, &vec![], 12));
}

/// The recorded total voting power must be the sum over a recorded active
/// set.
#[test]
fn test_vp_total_power_rule() {
    let params = PosParams::default_params();
    // A total with no recorded set is rejected.
    let lonely = vec![PosKeyChange::TotalVotingPowerChange { post_total: 1 }];
    assert!(!validate_changes(&params, &lonely, &vec![], 4));
    // A total matching the recorded active set's sum passes.
    let v1 = WeightedValidator { voting_power: 7, address: validator() };
    let v2 = WeightedValidator {
        voting_power: 3,
        address: Address::Established(vec![9u8; 20]),
    };
    let good = vec![
        PosKeyChange::ValidatorSetChange {
            post_set: ValidatorSet { active: vec![v1, v2], inactive: vec![] },
        },
        PosKeyChange::TotalVotingPowerChange { post_total: 10 },
    ];
    assert!(validate_changes(&params, &good, &vec![], 4));
    // A total off the sum is rejected.
    let v1 = WeightedValidator { voting_power: 7, address: validator() };
    let v2 = WeightedValidator {
        voting_power: 3,
        address: Address::Established(vec![9u8; 20]),
    };
    let bad = vec![
        PosKeyChange::ValidatorSetChange {
            post_set: ValidatorSet { active: vec![v1, v2], inactive: vec![] },
        },
        PosKeyChange::TotalVotingPowerChange { post_total: 11 },
    ];
    assert!(!validate_changes(&params, &bad, &vec![], 4));
}

/// The byte-level validity predicate: keys are classified from their paths,
/// protected changes need the owner among the verifiers, and unknown keys of
/// the subspace are rejected.
#[test]
fn test_validate_tx_key_classification() {
    let params = PosParams::default_params();
    let v = validator();
    let consensus_key = ledger_shell::pos_storage::make_validator_key(2, &v);
    let pre: Vec<(Vec<u8>, Vec<u8>)> = vec![];
    let post: Vec<(Vec<u8>, Vec<u8>)> = vec![];
    // A consensus-key change without the validator among the verifiers.
    assert!(!ledger_shell::pos_storage::validate_tx(
        &params,
        &vec![consensus_key.clone()],
        false,
        &vec![],
        &pre,
        &post,
        4,
    ));
    // The same change, authorized.
    assert!(ledger_shell::pos_storage::validate_tx(
        &params,
        &vec![consensus_key],
        false,
        &vec![validator()],
        &pre,
        &post,
        4,
    ));
    // An unknown key of the proof-of-stake subspace is rejected outright.
    let junk = vec![2u8, 0, 42];
    assert!(!ledger_shell::pos_storage::validate_tx(
        &params,
        &vec![junk],
        false,
        &vec![],
        &pre,
        &post,
        4,
    ));
    // A key of another subspace is allowed and not validated here.
    let mut outside: Vec<u8> = Vec::new();
    outside.push(1);
    outside.extend_from_slice(&42u64.to_le_bytes());
    // An implicit address with an empty payload, then an unknown tag.
    outside[1..9].copy_from_slice(&0u64.to_le_bytes());
    outside.push(99);
    assert!(ledger_shell::pos_storage::validate_tx(
        &params,
        &vec![outside],
        false,
        &vec![],
        &pre,
        &post,
        4,
    ));
}
