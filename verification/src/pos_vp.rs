//! The proof-of-stake native validity predicate: every storage change that
//! touches the proof-of-stake keyspace is collected into a typed change
//! record, and the set of records is validated against the declarative
//! rules, for the current epoch. The predicate accepts iff no rule is
//! violated.

use vstd::prelude::*;
use crate::address::{Address, AddressV};
use crate::pos::{
    bond_sum, listed_power_sum, usum, voting_power_of, withdrawable_sum, Bond, PosParams, Slash,
    Unbond, ValidatorState, ValidatorSet,
};

verus! {

/// A typed record of one changed key in the proof-of-stake keyspace, with
/// its value before and after the transaction.
pub enum PosKeyChange {
    /// A bond of a (source, validator) pair: the snapshots at the update
    /// epoch.
    BondChange { source: Address, validator: Address, pre: Option<Bond>, post: Option<Bond> },
    /// An unbond of a (source, validator) pair, with the validator's
    /// slashes.
    UnbondChange {
        source: Address,
        validator: Address,
        pre_unbond: Option<Unbond>,
        post_unbond: Option<Unbond>,
        slashes: Vec<Slash>,
    },
    /// A validator's total deltas at the update epoch.
    TotalDeltasChange { validator: Address, pre_deltas: i128, post_deltas: i128 },
    /// A validator's voting power, with the total deltas it must reflect.
    VotingPowerChange { validator: Address, post_power: u64, post_deltas: i128 },
    /// The active/inactive validator sets.
    ValidatorSetChange { post_set: ValidatorSet },
    /// The total voting power.
    TotalVotingPowerChange { post_total: u64 },
    /// A validator's lifecycle state.
    StateChange { validator: Address, post_state: Option<ValidatorState> },
    /// A validator's consensus key.
    ConsensusKeyChange { validator: Address },
    /// An account's validity predicate code.
    ValidityPredicateChange { owner: Address },
    /// A validator's staking reward address.
    StakingRewardAddressChange { validator: Address },
    /// The reverse lookup from a raw hash to a validator address.
    RawHashChange { raw_hash: Vec<u8> },
    /// The proof-of-stake parameters; the builder resolves whether the
    /// governance proposal named in the transaction data was accepted.
    ParamsChange { proposal_accepted: bool },
    /// The staking-token balance of the proof-of-stake account.
    BalanceChange { pre_balance: u64, post_balance: u64 },
    /// A key in the proof-of-stake keyspace matching no known pattern.
    UnknownPosKey,
    /// A key outside the proof-of-stake keyspace: allowed and not validated
    /// here.
    OutsideKey,
}

/// Why the validity predicate rejected a change set.
#[derive(Clone, Copy, PartialEq, Eq, Structural, Debug)]
pub enum PosVpError {
    /// A bond change is not matched by the validator's total deltas.
    SumMismatch,
    /// A new bond or unbond entry is dated outside the allowed epoch.
    EpochDiscipline,
    /// The active set is over its size cap or out of power order.
    ValidatorSetShape,
    /// A voting power does not follow from the total deltas.
    VotingPowerMismatch,
    /// The account balance does not match the net of the movements.
    BalanceMismatch,
    /// A protected change lacks the owner's authorization.
    Unauthorized,
    /// A parameter change without an accepted governance proposal.
    ParamsWithoutProposal,
    /// A key in the keyspace matches no known pattern.
    UnknownKey,
}

/// The sum of a bond snapshot option.
pub open spec fn opt_bond_sum(b: Option<Bond>) -> int {
    match b {
        None => 0,
        Some(b) => bond_sum(b.entries@),
    }
}

/// The sum of an unbond snapshot option.
pub open spec fn opt_usum(u: Option<Unbond>) -> int {
    match u {
        None => 0,
        Some(u) => usum(u.entries@),
    }
}

/// The net bond movement a change set records for a validator.
pub open spec fn bond_net_of(s: Seq<PosKeyChange>, v: AddressV) -> int
    decreases s.len(),
{
    if s.len() == 0 {
        0
    } else {
        bond_net_of(s.drop_last(), v) + match s.last() {
            PosKeyChange::BondChange { validator, pre, post, .. } => if validator@ == v {
                opt_bond_sum(post) - opt_bond_sum(pre)
            } else {
                0
            },
            _ => 0,
        }
    }
}

/// The net unbond movement a change set records for a validator.
pub open spec fn unbond_net_of(s: Seq<PosKeyChange>, v: AddressV) -> int
    decreases s.len(),
{
    if s.len() == 0 {
        0
    } else {
        unbond_net_of(s.drop_last(), v) + match s.last() {
            PosKeyChange::UnbondChange { validator, pre_unbond, post_unbond, .. } => if validator@
                == v {
                opt_usum(post_unbond) - opt_usum(pre_unbond)
            } else {
                0
            },
            _ => 0,
        }
    }
}

/// Sum consistency: each recorded total-deltas change equals the net bond
/// movement recorded for that validator, and an unbond transition moves
/// exactly the amount the bonds lost into the unbonds. The comparison is on
/// the raw movement: slashes never touch recorded deltas, they only scale
/// what a withdrawal pays out.
pub open spec fn rule_sum_consistency(s: Seq<PosKeyChange>) -> bool {
    forall|i: int|
        0 <= i < s.len() ==> match #[trigger] s[i] {
            PosKeyChange::TotalDeltasChange { validator, pre_deltas, post_deltas } => post_deltas
                - pre_deltas == bond_net_of(s, validator@),
            PosKeyChange::UnbondChange { validator, .. } => unbond_net_of(s, validator@) > 0
                ==> unbond_net_of(s, validator@) == -bond_net_of(s, validator@),
            _ => true,
        }
}

/// A bond entry is allowed in a post snapshot when it existed before with at
/// least its amount, or is dated exactly at the pipeline offset.
pub open spec fn bond_entry_ok(
    pre: Option<Bond>,
    e: crate::pos::BondEntry,
    current: u64,
    pipeline_len: u64,
) -> bool {
    ||| e.start == current + pipeline_len
    ||| match pre {
        None => false,
        Some(p) => exists|j: int|
            0 <= j < p.entries@.len() && (#[trigger] p.entries@[j]).start == e.start
                && p.entries@[j].amount >= e.amount,
    }
}

/// An unbond entry is allowed in a post snapshot when it existed before, or
/// withdraws exactly at the unbonding offset.
pub open spec fn unbond_entry_ok(
    pre: Option<Unbond>,
    e: crate::pos::UnbondEntry,
    current: u64,
    unbonding_len: u64,
) -> bool {
    ||| e.withdraw == current + unbonding_len
    ||| match pre {
        None => false,
        Some(p) => exists|j: int| 0 <= j < p.entries@.len() && #[trigger] p.entries@[j] == e,
    }
}

/// Epoch discipline: new bond entries activate at the pipeline offset; new
/// unbond entries withdraw at the unbonding offset; nothing is backdated.
pub open spec fn rule_epoch_discipline(
    s: Seq<PosKeyChange>,
    current: u64,
    pipeline_len: u64,
    unbonding_len: u64,
) -> bool {
    forall|i: int|
        0 <= i < s.len() ==> match #[trigger] s[i] {
            PosKeyChange::BondChange { pre, post, .. } => match post {
                None => true,
                Some(b) => forall|k: int|
                    0 <= k < b.entries@.len() ==> bond_entry_ok(
                        pre,
                        #[trigger] b.entries@[k],
                        current,
                        pipeline_len,
                    ),
            },
            PosKeyChange::UnbondChange { pre_unbond, post_unbond, .. } => match post_unbond {
                None => true,
                Some(u) => forall|k: int|
                    0 <= k < u.entries@.len() ==> unbond_entry_ok(
                        pre_unbond,
                        #[trigger] u.entries@[k],
                        current,
                        unbonding_len,
                    ),
            },
            _ => true,
        }
}

/// Validator-set shape: the active set respects the size cap, and every
/// active member has at least the power of every inactive member.
pub open spec fn set_shape_ok(set: &ValidatorSet, max_slots: u64) -> bool {
    &&& set.active@.len() <= max_slots
    &&& forall|i: int, j: int|
        0 <= i < set.active@.len() && 0 <= j < set.inactive@.len()
            ==> (#[trigger] set.active@[i]).voting_power >= (#[trigger] set.inactive@[j]).voting_power
}

/// Rule: every recorded validator-set change is well shaped.
pub open spec fn rule_validator_set(s: Seq<PosKeyChange>, max_slots: u64) -> bool {
    forall|i: int|
        0 <= i < s.len() ==> match #[trigger] s[i] {
            PosKeyChange::ValidatorSetChange { post_set } => set_shape_ok(&post_set, max_slots),
            _ => true,
        }
}

/// Voting-power coherence: each recorded voting power equals the formula
/// applied to the recorded total deltas.
pub open spec fn rule_voting_power(s: Seq<PosKeyChange>, votes_per_token_bp: u64) -> bool {
    forall|i: int|
        0 <= i < s.len() ==> match #[trigger] s[i] {
            PosKeyChange::VotingPowerChange { post_power, post_deltas, .. } => post_power
                == voting_power_of(post_deltas as int, votes_per_token_bp),
            _ => true,
        }
}

/// The net bond movement over every validator.
pub open spec fn total_bond_net(s: Seq<PosKeyChange>) -> int
    decreases s.len(),
{
    if s.len() == 0 {
        0
    } else {
        total_bond_net(s.drop_last()) + match s.last() {
            PosKeyChange::BondChange { pre, post, .. } => opt_bond_sum(post) - opt_bond_sum(pre),
            _ => 0,
        }
    }
}

/// What the withdrawn unbond slices pay out, over every unbond change: for
/// each unbond decrease, the slashed remainders of the removed slices.
pub open spec fn total_withdrawn(s: Seq<PosKeyChange>, current: u64) -> int
    decreases s.len(),
{
    if s.len() == 0 {
        0
    } else {
        total_withdrawn(s.drop_last(), current) + match s.last() {
            PosKeyChange::UnbondChange { pre_unbond, post_unbond, slashes, .. } => match pre_unbond {
                None => 0,
                Some(p) => if opt_usum(post_unbond) < usum(p.entries@) {
                    withdrawable_sum(p.entries@, slashes@, current)
                } else {
                    0
                },
            },
            _ => 0,
        }
    }
}

/// Balance conservation: the proof-of-stake account's balance moves by
/// exactly the net bond deposits minus the slashed withdrawals.
pub open spec fn rule_balance(s: Seq<PosKeyChange>, current: u64) -> bool {
    forall|i: int|
        0 <= i < s.len() ==> match #[trigger] s[i] {
            PosKeyChange::BalanceChange { pre_balance, post_balance } => post_balance
                - pre_balance == total_bond_net(s) - total_withdrawn(s, current),
            _ => true,
        }
}

/// Whether an address is among the verifiers of the transaction.
pub open spec fn is_verifier(verifiers: Seq<Address>, a: AddressV) -> bool {
    exists|i: int| 0 <= i < verifiers.len() && (#[trigger] verifiers[i])@ == a
}

/// Verifier authorization: a consensus-key change or a validity-predicate
/// change requires the owner among the verifiers.
pub open spec fn rule_authorization(s: Seq<PosKeyChange>, verifiers: Seq<Address>) -> bool {
    forall|i: int|
        0 <= i < s.len() ==> match #[trigger] s[i] {
            PosKeyChange::ConsensusKeyChange { validator } => is_verifier(verifiers, validator@),
            PosKeyChange::ValidityPredicateChange { owner } => is_verifier(verifiers, owner@),
            _ => true,
        }
}

/// The recorded total voting power is the sum over the active set recorded
/// beside it: a total with no accompanying set, or off its sum, is rejected.
pub open spec fn rule_total_power(s: Seq<PosKeyChange>) -> bool {
    forall|i: int|
        0 <= i < s.len() ==> match #[trigger] s[i] {
            PosKeyChange::TotalVotingPowerChange { post_total } => exists|q: int|
                0 <= q < s.len() && ((#[trigger] s[q]) matches PosKeyChange::ValidatorSetChange {
                    post_set,
                } && post_total == listed_power_sum(post_set.active@)),
            _ => true,
        }
}

/// Parameters change only through an accepted governance proposal; unknown
/// keys in the keyspace are rejected outright.
pub open spec fn rule_params_and_unknown(s: Seq<PosKeyChange>) -> bool {
    forall|i: int|
        0 <= i < s.len() ==> match #[trigger] s[i] {
            PosKeyChange::ParamsChange { proposal_accepted } => proposal_accepted,
            PosKeyChange::UnknownPosKey => false,
            _ => true,
        }
}

/// All the declarative rules together.
pub open spec fn changes_valid(
    s: Seq<PosKeyChange>,
    params: PosParams,
    verifiers: Seq<Address>,
    current: u64,
) -> bool {
    &&& rule_sum_consistency(s)
    &&& rule_epoch_discipline(s, current, params.pipeline_len, params.unbonding_len)
    &&& rule_validator_set(s, params.max_validator_slots)
    &&& rule_voting_power(s, params.votes_per_token_bp)
    &&& rule_balance(s, current)
    &&& rule_total_power(s)
    &&& rule_authorization(s, verifiers)
    &&& rule_params_and_unknown(s)
}

/// A record's snapshots and deltas are well formed and bounded, so the
/// accumulations over a change set cannot overflow. These are machine
/// limits, not rules of the system.
pub open spec fn wf_change_one(c: PosKeyChange) -> bool {
    match c {
        PosKeyChange::BondChange { pre, post, .. } => wf_opt_bond(pre) && wf_opt_bond(post),
        PosKeyChange::UnbondChange { pre_unbond, post_unbond, .. } => wf_opt_unbond(pre_unbond)
            && wf_opt_unbond(post_unbond),
        PosKeyChange::VotingPowerChange { post_deltas, .. } => -0x4_0000_0000_0000_0000_0000
            <= post_deltas <= 0x4_0000_0000_0000_0000_0000,
        PosKeyChange::ValidatorSetChange { post_set } => post_set.active@.len() <= 0x1_0000_0000,
        _ => true,
    }
}

/// The snapshots and deltas a change set mentions are well formed and
/// bounded, so accumulations cannot overflow.
pub open spec fn wf_changes(s: Seq<PosKeyChange>) -> bool {
    &&& s.len() <= 0x1_0000_0000
    &&& forall|i: int| 0 <= i < s.len() ==> wf_change_one(#[trigger] s[i])
}

/// The snapshot in a change is well formed, when present.
pub open spec fn wf_opt_bond(b: Option<Bond>) -> bool {
    match b {
        None => true,
        Some(b) => crate::pos::wf_bond(b.entries@),
    }
}

/// The snapshot in a change is well formed, when present.
pub open spec fn wf_opt_unbond(u: Option<Unbond>) -> bool {
    match u {
        None => true,
        Some(u) => crate::pos::wf_unbond(u.entries@),
    }
}

/// A well-formed bond snapshot's total stays under the snapshot bound.
pub proof fn lemma_bond_sum_bound(s: Seq<crate::pos::BondEntry>)
    requires
        crate::pos::wf_bond(s),
    ensures
        0 <= bond_sum(s) <= (s.len() as int) * (crate::pos::MAX_DELTA as int),
        bond_sum(s) <= 0x4_0000_0000_0000_0000_0000,
    decreases s.len(),
{
    if s.len() == 0 {
    } else {
        assert(crate::pos::wf_bond(s.drop_last()));
        lemma_bond_sum_bound(s.drop_last());
        assert((s.len() as int) * (crate::pos::MAX_DELTA as int) == (s.len() - 1) * (
        crate::pos::MAX_DELTA as int) + crate::pos::MAX_DELTA as int) by (nonlinear_arith);
    }
    assert((s.len() as int) * (crate::pos::MAX_DELTA as int) <= 0x10_0000 * (
    crate::pos::MAX_DELTA as int)) by (nonlinear_arith)
        requires s.len() <= 0x10_0000;
}

/// A well-formed unbond snapshot's total stays under the snapshot bound.
pub proof fn lemma_usum_bound(s: Seq<crate::pos::UnbondEntry>)
    requires
        crate::pos::wf_unbond(s),
    ensures
        0 <= usum(s) <= (s.len() as int) * (crate::pos::MAX_DELTA as int),
        usum(s) <= 0x4_0000_0000_0000_0000_0000,
    decreases s.len(),
{
    if s.len() == 0 {
    } else {
        assert(crate::pos::wf_unbond(s.drop_last()));
        lemma_usum_bound(s.drop_last());
        assert((s.len() as int) * (crate::pos::MAX_DELTA as int) == (s.len() - 1) * (
        crate::pos::MAX_DELTA as int) + crate::pos::MAX_DELTA as int) by (nonlinear_arith);
    }
    assert((s.len() as int) * (crate::pos::MAX_DELTA as int) <= 0x10_0000 * (
    crate::pos::MAX_DELTA as int)) by (nonlinear_arith)
        requires s.len() <= 0x10_0000;
}

/// The withdrawable payout never exceeds the snapshot's total.
pub proof fn lemma_withdrawable_bound(s: Seq<crate::pos::UnbondEntry>, slashes: Seq<Slash>, e: u64)
    ensures
        0 <= withdrawable_sum(s, slashes, e) <= usum(s),
    decreases s.len(),
{
    if s.len() > 0 {
        lemma_withdrawable_bound(s.drop_last(), slashes, e);
        crate::pos::lemma_slash_total_nonneg(
            slashes,
            s.last().amount,
            s.last().start,
            Some(s.last().withdraw),
        );
    }
}

/// The total of a bond snapshot option.
fn opt_bond_sum_exec(b: &Option<Bond>) -> (r: i128)
    requires
        wf_opt_bond(*b),
    ensures
        r == opt_bond_sum(*b),
        0 <= r <= 0x4_0000_0000_0000_0000_0000,
{
    match b {
        None => 0,
        Some(bond) => {
            proof {
                assert(bond.entries@.take(0) =~= Seq::<crate::pos::BondEntry>::empty());
                lemma_bond_sum_bound(bond.entries@);
            }
            let mut acc: i128 = 0;
            let mut i: usize = 0;
            while i < bond.entries.len()
                invariant
                    i <= bond.entries@.len(),
                    crate::pos::wf_bond(bond.entries@),
                    acc == bond_sum(bond.entries@.take(i as int)),
                    0 <= acc <= 0x4_0000_0000_0000_0000_0000,
                decreases bond.entries@.len() - i,
            {
                proof {
                    assert(bond.entries@.take(i + 1).last() == bond.entries@[i as int]);
                    assert(bond.entries@.take(i + 1).drop_last() =~= bond.entries@.take(i as int));
                    assert(crate::pos::wf_bond(bond.entries@.take(i + 1))) by {
                        assert forall|p: int|
                            0 <= p < bond.entries@.take(i + 1).len() implies (
                        #[trigger] bond.entries@.take(i + 1)[p]).amount
                            <= crate::pos::MAX_DELTA by {
                            assert(bond.entries@.take(i + 1)[p] == bond.entries@[p]);
                        }
                    }
                    lemma_bond_sum_bound(bond.entries@.take(i + 1));
                }
                acc = acc + bond.entries[i].amount as i128;
                i = i + 1;
            }
            proof {
                assert(bond.entries@.take(bond.entries@.len() as int) =~= bond.entries@);
            }
            acc
        },
    }
}

/// The total of an unbond snapshot option.
fn opt_usum_exec(u: &Option<Unbond>) -> (r: i128)
    requires
        wf_opt_unbond(*u),
    ensures
        r == opt_usum(*u),
        0 <= r <= 0x4_0000_0000_0000_0000_0000,
{
    match u {
        None => 0,
        Some(unbond) => {
            proof {
                assert(unbond.entries@.take(0) =~= Seq::<crate::pos::UnbondEntry>::empty());
                lemma_usum_bound(unbond.entries@);
            }
            let mut acc: i128 = 0;
            let mut i: usize = 0;
            while i < unbond.entries.len()
                invariant
                    i <= unbond.entries@.len(),
                    crate::pos::wf_unbond(unbond.entries@),
                    acc == usum(unbond.entries@.take(i as int)),
                    0 <= acc <= 0x4_0000_0000_0000_0000_0000,
                decreases unbond.entries@.len() - i,
            {
                proof {
                    assert(unbond.entries@.take(i + 1).last() == unbond.entries@[i as int]);
                    assert(unbond.entries@.take(i + 1).drop_last() =~= unbond.entries@.take(
                        i as int,
                    ));
                    assert(crate::pos::wf_unbond(unbond.entries@.take(i + 1))) by {
                        assert forall|p: int|
                            0 <= p < unbond.entries@.take(i + 1).len() implies (
                        #[trigger] unbond.entries@.take(i + 1)[p]).amount
                            <= crate::pos::MAX_DELTA by {
                            assert(unbond.entries@.take(i + 1)[p] == unbond.entries@[p]);
                        }
                    }
                    lemma_usum_bound(unbond.entries@.take(i + 1));
                }
                acc = acc + unbond.entries[i].amount as i128;
                i = i + 1;
            }
            proof {
                assert(unbond.entries@.take(unbond.entries@.len() as int) =~= unbond.entries@);
            }
            acc
        },
    }
}

/// The net bond movement a change set records for a validator.
fn compute_bond_net(changes: &Vec<PosKeyChange>, v: &Address) -> (r: i128)
    requires
        wf_changes(changes@),
    ensures
        r == bond_net_of(changes@, v@),
        -0x8_0000_0000_0000_0000_0000_0000_0000 <= r <= 0x8_0000_0000_0000_0000_0000_0000_0000,
{
    proof {
        assert(changes@.take(0) =~= Seq::<PosKeyChange>::empty());
    }
    let mut acc: i128 = 0;
    let mut i: usize = 0;
    while i < changes.len()
        invariant
            i <= changes@.len(),
            wf_changes(changes@),
            acc == bond_net_of(changes@.take(i as int), v@),
            -(i as int) * 0x8_0000_0000_0000_0000_0000 <= acc <= (i as int)
                * 0x8_0000_0000_0000_0000_0000,
        decreases changes@.len() - i,
    {
        proof {
            assert(changes@.take(i + 1).last() == changes@[i as int]);
            assert(changes@.take(i + 1).drop_last() =~= changes@.take(i as int));
            assert((i as int) * 0x8_0000_0000_0000_0000_0000 + 0x8_0000_0000_0000_0000_0000 == (i
                + 1) * 0x8_0000_0000_0000_0000_0000) by (nonlinear_arith);
            assert((i + 1) * 0x8_0000_0000_0000_0000_0000 <= 0x1_0000_0000
                * 0x8_0000_0000_0000_0000_0000) by (nonlinear_arith)
                requires 0 <= i + 1 <= 0x1_0000_0000;
        }
        match &changes[i] {
            PosKeyChange::BondChange { validator, pre, post, .. } => {
                if validator.eq_addr(v) {
                    let pre_sum = opt_bond_sum_exec(pre);
                    let post_sum = opt_bond_sum_exec(post);
                    acc = acc + (post_sum - pre_sum);
                }
            },
            _ => {},
        }
        i = i + 1;
    }
    proof {
        assert(changes@.take(changes@.len() as int) =~= changes@);
        assert((changes@.len() as int) * 0x8_0000_0000_0000_0000_0000 <= 0x1_0000_0000
            * 0x8_0000_0000_0000_0000_0000) by (nonlinear_arith)
            requires changes@.len() <= 0x1_0000_0000;
    }
    acc
}

/// The net unbond movement a change set records for a validator.
fn compute_unbond_net(changes: &Vec<PosKeyChange>, v: &Address) -> (r: i128)
    requires
        wf_changes(changes@),
    ensures
        r == unbond_net_of(changes@, v@),
        -0x8_0000_0000_0000_0000_0000_0000_0000 <= r <= 0x8_0000_0000_0000_0000_0000_0000_0000,
{
    proof {
        assert(changes@.take(0) =~= Seq::<PosKeyChange>::empty());
    }
    let mut acc: i128 = 0;
    let mut i: usize = 0;
    while i < changes.len()
        invariant
            i <= changes@.len(),
            wf_changes(changes@),
            acc == unbond_net_of(changes@.take(i as int), v@),
            -(i as int) * 0x8_0000_0000_0000_0000_0000 <= acc <= (i as int)
                * 0x8_0000_0000_0000_0000_0000,
        decreases changes@.len() - i,
    {
        proof {
            assert(changes@.take(i + 1).last() == changes@[i as int]);
            assert(changes@.take(i + 1).drop_last() =~= changes@.take(i as int));
            assert((i as int) * 0x8_0000_0000_0000_0000_0000 + 0x8_0000_0000_0000_0000_0000 == (i
                + 1) * 0x8_0000_0000_0000_0000_0000) by (nonlinear_arith);
            assert((i + 1) * 0x8_0000_0000_0000_0000_0000 <= 0x1_0000_0000
                * 0x8_0000_0000_0000_0000_0000) by (nonlinear_arith)
                requires 0 <= i + 1 <= 0x1_0000_0000;
        }
        match &changes[i] {
            PosKeyChange::UnbondChange { validator, pre_unbond, post_unbond, .. } => {
                if validator.eq_addr(v) {
                    let pre_sum = opt_usum_exec(pre_unbond);
                    let post_sum = opt_usum_exec(post_unbond);
                    acc = acc + (post_sum - pre_sum);
                }
            },
            _ => {},
        }
        i = i + 1;
    }
    proof {
        assert(changes@.take(changes@.len() as int) =~= changes@);
        assert((changes@.len() as int) * 0x8_0000_0000_0000_0000_0000 <= 0x1_0000_0000
            * 0x8_0000_0000_0000_0000_0000) by (nonlinear_arith)
            requires changes@.len() <= 0x1_0000_0000;
    }
    acc
}

/// The net bond movement over every validator.
fn compute_total_bond_net(changes: &Vec<PosKeyChange>) -> (r: i128)
    requires
        wf_changes(changes@),
    ensures
        r == total_bond_net(changes@),
        -0x8_0000_0000_0000_0000_0000_0000_0000 <= r <= 0x8_0000_0000_0000_0000_0000_0000_0000,
{
    proof {
        assert(changes@.take(0) =~= Seq::<PosKeyChange>::empty());
    }
    let mut acc: i128 = 0;
    let mut i: usize = 0;
    while i < changes.len()
        invariant
            i <= changes@.len(),
            wf_changes(changes@),
            acc == total_bond_net(changes@.take(i as int)),
            -(i as int) * 0x8_0000_0000_0000_0000_0000 <= acc <= (i as int)
                * 0x8_0000_0000_0000_0000_0000,
        decreases changes@.len() - i,
    {
        proof {
            assert(changes@.take(i + 1).last() == changes@[i as int]);
            assert(changes@.take(i + 1).drop_last() =~= changes@.take(i as int));
            assert((i as int) * 0x8_0000_0000_0000_0000_0000 + 0x8_0000_0000_0000_0000_0000 == (i
                + 1) * 0x8_0000_0000_0000_0000_0000) by (nonlinear_arith);
            assert((i + 1) * 0x8_0000_0000_0000_0000_0000 <= 0x1_0000_0000
                * 0x8_0000_0000_0000_0000_0000) by (nonlinear_arith)
                requires 0 <= i + 1 <= 0x1_0000_0000;
        }
        match &changes[i] {
            PosKeyChange::BondChange { pre, post, .. } => {
                let pre_sum = opt_bond_sum_exec(pre);
                let post_sum = opt_bond_sum_exec(post);
                acc = acc + (post_sum - pre_sum);
            },
            _ => {},
        }
        i = i + 1;
    }
    proof {
        assert(changes@.take(changes@.len() as int) =~= changes@);
        assert((changes@.len() as int) * 0x8_0000_0000_0000_0000_0000 <= 0x1_0000_0000
            * 0x8_0000_0000_0000_0000_0000) by (nonlinear_arith)
            requires changes@.len() <= 0x1_0000_0000;
    }
    acc
}

/// What the withdrawn slices pay out, over every unbond change.
fn compute_total_withdrawn(changes: &Vec<PosKeyChange>, current: u64) -> (r: i128)
    requires
        wf_changes(changes@),
    ensures
        r == total_withdrawn(changes@, current),
        0 <= r <= 0x8_0000_0000_0000_0000_0000_0000_0000,
{
    proof {
        assert(changes@.take(0) =~= Seq::<PosKeyChange>::empty());
    }
    let mut acc: i128 = 0;
    let mut i: usize = 0;
    while i < changes.len()
        invariant
            i <= changes@.len(),
            wf_changes(changes@),
            acc == total_withdrawn(changes@.take(i as int), current),
            0 <= acc <= (i as int) * 0x8_0000_0000_0000_0000_0000,
        decreases changes@.len() - i,
    {
        proof {
            assert(changes@.take(i + 1).last() == changes@[i as int]);
            assert(changes@.take(i + 1).drop_last() =~= changes@.take(i as int));
            assert((i as int) * 0x8_0000_0000_0000_0000_0000 + 0x8_0000_0000_0000_0000_0000 == (i
                + 1) * 0x8_0000_0000_0000_0000_0000) by (nonlinear_arith);
            assert((i + 1) * 0x8_0000_0000_0000_0000_0000 <= 0x1_0000_0000
                * 0x8_0000_0000_0000_0000_0000) by (nonlinear_arith)
                requires 0 <= i + 1 <= 0x1_0000_0000;
        }
        match &changes[i] {
            PosKeyChange::UnbondChange { pre_unbond, post_unbond, slashes, .. } => {
                match pre_unbond {
                    None => {},
                    Some(p) => {
                        let pre_sum = opt_usum_exec(&Some(Unbond {
                            entries: clone_unbond_entries(&p.entries),
                        }));
                        let post_sum = opt_usum_exec(post_unbond);
                        if post_sum < pre_sum {
                            let w = compute_withdrawable(&p.entries, slashes, current);
                            acc = acc + w;
                        }
                    },
                }
            },
            _ => {},
        }
        i = i + 1;
    }
    proof {
        assert(changes@.take(changes@.len() as int) =~= changes@);
        assert((changes@.len() as int) * 0x8_0000_0000_0000_0000_0000 <= 0x1_0000_0000
            * 0x8_0000_0000_0000_0000_0000) by (nonlinear_arith)
            requires changes@.len() <= 0x1_0000_0000;
    }
    acc
}

/// Copy an unbond snapshot's slices.
fn clone_unbond_entries(v: &Vec<crate::pos::UnbondEntry>) -> (r: Vec<crate::pos::UnbondEntry>)
    ensures
        r@ == v@,
{
    let mut c: Vec<crate::pos::UnbondEntry> = Vec::new();
    let mut i: usize = 0;
    while i < v.len()
        invariant
            i <= v@.len(),
            c@ == v@.take(i as int),
        decreases v@.len() - i,
    {
        c.push(v[i]);
        i = i + 1;
        assert(c@ =~= v@.take(i as int));
    }
    assert(c@ =~= v@);
    c
}

/// The payout of the withdrawable slices of a snapshot.
fn compute_withdrawable(entries: &Vec<crate::pos::UnbondEntry>, slashes: &Vec<Slash>, current: u64) -> (r: i128)
    requires
        crate::pos::wf_unbond(entries@),
    ensures
        r == withdrawable_sum(entries@, slashes@, current),
        0 <= r <= 0x4_0000_0000_0000_0000_0000,
{
    proof {
        assert(entries@.take(0) =~= Seq::<crate::pos::UnbondEntry>::empty());
        lemma_withdrawable_bound(entries@, slashes@, current);
        lemma_usum_bound(entries@);
    }
    let mut acc: i128 = 0;
    let mut i: usize = 0;
    while i < entries.len()
        invariant
            i <= entries@.len(),
            crate::pos::wf_unbond(entries@),
            acc == withdrawable_sum(entries@.take(i as int), slashes@, current),
            0 <= acc <= 0x4_0000_0000_0000_0000_0000,
        decreases entries@.len() - i,
    {
        let e = entries[i];
        proof {
            assert(entries@.take(i + 1).last() == entries@[i as int]);
            assert(entries@.take(i + 1).drop_last() =~= entries@.take(i as int));
            assert(crate::pos::wf_unbond(entries@.take(i + 1))) by {
                assert forall|p: int|
                    0 <= p < entries@.take(i + 1).len() implies (#[trigger] entries@.take(
                    i + 1,
                )[p]).amount <= crate::pos::MAX_DELTA by {
                    assert(entries@.take(i + 1)[p] == entries@[p]);
                }
            }
            lemma_withdrawable_bound(entries@.take(i + 1), slashes@, current);
            lemma_usum_bound(entries@.take(i + 1));
        }
        if e.withdraw <= current {
            let pay = crate::pos::apply_slashes(slashes, e.amount, e.start, Some(e.withdraw));
            proof {
                crate::pos::lemma_slash_total_nonneg(slashes@, e.amount, e.start, Some(e.withdraw));
            }
            acc = acc + pay as i128;
        }
        i = i + 1;
    }
    proof {
        assert(entries@.take(entries@.len() as int) =~= entries@);
    }
    acc
}

/// Whether the bond entry is allowed by the epoch discipline.
fn bond_entry_allowed(pre: &Option<Bond>, e: &crate::pos::BondEntry, current: u64, pipeline_len: u64) -> (r: bool)
    requires
        current + pipeline_len <= u64::MAX,
    ensures
        r == bond_entry_ok(*pre, *e, current, pipeline_len),
{
    if e.start == current + pipeline_len {
        assert(bond_entry_ok(*pre, *e, current, pipeline_len));
        return true;
    }
    match pre {
        None => false,
        Some(p) => {
            let mut j: usize = 0;
            while j < p.entries.len()
                invariant
                    j <= p.entries@.len(),
                    pre matches Some(pp) && pp.entries@ == p.entries@,
                    forall|q: int|
                        0 <= q < j ==> !((#[trigger] p.entries@[q]).start == e.start
                            && p.entries@[q].amount >= e.amount),
                decreases p.entries@.len() - j,
            {
                if p.entries[j].start == e.start && p.entries[j].amount >= e.amount {
                    assert((p.entries@[j as int]).start == e.start && p.entries@[j as int].amount
                        >= e.amount);
                    assert(bond_entry_ok(*pre, *e, current, pipeline_len));
                    return true;
                }
                j = j + 1;
            }
            assert(!bond_entry_ok(*pre, *e, current, pipeline_len));
            false
        },
    }
}

/// Whether the unbond entry is allowed by the epoch discipline.
fn unbond_entry_allowed(pre: &Option<Unbond>, e: &crate::pos::UnbondEntry, current: u64, unbonding_len: u64) -> (r: bool)
    requires
        current + unbonding_len <= u64::MAX,
    ensures
        r == unbond_entry_ok(*pre, *e, current, unbonding_len),
{
    if e.withdraw == current + unbonding_len {
        assert(unbond_entry_ok(*pre, *e, current, unbonding_len));
        return true;
    }
    match pre {
        None => false,
        Some(p) => {
            let mut j: usize = 0;
            while j < p.entries.len()
                invariant
                    j <= p.entries@.len(),
                    pre matches Some(pp) && pp.entries@ == p.entries@,
                    forall|q: int| 0 <= q < j ==> #[trigger] p.entries@[q] != *e,
                decreases p.entries@.len() - j,
            {
                if p.entries[j].start == e.start && p.entries[j].withdraw == e.withdraw
                    && p.entries[j].amount == e.amount {
                    assert(p.entries@[j as int] == *e);
                    assert(unbond_entry_ok(*pre, *e, current, unbonding_len));
                    return true;
                }
                j = j + 1;
            }
            assert(!unbond_entry_ok(*pre, *e, current, unbonding_len));
            false
        },
    }
}

/// Whether an address is among the verifiers.
fn verifier_lookup(verifiers: &Vec<Address>, a: &Address) -> (r: bool)
    ensures
        r == is_verifier(verifiers@, a@),
{
    let mut i: usize = 0;
    while i < verifiers.len()
        invariant
            i <= verifiers@.len(),
            forall|j: int| 0 <= j < i ==> (#[trigger] verifiers@[j])@ != a@,
        decreases verifiers@.len() - i,
    {
        if verifiers[i].eq_addr(a) {
            assert(verifiers@[i as int]@ == a@);
            return true;
        }
        i = i + 1;
    }
    false
}

/// Validate a change set against the declarative rules; the predicate
/// accepts iff no rule is violated.
#[verifier::rlimit(100)]
#[verifier::spinoff_prover]
pub fn validate_changes(
    params: &PosParams,
    changes: &Vec<PosKeyChange>,
    verifiers: &Vec<Address>,
    current_epoch: u64,
) -> (r: bool)
    requires
        wf_changes(changes@),
        params.wf(),
        current_epoch + params.pipeline_len <= u64::MAX,
        current_epoch + params.unbonding_len <= u64::MAX,
    ensures
        r == changes_valid(changes@, *params, verifiers@, current_epoch),
{
    let mut i: usize = 0;
    let ghost s = changes@;
    while i < changes.len()
        invariant
            i <= s.len(),
            s == changes@,
            wf_changes(s),
            params.wf(),
            current_epoch + params.pipeline_len <= u64::MAX,
            current_epoch + params.unbonding_len <= u64::MAX,
            forall|j: int|
                0 <= j < i ==> match #[trigger] s[j] {
                    PosKeyChange::TotalDeltasChange { validator, pre_deltas, post_deltas } =>
                        post_deltas - pre_deltas == bond_net_of(s, validator@),
                    PosKeyChange::BondChange { pre, post, .. } => match post {
                        None => true,
                        Some(b) => forall|k: int|
                            0 <= k < b.entries@.len() ==> bond_entry_ok(
                                pre,
                                #[trigger] b.entries@[k],
                                current_epoch,
                                params.pipeline_len,
                            ),
                    },
                    PosKeyChange::UnbondChange { validator, pre_unbond, post_unbond, .. } => (
                    unbond_net_of(s, validator@) > 0 ==> unbond_net_of(s, validator@)
                        == -bond_net_of(s, validator@)) && match post_unbond {
                        None => true,
                        Some(u) => forall|k: int|
                            0 <= k < u.entries@.len() ==> unbond_entry_ok(
                                pre_unbond,
                                #[trigger] u.entries@[k],
                                current_epoch,
                                params.unbonding_len,
                            ),
                    },
                    PosKeyChange::ValidatorSetChange { post_set } => set_shape_ok(
                        &post_set,
                        params.max_validator_slots,
                    ),
                    PosKeyChange::VotingPowerChange { post_power, post_deltas, .. } => post_power
                        == voting_power_of(post_deltas as int, params.votes_per_token_bp),
                    PosKeyChange::BalanceChange { pre_balance, post_balance } => post_balance
                        - pre_balance == total_bond_net(s) - total_withdrawn(s, current_epoch),
                    PosKeyChange::TotalVotingPowerChange { post_total } => exists|q: int|
                        0 <= q < s.len() && ((#[trigger] s[q]) matches
                            PosKeyChange::ValidatorSetChange { post_set } && post_total
                            == listed_power_sum(post_set.active@)),
                    PosKeyChange::ConsensusKeyChange { validator } => is_verifier(
                        verifiers@,
                        validator@,
                    ),
                    PosKeyChange::ValidityPredicateChange { owner } => is_verifier(
                        verifiers@,
                        owner@,
                    ),
                    PosKeyChange::ParamsChange { proposal_accepted } => proposal_accepted,
                    PosKeyChange::UnknownPosKey => false,
                    _ => true,
                },
        decreases s.len() - i,
    {
        let ok: bool = match &changes[i] {
            PosKeyChange::TotalDeltasChange { validator, pre_deltas, post_deltas } => {
                let bn = compute_bond_net(changes, validator);
                check_sub_eq(*post_deltas, *pre_deltas, bn)
            },
            PosKeyChange::BondChange { pre, post, .. } => {
                match post {
                    None => true,
                    Some(b) => {
                        let mut all_ok = true;
                        let mut k: usize = 0;
                        while k < b.entries.len()
                            invariant
                                k <= b.entries@.len(),
                                current_epoch + params.pipeline_len <= u64::MAX,
                                all_ok == forall|q: int|
                                    0 <= q < k ==> bond_entry_ok(
                                        *pre,
                                        #[trigger] b.entries@[q],
                                        current_epoch,
                                        params.pipeline_len,
                                    ),
                            decreases b.entries@.len() - k,
                        {
                            let this_ok = bond_entry_allowed(
                                pre,
                                &b.entries[k],
                                current_epoch,
                                params.pipeline_len,
                            );
                            all_ok = all_ok && this_ok;
                            k = k + 1;
                        }
                        all_ok
                    },
                }
            },
            PosKeyChange::UnbondChange { validator, pre_unbond, post_unbond, .. } => {
                let un = compute_unbond_net(changes, validator);
                let magnitude_ok = if un > 0 {
                    let bn = compute_bond_net(changes, validator);
                    check_sub_eq(0, bn, un)
                } else {
                    true
                };
                magnitude_ok && match post_unbond {
                    None => true,
                    Some(u) => {
                        let mut all_ok = true;
                        let mut k: usize = 0;
                        while k < u.entries.len()
                            invariant
                                k <= u.entries@.len(),
                                current_epoch + params.unbonding_len <= u64::MAX,
                                all_ok == forall|q: int|
                                    0 <= q < k ==> unbond_entry_ok(
                                        *pre_unbond,
                                        #[trigger] u.entries@[q],
                                        current_epoch,
                                        params.unbonding_len,
                                    ),
                            decreases u.entries@.len() - k,
                        {
                            let this_ok = unbond_entry_allowed(
                                pre_unbond,
                                &u.entries[k],
                                current_epoch,
                                params.unbonding_len,
                            );
                            all_ok = all_ok && this_ok;
                            k = k + 1;
                        }
                        all_ok
                    },
                }
            },
            PosKeyChange::ValidatorSetChange { post_set } => check_set_shape(
                post_set,
                params.max_validator_slots,
            ),
            PosKeyChange::VotingPowerChange { post_power, post_deltas, .. } => {
                if *post_deltas <= 0 {
                    *post_power == 0
                } else {
                    proof {
                        assert(0 <= (*post_deltas as int) * (params.votes_per_token_bp as int)
                            <= 0x4_0000_0000_0000_0000_0000 * (crate::pos::BP_WHOLE as int))
                            by (nonlinear_arith)
                            requires
                                0 < *post_deltas <= 0x4_0000_0000_0000_0000_0000,
                                params.votes_per_token_bp <= crate::pos::BP_WHOLE,
                        ;
                    }
                    let wide: i128 = *post_deltas * (params.votes_per_token_bp as i128);
                    let power = wide / (crate::pos::BP_WHOLE as i128);
                    (*post_power as i128) == power
                }
            },
            PosKeyChange::BalanceChange { pre_balance, post_balance } => {
                let net = compute_total_bond_net(changes);
                let withdrawn = compute_total_withdrawn(changes, current_epoch);
                if check_add_ok(net, -withdrawn) {
                    check_sub_eq(*post_balance as i128, *pre_balance as i128, net + -withdrawn)
                } else {
                    false
                }
            },
            PosKeyChange::TotalVotingPowerChange { post_total } => {
                let mut found = false;
                let mut j: usize = 0;
                while j < changes.len()
                    invariant
                        j <= s.len(),
                        s == changes@,
                        wf_changes(s),
                        found ==> exists|q: int|
                            0 <= q < s.len() && ((#[trigger] s[q]) matches
                                PosKeyChange::ValidatorSetChange { post_set } && *post_total
                                == listed_power_sum(post_set.active@)),
                        !found ==> forall|q: int|
                            0 <= q < j ==> !((#[trigger] s[q]) matches
                                PosKeyChange::ValidatorSetChange { post_set } && *post_total
                                == listed_power_sum(post_set.active@)),
                    decreases s.len() - j,
                {
                    match &changes[j] {
                        PosKeyChange::ValidatorSetChange { post_set } => {
                            let sum = listed_power_sum_exec(post_set);
                            if sum == *post_total as u128 {
                                found = true;
                            }
                        },
                        _ => {},
                    }
                    j = j + 1;
                }
                found
            },
            PosKeyChange::ConsensusKeyChange { validator } => verifier_lookup(verifiers, validator),
            PosKeyChange::ValidityPredicateChange { owner } => verifier_lookup(verifiers, owner),
            PosKeyChange::ParamsChange { proposal_accepted } => *proposal_accepted,
            PosKeyChange::UnknownPosKey => false,
            _ => true,
        };
        if !ok {
            return false;
        }
        i = i + 1;
    }
    true
}

/// The sum of an active list's voting powers.
fn listed_power_sum_exec(set: &ValidatorSet) -> (r: u128)
    requires
        set.active@.len() <= 0x1_0000_0000,
    ensures
        r == listed_power_sum(set.active@),
{
    proof {
        assert(set.active@.take(0) =~= Seq::<crate::pos::WeightedValidator>::empty());
    }
    let mut acc: u128 = 0;
    let mut i: usize = 0;
    while i < set.active.len()
        invariant
            i <= set.active@.len(),
            set.active@.len() <= 0x1_0000_0000,
            acc == listed_power_sum(set.active@.take(i as int)),
            acc <= (i as int) * 0x1_0000_0000_0000_0000,
        decreases set.active@.len() - i,
    {
        proof {
            assert(set.active@.take(i + 1).last() == set.active@[i as int]);
            assert(set.active@.take(i + 1).drop_last() =~= set.active@.take(i as int));
            assert((i as int) * 0x1_0000_0000_0000_0000 + 0x1_0000_0000_0000_0000 == (i + 1)
                * 0x1_0000_0000_0000_0000) by (nonlinear_arith);
            assert((i + 1) * 0x1_0000_0000_0000_0000 <= 0x1_0000_0000 * 0x1_0000_0000_0000_0000)
                by (nonlinear_arith)
                requires 0 <= i + 1 <= 0x1_0000_0000;
        }
        acc = acc + set.active[i].voting_power as u128;
        i = i + 1;
    }
    proof {
        assert(set.active@.take(set.active@.len() as int) =~= set.active@);
    }
    acc
}

/// Whether the difference of two totals equals the expected net.
fn check_sub_eq(post: i128, pre: i128, net: i128) -> (r: bool)
    ensures
        r == (post - pre == net),
{
    if check_add_ok(pre, net) {
        post == pre + net
    } else {
        false
    }
}

/// Whether two 128-bit totals can be added without overflow.
fn check_add_ok(a: i128, b: i128) -> (r: bool)
    ensures
        r == (i128::MIN <= a + b <= i128::MAX),
{
    if b >= 0 {
        a <= i128::MAX - b
    } else {
        a >= i128::MIN - b
    }
}

/// Whether a validator set is well shaped.
fn check_set_shape(set: &ValidatorSet, max_slots: u64) -> (r: bool)
    ensures
        r == set_shape_ok(set, max_slots),
{
    if (set.active.len() as u64) > max_slots {
        return false;
    }
    let mut i: usize = 0;
    while i < set.active.len()
        invariant
            i <= set.active@.len(),
            set.active@.len() <= max_slots,
            forall|p: int, q: int|
                0 <= p < i && 0 <= q < set.inactive@.len() ==> (
                #[trigger] set.active@[p]).voting_power >= (
                #[trigger] set.inactive@[q]).voting_power,
        decreases set.active@.len() - i,
    {
        let mut j: usize = 0;
        while j < set.inactive.len()
            invariant
                i < set.active@.len(),
                j <= set.inactive@.len(),
                forall|q: int|
                    0 <= q < j ==> (#[trigger] set.inactive@[q]).voting_power
                        <= set.active@[i as int].voting_power,
            decreases set.inactive@.len() - j,
        {
            if set.active[i].voting_power < set.inactive[j].voting_power {
                return false;
            }
            j = j + 1;
        }
        i = i + 1;
    }
    true
}

} // verus!
