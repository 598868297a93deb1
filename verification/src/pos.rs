//! The proof-of-stake data model: epoch-indexed bonds, unbonds, validator
//! deltas and voting powers, and the slash arithmetic that retroactively
//! scales them down.

use vstd::prelude::*;
use crate::address::{pos_address, staking_token, Address, AddressV};
use crate::codec::{
    dec_u64_at, enc_u64, lemma_starts_with_split, lemma_u64_roundtrip, lemma_u64_roundtrip_inverse,
    read_tag, read_u64, starts_with, write_tag, write_u64,
};
use crate::token::{balance_in, Balances};

verus! {

/// The largest single delta the system accepts, so that epoch-indexed sums
/// never overflow a 128-bit accumulator.
pub const MAX_DELTA: u64 = 0x4000_0000_0000_0000;

/// The number of basis points that make the whole: slash rates and the
/// votes-per-token ratio are fractions over this denominator.
pub const BP_WHOLE: u64 = 10_000;

/// The proof-of-stake parameters.
pub struct PosParams {
    /// The most validators the active set may hold.
    pub max_validator_slots: u64,
    /// Epochs between a bond's submission and its activation.
    pub pipeline_len: u64,
    /// Epochs between an unbond's submission and its withdrawal.
    pub unbonding_len: u64,
    /// Voting power per token, in basis points.
    pub votes_per_token_bp: u64,
    /// Slash rate for a duplicate vote, in basis points.
    pub duplicate_vote_slash_rate_bp: u64,
    /// Slash rate for a light-client attack, in basis points.
    pub light_client_attack_slash_rate_bp: u64,
}

impl PosParams {
    /// Parameters are well-formed when the rates are genuine fractions.
    pub open spec fn wf(&self) -> bool {
        &&& self.votes_per_token_bp <= BP_WHOLE
        &&& self.duplicate_vote_slash_rate_bp <= BP_WHOLE
        &&& self.light_client_attack_slash_rate_bp <= BP_WHOLE
    }

    /// The default parameters.
    pub fn default_params() -> (r: PosParams)
        ensures
            r.max_validator_slots == 128,
            r.pipeline_len == 2,
            r.unbonding_len == 6,
            r.votes_per_token_bp == 10,
            r.duplicate_vote_slash_rate_bp == 100,
            r.light_client_attack_slash_rate_bp == 500,
            r.wf(),
    {
        PosParams {
            max_validator_slots: 128,
            pipeline_len: 2,
            unbonding_len: 6,
            votes_per_token_bp: 10,
            duplicate_vote_slash_rate_bp: 100,
            light_client_attack_slash_rate_bp: 500,
        }
    }
}

/// The kinds of attributable infractions.
#[derive(Clone, Copy, PartialEq, Eq, Structural, Debug)]
pub enum SlashType {
    /// Voting twice at one height.
    DuplicateVote,
    /// An attack on light clients.
    LightClientAttack,
}

/// A recorded infraction: when it happened and the rate it deducts.
#[derive(Clone, Copy, PartialEq, Eq, Structural, Debug)]
pub struct Slash {
    /// The epoch the infraction happened in.
    pub epoch: u64,
    /// The block height of the evidence.
    pub block_height: u64,
    /// The deduction, in basis points of the affected delta.
    pub rate_bp: u64,
    /// The infraction kind.
    pub kind: SlashType,
}

/// The tag byte of an infraction kind.
pub open spec fn slash_kind_tag(k: SlashType) -> u8 {
    match k {
        SlashType::DuplicateVote => 0,
        SlashType::LightClientAttack => 1,
    }
}

/// Canonical encoding of a slash record.
pub open spec fn enc_slash(s: Slash) -> Seq<u8> {
    enc_u64(s.epoch) + enc_u64(s.block_height) + enc_u64(s.rate_bp) + seq![slash_kind_tag(s.kind)]
}

/// Append the canonical encoding of a slash record.
pub fn write_slash(out: &mut Vec<u8>, s: &Slash)
    ensures
        final(out)@ == old(out)@ + enc_slash(*s),
{
    write_u64(out, s.epoch);
    write_u64(out, s.block_height);
    write_u64(out, s.rate_bp);
    let tag: u8 = match s.kind {
        SlashType::DuplicateVote => 0,
        SlashType::LightClientAttack => 1,
    };
    write_tag(out, tag);
    assert(out@ =~= old(out)@ + enc_slash(*s));
}

/// The canonical encoding of a slash record, as bytes.
pub fn encode_slash(s: &Slash) -> (r: Vec<u8>)
    ensures
        r@ == enc_slash(*s),
{
    let mut out: Vec<u8> = Vec::new();
    write_slash(&mut out, s);
    assert(out@ =~= enc_slash(*s));
    out
}

/// Decode a slash record from exactly the given bytes.
///
/// Canonical round trip: decoding the canonical encoding of any slash
/// yields that very record.
pub fn decode_slash(bytes: &Vec<u8>) -> (r: Option<Slash>)
    ensures
        r matches Some(s) ==> bytes@ == enc_slash(s),
        forall|v: Slash| bytes@ == enc_slash(v) ==> r == Some(v),
{
    proof {
        assert forall|v: Slash| bytes@ == enc_slash(v) implies {
            &&& starts_with(bytes@, 0, enc_u64(v.epoch))
            &&& starts_with(bytes@, 8, enc_u64(v.block_height))
            &&& starts_with(bytes@, 16, enc_u64(v.rate_bp))
            &&& bytes@.len() == 25
            &&& bytes@[24] == slash_kind_tag(v.kind)
            &&& dec_u64_at(bytes@, 0) == v.epoch
            &&& dec_u64_at(bytes@, 8) == v.block_height
            &&& dec_u64_at(bytes@, 16) == v.rate_bp
        } by {
            assert(bytes@.subrange(0, enc_slash(v).len() as int) =~= bytes@);
            let p1 = enc_u64(v.epoch);
            let p2 = enc_u64(v.block_height);
            let p3 = enc_u64(v.rate_bp);
            let p4 = seq![slash_kind_tag(v.kind)];
            assert(enc_slash(v) =~= (p1 + p2 + p3) + p4);
            lemma_starts_with_split(bytes@, 0, p1 + p2 + p3, p4);
            assert(p1 + p2 + p3 =~= (p1 + p2) + p3);
            lemma_starts_with_split(bytes@, 0, p1 + p2, p3);
            lemma_starts_with_split(bytes@, 0, p1, p2);
            lemma_u64_roundtrip(v.epoch, bytes@, 0);
            lemma_u64_roundtrip(v.block_height, bytes@, 8);
            lemma_u64_roundtrip(v.rate_bp, bytes@, 16);
            assert(bytes@.subrange(24, 25)[0] == bytes@[24]);
        }
    }
    let mut pos: usize = 0;
    let epoch = match read_u64(bytes, &mut pos) {
        None => {
            return None;
        },
        Some(x) => x,
    };
    let block_height = match read_u64(bytes, &mut pos) {
        None => {
            return None;
        },
        Some(x) => x,
    };
    let rate_bp = match read_u64(bytes, &mut pos) {
        None => {
            return None;
        },
        Some(x) => x,
    };
    let kind = match read_tag(bytes, &mut pos) {
        Some(0) => SlashType::DuplicateVote,
        Some(1) => SlashType::LightClientAttack,
        _ => {
            return None;
        },
    };
    if pos != bytes.len() {
        return None;
    }
    let s = Slash { epoch, block_height, rate_bp, kind };
    proof {
        lemma_u64_roundtrip_inverse(bytes@, 0, epoch);
        lemma_u64_roundtrip_inverse(bytes@, 8, block_height);
        lemma_u64_roundtrip_inverse(bytes@, 16, rate_bp);
        assert(bytes@ =~= enc_slash(s));
    }
    Some(s)
}

/// A list of slashes is well-formed when every rate is a genuine fraction.
pub open spec fn wf_slashes(s: Seq<Slash>) -> bool {
    forall|i: int| 0 <= i < s.len() ==> s[i].rate_bp <= BP_WHOLE
}

/// Whether a slash applies to a delta active since `start` and withdrawn at
/// `withdraw` (no bound when `None`): its epoch falls in the window.
pub open spec fn slash_applies(s: Slash, start: u64, withdraw: Option<u64>) -> bool {
    s.epoch >= start && match withdraw {
        Some(w) => s.epoch < w,
        None => true,
    }
}

/// The total deduction the slashes take from a delta: each slash deducts its
/// rate of the raw delta, rounded down; slashes compose additively on the
/// raw delta, never on the running remainder.
pub open spec fn slash_total(s: Seq<Slash>, delta: u64, start: u64, withdraw: Option<u64>) -> int
    decreases s.len(),
{
    if s.len() == 0 {
        0
    } else {
        slash_total(s.drop_last(), delta, start, withdraw) + if slash_applies(
            s.last(),
            start,
            withdraw,
        ) {
            (delta * s.last().rate_bp) / BP_WHOLE as int
        } else {
            0
        }
    }
}

/// A delta after slashing: the raw delta minus the total deduction, clamped
/// so that the sum of rates never deducts more than the whole.
pub open spec fn slashed_delta(s: Seq<Slash>, delta: u64, start: u64, withdraw: Option<u64>) -> u64 {
    if slash_total(s, delta, start, withdraw) >= delta {
        0
    } else {
        (delta - slash_total(s, delta, start, withdraw)) as u64
    }
}

/// The deduction is never negative.
pub proof fn lemma_slash_total_nonneg(s: Seq<Slash>, delta: u64, start: u64, withdraw: Option<u64>)
    ensures
        slash_total(s, delta, start, withdraw) >= 0,
    decreases s.len(),
{
    if s.len() > 0 {
        lemma_slash_total_nonneg(s.drop_last(), delta, start, withdraw);
        assert((delta * s.last().rate_bp) / BP_WHOLE as int >= 0) by (nonlinear_arith);
    }
}

/// Accumulate the slashes applicable between `epoch_start` and the optional
/// withdraw epoch, and take them from `delta`.
pub fn apply_slashes(slashes: &Vec<Slash>, delta: u64, epoch_start: u64, withdraw_epoch: Option<
    u64,
>) -> (r: u64)
    ensures
        r == slashed_delta(slashes@, delta, epoch_start, withdraw_epoch),
{
    let mut slashed: u64 = 0;
    let mut i: usize = 0;
    proof {
        assert(slashes@.take(0) =~= Seq::<Slash>::empty());
    }
    while i < slashes.len()
        invariant
            i <= slashes@.len(),
            slashed == if slash_total(slashes@.take(i as int), delta, epoch_start, withdraw_epoch)
                >= delta {
                delta as int
            } else {
                slash_total(slashes@.take(i as int), delta, epoch_start, withdraw_epoch)
            },
        decreases slashes@.len() - i,
    {
        let s = &slashes[i];
        proof {
            assert(slashes@.take(i + 1).last() == slashes@[i as int]);
            assert(slashes@.take(i + 1).drop_last() =~= slashes@.take(i as int));
            lemma_slash_total_nonneg(slashes@.take(i as int), delta, epoch_start, withdraw_epoch);
        }
        let applies = s.epoch >= epoch_start && match withdraw_epoch {
            Some(w) => s.epoch < w,
            None => true,
        };
        if applies {
            proof {
                assert(0 <= (delta as int) * (s.rate_bp as int) < 0x1_0000_0000_0000_0000_0000_0000_0000_0000)
                    by (nonlinear_arith)
                    requires delta <= u64::MAX && s.rate_bp <= u64::MAX;
            }
            let cut_wide: u128 = (delta as u128) * (s.rate_bp as u128) / (BP_WHOLE as u128);
            let current: u64 = if cut_wide >= delta as u128 {
                delta
            } else {
                cut_wide as u64
            };
            if delta - slashed <= current {
                slashed = delta;
            } else {
                slashed = slashed + current;
            }
        }
        i = i + 1;
    }
    proof {
        assert(slashes@.take(slashes@.len() as int) =~= slashes@);
        lemma_slash_total_nonneg(slashes@, delta, epoch_start, withdraw_epoch);
    }
    delta - slashed
}

/// An epoch-indexed value: the value at an epoch is the one most recently
/// set at or before it.
pub struct Epoched<T> {
    pub entries: Vec<(u64, T)>,
}

/// The value recorded at epoch `e`: the payload of the last entry whose
/// epoch is at most `e`.
pub open spec fn lookup_le<T>(s: Seq<(u64, T)>, e: u64) -> Option<T>
    decreases s.len(),
{
    if s.len() == 0 {
        None
    } else if s.last().0 <= e {
        Some(s.last().1)
    } else {
        lookup_le(s.drop_last(), e)
    }
}

/// Entries sorted by strictly increasing epoch.
pub open spec fn wf_epochs<T>(s: Seq<(u64, T)>) -> bool {
    forall|i: int, j: int| 0 <= i < j < s.len() ==> s[i].0 < s[j].0
}

impl<T> Epoched<T> {
    /// An empty container: no value at any epoch.
    pub fn empty() -> (r: Epoched<T>)
        ensures
            r.entries@.len() == 0,
            wf_epochs(r.entries@),
            forall|e: u64| lookup_le(r.entries@, e) is None,
    {
        Epoched { entries: Vec::new() }
    }

    /// The value at epoch `e`.
    pub fn get(&self, e: u64) -> (r: Option<&T>)
        ensures
            match r {
                Some(v) => lookup_le(self.entries@, e) == Some(*v),
                None => lookup_le(self.entries@, e) is None,
            },
    {
        proof {
            assert(self.entries@.take(self.entries@.len() as int) =~= self.entries@);
        }
        let mut i: usize = self.entries.len();
        while i > 0
            invariant
                i <= self.entries@.len(),
                lookup_le(self.entries@.take(i as int), e) == lookup_le(self.entries@, e),
            decreases i,
        {
            i = i - 1;
            proof {
                assert(self.entries@.take(i + 1).last() == self.entries@[i as int]);
                assert(self.entries@.take(i + 1).drop_last() =~= self.entries@.take(i as int));
            }
            if self.entries[i].0 <= e {
                return Some(&self.entries[i].1);
            }
        }
        assert(self.entries@.take(0) =~= Seq::<(u64, T)>::empty());
        None
    }

    /// Record `v` from epoch `e` on. Later epochs read `v` until something
    /// newer is set; earlier epochs are unaffected.
    pub fn set(&mut self, e: u64, v: T)
        requires
            wf_epochs(old(self).entries@),
            old(self).entries@.len() > 0 ==> old(self).entries@.last().0 <= e,
        ensures
            wf_epochs(final(self).entries@),
            final(self).entries@.len() > 0,
            final(self).entries@.last() == (e, v),
            final(self).entries@ == if old(self).entries@.len() > 0 && old(
                self,
            ).entries@.last().0 == e {
                old(self).entries@.drop_last().push((e, v))
            } else {
                old(self).entries@.push((e, v))
            },
            forall|q: u64|
                lookup_le(final(self).entries@, q) == if q >= e {
                    Some(v)
                } else {
                    lookup_le(old(self).entries@, q)
                },
    {
        let ghost orig = self.entries@;
        let replace_last = self.entries.len() > 0 && {
            let last = self.entries.len() - 1;
            self.entries[last].0 == e
        };
        if replace_last {
            self.entries.pop();
        }
        let ghost base = self.entries@;
        self.entries.push((e, v));
        proof {
            assert(self.entries@.drop_last() =~= base);
            assert forall|q: u64|
                lookup_le(self.entries@, q) == if q >= e {
                    Some(v)
                } else {
                    lookup_le(orig, q)
                } by {
                if q < e {
                    if replace_last {
                        assert(base =~= orig.drop_last());
                        assert(lookup_le(orig, q) == lookup_le(orig.drop_last(), q));
                    }
                }
            }
            assert forall|i: int, j: int|
                0 <= i < j < self.entries@.len() implies self.entries@[i].0
                < self.entries@[j].0 by {
                if replace_last {
                    assert(base =~= orig.drop_last());
                }
            }
        }
    }
}

/// Epoch-indexed deltas: the value at an epoch is the sum of every delta
/// recorded at or before it.
pub struct EpochedDelta {
    pub entries: Vec<(u64, i128)>,
}

/// The sum of the deltas recorded at or before epoch `e`.
pub open spec fn sum_le(s: Seq<(u64, i128)>, e: u64) -> int
    decreases s.len(),
{
    if s.len() == 0 {
        0
    } else {
        sum_le(s.drop_last(), e) + if s.last().0 <= e {
            s.last().1 as int
        } else {
            0
        }
    }
}

/// Every recorded delta is small enough that sums cannot overflow.
pub open spec fn wf_deltas(s: Seq<(u64, i128)>) -> bool {
    s.len() <= 0x10_0000 && forall|i: int|
        0 <= i < s.len() ==> -(MAX_DELTA as int) <= #[trigger] s[i].1 <= MAX_DELTA as int
}

/// A sum of bounded deltas is bounded by the count times the bound.
pub proof fn lemma_sum_le_bound(s: Seq<(u64, i128)>, e: u64)
    requires
        wf_deltas(s),
    ensures
        -(s.len() as int) * (MAX_DELTA as int) <= sum_le(s, e) <= (s.len() as int) * (
        MAX_DELTA as int),
    decreases s.len(),
{
    if s.len() == 0 {
    } else {
        assert(wf_deltas(s.drop_last()));
        lemma_sum_le_bound(s.drop_last(), e);
        assert((s.len() as int) * (MAX_DELTA as int) == (s.len() - 1) * (MAX_DELTA as int)
            + MAX_DELTA as int) by (nonlinear_arith);
    }
}

impl EpochedDelta {
    /// No deltas: zero at every epoch.
    pub fn empty() -> (r: EpochedDelta)
        ensures
            r.entries@.len() == 0,
            wf_deltas(r.entries@),
            forall|e: u64| sum_le(r.entries@, e) == 0,
    {
        EpochedDelta { entries: Vec::new() }
    }

    /// The sum of deltas at or before epoch `e`.
    pub fn get_sum(&self, e: u64) -> (r: i128)
        requires
            wf_deltas(self.entries@),
        ensures
            r == sum_le(self.entries@, e),
    {
        proof {
            assert(self.entries@.take(self.entries@.len() as int) =~= self.entries@);
        }
        let mut acc: i128 = 0;
        let mut i: usize = 0;
        proof {
            assert(self.entries@.take(0) =~= Seq::<(u64, i128)>::empty());
        }
        while i < self.entries.len()
            invariant
                i <= self.entries@.len(),
                wf_deltas(self.entries@),
                acc == sum_le(self.entries@.take(i as int), e),
            decreases self.entries@.len() - i,
        {
            proof {
                assert(self.entries@.take(i + 1).last() == self.entries@[i as int]);
                assert(self.entries@.take(i + 1).drop_last() =~= self.entries@.take(i as int));
                assert(wf_deltas(self.entries@.take(i as int)));
                lemma_sum_le_bound(self.entries@.take(i as int), e);
                assert((i as int) * (MAX_DELTA as int) <= 0x10_0000 * (MAX_DELTA as int))
                    by (nonlinear_arith)
                    requires 0 <= i <= 0x10_0000;
            }
            if self.entries[i].0 <= e {
                acc = acc + self.entries[i].1;
            }
            i = i + 1;
        }
        acc
    }

    /// Record a delta at epoch `e`: the sum at `e` and after moves by `d`.
    pub fn add(&mut self, e: u64, d: i128)
        requires
            wf_deltas(old(self).entries@),
            old(self).entries@.len() < 0x10_0000,
            -(MAX_DELTA as int) <= d <= MAX_DELTA as int,
        ensures
            wf_deltas(final(self).entries@),
            final(self).entries@.len() == old(self).entries@.len() + 1,
            forall|q: u64|
                sum_le(final(self).entries@, q) == sum_le(old(self).entries@, q) + if q >= e {
                    d as int
                } else {
                    0
                },
    {
        let ghost orig = self.entries@;
        self.entries.push((e, d));
        proof {
            assert(self.entries@.drop_last() =~= orig);
        }
    }
}

/// The voting power a stake carries: the stake (clamped at zero from below)
/// times the votes-per-token ratio, rounded down.
pub open spec fn voting_power_of(deltas: int, votes_per_token_bp: u64) -> int {
    if deltas <= 0 {
        0
    } else {
        (deltas * votes_per_token_bp) / BP_WHOLE as int
    }
}

/// Compute the voting power a stake carries.
pub fn compute_voting_power(deltas: i128, votes_per_token_bp: u64) -> (r: u64)
    requires
        -0x4_0000_0000_0000_0000_0000 <= deltas <= 0x4_0000_0000_0000_0000_0000,
        votes_per_token_bp <= BP_WHOLE,
        voting_power_of(deltas as int, votes_per_token_bp) <= u64::MAX,
    ensures
        r == voting_power_of(deltas as int, votes_per_token_bp),
{
    if deltas <= 0 {
        return 0;
    }
    proof {
        assert(0 <= (deltas as int) * (votes_per_token_bp as int) <= 0x4_0000_0000_0000_0000_0000
            * (BP_WHOLE as int)) by (nonlinear_arith)
            requires 0 < deltas <= 0x4_0000_0000_0000_0000_0000 && votes_per_token_bp <= BP_WHOLE;
        assert((deltas as i128) * (votes_per_token_bp as i128) == (deltas as int) * (
        votes_per_token_bp as int));
    }
    let wide: i128 = deltas * (votes_per_token_bp as i128);
    let power = wide / (BP_WHOLE as i128);
    power as u64
}

/// The lifecycle states of a validator.
#[derive(Clone, Copy, PartialEq, Eq, Structural, Debug)]
pub enum ValidatorState {
    /// Announced, not yet in the candidate set.
    Pending,
    /// A candidate for the active set.
    Candidate,
    /// Withdrawn from the candidate set.
    Inactive,
}

/// One slice of a bond: tokens that began participating at `start`.
#[derive(Clone, Copy, PartialEq, Eq, Structural, Debug)]
pub struct BondEntry {
    /// The activation epoch.
    pub start: u64,
    /// The amount bonded.
    pub amount: u64,
}

/// A bond snapshot: the active slices of one delegation.
pub struct Bond {
    pub entries: Vec<BondEntry>,
}

/// One slice of an unbond: tokens active since `start`, withdrawable at
/// `withdraw`.
#[derive(Clone, Copy, PartialEq, Eq, Structural, Debug)]
pub struct UnbondEntry {
    /// The epoch the consumed bond slice was active from.
    pub start: u64,
    /// The epoch withdrawal becomes possible.
    pub withdraw: u64,
    /// The amount unbonded.
    pub amount: u64,
}

/// An unbond snapshot: the pending withdrawals of one delegation.
pub struct Unbond {
    pub entries: Vec<UnbondEntry>,
}

/// The sum of a bond snapshot's slices.
pub open spec fn bond_sum(s: Seq<BondEntry>) -> int
    decreases s.len(),
{
    if s.len() == 0 {
        0
    } else {
        bond_sum(s.drop_last()) + s.last().amount as int
    }
}

/// A bond snapshot is well-formed when its slices are few, small and dated
/// by strictly increasing activation epochs.
pub open spec fn wf_bond(s: Seq<BondEntry>) -> bool {
    &&& s.len() <= 0x10_0000
    &&& forall|i: int| 0 <= i < s.len() ==> #[trigger] s[i].amount <= MAX_DELTA
    &&& forall|i: int, j: int| 0 <= i < j < s.len() ==> s[i].start <= s[j].start
}

/// A validator together with its voting power, as listed in the sets.
pub struct WeightedValidator {
    pub voting_power: u64,
    pub address: Address,
}

/// The active/inactive split of the validators at an epoch.
pub struct ValidatorSet {
    pub active: Vec<WeightedValidator>,
    pub inactive: Vec<WeightedValidator>,
}

/// A record of one validator.
pub struct ValidatorRecord {
    /// The validator's address.
    pub address: Address,
    /// The lifecycle state, by epoch.
    pub state: Epoched<ValidatorState>,
    /// The consensus key, by epoch.
    pub consensus_key: Epoched<Vec<u8>>,
    /// Bond minus unbond contributions, by epoch.
    pub total_deltas: EpochedDelta,
    /// The validator's recorded infractions.
    pub slashes: Vec<Slash>,
}

/// The record for address `a`, if one exists.
pub open spec fn find_validator_in(s: Seq<ValidatorRecord>, a: AddressV) -> Option<ValidatorRecord>
    decreases s.len(),
{
    if s.len() == 0 {
        None
    } else if s.last().address@ == a {
        Some(s.last())
    } else {
        find_validator_in(s.drop_last(), a)
    }
}

/// The total deltas of validator `a` at epoch `q`; zero for an unknown
/// validator.
pub open spec fn deltas_of(s: Seq<ValidatorRecord>, a: AddressV, q: u64) -> int {
    match find_validator_in(s, a) {
        None => 0,
        Some(r) => sum_le(r.total_deltas.entries@, q),
    }
}

/// The slashes recorded against validator `a`.
pub open spec fn slashes_of(s: Seq<ValidatorRecord>, a: AddressV) -> Seq<Slash> {
    match find_validator_in(s, a) {
        None => Seq::empty(),
        Some(r) => r.slashes@,
    }
}

/// Validator records are well-formed: distinct addresses, bounded deltas,
/// sorted epochs, genuine slash rates.
pub open spec fn wf_validators(s: Seq<ValidatorRecord>) -> bool {
    &&& forall|i: int, j: int|
        0 <= i < j < s.len() ==> s[i].address@ != s[j].address@
    &&& forall|i: int|
        0 <= i < s.len() ==> wf_deltas(#[trigger] s[i].total_deltas.entries@) && wf_epochs(
            s[i].state.entries@,
        ) && wf_epochs(s[i].consensus_key.entries@) && wf_slashes(s[i].slashes@)
}

/// Updating the record at one index changes only that validator's lookup.
proof fn lemma_find_validator_update(
    s: Seq<ValidatorRecord>,
    s2: Seq<ValidatorRecord>,
    i: int,
    a: AddressV,
)
    requires
        0 <= i < s.len(),
        s2 == s.update(i, s2[i]),
        s2.len() == s.len(),
        s2[i].address@ == s[i].address@,
        forall|p: int, q: int| 0 <= p < q < s.len() ==> s[p].address@ != s[q].address@,
    ensures
        find_validator_in(s2, a) == if a == s[i].address@ {
            Some(s2[i])
        } else {
            find_validator_in(s, a)
        },
    decreases s.len(),
{
    if s.len() > 0 {
        if i == s.len() - 1 {
            assert(s2.last() == s2[i]);
            assert(s2.drop_last() =~= s.drop_last());
            if a != s[i].address@ {
            }
        } else {
            assert(s2.last() == s.last());
            assert(s2.drop_last() =~= s.drop_last().update(i, s2[i]));
            lemma_find_validator_update(s.drop_last(), s2.drop_last(), i, a);
            if a == s[i].address@ && s.last().address@ == a {
                assert(false);
            }
        }
    }
}

/// A lookup that fails finds no record at any index.
proof fn lemma_find_validator_none(s: Seq<ValidatorRecord>, a: AddressV)
    requires
        find_validator_in(s, a) is None,
    ensures
        forall|i: int| 0 <= i < s.len() ==> s[i].address@ != a,
    decreases s.len(),
{
    if s.len() > 0 {
        lemma_find_validator_none(s.drop_last(), a);
        assert forall|i: int| 0 <= i < s.len() implies s[i].address@ != a by {
            if i < s.len() - 1 {
                assert(s.drop_last()[i] == s[i]);
            }
        }
    }
}

/// An unknown address stays unknown when a known record is updated in place.
proof fn lemma_find_validator_push(s: Seq<ValidatorRecord>, rec: ValidatorRecord, a: AddressV)
    ensures
        find_validator_in(s.push(rec), a) == if a == rec.address@ {
            Some(rec)
        } else {
            find_validator_in(s, a)
        },
{
    assert(s.push(rec).last() == rec);
    assert(s.push(rec).drop_last() =~= s);
}

/// The bonds (or unbonds) recorded for a (source, validator) pair.
pub open spec fn find_pair_in<T>(s: Seq<((Address, Address), T)>, src: AddressV, val: AddressV) -> Option<T>
    decreases s.len(),
{
    if s.len() == 0 {
        None
    } else if s.last().0.0@ == src && s.last().0.1@ == val {
        Some(s.last().1)
    } else {
        find_pair_in(s.drop_last(), src, val)
    }
}

/// Appending a pair shadows exactly that pair's lookup.
proof fn lemma_find_pair_push<T>(
    s: Seq<((Address, Address), T)>,
    key: (Address, Address),
    v: T,
    src: AddressV,
    val: AddressV,
)
    ensures
        find_pair_in(s.push((key, v)), src, val) == if key.0@ == src && key.1@ == val {
            Some(v)
        } else {
            find_pair_in(s, src, val)
        },
{
    assert(s.push((key, v)).last() == (key, v));
    assert(s.push((key, v)).drop_last() =~= s);
}

/// Why a proof-of-stake transition was refused.
#[derive(Clone, Copy, PartialEq, Eq, Structural, Debug)]
pub enum PosError {
    /// The named validator is not known.
    UnknownValidator,
    /// The source cannot pay the amount.
    InsufficientBalance,
    /// The delegation does not hold the amount.
    InsufficientBonded,
    /// No withdrawable unbond exists.
    NothingToWithdraw,
    /// A machine bound would be exceeded.
    Overflow,
}

/// The proof-of-stake state: parameters, the validator records, and the
/// bonds and unbonds per (source, validator) pair.
pub struct PosState {
    pub params: PosParams,
    pub current_epoch: u64,
    pub validators: Vec<ValidatorRecord>,
    pub bonds: Vec<((Address, Address), Epoched<Bond>)>,
    pub unbonds: Vec<((Address, Address), Epoched<Unbond>)>,
}

impl PosState {
    /// The whole state is well-formed.
    pub open spec fn wf(&self) -> bool {
        &&& self.params.wf()
        &&& wf_validators(self.validators@)
        &&& forall|i: int, j: int|
            0 <= i < j < self.bonds@.len() ==> !(self.bonds@[i].0.0@ == self.bonds@[j].0.0@
                && self.bonds@[i].0.1@ == self.bonds@[j].0.1@)
        &&& forall|i: int, j: int|
            0 <= i < j < self.unbonds@.len() ==> !(self.unbonds@[i].0.0@ == self.unbonds@[j].0.0@
                && self.unbonds@[i].0.1@ == self.unbonds@[j].0.1@)
        &&& forall|i: int|
            0 <= i < self.bonds@.len() ==> wf_epochs(#[trigger] self.bonds@[i].1.entries@) && (
            self.bonds@[i].1.entries@.len() > 0 ==> self.bonds@[i].1.entries@.last().0
                <= self.current_epoch) && forall|j: int|
                0 <= j < self.bonds@[i].1.entries@.len() ==> wf_bond(
                    #[trigger] self.bonds@[i].1.entries@[j].1.entries@,
                )
        &&& forall|i: int|
            0 <= i < self.unbonds@.len() ==> wf_epochs(#[trigger] self.unbonds@[i].1.entries@) && (
            self.unbonds@[i].1.entries@.len() > 0 ==> self.unbonds@[i].1.entries@.last().0
                <= self.current_epoch) && forall|j: int|
                0 <= j < self.unbonds@[i].1.entries@.len() ==> wf_unbond(
                    #[trigger] self.unbonds@[i].1.entries@[j].1.entries@,
                )
    }

    /// A fresh state at epoch zero with the given parameters.
    pub fn new(params: PosParams) -> (r: PosState)
        requires
            params.wf(),
        ensures
            r.wf(),
            r.current_epoch == 0,
            r.params == params,
            r.validators@.len() == 0,
            r.bonds@.len() == 0,
            r.unbonds@.len() == 0,
    {
        PosState {
            params,
            current_epoch: 0,
            validators: Vec::new(),
            bonds: Vec::new(),
            unbonds: Vec::new(),
        }
    }

    /// The index of the record for `validator`, if one exists.
    fn find_validator(&self, validator: &Address) -> (r: Option<usize>)
        ensures
            match r {
                Some(i) => i < self.validators@.len() && self.validators@[i as int].address@
                    == validator@ && find_validator_in(self.validators@, validator@) == Some(
                    self.validators@[i as int],
                ),
                None => find_validator_in(self.validators@, validator@) is None,
            },
    {
        proof {
            assert(self.validators@.take(self.validators@.len() as int) =~= self.validators@);
        }
        let mut i: usize = self.validators.len();
        while i > 0
            invariant
                i <= self.validators@.len(),
                find_validator_in(self.validators@.take(i as int), validator@)
                    == find_validator_in(self.validators@, validator@),
            decreases i,
        {
            i = i - 1;
            proof {
                assert(self.validators@.take(i + 1).last() == self.validators@[i as int]);
                assert(self.validators@.take(i + 1).drop_last() =~= self.validators@.take(
                    i as int,
                ));
            }
            if self.validators[i].address.eq_addr(validator) {
                return Some(i);
            }
        }
        assert(self.validators@.take(0) =~= Seq::<ValidatorRecord>::empty());
        None
    }

    /// Register a new validator: pending now, a candidate from the pipeline
    /// offset on. Refused for an address that is already a validator.
    #[verifier::rlimit(100)]
    #[verifier::spinoff_prover]
    pub fn init_validator(&mut self, address: Address, consensus_key: Vec<u8>) -> (r: Result<
        (),
        PosError,
    >)
        requires
            old(self).wf(),
            old(self).current_epoch + old(self).params.pipeline_len <= u64::MAX,
        ensures
            final(self).wf(),
            final(self).current_epoch == old(self).current_epoch,
            final(self).params == old(self).params,
            r is Ok <==> find_validator_in(old(self).validators@, address@) is None,
            r is Ok ==> {
                &&& find_validator_in(final(self).validators@, address@) matches Some(rec)
                &&& forall|a: AddressV|
                    a != address@ ==> find_validator_in(final(self).validators@, a)
                        == find_validator_in(old(self).validators@, a)
                &&& forall|q: u64| deltas_of(final(self).validators@, address@, q) == 0
            },
            r is Err ==> *final(self) == *old(self),
            final(self).bonds@ == old(self).bonds@,
            final(self).unbonds@ == old(self).unbonds@,
    {
        match self.find_validator(&address) {
            Some(_) => Err(PosError::UnknownValidator),
            None => {
                let current = self.current_epoch;
                let pipeline = current + self.params.pipeline_len;
                let mut state: Epoched<ValidatorState> = Epoched::empty();
                state.set(current, ValidatorState::Pending);
                state.set(pipeline, ValidatorState::Candidate);
                let mut key: Epoched<Vec<u8>> = Epoched::empty();
                key.set(pipeline, consensus_key);
                let rec = ValidatorRecord {
                    address,
                    state,
                    consensus_key: key,
                    total_deltas: EpochedDelta::empty(),
                    slashes: Vec::new(),
                };
                let ghost grec = rec;
                let ghost orig = self.validators@;
                self.validators.push(rec);
                proof {
                    assert(self.validators@ =~= orig.push(grec));
                    lemma_find_validator_push(orig, grec, grec.address@);
                    lemma_find_validator_none(orig, grec.address@);
                    assert forall|a: AddressV|
                        a != grec.address@ implies find_validator_in(self.validators@, a)
                        == find_validator_in(orig, a) by {
                        lemma_find_validator_push(orig, grec, a);
                    }
                    assert forall|i: int, j: int|
                        0 <= i < j < self.validators@.len() implies self.validators@[i].address@
                        != self.validators@[j].address@ by {
                        if j < orig.len() {
                            assert(self.validators@[i] == orig[i]);
                            assert(self.validators@[j] == orig[j]);
                        } else {
                            assert(self.validators@[i] == orig[i]);
                            assert(self.validators@[j] == grec);
                        }
                    }
                }
                Ok(())
            },
        }
    }
}

/// An unbond snapshot is well-formed when its slices are few and small.
pub open spec fn wf_unbond(s: Seq<UnbondEntry>) -> bool {
    s.len() <= 0x10_0000 && forall|i: int| 0 <= i < s.len() ==> #[trigger] s[i].amount <= MAX_DELTA
}

/// Updating one pair's payload in place changes only that pair's lookup.
proof fn lemma_find_pair_update<T>(
    s: Seq<((Address, Address), T)>,
    s2: Seq<((Address, Address), T)>,
    i: int,
    src: AddressV,
    val: AddressV,
)
    requires
        0 <= i < s.len(),
        s2 == s.update(i, s2[i]),
        s2.len() == s.len(),
        s2[i].0.0@ == s[i].0.0@,
        s2[i].0.1@ == s[i].0.1@,
        forall|p: int, q: int|
            0 <= p < q < s.len() ==> !(s[p].0.0@ == s[q].0.0@ && s[p].0.1@ == s[q].0.1@),
    ensures
        find_pair_in(s2, src, val) == if src == s[i].0.0@ && val == s[i].0.1@ {
            Some(s2[i].1)
        } else {
            find_pair_in(s, src, val)
        },
    decreases s.len(),
{
    if s.len() > 0 {
        if i == s.len() - 1 {
            assert(s2.last() == s2[i]);
            assert(s2.drop_last() =~= s.drop_last());
        } else {
            assert(s2.last() == s.last());
            assert(s2.drop_last() =~= s.drop_last().update(i, s2[i]));
            lemma_find_pair_update(s.drop_last(), s2.drop_last(), i, src, val);
        }
    }
}

/// A pair lookup that fails finds no entry at any index.
proof fn lemma_find_pair_none<T>(s: Seq<((Address, Address), T)>, src: AddressV, val: AddressV)
    requires
        find_pair_in(s, src, val) is None,
    ensures
        forall|i: int| 0 <= i < s.len() ==> !(s[i].0.0@ == src && s[i].0.1@ == val),
    decreases s.len(),
{
    if s.len() > 0 {
        lemma_find_pair_none(s.drop_last(), src, val);
        assert forall|i: int| 0 <= i < s.len() implies !(s[i].0.0@ == src && s[i].0.1@ == val) by {
            if i < s.len() - 1 {
                assert(s.drop_last()[i] == s[i]);
            }
        }
    }
}

/// A successful epoch lookup returns one of the recorded payloads.
proof fn lemma_lookup_le_in<T>(s: Seq<(u64, T)>, e: u64)
    ensures
        match lookup_le(s, e) {
            Some(v) => exists|j: int| 0 <= j < s.len() && s[j].1 == v,
            None => true,
        },
    decreases s.len(),
{
    if s.len() > 0 {
        if s.last().0 <= e {
            assert(s[s.len() - 1].1 == s.last().1);
        } else {
            lemma_lookup_le_in(s.drop_last(), e);
            if lookup_le(s.drop_last(), e) is Some {
                let j = choose|j: int|
                    0 <= j < s.drop_last().len() && s.drop_last()[j].1 == lookup_le(
                        s.drop_last(),
                        e,
                    ).unwrap();
                assert(s[j].1 == s.drop_last()[j].1);
            }
        }
    }
}

/// When a bond is accepted: the validator is known with room in its deltas,
/// the existing bond snapshot has room for one more slice dated at the
/// activation offset, the source can pay, and the proof-of-stake account
/// can receive.
pub open spec fn can_bond(
    validators: Seq<ValidatorRecord>,
    bonds: Seq<((Address, Address), Epoched<Bond>)>,
    accounts: Seq<((Address, Address), u64)>,
    current: u64,
    pipeline_len: u64,
    source: AddressV,
    validator: AddressV,
    amount: u64,
) -> bool {
    &&& match find_validator_in(validators, validator) {
        Some(rec) => rec.total_deltas.entries@.len() < 0x10_0000,
        None => false,
    }
    &&& match find_pair_in(bonds, source, validator) {
        Some(eb) => match lookup_le(eb.entries@, current) {
            Some(b) => b.entries@.len() < 0x10_0000 && (b.entries@.len() > 0
                ==> b.entries@.last().start <= current + pipeline_len),
            None => true,
        },
        None => true,
    }
    &&& amount <= balance_in(accounts, staking_token(), source)
    &&& balance_in(
        accounts,
        staking_token(),
        AddressV::Internal(crate::address::InternalAddress::PoS),
    ) + amount <= u64::MAX
}

/// When an unbond is accepted: the validator is known with room in its
/// deltas, a bond snapshot exists and holds the amount, and the unbond
/// snapshot has room for the consumed slices.
pub open spec fn can_unbond(
    validators: Seq<ValidatorRecord>,
    bonds: Seq<((Address, Address), Epoched<Bond>)>,
    unbonds: Seq<((Address, Address), Epoched<Unbond>)>,
    current: u64,
    source: AddressV,
    validator: AddressV,
    amount: u64,
) -> bool {
    &&& match find_validator_in(validators, validator) {
        Some(rec) => rec.total_deltas.entries@.len() < 0x10_0000,
        None => false,
    }
    &&& match find_pair_in(bonds, source, validator) {
        Some(eb) => match lookup_le(eb.entries@, current) {
            Some(b) => amount <= bond_sum(b.entries@) && unbonds_at(
                unbonds,
                source,
                validator,
                current,
            ).len() + b.entries@.len() <= 0x10_0000,
            None => false,
        },
        None => false,
    }
}

/// When a withdrawal is accepted: an unbond snapshot exists, its payout fits
/// a balance, the proof-of-stake account holds it, and the source can
/// receive it.
pub open spec fn can_withdraw(
    validators: Seq<ValidatorRecord>,
    unbonds: Seq<((Address, Address), Epoched<Unbond>)>,
    accounts: Seq<((Address, Address), u64)>,
    current: u64,
    source: AddressV,
    validator: AddressV,
) -> bool {
    let pos_acct = AddressV::Internal(crate::address::InternalAddress::PoS);
    let payout = withdrawable_sum(
        unbonds_at(unbonds, source, validator, current),
        slashes_of(validators, validator),
        current,
    );
    &&& match find_pair_in(unbonds, source, validator) {
        Some(eu) => lookup_le(eu.entries@, current) is Some,
        None => false,
    }
    &&& payout <= u64::MAX
    &&& payout <= balance_in(accounts, staking_token(), pos_acct)
    &&& (pos_acct != source ==> balance_in(accounts, staking_token(), source) + payout
        <= u64::MAX)
}

impl PosState {
    /// The index of the bonds recorded for a (source, validator) pair.
    fn find_bonds(&self, source: &Address, validator: &Address) -> (r: Option<usize>)
        ensures
            match r {
                Some(i) => i < self.bonds@.len() && self.bonds@[i as int].0.0@ == source@
                    && self.bonds@[i as int].0.1@ == validator@ && find_pair_in(
                    self.bonds@,
                    source@,
                    validator@,
                ) == Some(self.bonds@[i as int].1),
                None => find_pair_in(self.bonds@, source@, validator@) is None,
            },
    {
        proof {
            assert(self.bonds@.take(self.bonds@.len() as int) =~= self.bonds@);
        }
        let mut i: usize = self.bonds.len();
        while i > 0
            invariant
                i <= self.bonds@.len(),
                find_pair_in(self.bonds@.take(i as int), source@, validator@) == find_pair_in(
                    self.bonds@,
                    source@,
                    validator@,
                ),
            decreases i,
        {
            i = i - 1;
            proof {
                assert(self.bonds@.take(i + 1).last() == self.bonds@[i as int]);
                assert(self.bonds@.take(i + 1).drop_last() =~= self.bonds@.take(i as int));
            }
            if self.bonds[i].0.0.eq_addr(source) && self.bonds[i].0.1.eq_addr(validator) {
                return Some(i);
            }
        }
        assert(self.bonds@.take(0) =~= Seq::<((Address, Address), Epoched<Bond>)>::empty());
        None
    }

    /// Delegate `amount` staking tokens from `source` to `validator`.
    ///
    /// On success the tokens move from the source's balance into the
    /// proof-of-stake account, and the bond contributes to the validator's
    /// total deltas exactly from `current_epoch + pipeline_len` onwards.
    /// The proof-of-stake account itself cannot delegate: its balance is the
    /// pool the bonds sit in, not a stake of its own.
    #[verifier::rlimit(100)]
    #[verifier::spinoff_prover]
    pub fn bond_tokens(
        &mut self,
        balances: &mut Balances,
        source: &Address,
        validator: &Address,
        amount: u64,
    ) -> (r: Result<(), PosError>)
        requires
            old(self).wf(),
            old(self).current_epoch + old(self).params.pipeline_len + 1 <= u64::MAX,
            amount <= MAX_DELTA,
            source@ != AddressV::Internal(crate::address::InternalAddress::PoS),
        ensures
            final(self).wf(),
            final(self).current_epoch == old(self).current_epoch,
            final(self).params == old(self).params,
            r is Err ==> *final(self) == *old(self) && *final(balances) == *old(balances),
            (r is Ok) == can_bond(
                old(self).validators@,
                old(self).bonds@,
                old(balances).accounts@,
                old(self).current_epoch,
                old(self).params.pipeline_len,
                source@,
                validator@,
                amount,
            ),
            r is Ok ==> {
                let activation = old(self).current_epoch + old(self).params.pipeline_len;
                &&& forall|q: u64|
                    deltas_of(final(self).validators@, validator@, q) == deltas_of(
                        old(self).validators@,
                        validator@,
                        q,
                    ) + if q >= activation {
                        amount as int
                    } else {
                        0
                    }
                &&& forall|a: AddressV|
                    a != validator@ ==> find_validator_in(final(self).validators@, a)
                        == find_validator_in(old(self).validators@, a)
                &&& balance_in(final(balances).accounts@, staking_token(), source@) == balance_in(
                    old(balances).accounts@,
                    staking_token(),
                    source@,
                ) - amount
                &&& balance_in(
                    final(balances).accounts@,
                    staking_token(),
                    AddressV::Internal(crate::address::InternalAddress::PoS),
                ) == balance_in(
                    old(balances).accounts@,
                    staking_token(),
                    AddressV::Internal(crate::address::InternalAddress::PoS),
                ) + amount
                &&& r is Ok ==> amount <= balance_in(
                    old(balances).accounts@,
                    staking_token(),
                    source@,
                )
                &&& bonds_at(final(self).bonds@, source@, validator@, old(self).current_epoch)
                    == bonds_at(
                    old(self).bonds@,
                    source@,
                    validator@,
                    old(self).current_epoch,
                ) + amount
            },
    {
        let current = self.current_epoch;
        let activation = current + self.params.pipeline_len;
        let vidx = match self.find_validator(validator) {
            None => {
                return Err(PosError::UnknownValidator);
            },
            Some(i) => i,
        };
        if self.validators[vidx].total_deltas.entries.len() >= 0x10_0000 {
            return Err(PosError::Overflow);
        }
        // Build the updated bond snapshot before touching any state.
        let bidx_opt = self.find_bonds(source, validator);
        let mut new_entries: Vec<BondEntry> = Vec::new();
        match bidx_opt {
            Some(bidx) => {
                match self.bonds[bidx].1.get(current) {
                    Some(b) => {
                        proof {
                            lemma_lookup_le_in(self.bonds@[bidx as int].1.entries@, current);
                            let j = choose|j: int|
                                0 <= j < self.bonds@[bidx as int].1.entries@.len()
                                    && self.bonds@[bidx as int].1.entries@[j].1 == *b;
                            assert(wf_bond(self.bonds@[bidx as int].1.entries@[j].1.entries@));
                            assert(wf_bond(b.entries@));
                        }
                        if b.entries.len() >= 0x10_0000 {
                            return Err(PosError::Overflow);
                        }
                        let mut k: usize = 0;
                        while k < b.entries.len()
                            invariant
                                k <= b.entries@.len(),
                                new_entries@ == b.entries@.take(k as int),
                            decreases b.entries@.len() - k,
                        {
                            new_entries.push(b.entries[k]);
                            k = k + 1;
                            assert(new_entries@ =~= b.entries@.take(k as int));
                        }
                        assert(new_entries@ =~= b.entries@);
                        let n = new_entries.len();
                        if n > 0 && new_entries[n - 1].start > activation {
                            return Err(PosError::Overflow);
                        }
                        assert(wf_bond(new_entries@));
                    },
                    None => {},
                }
            },
            None => {},
        }
        let ghost base_entries = new_entries@;
        assert(wf_bond(base_entries));
        assert(base_entries.len() < 0x10_0000);
        assert(base_entries.len() > 0 ==> base_entries.last().start <= activation);
        new_entries.push(BondEntry { start: activation, amount });
        proof {
            assert(new_entries@.drop_last() =~= base_entries);
            assert(wf_bond(new_entries@)) by {
                assert forall|i: int, j: int|
                    0 <= i < j < new_entries@.len() implies new_entries@[i].start
                    <= new_entries@[j].start by {
                    if j < new_entries@.len() - 1 {
                        assert(new_entries@[i] == base_entries[i]);
                        assert(new_entries@[j] == base_entries[j]);
                    } else {
                        assert(new_entries@[i] == base_entries[i]);
                        assert(base_entries[i].start <= base_entries.last().start);
                    }
                }
            }
        }
        let ghost snapshot_entries = new_entries@;
        // Move the tokens into the proof-of-stake account.
        let pos_acct = pos_address();
        let xan = crate::address::xan();
        if !balances.transfer(&xan, source, &pos_acct, amount) {
            return Err(PosError::InsufficientBalance);
        }
        // Extend the validator's total deltas from the activation epoch.
        let ghost old_validators = self.validators@;
        let mut rec = self.validators.remove(vidx);
        rec.total_deltas.add(activation, amount as i128);
        self.validators.insert(vidx, rec);
        proof {
            assert(self.validators@ =~= old_validators.update(
                vidx as int,
                self.validators@[vidx as int],
            ));
            lemma_find_validator_update(
                old_validators,
                self.validators@,
                vidx as int,
                validator@,
            );
            assert forall|a: AddressV|
                a != validator@ implies find_validator_in(self.validators@, a)
                == find_validator_in(old_validators, a) by {
                lemma_find_validator_update(old_validators, self.validators@, vidx as int, a);
            }
        }
        // Record the updated bond snapshot.
        let ghost old_bonds = self.bonds@;
        let ghost old_bond_total = bonds_at(old(self).bonds@, source@, validator@, current);
        match bidx_opt {
            Some(bidx) => {
                let mut pair = self.bonds.remove(bidx);
                proof {
                    assert(pair == old(self).bonds@[bidx as int]);
                    assert(wf_epochs(pair.1.entries@));
                }
                pair.1.set(current, Bond { entries: new_entries });
                self.bonds.insert(bidx, pair);
                proof {
                    assert(self.bonds@ =~= old(self).bonds@.update(
                        bidx as int,
                        self.bonds@[bidx as int],
                    ));
                    lemma_find_pair_update(
                        old(self).bonds@,
                        self.bonds@,
                        bidx as int,
                        source@,
                        validator@,
                    );
                }
            },
            None => {
                let mut fresh: Epoched<Bond> = Epoched::empty();
                fresh.set(current, Bond { entries: new_entries });
                self.bonds.push(((source.clone_addr(), validator.clone_addr()), fresh));
                proof {
                    assert(self.bonds@.drop_last() =~= old(self).bonds@);
                    assert(self.bonds@ =~= old(self).bonds@.push(self.bonds@.last()));
                    lemma_find_pair_push(
                        old(self).bonds@,
                        self.bonds@.last().0,
                        self.bonds@.last().1,
                        source@,
                        validator@,
                    );
                }
            },
        }
        proof {
            assert(bonds_at(self.bonds@, source@, validator@, current) == bond_sum(
                snapshot_entries,
            ));
            assert(bond_sum(snapshot_entries) == bond_sum(base_entries) + amount) by {
                assert(snapshot_entries.drop_last() =~= base_entries);
            }
            assert(old_bond_total == bond_sum(base_entries));
        }
        proof {
            assert forall|i: int|
                0 <= i < self.bonds@.len() implies wf_epochs(#[trigger] self.bonds@[i].1.entries@)
                && (self.bonds@[i].1.entries@.len() > 0 ==> self.bonds@[i].1.entries@.last().0
                <= self.current_epoch) && forall|j: int|
                0 <= j < self.bonds@[i].1.entries@.len() ==> wf_bond(
                    #[trigger] self.bonds@[i].1.entries@[j].1.entries@,
                ) by {
                if i < old(self).bonds@.len() && (bidx_opt is None || i != bidx_opt.unwrap() as int) {
                    assert(self.bonds@[i] == old(self).bonds@[i]);
                    assert(wf_epochs(self.bonds@[i].1.entries@));
                    assert forall|j: int|
                        0 <= j < self.bonds@[i].1.entries@.len() implies wf_bond(
                        #[trigger] self.bonds@[i].1.entries@[j].1.entries@,
                    ) by {
                        assert(wf_bond(old(self).bonds@[i].1.entries@[j].1.entries@));
                    }
                } else {
                    assert forall|j: int|
                        0 <= j < self.bonds@[i].1.entries@.len() implies wf_bond(
                        #[trigger] self.bonds@[i].1.entries@[j].1.entries@,
                    ) by {
                        if j == self.bonds@[i].1.entries@.len() - 1 {
                            assert(self.bonds@[i].1.entries@[j] == self.bonds@[i].1.entries@.last());
                            assert(self.bonds@[i].1.entries@[j].1.entries@ == snapshot_entries);
                        } else {
                            assert(self.bonds@[i].1.entries@[j] == old(self).bonds@[i].1.entries@[
                                j]);
                            assert(wf_bond(old(self).bonds@[i].1.entries@[j].1.entries@));
                        }
                    }
                }
            }
            assert forall|i: int, j: int|
                0 <= i < j < self.bonds@.len() implies !(self.bonds@[i].0.0@
                == self.bonds@[j].0.0@ && self.bonds@[i].0.1@ == self.bonds@[j].0.1@) by {
                if j < old(self).bonds@.len() {
                    assert(self.bonds@[i].0 == old(self).bonds@[i].0);
                    assert(self.bonds@[j].0 == old(self).bonds@[j].0);
                } else {
                    assert(self.bonds@[i].0 == old(self).bonds@[i].0);
                    lemma_find_pair_none(old(self).bonds@, source@, validator@);
                }
            }
        }
        Ok(())
    }
}

/// The sum of an unbond snapshot's slices.
pub open spec fn usum(s: Seq<UnbondEntry>) -> int
    decreases s.len(),
{
    if s.len() == 0 {
        0
    } else {
        usum(s.drop_last()) + s.last().amount as int
    }
}

/// The bonded total of a delegation at an epoch.
pub open spec fn bonds_at(
    bonds: Seq<((Address, Address), Epoched<Bond>)>,
    src: AddressV,
    val: AddressV,
    e: u64,
) -> int {
    match find_pair_in(bonds, src, val) {
        None => 0,
        Some(eb) => match lookup_le(eb.entries@, e) {
            None => 0,
            Some(b) => bond_sum(b.entries@),
        },
    }
}

/// The unbond slices of a delegation at an epoch.
pub open spec fn unbonds_at(
    unbonds: Seq<((Address, Address), Epoched<Unbond>)>,
    src: AddressV,
    val: AddressV,
    e: u64,
) -> Seq<UnbondEntry> {
    match find_pair_in(unbonds, src, val) {
        None => Seq::empty(),
        Some(eu) => match lookup_le(eu.entries@, e) {
            None => Seq::empty(),
            Some(u) => u.entries@,
        },
    }
}

/// What the withdrawable slices of an unbond pay out at epoch `e`: for each
/// slice whose withdraw epoch has passed, the slashed remainder of its
/// amount, where only slashes inside the slice's activity window count.
pub open spec fn withdrawable_sum(s: Seq<UnbondEntry>, slashes: Seq<Slash>, e: u64) -> int
    decreases s.len(),
{
    if s.len() == 0 {
        0
    } else {
        withdrawable_sum(s.drop_last(), slashes, e) + if s.last().withdraw <= e {
            slashed_delta(slashes, s.last().amount, s.last().start, Some(s.last().withdraw)) as int
        } else {
            0
        }
    }
}

/// The amount one unbond slice pays out: the original amount minus the
/// deductions of the slashes whose epoch falls in the slice's activity
/// window, clamped at zero. A slice unbonded at epoch `e` from a bond active
/// since `a` carries the window from `a` to `e + unbonding_len`.
pub proof fn lemma_withdraw_amount(
    slashes: Seq<Slash>,
    original: u64,
    active_since: u64,
    unbond_epoch: u64,
    unbonding_len: u64,
)
    requires
        unbond_epoch + unbonding_len <= u64::MAX,
    ensures
        ({
            let w = (unbond_epoch + unbonding_len) as u64;
            let entry = UnbondEntry { start: active_since, withdraw: w, amount: original };
            &&& withdrawable_sum(seq![entry], slashes, w) == slashed_delta(
                slashes,
                original,
                active_since,
                Some(w),
            )
            &&& slashed_delta(slashes, original, active_since, Some(w)) == if slash_total(
                slashes,
                original,
                active_since,
                Some(w),
            ) >= original {
                0
            } else {
                original - slash_total(slashes, original, active_since, Some(w))
            }
        }),
{
    let w = (unbond_epoch + unbonding_len) as u64;
    let entry = UnbondEntry { start: active_since, withdraw: w, amount: original };
    assert(seq![entry].drop_last() =~= Seq::<UnbondEntry>::empty());
    assert(seq![entry].last() == entry);
    lemma_slash_total_nonneg(slashes, original, active_since, Some(w));
    assert(withdrawable_sum(Seq::<UnbondEntry>::empty(), slashes, w) == 0);
    assert(withdrawable_sum(seq![entry], slashes, w) == slashed_delta(
        slashes,
        original,
        active_since,
        Some(w),
    ));
    assert(slashed_delta(slashes, original, active_since, Some(w)) == if slash_total(
        slashes,
        original,
        active_since,
        Some(w),
    ) >= original {
        0
    } else {
        original - slash_total(slashes, original, active_since, Some(w))
    });
}

impl PosState {
    /// The index of the unbonds recorded for a (source, validator) pair.
    fn find_unbonds(&self, source: &Address, validator: &Address) -> (r: Option<usize>)
        ensures
            match r {
                Some(i) => i < self.unbonds@.len() && self.unbonds@[i as int].0.0@ == source@
                    && self.unbonds@[i as int].0.1@ == validator@ && find_pair_in(
                    self.unbonds@,
                    source@,
                    validator@,
                ) == Some(self.unbonds@[i as int].1),
                None => find_pair_in(self.unbonds@, source@, validator@) is None,
            },
    {
        proof {
            assert(self.unbonds@.take(self.unbonds@.len() as int) =~= self.unbonds@);
        }
        let mut i: usize = self.unbonds.len();
        while i > 0
            invariant
                i <= self.unbonds@.len(),
                find_pair_in(self.unbonds@.take(i as int), source@, validator@) == find_pair_in(
                    self.unbonds@,
                    source@,
                    validator@,
                ),
            decreases i,
        {
            i = i - 1;
            proof {
                assert(self.unbonds@.take(i + 1).last() == self.unbonds@[i as int]);
                assert(self.unbonds@.take(i + 1).drop_last() =~= self.unbonds@.take(i as int));
            }
            if self.unbonds[i].0.0.eq_addr(source) && self.unbonds[i].0.1.eq_addr(validator) {
                return Some(i);
            }
        }
        assert(self.unbonds@.take(0) =~= Seq::<((Address, Address), Epoched<Unbond>)>::empty());
        None
    }

    /// Move `amount` from a delegation's bond into its unbond. The stake
    /// stops counting towards the validator's total deltas from the next
    /// epoch, and becomes withdrawable `unbonding_len` epochs from now.
    #[verifier::rlimit(100)]
    #[verifier::spinoff_prover]
    pub fn unbond_tokens(&mut self, source: &Address, validator: &Address, amount: u64) -> (r:
        Result<(), PosError>)
        requires
            old(self).wf(),
            old(self).current_epoch + old(self).params.unbonding_len + 1 <= u64::MAX,
            amount <= MAX_DELTA,
        ensures
            final(self).wf(),
            final(self).current_epoch == old(self).current_epoch,
            final(self).params == old(self).params,
            r is Err ==> *final(self) == *old(self),
            (r is Ok) == can_unbond(
                old(self).validators@,
                old(self).bonds@,
                old(self).unbonds@,
                old(self).current_epoch,
                source@,
                validator@,
                amount,
            ),
            r is Ok ==> amount <= bonds_at(
                old(self).bonds@,
                source@,
                validator@,
                old(self).current_epoch,
            ),
            r is Ok ==> {
                let current = old(self).current_epoch;
                let withdraw = old(self).current_epoch + old(self).params.unbonding_len;
                &&& forall|q: u64|
                    deltas_of(final(self).validators@, validator@, q) == deltas_of(
                        old(self).validators@,
                        validator@,
                        q,
                    ) - if q >= current + 1 {
                        amount as int
                    } else {
                        0
                    }
                &&& forall|a: AddressV|
                    a != validator@ ==> find_validator_in(final(self).validators@, a)
                        == find_validator_in(old(self).validators@, a)
                &&& bonds_at(final(self).bonds@, source@, validator@, current) == bonds_at(
                    old(self).bonds@,
                    source@,
                    validator@,
                    current,
                ) - amount
                &&& exists|suffix: Seq<UnbondEntry>|
                    unbonds_at(final(self).unbonds@, source@, validator@, current) == unbonds_at(
                        old(self).unbonds@,
                        source@,
                        validator@,
                        current,
                    ) + suffix && usum(suffix) == amount && forall|k: int|
                        0 <= k < suffix.len() ==> (#[trigger] suffix[k]).withdraw == withdraw
                &&& slashes_of(final(self).validators@, validator@) == slashes_of(
                    old(self).validators@,
                    validator@,
                )
            },
    {
        let current = self.current_epoch;
        let withdraw = current + self.params.unbonding_len;
        let vidx = match self.find_validator(validator) {
            None => {
                return Err(PosError::UnknownValidator);
            },
            Some(i) => i,
        };
        if self.validators[vidx].total_deltas.entries.len() >= 0x10_0000 {
            return Err(PosError::Overflow);
        }
        let bidx = match self.find_bonds(source, validator) {
            None => {
                return Err(PosError::InsufficientBonded);
            },
            Some(i) => i,
        };
        let entries: Vec<BondEntry> = match self.bonds[bidx].1.get(current) {
            None => {
                return Err(PosError::InsufficientBonded);
            },
            Some(b) => {
                proof {
                    lemma_lookup_le_in(self.bonds@[bidx as int].1.entries@, current);
                    let j = choose|j: int|
                        0 <= j < self.bonds@[bidx as int].1.entries@.len()
                            && self.bonds@[bidx as int].1.entries@[j].1 == *b;
                    assert(wf_bond(self.bonds@[bidx as int].1.entries@[j].1.entries@));
                    assert(wf_bond(b.entries@));
                }
                let mut c: Vec<BondEntry> = Vec::new();
                let mut k: usize = 0;
                while k < b.entries.len()
                    invariant
                        k <= b.entries@.len(),
                        c@ == b.entries@.take(k as int),
                    decreases b.entries@.len() - k,
                {
                    c.push(b.entries[k]);
                    k = k + 1;
                    assert(c@ =~= b.entries@.take(k as int));
                }
                assert(c@ =~= b.entries@);
                c
            },
        };
        let ghost old_entries = entries@;
        assert(wf_bond(old_entries));
        assert(bond_sum(old_entries) == bonds_at(self.bonds@, source@, validator@, current));
        // Consume the oldest slices first, splitting the last one touched.
        let mut new_bond: Vec<BondEntry> = Vec::new();
        let mut consumed: Vec<UnbondEntry> = Vec::new();
        let mut remaining: u64 = amount;
        let mut k: usize = 0;
        proof {
            assert(old_entries.take(0) =~= Seq::<BondEntry>::empty());
        }
        while k < entries.len()
            invariant
                k <= old_entries.len(),
                entries@ == old_entries,
                wf_bond(old_entries),
                remaining <= amount,
                amount <= MAX_DELTA,
                bond_sum(new_bond@) + usum(consumed@) == bond_sum(old_entries.take(k as int)),
                usum(consumed@) == amount - remaining,
                remaining > 0 ==> bond_sum(new_bond@) == 0,
                wf_bond(new_bond@),
                new_bond@.len() <= k,
                consumed@.len() <= k,
                forall|i: int|
                    0 <= i < consumed@.len() ==> (#[trigger] consumed@[i]).withdraw == withdraw
                        && consumed@[i].amount <= MAX_DELTA,
                forall|i: int, j: int|
                    0 <= i < new_bond@.len() && k <= j < old_entries.len() ==> new_bond@[i].start
                        <= old_entries[j].start,
            decreases entries@.len() - k,
        {
            let entry = entries[k];
            proof {
                assert(old_entries.take(k + 1).last() == old_entries[k as int]);
                assert(old_entries.take(k + 1).drop_last() =~= old_entries.take(k as int));
                assert(entry.amount <= MAX_DELTA);
            }
            let ghost prev_bond = new_bond@;
            let ghost prev_consumed = consumed@;
            if remaining == 0 {
                new_bond.push(entry);
                proof {
                    assert(new_bond@.drop_last() =~= prev_bond);
                }
            } else {
                let take = if entry.amount < remaining {
                    entry.amount
                } else {
                    remaining
                };
                if take < entry.amount {
                    new_bond.push(BondEntry { start: entry.start, amount: entry.amount - take });
                    proof {
                        assert(new_bond@.drop_last() =~= prev_bond);
                    }
                }
                consumed.push(UnbondEntry { start: entry.start, withdraw, amount: take });
                proof {
                    assert(consumed@.drop_last() =~= prev_consumed);
                }
                remaining = remaining - take;
            }
            k = k + 1;
        }
        proof {
            assert(old_entries.take(old_entries.len() as int) =~= old_entries);
        }
        if remaining > 0 {
            proof {
                assert(usum(consumed@) >= 0) by {
                    lemma_usum_nonneg(consumed@);
                }
                assert(bond_sum(new_bond@) >= 0) by {
                    lemma_bond_sum_nonneg(new_bond@);
                }
            }
            return Err(PosError::InsufficientBonded);
        }
        proof {
            lemma_bond_sum_nonneg(new_bond@);
            lemma_usum_nonneg(consumed@);
        }
        // The updated unbond snapshot: the old slices plus the consumed ones.
        let uidx_opt = self.find_unbonds(source, validator);
        let mut new_unbond: Vec<UnbondEntry> = Vec::new();
        match uidx_opt {
            Some(uidx) => {
                match self.unbonds[uidx].1.get(current) {
                    Some(u) => {
                        proof {
                            lemma_lookup_le_in(self.unbonds@[uidx as int].1.entries@, current);
                            let j = choose|j: int|
                                0 <= j < self.unbonds@[uidx as int].1.entries@.len()
                                    && self.unbonds@[uidx as int].1.entries@[j].1 == *u;
                            assert(wf_unbond(self.unbonds@[uidx as int].1.entries@[j].1.entries@));
                            assert(wf_unbond(u.entries@));
                        }
                        let mut m: usize = 0;
                        while m < u.entries.len()
                            invariant
                                m <= u.entries@.len(),
                                new_unbond@ == u.entries@.take(m as int),
                            decreases u.entries@.len() - m,
                        {
                            new_unbond.push(u.entries[m]);
                            m = m + 1;
                            assert(new_unbond@ =~= u.entries@.take(m as int));
                        }
                        assert(new_unbond@ =~= u.entries@);
                    },
                    None => {},
                }
            },
            None => {},
        }
        let ghost old_unbond_entries = new_unbond@;
        assert(old_unbond_entries == unbonds_at(self.unbonds@, source@, validator@, current));
        assert(wf_unbond(old_unbond_entries));
        if new_unbond.len() > 0x10_0000 || entries.len() > 0x10_0000 - new_unbond.len() {
            return Err(PosError::Overflow);
        }
        let mut m: usize = 0;
        while m < consumed.len()
            invariant
                m <= consumed@.len(),
                new_unbond@ == old_unbond_entries + consumed@.take(m as int),
            decreases consumed@.len() - m,
        {
            new_unbond.push(consumed[m]);
            m = m + 1;
            assert(new_unbond@ =~= old_unbond_entries + consumed@.take(m as int));
        }
        proof {
            assert(consumed@.take(consumed@.len() as int) =~= consumed@);
        }
        // Commit: deltas shrink from the next epoch; snapshots are updated.
        let ghost old_validators = self.validators@;
        let mut rec = self.validators.remove(vidx);
        rec.total_deltas.add(current + 1, -(amount as i128));
        self.validators.insert(vidx, rec);
        proof {
            assert(self.validators@ =~= old_validators.update(
                vidx as int,
                self.validators@[vidx as int],
            ));
            lemma_find_validator_update(old_validators, self.validators@, vidx as int, validator@);
            assert forall|a: AddressV|
                a != validator@ implies find_validator_in(self.validators@, a)
                == find_validator_in(old_validators, a) by {
                lemma_find_validator_update(old_validators, self.validators@, vidx as int, a);
            }
        }
        let ghost new_bond_entries = new_bond@;
        let mut bpair = self.bonds.remove(bidx);
        bpair.1.set(current, Bond { entries: new_bond });
        self.bonds.insert(bidx, bpair);
        proof {
            assert(self.bonds@ =~= old(self).bonds@.update(bidx as int, self.bonds@[bidx as int]));
            lemma_find_pair_update(
                old(self).bonds@,
                self.bonds@,
                bidx as int,
                source@,
                validator@,
            );
        }
        let ghost new_unbond_entries = new_unbond@;
        match uidx_opt {
            Some(uidx) => {
                let mut upair = self.unbonds.remove(uidx);
                upair.1.set(current, Unbond { entries: new_unbond });
                self.unbonds.insert(uidx, upair);
                proof {
                    assert(self.unbonds@ =~= old(self).unbonds@.update(
                        uidx as int,
                        self.unbonds@[uidx as int],
                    ));
                    lemma_find_pair_update(
                        old(self).unbonds@,
                        self.unbonds@,
                        uidx as int,
                        source@,
                        validator@,
                    );
                }
            },
            None => {
                let mut fresh: Epoched<Unbond> = Epoched::empty();
                fresh.set(current, Unbond { entries: new_unbond });
                self.unbonds.push(((source.clone_addr(), validator.clone_addr()), fresh));
                proof {
                    assert(self.unbonds@.drop_last() =~= old(self).unbonds@);
                    assert(self.unbonds@ =~= old(self).unbonds@.push(self.unbonds@.last()));
                    lemma_find_pair_push(
                        old(self).unbonds@,
                        self.unbonds@.last().0,
                        self.unbonds@.last().1,
                        source@,
                        validator@,
                    );
                }
            },
        }
        proof {
            assert(unbonds_at(self.unbonds@, source@, validator@, current) == old_unbond_entries
                + consumed@);
            assert(bonds_at(self.bonds@, source@, validator@, current) == bond_sum(
                new_bond_entries,
            ));
            assert forall|i: int|
                0 <= i < self.bonds@.len() implies wf_epochs(#[trigger] self.bonds@[i].1.entries@)
                && (self.bonds@[i].1.entries@.len() > 0 ==> self.bonds@[i].1.entries@.last().0
                <= self.current_epoch) && forall|j: int|
                0 <= j < self.bonds@[i].1.entries@.len() ==> wf_bond(
                    #[trigger] self.bonds@[i].1.entries@[j].1.entries@,
                ) by {
                if i != bidx as int {
                    assert(self.bonds@[i] == old(self).bonds@[i]);
                    assert forall|j: int|
                        0 <= j < self.bonds@[i].1.entries@.len() implies wf_bond(
                        #[trigger] self.bonds@[i].1.entries@[j].1.entries@,
                    ) by {
                        assert(wf_bond(old(self).bonds@[i].1.entries@[j].1.entries@));
                    }
                } else {
                    assert forall|j: int|
                        0 <= j < self.bonds@[i].1.entries@.len() implies wf_bond(
                        #[trigger] self.bonds@[i].1.entries@[j].1.entries@,
                    ) by {
                        if j == self.bonds@[i].1.entries@.len() - 1 {
                            assert(self.bonds@[i].1.entries@[j].1.entries@ == new_bond_entries);
                        } else {
                            assert(self.bonds@[i].1.entries@[j] == old(self).bonds@[i].1.entries@[
                                j]);
                            assert(wf_bond(old(self).bonds@[i].1.entries@[j].1.entries@));
                        }
                    }
                }
            }
            assert forall|i: int|
                0 <= i < self.unbonds@.len() implies wf_epochs(
                #[trigger] self.unbonds@[i].1.entries@,
            ) && (self.unbonds@[i].1.entries@.len() > 0 ==> self.unbonds@[i].1.entries@.last().0
                <= self.current_epoch) && forall|j: int|
                0 <= j < self.unbonds@[i].1.entries@.len() ==> wf_unbond(
                    #[trigger] self.unbonds@[i].1.entries@[j].1.entries@,
                ) by {
                if i < old(self).unbonds@.len() && (uidx_opt is None || i != uidx_opt.unwrap() as int) {
                    assert(self.unbonds@[i] == old(self).unbonds@[i]);
                    assert forall|j: int|
                        0 <= j < self.unbonds@[i].1.entries@.len() implies wf_unbond(
                        #[trigger] self.unbonds@[i].1.entries@[j].1.entries@,
                    ) by {
                        assert(wf_unbond(old(self).unbonds@[i].1.entries@[j].1.entries@));
                    }
                } else {
                    assert forall|j: int|
                        0 <= j < self.unbonds@[i].1.entries@.len() implies wf_unbond(
                        #[trigger] self.unbonds@[i].1.entries@[j].1.entries@,
                    ) by {
                        if j == self.unbonds@[i].1.entries@.len() - 1 {
                            assert(self.unbonds@[i].1.entries@[j].1.entries@ == new_unbond_entries);
                            assert(wf_unbond(new_unbond_entries)) by {
                                assert forall|p: int|
                                    0 <= p < new_unbond_entries.len() implies (
                                #[trigger] new_unbond_entries[p]).amount <= MAX_DELTA by {
                                    if p < old_unbond_entries.len() {
                                        assert(new_unbond_entries[p] == old_unbond_entries[p]);
                                    } else {
                                        assert(new_unbond_entries[p] == consumed@[p
                                            - old_unbond_entries.len()]);
                                    }
                                }
                            }
                        } else {
                            assert(self.unbonds@[i].1.entries@[j] == old(
                                self,
                            ).unbonds@[i].1.entries@[j]);
                            assert(wf_unbond(old(self).unbonds@[i].1.entries@[j].1.entries@));
                        }
                    }
                }
            }
            assert forall|i: int, j: int|
                0 <= i < j < self.unbonds@.len() implies !(self.unbonds@[i].0.0@
                == self.unbonds@[j].0.0@ && self.unbonds@[i].0.1@ == self.unbonds@[j].0.1@) by {
                if j < old(self).unbonds@.len() {
                    assert(self.unbonds@[i].0 == old(self).unbonds@[i].0);
                    assert(self.unbonds@[j].0 == old(self).unbonds@[j].0);
                } else {
                    assert(self.unbonds@[i].0 == old(self).unbonds@[i].0);
                    lemma_find_pair_none(old(self).unbonds@, source@, validator@);
                }
            }
            assert(exists|suffix: Seq<UnbondEntry>|
                unbonds_at(self.unbonds@, source@, validator@, current) == unbonds_at(
                    old(self).unbonds@,
                    source@,
                    validator@,
                    current,
                ) + suffix && usum(suffix) == amount && forall|k: int|
                    0 <= k < suffix.len() ==> (#[trigger] suffix[k]).withdraw == current + old(
                        self,
                    ).params.unbonding_len) by {
                assert(unbonds_at(self.unbonds@, source@, validator@, current) == unbonds_at(
                    old(self).unbonds@,
                    source@,
                    validator@,
                    current,
                ) + consumed@);
            }
        }
        Ok(())
    }
}

/// A bond snapshot's total is never negative.
pub proof fn lemma_bond_sum_nonneg(s: Seq<BondEntry>)
    ensures
        bond_sum(s) >= 0,
    decreases s.len(),
{
    if s.len() > 0 {
        lemma_bond_sum_nonneg(s.drop_last());
    }
}

/// An unbond snapshot's total is never negative.
pub proof fn lemma_usum_nonneg(s: Seq<UnbondEntry>)
    ensures
        usum(s) >= 0,
    decreases s.len(),
{
    if s.len() > 0 {
        lemma_usum_nonneg(s.drop_last());
    }
}

impl PosState {
    /// Withdraw every unbond slice of a delegation whose withdraw epoch has
    /// passed — a slice unbonded at epoch E is withdrawable from
    /// `E + unbonding_len` on, inclusively. The slashed remainders move from
    /// the proof-of-stake account back to the source; the slices leave the
    /// unbond.
    #[verifier::rlimit(100)]
    #[verifier::spinoff_prover]
    pub fn withdraw_tokens(&mut self, balances: &mut Balances, source: &Address, validator: &Address) -> (r: Result<u64, PosError>)
        requires
            old(self).wf(),
        ensures
            final(self).wf(),
            final(self).current_epoch == old(self).current_epoch,
            final(self).params == old(self).params,
            final(self).validators@ == old(self).validators@,
            final(self).bonds@ == old(self).bonds@,
            r is Err ==> *final(self) == *old(self) && *final(balances) == *old(balances),
            (r is Ok) == can_withdraw(
                old(self).validators@,
                old(self).unbonds@,
                old(balances).accounts@,
                old(self).current_epoch,
                source@,
                validator@,
            ),
            r matches Ok(total) ==> {
                let current = old(self).current_epoch;
                let slashes = slashes_of(old(self).validators@, validator@);
                &&& total == withdrawable_sum(
                    unbonds_at(old(self).unbonds@, source@, validator@, current),
                    slashes,
                    current,
                )
                &&& source@ != AddressV::Internal(crate::address::InternalAddress::PoS)
                    ==> balance_in(final(balances).accounts@, staking_token(), source@)
                    == balance_in(old(balances).accounts@, staking_token(), source@)
                    + total && balance_in(
                    final(balances).accounts@,
                    staking_token(),
                    AddressV::Internal(crate::address::InternalAddress::PoS),
                ) == balance_in(
                    old(balances).accounts@,
                    staking_token(),
                    AddressV::Internal(crate::address::InternalAddress::PoS),
                ) - total
                &&& forall|k: int|
                    0 <= k < unbonds_at(
                        final(self).unbonds@,
                        source@,
                        validator@,
                        current,
                    ).len() ==> (#[trigger] unbonds_at(
                        final(self).unbonds@,
                        source@,
                        validator@,
                        current,
                    )[k]).withdraw > current
            },
    {
        let current = self.current_epoch;
        let uidx = match self.find_unbonds(source, validator) {
            None => {
                return Err(PosError::NothingToWithdraw);
            },
            Some(i) => i,
        };
        let slashes: Vec<Slash> = match self.find_validator(validator) {
            None => Vec::new(),
            Some(vi) => {
                let mut c: Vec<Slash> = Vec::new();
                let mut k: usize = 0;
                let v = &self.validators[vi];
                while k < v.slashes.len()
                    invariant
                        k <= v.slashes@.len(),
                        c@ == v.slashes@.take(k as int),
                    decreases v.slashes@.len() - k,
                {
                    c.push(v.slashes[k]);
                    k = k + 1;
                    assert(c@ =~= v.slashes@.take(k as int));
                }
                assert(c@ =~= v.slashes@);
                c
            },
        };
        assert(slashes@ == slashes_of(self.validators@, validator@));
        let entries: Vec<UnbondEntry> = match self.unbonds[uidx].1.get(current) {
            None => {
                assert(withdrawable_sum(
                    unbonds_at(self.unbonds@, source@, validator@, current),
                    slashes@,
                    current,
                ) == 0);
                return Err(PosError::NothingToWithdraw);
            },
            Some(u) => {
                proof {
                    lemma_lookup_le_in(self.unbonds@[uidx as int].1.entries@, current);
                    let j = choose|j: int|
                        0 <= j < self.unbonds@[uidx as int].1.entries@.len()
                            && self.unbonds@[uidx as int].1.entries@[j].1 == *u;
                    assert(wf_unbond(self.unbonds@[uidx as int].1.entries@[j].1.entries@));
                    assert(wf_unbond(u.entries@));
                }
                let mut c: Vec<UnbondEntry> = Vec::new();
                let mut k: usize = 0;
                while k < u.entries.len()
                    invariant
                        k <= u.entries@.len(),
                        c@ == u.entries@.take(k as int),
                    decreases u.entries@.len() - k,
                {
                    c.push(u.entries[k]);
                    k = k + 1;
                    assert(c@ =~= u.entries@.take(k as int));
                }
                assert(c@ =~= u.entries@);
                c
            },
        };
        let ghost old_entries = entries@;
        assert(wf_unbond(old_entries));
        assert(old_entries == unbonds_at(self.unbonds@, source@, validator@, current));
        // Split the slices into the withdrawable and the still pending.
        let mut kept: Vec<UnbondEntry> = Vec::new();
        let mut total_wide: u128 = 0;
        let mut k: usize = 0;
        proof {
            assert(old_entries.take(0) =~= Seq::<UnbondEntry>::empty());
        }
        while k < entries.len()
            invariant
                k <= old_entries.len(),
                entries@ == old_entries,
                wf_unbond(old_entries),
                total_wide == withdrawable_sum(old_entries.take(k as int), slashes@, current),
                total_wide <= (k as int) * (MAX_DELTA as int),
                kept@.len() <= k,
                wf_unbond(kept@),
                forall|i: int| 0 <= i < kept@.len() ==> (#[trigger] kept@[i]).withdraw > current,
            decreases entries@.len() - k,
        {
            let entry = entries[k];
            proof {
                assert(old_entries.take(k + 1).last() == old_entries[k as int]);
                assert(old_entries.take(k + 1).drop_last() =~= old_entries.take(k as int));
                assert(entry.amount <= MAX_DELTA);
                assert((k as int) * (MAX_DELTA as int) + (MAX_DELTA as int) == (k + 1) * (
                MAX_DELTA as int)) by (nonlinear_arith);
                assert((k + 1) * (MAX_DELTA as int) <= 0x10_0000 * (MAX_DELTA as int))
                    by (nonlinear_arith)
                    requires 0 <= k + 1 <= 0x10_0000;
            }
            if entry.withdraw <= current {
                let pay = apply_slashes(&slashes, entry.amount, entry.start, Some(entry.withdraw));
                proof {
                    lemma_slash_total_nonneg(
                        slashes@,
                        entry.amount,
                        entry.start,
                        Some(entry.withdraw),
                    );
                    assert(pay <= entry.amount);
                }
                total_wide = total_wide + pay as u128;
            } else {
                let ghost prev = kept@;
                kept.push(entry);
                proof {
                    assert(kept@.drop_last() =~= prev);
                }
            }
            k = k + 1;
        }
        proof {
            assert(old_entries.take(old_entries.len() as int) =~= old_entries);
        }
        if total_wide > u64::MAX as u128 {
            return Err(PosError::Overflow);
        }
        let total: u64 = total_wide as u64;
        // Move the withdrawable amount out of the proof-of-stake account.
        let pos_acct = pos_address();
        let xan = crate::address::xan();
        if !balances.transfer(&xan, &pos_acct, source, total) {
            return Err(PosError::InsufficientBalance);
        }
        let ghost kept_entries = kept@;
        let mut upair = self.unbonds.remove(uidx);
        upair.1.set(current, Unbond { entries: kept });
        self.unbonds.insert(uidx, upair);
        proof {
            assert(self.unbonds@ =~= old(self).unbonds@.update(
                uidx as int,
                self.unbonds@[uidx as int],
            ));
            lemma_find_pair_update(
                old(self).unbonds@,
                self.unbonds@,
                uidx as int,
                source@,
                validator@,
            );
            assert(unbonds_at(self.unbonds@, source@, validator@, current) == kept_entries);
            assert forall|i: int|
                0 <= i < self.unbonds@.len() implies wf_epochs(
                #[trigger] self.unbonds@[i].1.entries@,
            ) && (self.unbonds@[i].1.entries@.len() > 0 ==> self.unbonds@[i].1.entries@.last().0
                <= self.current_epoch) && forall|j: int|
                0 <= j < self.unbonds@[i].1.entries@.len() ==> wf_unbond(
                    #[trigger] self.unbonds@[i].1.entries@[j].1.entries@,
                ) by {
                if i != uidx as int {
                    assert(self.unbonds@[i] == old(self).unbonds@[i]);
                    assert forall|j: int|
                        0 <= j < self.unbonds@[i].1.entries@.len() implies wf_unbond(
                        #[trigger] self.unbonds@[i].1.entries@[j].1.entries@,
                    ) by {
                        assert(wf_unbond(old(self).unbonds@[i].1.entries@[j].1.entries@));
                    }
                } else {
                    assert forall|j: int|
                        0 <= j < self.unbonds@[i].1.entries@.len() implies wf_unbond(
                        #[trigger] self.unbonds@[i].1.entries@[j].1.entries@,
                    ) by {
                        if j == self.unbonds@[i].1.entries@.len() - 1 {
                            assert(self.unbonds@[i].1.entries@[j].1.entries@ == kept_entries);
                        } else {
                            assert(self.unbonds@[i].1.entries@[j] == old(
                                self,
                            ).unbonds@[i].1.entries@[j]);
                            assert(wf_unbond(old(self).unbonds@[i].1.entries@[j].1.entries@));
                        }
                    }
                }
            }
            assert forall|i: int, j: int|
                0 <= i < j < self.unbonds@.len() implies !(self.unbonds@[i].0.0@
                == self.unbonds@[j].0.0@ && self.unbonds@[i].0.1@ == self.unbonds@[j].0.1@) by {
                assert(self.unbonds@[i].0 == old(self).unbonds@[i].0);
                assert(self.unbonds@[j].0 == old(self).unbonds@[j].0);
            }
        }
        Ok(total)
    }

    /// Record an infraction against a validator; the deduction rate follows
    /// the infraction kind.
    pub fn record_slash(&mut self, validator: &Address, epoch: u64, block_height: u64, kind: SlashType) -> (r: Result<(), PosError>)
        requires
            old(self).wf(),
        ensures
            final(self).wf(),
            final(self).current_epoch == old(self).current_epoch,
            final(self).params == old(self).params,
            final(self).bonds@ == old(self).bonds@,
            final(self).unbonds@ == old(self).unbonds@,
            r is Err ==> *final(self) == *old(self),
            r is Ok <==> find_validator_in(old(self).validators@, validator@) is Some,
            r is Ok ==> {
                let rate = if kind == SlashType::DuplicateVote {
                    old(self).params.duplicate_vote_slash_rate_bp
                } else {
                    old(self).params.light_client_attack_slash_rate_bp
                };
                &&& slashes_of(final(self).validators@, validator@) == slashes_of(
                    old(self).validators@,
                    validator@,
                ).push(Slash { epoch, block_height, rate_bp: rate, kind })
                &&& forall|a: AddressV|
                    a != validator@ ==> find_validator_in(final(self).validators@, a)
                        == find_validator_in(old(self).validators@, a)
                &&& forall|q: u64|
                    deltas_of(final(self).validators@, validator@, q) == deltas_of(
                        old(self).validators@,
                        validator@,
                        q,
                    )
            },
    {
        let vidx = match self.find_validator(validator) {
            None => {
                return Err(PosError::UnknownValidator);
            },
            Some(i) => i,
        };
        let rate = match kind {
            SlashType::DuplicateVote => self.params.duplicate_vote_slash_rate_bp,
            SlashType::LightClientAttack => self.params.light_client_attack_slash_rate_bp,
        };
        let ghost old_validators = self.validators@;
        let mut rec = self.validators.remove(vidx);
        let ghost old_slashes = rec.slashes@;
        rec.slashes.push(Slash { epoch, block_height, rate_bp: rate, kind });
        self.validators.insert(vidx, rec);
        proof {
            assert(self.validators@ =~= old_validators.update(
                vidx as int,
                self.validators@[vidx as int],
            ));
            lemma_find_validator_update(old_validators, self.validators@, vidx as int, validator@);
            assert forall|a: AddressV|
                a != validator@ implies find_validator_in(self.validators@, a)
                == find_validator_in(old_validators, a) by {
                lemma_find_validator_update(old_validators, self.validators@, vidx as int, a);
            }
            assert(self.validators@[vidx as int].slashes@.drop_last() =~= old_slashes);
            assert(wf_slashes(self.validators@[vidx as int].slashes@)) by {
                assert forall|i: int|
                    0 <= i < self.validators@[vidx as int].slashes@.len() implies self.validators@[
                    vidx as int].slashes@[i].rate_bp <= BP_WHOLE by {
                    if i < old_slashes.len() {
                        assert(self.validators@[vidx as int].slashes@[i] == old_slashes[i]);
                        lemma_find_validator_in_index(old(self).validators@, validator@);
                        assert(old_slashes == old(self).validators@[vidx as int].slashes@);
                        assert(wf_slashes(old_slashes));
                    }
                }
            }
            assert forall|i: int|
                0 <= i < self.validators@.len() implies wf_deltas(
                #[trigger] self.validators@[i].total_deltas.entries@,
            ) && wf_epochs(self.validators@[i].state.entries@) && wf_epochs(
                self.validators@[i].consensus_key.entries@,
            ) && wf_slashes(self.validators@[i].slashes@) by {
                if i != vidx as int {
                    assert(self.validators@[i] == old_validators[i]);
                    assert(old_validators[i] == old(self).validators@[i]);
                    assert(wf_deltas(old(self).validators@[i].total_deltas.entries@));
                } else {
                    assert(self.validators@[i].total_deltas == old(self).validators@[
                        i].total_deltas);
                    assert(self.validators@[i].state == old(self).validators@[i].state);
                    assert(self.validators@[i].consensus_key == old(self).validators@[
                        i].consensus_key);
                    assert(wf_deltas(old(self).validators@[i].total_deltas.entries@));
                }
            }
        }
        Ok(())
    }

    /// The validator's total deltas at an epoch: bond contributions minus
    /// unbond removals.
    pub fn total_deltas_at(&self, validator: &Address, epoch: u64) -> (r: i128)
        requires
            self.wf(),
        ensures
            r == deltas_of(self.validators@, validator@, epoch),
    {
        match self.find_validator(validator) {
            None => 0,
            Some(i) => self.validators[i].total_deltas.get_sum(epoch),
        }
    }

    /// The validator's voting power at an epoch: the stake, clamped at zero
    /// from below, times the votes-per-token ratio, rounded down.
    pub fn voting_power_at(&self, validator: &Address, epoch: u64) -> (r: u64)
        requires
            self.wf(),
            voting_power_of(
                deltas_of(self.validators@, validator@, epoch),
                self.params.votes_per_token_bp,
            ) <= u64::MAX,
        ensures
            r == voting_power_of(
                deltas_of(self.validators@, validator@, epoch),
                self.params.votes_per_token_bp,
            ),
    {
        let deltas = self.total_deltas_at(validator, epoch);
        proof {
            match find_validator_in(self.validators@, validator@) {
                Some(rec) => {
                    lemma_find_validator_in_index(self.validators@, validator@);
                    lemma_sum_le_bound(rec.total_deltas.entries@, epoch);
                    assert((rec.total_deltas.entries@.len() as int) * (MAX_DELTA as int)
                        <= 0x4_0000_0000_0000_0000_0000) by (nonlinear_arith)
                        requires rec.total_deltas.entries@.len() <= 0x10_0000;
                },
                None => {},
            }
        }
        compute_voting_power(deltas, self.params.votes_per_token_bp)
    }

    /// Move to the next epoch.
    pub fn advance_epoch(&mut self)
        requires
            old(self).wf(),
            old(self).current_epoch < u64::MAX,
        ensures
            final(self).wf(),
            final(self).current_epoch == old(self).current_epoch + 1,
            final(self).params == old(self).params,
            final(self).validators@ == old(self).validators@,
            final(self).bonds@ == old(self).bonds@,
            final(self).unbonds@ == old(self).unbonds@,
    {
        self.current_epoch = self.current_epoch + 1;
    }
}

/// A found validator record sits at some index, where the well-formedness
/// facts about it apply.
#[verifier::rlimit(100)]
#[verifier::spinoff_prover]
proof fn lemma_find_validator_in_index(s: Seq<ValidatorRecord>, a: AddressV)
    requires
        find_validator_in(s, a) is Some,
        wf_validators(s),
    ensures
        wf_deltas(find_validator_in(s, a).unwrap().total_deltas.entries@),
        wf_slashes(find_validator_in(s, a).unwrap().slashes@),
    decreases s.len(),
{
    if s.len() > 0 {
        if s.last().address@ == a {
            assert(s[s.len() - 1] == s.last());
        } else {
            assert(wf_validators(s.drop_last())) by {
                assert forall|i: int|
                    0 <= i < s.drop_last().len() implies wf_deltas(
                    #[trigger] s.drop_last()[i].total_deltas.entries@,
                ) && wf_epochs(s.drop_last()[i].state.entries@) && wf_epochs(
                    s.drop_last()[i].consensus_key.entries@,
                ) && wf_slashes(s.drop_last()[i].slashes@) by {
                    assert(s.drop_last()[i] == s[i]);
                }
            }
            lemma_find_validator_in_index(s.drop_last(), a);
        }
    }
}

/// The voting power of the validator at index `i`, at an epoch.
pub open spec fn power_at_index(s: Seq<ValidatorRecord>, i: int, e: u64, bp: u64) -> int {
    voting_power_of(sum_le(s[i].total_deltas.entries@, e), bp)
}

/// The sum of the listed voting powers.
pub open spec fn listed_power_sum(s: Seq<WeightedValidator>) -> int
    decreases s.len(),
{
    if s.len() == 0 {
        0
    } else {
        listed_power_sum(s.drop_last()) + s.last().voting_power as int
    }
}

/// A correct active/inactive split of the validators at an epoch: the
/// active set holds exactly as many members as the cap and the count allow,
/// the two sets partition the validators with every validator listed exactly
/// once, every active member has at least the power of every inactive
/// member, and each listed power is the formula applied to that validator's
/// stake.
pub open spec fn valid_validator_set(
    validators: Seq<ValidatorRecord>,
    epoch: u64,
    bp: u64,
    max_slots: u64,
    set: &ValidatorSet,
) -> bool {
    &&& set.active@.len() == if (max_slots as int) < validators.len() {
        max_slots as int
    } else {
        validators.len() as int
    }
    &&& set.active@.len() + set.inactive@.len() == validators.len()
    &&& forall|p: int, q: int|
        0 <= p < set.active@.len() && 0 <= q < set.inactive@.len() ==> (
        #[trigger] set.active@[p]).voting_power >= (#[trigger] set.inactive@[q]).voting_power
    &&& forall|p: int|
        #![trigger set.active@[p]]
        0 <= p < set.active@.len() ==> exists|i: int|
            0 <= i < validators.len() && set.active@[p].address@ == (
            #[trigger] validators[i]).address@ && set.active@[p].voting_power == power_at_index(
                validators,
                i,
                epoch,
                bp,
            )
    &&& forall|p: int|
        #![trigger set.inactive@[p]]
        0 <= p < set.inactive@.len() ==> exists|i: int|
            0 <= i < validators.len() && set.inactive@[p].address@ == (
            #[trigger] validators[i]).address@ && set.inactive@[p].voting_power == power_at_index(
                validators,
                i,
                epoch,
                bp,
            )
    &&& forall|p: int, q: int|
        0 <= p < q < set.active@.len() ==> (#[trigger] set.active@[p]).address@ != (
        #[trigger] set.active@[q]).address@
    &&& forall|p: int, q: int|
        0 <= p < q < set.inactive@.len() ==> (#[trigger] set.inactive@[p]).address@ != (
        #[trigger] set.inactive@[q]).address@
    &&& forall|p: int, q: int|
        0 <= p < set.active@.len() && 0 <= q < set.inactive@.len() ==> (
        #[trigger] set.active@[p]).address@ != (#[trigger] set.inactive@[q]).address@
}

impl PosState {
    /// The active/inactive split of the validators at an epoch: the active
    /// set holds exactly the members the cap and the count allow, every
    /// active member has at least the power of every inactive member, every
    /// validator is listed exactly once, and each listed power is the
    /// formula applied to that validator's stake.
    #[verifier::rlimit(100)]
    #[verifier::spinoff_prover]
    pub fn validator_set_at(&self, epoch: u64) -> (r: ValidatorSet)
        requires
            self.wf(),
            forall|i: int|
                0 <= i < self.validators@.len() ==> power_at_index(
                    self.validators@,
                    i,
                    epoch,
                    self.params.votes_per_token_bp,
                ) <= u64::MAX,
        ensures
            valid_validator_set(
                self.validators@,
                epoch,
                self.params.votes_per_token_bp,
                self.params.max_validator_slots,
                &r,
            ),
    {
        let n = self.validators.len();
        let bp = self.params.votes_per_token_bp;
        // The power of each validator at this epoch.
        let mut powers: Vec<u64> = Vec::new();
        let mut i: usize = 0;
        while i < n
            invariant
                i <= n,
                n == self.validators@.len(),
                self.wf(),
                bp == self.params.votes_per_token_bp,
                forall|k: int|
                    0 <= k < n ==> power_at_index(self.validators@, k, epoch, bp) <= u64::MAX,
                powers@.len() == i,
                forall|k: int|
                    0 <= k < i ==> #[trigger] powers@[k] == power_at_index(
                        self.validators@,
                        k,
                        epoch,
                        bp,
                    ),
            decreases n - i,
        {
            let deltas = self.validators[i].total_deltas.get_sum(epoch);
            proof {
                lemma_sum_le_bound(self.validators@[i as int].total_deltas.entries@, epoch);
                assert((self.validators@[i as int].total_deltas.entries@.len() as int) * (
                MAX_DELTA as int) <= 0x4_0000_0000_0000_0000_0000) by (nonlinear_arith)
                    requires self.validators@[i as int].total_deltas.entries@.len() <= 0x10_0000;
                assert(power_at_index(self.validators@, i as int, epoch, bp) == voting_power_of(
                    deltas as int,
                    bp,
                ));
            }
            let power = compute_voting_power(deltas, bp);
            powers.push(power);
            i = i + 1;
        }
        // Select validators by falling power: repeatedly move the strongest
        // remaining candidate from the worklist into the ordered list.
        let mut worklist: Vec<(u64, usize)> = Vec::new();
        let mut k: usize = 0;
        while k < n
            invariant
                k <= n,
                powers@.len() == n,
                worklist@.len() == k,
                forall|p: int|
                    0 <= p < k ==> (#[trigger] worklist@[p]).1 == p && worklist@[p].0 == powers@[p],
            decreases n - k,
        {
            let ghost prev = worklist@;
            worklist.push((powers[k], k));
            proof {
                assert(worklist@.drop_last() =~= prev);
            }
            k = k + 1;
        }
        let mut order: Vec<(u64, usize)> = Vec::new();
        let mut round: usize = 0;
        while round < n
            invariant
                round <= n,
                n == self.validators@.len(),
                powers@.len() == n,
                worklist@.len() == n - round,
                order@.len() == round,
                forall|p: int|
                    0 <= p < round ==> (#[trigger] order@[p]).1 < n && order@[p].0 == powers@[
                        order@[p].1 as int],
                forall|p: int|
                    0 <= p < worklist@.len() ==> (#[trigger] worklist@[p]).1 < n && worklist@[p].0
                        == powers@[worklist@[p].1 as int],
                forall|p: int, q: int|
                    0 <= p < q < order@.len() ==> (#[trigger] order@[p]).1 != (
                    #[trigger] order@[q]).1,
                forall|p: int, q: int|
                    0 <= p < q < worklist@.len() ==> (#[trigger] worklist@[p]).1 != (
                    #[trigger] worklist@[q]).1,
                forall|p: int, q: int|
                    0 <= p < order@.len() && 0 <= q < worklist@.len() ==> (
                    #[trigger] order@[p]).1 != (#[trigger] worklist@[q]).1,
                forall|p: int, q: int|
                    0 <= p < q < round ==> (#[trigger] order@[p]).0 >= (#[trigger] order@[q]).0,
                forall|p: int|
                    0 <= p < worklist@.len() && round > 0 ==> (#[trigger] worklist@[p]).0
                        <= order@[round - 1].0,
            decreases n - round,
        {
            // The strongest remaining candidate.
            let mut best_pos: usize = 0;
            let mut j: usize = 1;
            while j < worklist.len()
                invariant
                    worklist@.len() > 0,
                    best_pos < j,
                    j <= worklist@.len(),
                    forall|p: int|
                        0 <= p < j ==> (#[trigger] worklist@[p]).0 <= worklist@[
                            best_pos as int].0,
                decreases worklist@.len() - j,
            {
                if worklist[j].0 > worklist[best_pos].0 {
                    best_pos = j;
                }
                j = j + 1;
            }
            let ghost prev_worklist = worklist@;
            let ghost prev_order = order@;
            let picked = worklist.remove(best_pos);
            order.push(picked);
            proof {
                assert(order@.drop_last() =~= prev_order);
                assert forall|p: int|
                    0 <= p < worklist@.len() implies (#[trigger] worklist@[p]).1 < n
                    && worklist@[p].0 == powers@[worklist@[p].1 as int] && worklist@[p].0
                    <= order@[order@.len() - 1].0 by {
                    if p < best_pos {
                        assert(worklist@[p] == prev_worklist[p]);
                    } else {
                        assert(worklist@[p] == prev_worklist[p + 1]);
                    }
                }
                assert forall|p: int, q: int|
                    0 <= p < q < worklist@.len() implies (#[trigger] worklist@[p]).1 != (
                #[trigger] worklist@[q]).1 by {
                    assert(worklist@[p] == if p < best_pos {
                        prev_worklist[p]
                    } else {
                        prev_worklist[p + 1]
                    });
                    assert(worklist@[q] == if q < best_pos {
                        prev_worklist[q]
                    } else {
                        prev_worklist[q + 1]
                    });
                }
                assert forall|p: int, q: int|
                    0 <= p < q < order@.len() implies (#[trigger] order@[p]).1 != (
                #[trigger] order@[q]).1 by {
                    if q < order@.len() - 1 {
                        assert(order@[p] == prev_order[p]);
                        assert(order@[q] == prev_order[q]);
                    } else {
                        assert(order@[p] == prev_order[p]);
                        assert(order@[q] == prev_worklist[best_pos as int]);
                    }
                }
                assert forall|p: int, q: int|
                    0 <= p < order@.len() && 0 <= q < worklist@.len() implies (
                #[trigger] order@[p]).1 != (#[trigger] worklist@[q]).1 by {
                    assert(worklist@[q] == if q < best_pos {
                        prev_worklist[q]
                    } else {
                        prev_worklist[q + 1]
                    });
                    if p < order@.len() - 1 {
                        assert(order@[p] == prev_order[p]);
                    } else {
                        assert(order@[p] == prev_worklist[best_pos as int]);
                    }
                }
                assert forall|p: int, q: int|
                    0 <= p < q < order@.len() implies (#[trigger] order@[p]).0 >= (
                #[trigger] order@[q]).0 by {
                    if q < order@.len() - 1 {
                        assert(order@[p] == prev_order[p]);
                        assert(order@[q] == prev_order[q]);
                    } else {
                        assert(order@[q] == picked);
                        if p < order@.len() - 1 {
                            assert(order@[p] == prev_order[p]);
                            if round > 0 {
                                assert(prev_worklist[best_pos as int].0 <= prev_order[round
                                    - 1].0);
                                assert(prev_order[p].0 >= prev_order[round - 1].0);
                            }
                        }
                    }
                }
            }
            round = round + 1;
        }
        // Split the ordered list at the cap.
        let cap = if (self.params.max_validator_slots as u64) < (n as u64) {
            self.params.max_validator_slots as usize
        } else {
            n
        };
        let mut active: Vec<WeightedValidator> = Vec::new();
        let mut inactive: Vec<WeightedValidator> = Vec::new();
        let mut p: usize = 0;
        while p < n
            invariant
                p <= n,
                n == self.validators@.len(),
                powers@.len() == n,
                order@.len() == n,
                cap <= n,
                cap <= self.params.max_validator_slots,
                bp == self.params.votes_per_token_bp,
                forall|a: int|
                    0 <= a < n ==> (#[trigger] order@[a]).1 < n && order@[a].0 == powers@[
                        order@[a].1 as int],
                forall|a: int, b: int|
                    0 <= a < b < n ==> (#[trigger] order@[a]).0 >= (#[trigger] order@[b]).0,
                forall|a: int, b: int|
                    0 <= a < b < n ==> (#[trigger] order@[a]).1 != (#[trigger] order@[b]).1,
                forall|k: int|
                    0 <= k < n ==> #[trigger] powers@[k] == power_at_index(
                        self.validators@,
                        k,
                        epoch,
                        bp,
                    ),
                active@.len() == if p < cap {
                    p as int
                } else {
                    cap as int
                },
                active@.len() + inactive@.len() == p,
                forall|a: int|
                    0 <= a < active@.len() ==> (#[trigger] active@[a]).voting_power == order@[a].0
                        && active@[a].address@ == self.validators@[order@[a].1 as int].address@,
                forall|a: int|
                    0 <= a < inactive@.len() ==> (#[trigger] inactive@[a]).voting_power == order@[
                        cap + a].0 && inactive@[a].address@ == self.validators@[order@[cap
                        + a].1 as int].address@,
            decreases n - p,
        {
            let (power, idx) = order[p];
            let w = WeightedValidator {
                voting_power: power,
                address: self.validators[idx].address.clone_addr(),
            };
            if p < cap {
                let ghost prev = active@;
                active.push(w);
                proof {
                    assert(active@.drop_last() =~= prev);
                }
            } else {
                let ghost prev = inactive@;
                inactive.push(w);
                proof {
                    assert(inactive@.drop_last() =~= prev);
                }
            }
            p = p + 1;
        }
        let r = ValidatorSet { active, inactive };
        proof {
            assert forall|a: int, b: int|
                0 <= a < r.active@.len() && 0 <= b < r.inactive@.len() implies (
            #[trigger] r.active@[a]).voting_power >= (#[trigger] r.inactive@[b]).voting_power by {
                assert(r.active@[a].voting_power == order@[a].0);
                assert(r.inactive@[b].voting_power == order@[cap + b].0);
            }
            assert forall|a: int|
                #![trigger r.active@[a]]
                0 <= a < r.active@.len() implies exists|i: int|
                0 <= i < self.validators@.len() && r.active@[a].address@ == (
                #[trigger] self.validators@[i]).address@ && r.active@[a].voting_power
                    == power_at_index(
                    self.validators@,
                    i,
                    epoch,
                    self.params.votes_per_token_bp,
                ) by {
                let i = order@[a].1 as int;
                assert(0 <= i < self.validators@.len());
                assert(r.active@[a].address@ == (self.validators@[i]).address@);
                assert(r.active@[a].voting_power == powers@[i]);
                assert(powers@[i] == power_at_index(
                    self.validators@,
                    i,
                    epoch,
                    self.params.votes_per_token_bp,
                ));
            }
            assert forall|a: int|
                #![trigger r.inactive@[a]]
                0 <= a < r.inactive@.len() implies exists|i: int|
                0 <= i < self.validators@.len() && r.inactive@[a].address@ == (
                #[trigger] self.validators@[i]).address@ && r.inactive@[a].voting_power
                    == power_at_index(self.validators@, i, epoch, self.params.votes_per_token_bp) by {
                let i = order@[cap + a].1 as int;
                assert(0 <= i < self.validators@.len());
                assert(r.inactive@[a].address@ == (self.validators@[i]).address@);
                assert(r.inactive@[a].voting_power == powers@[i]);
                assert(powers@[i] == power_at_index(
                    self.validators@,
                    i,
                    epoch,
                    self.params.votes_per_token_bp,
                ));
            }
            assert forall|a: int, b: int|
                0 <= a < b < r.active@.len() implies (#[trigger] r.active@[a]).address@ != (
            #[trigger] r.active@[b]).address@ by {
                let i = order@[a].1 as int;
                let j = order@[b].1 as int;
                assert(i != j);
                if i < j {
                    assert(self.validators@[i].address@ != self.validators@[j].address@);
                } else {
                    assert(self.validators@[j].address@ != self.validators@[i].address@);
                }
            }
            assert forall|a: int, b: int|
                0 <= a < b < r.inactive@.len() implies (#[trigger] r.inactive@[a]).address@ != (
            #[trigger] r.inactive@[b]).address@ by {
                let i = order@[cap + a].1 as int;
                let j = order@[cap + b].1 as int;
                assert(i != j);
                if i < j {
                    assert(self.validators@[i].address@ != self.validators@[j].address@);
                } else {
                    assert(self.validators@[j].address@ != self.validators@[i].address@);
                }
            }
            assert forall|a: int, b: int|
                0 <= a < r.active@.len() && 0 <= b < r.inactive@.len() implies (
            #[trigger] r.active@[a]).address@ != (#[trigger] r.inactive@[b]).address@ by {
                let i = order@[a].1 as int;
                let j = order@[cap + b].1 as int;
                assert(i != j);
                if i < j {
                    assert(self.validators@[i].address@ != self.validators@[j].address@);
                } else {
                    assert(self.validators@[j].address@ != self.validators@[i].address@);
                }
            }
            assert(r.active@.len() == if (self.params.max_validator_slots as int)
                < self.validators@.len() {
                self.params.max_validator_slots as int
            } else {
                self.validators@.len() as int
            });
        }
        r
    }

    /// The total voting power at an epoch: the sum over the active set of a
    /// correct split of this state's validators; the sum fails only when it
    /// does not fit a balance.
    pub fn total_voting_power_at(&self, epoch: u64) -> (r: Option<u64>)
        requires
            self.wf(),
            forall|i: int|
                0 <= i < self.validators@.len() ==> power_at_index(
                    self.validators@,
                    i,
                    epoch,
                    self.params.votes_per_token_bp,
                ) <= u64::MAX,
        ensures
            exists|set: ValidatorSet|
                #![trigger listed_power_sum(set.active@)]
                valid_validator_set(
                    self.validators@,
                    epoch,
                    self.params.votes_per_token_bp,
                    self.params.max_validator_slots,
                    &set,
                ) && match r {
                    Some(total) => total == listed_power_sum(set.active@),
                    None => listed_power_sum(set.active@) > u64::MAX,
                },
    {
        let set = self.validator_set_at(epoch);
        let mut total: u128 = 0;
        let mut i: usize = 0;
        proof {
            assert(set.active@.take(0) =~= Seq::<WeightedValidator>::empty());
        }
        while i < set.active.len()
            invariant
                i <= set.active@.len(),
                total == listed_power_sum(set.active@.take(i as int)),
                total <= (i as int) * 0xffff_ffff_ffff_ffff,
            decreases set.active@.len() - i,
        {
            proof {
                assert(set.active@.take(i + 1).last() == set.active@[i as int]);
                assert(set.active@.take(i + 1).drop_last() =~= set.active@.take(i as int));
                assert((i as int) * 0xffff_ffff_ffff_ffff + 0xffff_ffff_ffff_ffff == (i + 1)
                    * 0xffff_ffff_ffff_ffff) by (nonlinear_arith);
                assert((i + 1) * 0xffff_ffff_ffff_ffff <= 0xffff_ffff_ffff_ffff
                    * 0xffff_ffff_ffff_ffff) by (nonlinear_arith)
                    requires 0 <= i + 1 <= 0xffff_ffff_ffff_ffff;
            }
            let power = set.active[i].voting_power;
            total = total + power as u128;
            i = i + 1;
        }
        proof {
            assert(set.active@.take(set.active@.len() as int) =~= set.active@);
        }
        if total > u64::MAX as u128 {
            None
        } else {
            Some(total as u64)
        }
    }
}


} // verus!
