//! The computing half of the client queries: totals over bonds and unbonds
//! with slashes applied, and the per-token component of a shielded balance.
//! The querying and printing around these live outside the library.

use vstd::prelude::*;
use crate::address::{enc_address, Address};
use crate::codec::enc_u64;
use crate::crypto::{bytes_eq, sha256_digest, sha256_of};
use crate::pos::{apply_slashes, slashed_delta, wf_bond, wf_unbond, Bond, BondEntry, Slash, Unbond, UnbondEntry, MAX_DELTA};

verus! {

/// The slashed total of a bond snapshot: every slice reduced by the slashes
/// since its activation.
pub open spec fn bonds_total(s: Seq<BondEntry>, slashes: Seq<Slash>) -> int
    decreases s.len(),
{
    if s.len() == 0 {
        0
    } else {
        bonds_total(s.drop_last(), slashes) + slashed_delta(
            slashes,
            s.last().amount,
            s.last().start,
            None,
        ) as int
    }
}

/// The slashed total of the slices already active at the epoch.
pub open spec fn bonds_active(s: Seq<BondEntry>, slashes: Seq<Slash>, e: u64) -> int
    decreases s.len(),
{
    if s.len() == 0 {
        0
    } else {
        bonds_active(s.drop_last(), slashes, e) + if s.last().start <= e {
            slashed_delta(slashes, s.last().amount, s.last().start, None) as int
        } else {
            0
        }
    }
}

/// The slashed totals never exceed the raw totals.
proof fn lemma_bonds_totals_bound(s: Seq<BondEntry>, slashes: Seq<Slash>, e: u64)
    requires
        wf_bond(s),
    ensures
        0 <= bonds_active(s, slashes, e) <= bonds_total(s, slashes),
        bonds_total(s, slashes) <= (s.len() as int) * (MAX_DELTA as int),
    decreases s.len(),
{
    if s.len() > 0 {
        assert(wf_bond(s.drop_last()));
        lemma_bonds_totals_bound(s.drop_last(), slashes, e);
        crate::pos::lemma_slash_total_nonneg(slashes, s.last().amount, s.last().start, None);
        assert((s.len() as int) * (MAX_DELTA as int) == (s.len() - 1) * (MAX_DELTA as int)
            + MAX_DELTA as int) by (nonlinear_arith);
    }
}

/// The slashed totals never exceed the raw totals.
proof fn lemma_unbonds_totals_bound(s: Seq<UnbondEntry>, slashes: Seq<Slash>, e: u64)
    requires
        wf_unbond(s),
    ensures
        0 <= unbonds_withdrawable(s, slashes, e) <= unbonds_total(s, slashes),
        unbonds_total(s, slashes) <= (s.len() as int) * (MAX_DELTA as int),
    decreases s.len(),
{
    if s.len() > 0 {
        assert(wf_unbond(s.drop_last()));
        lemma_unbonds_totals_bound(s.drop_last(), slashes, e);
        crate::pos::lemma_slash_total_nonneg(
            slashes,
            s.last().amount,
            s.last().start,
            Some(s.last().withdraw),
        );
        assert((s.len() as int) * (MAX_DELTA as int) == (s.len() - 1) * (MAX_DELTA as int)
            + MAX_DELTA as int) by (nonlinear_arith);
    }
}

/// Total and active-total of a bonds query: each slice is reduced by the
/// slashes since its activation; a slice counts as active once the epoch has
/// reached its activation. Fails only when a running total would not fit.
pub fn process_bonds_query(
    bonds: &Bond,
    slashes: &Vec<Slash>,
    epoch: u64,
    total: Option<u64>,
    total_active: Option<u64>,
) -> (r: Option<(u64, u64)>)
    requires
        wf_bond(bonds.entries@),
    ensures
        (r is None) == ((match total {
            Some(t) => t as int,
            None => 0,
        }) + bonds_total(bonds.entries@, slashes@) > u64::MAX || (match total_active {
            Some(t) => t as int,
            None => 0,
        }) + bonds_active(bonds.entries@, slashes@, epoch) > u64::MAX),
        r matches Some(p) ==> {
            &&& p.0 == (match total {
                Some(t) => t as int,
                None => 0,
            }) + bonds_total(bonds.entries@, slashes@)
            &&& p.1 == (match total_active {
                Some(t) => t as int,
                None => 0,
            }) + bonds_active(bonds.entries@, slashes@, epoch)
        },
{
    let mut current_total: u128 = match total {
        Some(t) => t as u128,
        None => 0,
    };
    let mut active: u128 = match total_active {
        Some(t) => t as u128,
        None => 0,
    };
    let ghost base_total = current_total as int;
    let ghost base_active = active as int;
    let mut i: usize = 0;
    proof {
        assert(bonds.entries@.take(0) =~= Seq::<BondEntry>::empty());
    }
    while i < bonds.entries.len()
        invariant
            i <= bonds.entries@.len(),
            wf_bond(bonds.entries@),
            base_total <= u64::MAX,
            base_active <= u64::MAX,
            current_total == base_total + bonds_total(bonds.entries@.take(i as int), slashes@),
            active == base_active + bonds_active(bonds.entries@.take(i as int), slashes@, epoch),
        decreases bonds.entries@.len() - i,
    {
        let entry = bonds.entries[i];
        proof {
            assert(bonds.entries@.take(i + 1).last() == bonds.entries@[i as int]);
            assert(bonds.entries@.take(i + 1).drop_last() =~= bonds.entries@.take(i as int));
            assert(wf_bond(bonds.entries@.take(i as int))) by {
                assert forall|p: int|
                    0 <= p < bonds.entries@.take(i as int).len() implies (
                #[trigger] bonds.entries@.take(i as int)[p]).amount <= MAX_DELTA by {
                    assert(bonds.entries@.take(i as int)[p] == bonds.entries@[p]);
                }
            }
            lemma_bonds_totals_bound(bonds.entries@.take(i as int), slashes@, epoch);
            assert((i as int) * (MAX_DELTA as int) <= 0x10_0000 * (MAX_DELTA as int))
                by (nonlinear_arith)
                requires 0 <= i <= 0x10_0000;
            crate::pos::lemma_slash_total_nonneg(slashes@, entry.amount, entry.start, None);
        }
        let delta = apply_slashes(slashes, entry.amount, entry.start, None);
        current_total = current_total + delta as u128;
        if entry.start <= epoch {
            active = active + delta as u128;
        }
        i = i + 1;
    }
    proof {
        assert(bonds.entries@.take(bonds.entries@.len() as int) =~= bonds.entries@);
    }
    if current_total > u64::MAX as u128 || active > u64::MAX as u128 {
        return None;
    }
    Some((current_total as u64, active as u64))
}

/// The slashed total of an unbond snapshot: every slice reduced by the
/// slashes inside its activity window.
pub open spec fn unbonds_total(s: Seq<UnbondEntry>, slashes: Seq<Slash>) -> int
    decreases s.len(),
{
    if s.len() == 0 {
        0
    } else {
        unbonds_total(s.drop_last(), slashes) + slashed_delta(
            slashes,
            s.last().amount,
            s.last().start,
            Some(s.last().withdraw),
        ) as int
    }
}

/// The slashed total of the slices already withdrawable at the epoch.
pub open spec fn unbonds_withdrawable(s: Seq<UnbondEntry>, slashes: Seq<Slash>, e: u64) -> int
    decreases s.len(),
{
    if s.len() == 0 {
        0
    } else {
        unbonds_withdrawable(s.drop_last(), slashes, e) + if s.last().withdraw <= e {
            slashed_delta(slashes, s.last().amount, s.last().start, Some(s.last().withdraw)) as int
        } else {
            0
        }
    }
}

/// Total and withdrawable-total of an unbonds query: each slice is reduced
/// by the slashes inside its activity window; a slice counts as withdrawable
/// once the epoch has reached its withdraw epoch. Fails only when a running
/// total would not fit.
pub fn process_unbonds_query(
    unbonds: &Unbond,
    slashes: &Vec<Slash>,
    epoch: u64,
    total: Option<u64>,
    total_withdrawable: Option<u64>,
) -> (r: Option<(u64, u64)>)
    requires
        wf_unbond(unbonds.entries@),
    ensures
        (r is None) == ((match total {
            Some(t) => t as int,
            None => 0,
        }) + unbonds_total(unbonds.entries@, slashes@) > u64::MAX || (match total_withdrawable {
            Some(t) => t as int,
            None => 0,
        }) + unbonds_withdrawable(unbonds.entries@, slashes@, epoch) > u64::MAX),
        r matches Some(p) ==> {
            &&& p.0 == (match total {
                Some(t) => t as int,
                None => 0,
            }) + unbonds_total(unbonds.entries@, slashes@)
            &&& p.1 == (match total_withdrawable {
                Some(t) => t as int,
                None => 0,
            }) + unbonds_withdrawable(unbonds.entries@, slashes@, epoch)
        },
{
    let mut current_total: u128 = match total {
        Some(t) => t as u128,
        None => 0,
    };
    let mut withdrawable: u128 = match total_withdrawable {
        Some(t) => t as u128,
        None => 0,
    };
    let ghost base_total = current_total as int;
    let ghost base_withdrawable = withdrawable as int;
    let mut i: usize = 0;
    proof {
        assert(unbonds.entries@.take(0) =~= Seq::<UnbondEntry>::empty());
    }
    while i < unbonds.entries.len()
        invariant
            i <= unbonds.entries@.len(),
            wf_unbond(unbonds.entries@),
            base_total <= u64::MAX,
            base_withdrawable <= u64::MAX,
            current_total == base_total + unbonds_total(
                unbonds.entries@.take(i as int),
                slashes@,
            ),
            withdrawable == base_withdrawable + unbonds_withdrawable(
                unbonds.entries@.take(i as int),
                slashes@,
                epoch,
            ),
        decreases unbonds.entries@.len() - i,
    {
        let entry = unbonds.entries[i];
        proof {
            assert(unbonds.entries@.take(i + 1).last() == unbonds.entries@[i as int]);
            assert(unbonds.entries@.take(i + 1).drop_last() =~= unbonds.entries@.take(i as int));
            assert(wf_unbond(unbonds.entries@.take(i as int))) by {
                assert forall|p: int|
                    0 <= p < unbonds.entries@.take(i as int).len() implies (
                #[trigger] unbonds.entries@.take(i as int)[p]).amount <= MAX_DELTA by {
                    assert(unbonds.entries@.take(i as int)[p] == unbonds.entries@[p]);
                }
            }
            lemma_unbonds_totals_bound(unbonds.entries@.take(i as int), slashes@, epoch);
            assert((i as int) * (MAX_DELTA as int) <= 0x10_0000 * (MAX_DELTA as int))
                by (nonlinear_arith)
                requires 0 <= i <= 0x10_0000;
            crate::pos::lemma_slash_total_nonneg(
                slashes@,
                entry.amount,
                entry.start,
                Some(entry.withdraw),
            );
        }
        let delta = apply_slashes(slashes, entry.amount, entry.start, Some(entry.withdraw));
        current_total = current_total + delta as u128;
        if entry.withdraw <= epoch {
            withdrawable = withdrawable + delta as u128;
        }
        i = i + 1;
    }
    proof {
        assert(unbonds.entries@.take(unbonds.entries@.len() as int) =~= unbonds.entries@);
    }
    if current_total > u64::MAX as u128 || withdrawable > u64::MAX as u128 {
        return None;
    }
    Some((current_total as u64, withdrawable as u64))
}

/// The asset identifier of a token at an epoch: the digest of the canonical
/// encoding of the pair.
pub open spec fn asset_id_of(token: crate::address::AddressV, epoch: u64) -> Seq<u8> {
    sha256_of(enc_address(token) + enc_u64(epoch))
}

/// The value a component list holds for an asset; zero when absent.
pub open spec fn component_value(s: Seq<(Vec<u8>, i64)>, asset: Seq<u8>) -> i64
    decreases s.len(),
{
    if s.len() == 0 {
        0
    } else if s.last().0@ == asset {
        s.last().1
    } else {
        component_value(s.drop_last(), asset)
    }
}

/// The component of a multi-asset amount corresponding to a token at an
/// epoch: the asset identifier, and the value held for it.
pub fn value_by_address(amt: &Vec<(Vec<u8>, i64)>, token: &Address, epoch: u64) -> (r: (
    Vec<u8>,
    i64,
))
    ensures
        r.0@ == asset_id_of(token@, epoch),
        r.1 == component_value(amt@, asset_id_of(token@, epoch)),
{
    let mut bytes: Vec<u8> = Vec::new();
    crate::address::write_address(&mut bytes, token);
    crate::codec::write_u64(&mut bytes, epoch);
    assert(bytes@ =~= enc_address(token@) + enc_u64(epoch));
    let asset = sha256_digest(&bytes);
    proof {
        assert(amt@.take(amt@.len() as int) =~= amt@);
    }
    let mut i: usize = amt.len();
    while i > 0
        invariant
            i <= amt@.len(),
            asset@ == asset_id_of(token@, epoch),
            component_value(amt@.take(i as int), asset@) == component_value(amt@, asset@),
        decreases i,
    {
        i = i - 1;
        proof {
            assert(amt@.take(i + 1).last() == amt@[i as int]);
            assert(amt@.take(i + 1).drop_last() =~= amt@.take(i as int));
        }
        if bytes_eq(&amt[i].0, &asset) {
            let value = amt[i].1;
            return (asset, value);
        }
    }
    assert(amt@.take(0) =~= Seq::<(Vec<u8>, i64)>::empty());
    (asset, 0)
}

/// A query for an event pertaining to a transaction: its acceptance or its
/// application, by hash.
pub enum TxEventQuery {
    Accepted(String),
    Applied(String),
}

impl TxEventQuery {
    /// The event type this query pertains to.
    pub fn event_type(&self) -> (r: String)
        ensures
            match self {
                TxEventQuery::Accepted(_) => r@ == "accepted"@,
                TxEventQuery::Applied(_) => r@ == "applied"@,
            },
    {
        match self {
            TxEventQuery::Accepted(_) => "accepted".to_owned(),
            TxEventQuery::Applied(_) => "applied".to_owned(),
        }
    }

    /// The transaction hash this query pertains to.
    pub fn tx_hash(&self) -> (r: &String)
        ensures
            match self {
                TxEventQuery::Accepted(h) => r@ == h@,
                TxEventQuery::Applied(h) => r@ == h@,
            },
    {
        match self {
            TxEventQuery::Accepted(tx_hash) => tx_hash,
            TxEventQuery::Applied(tx_hash) => tx_hash,
        }
    }
}

} // verus!
