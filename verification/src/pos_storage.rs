//! The proof-of-stake keyspace on the wire: byte paths classified into the
//! typed keys the validity predicate knows, and the stored byte values
//! decoded into the typed records it validates. A key's first segment is the
//! address its subspace belongs to; the proof-of-stake subspace holds the
//! enumerated entities, a one-byte field tag apiece.

use vstd::prelude::*;
use crate::address::{
    enc_address, internal_tag, pos_address, read_address, write_address, Address, AddressV,
    InternalAddress,
};
use crate::codec::{
    dec_u64_at, enc_u64, lemma_starts_with_split, lemma_u64_roundtrip, lemma_u64_roundtrip_inverse,
    read_tag, starts_with, write_tag,
};
use crate::pos::{wf_bond, wf_unbond, Bond, BondEntry, Slash, Unbond, UnbondEntry, ValidatorSet,
    WeightedValidator, MAX_DELTA, BP_WHOLE};
use crate::pos_vp::{changes_valid, validate_changes, wf_change_one, wf_changes, PosKeyChange};
use crate::shell::store_lookup;

verus! {

/// The field tags of the proof-of-stake subspace.
pub open spec fn tag_params() -> u8 {
    0
}

pub open spec fn tag_state() -> u8 {
    1
}

pub open spec fn tag_consensus_key() -> u8 {
    2
}

pub open spec fn tag_reward_address() -> u8 {
    3
}

pub open spec fn tag_total_deltas() -> u8 {
    4
}

pub open spec fn tag_voting_power() -> u8 {
    5
}

pub open spec fn tag_slashes() -> u8 {
    6
}

pub open spec fn tag_raw_hash() -> u8 {
    7
}

pub open spec fn tag_bond() -> u8 {
    8
}

pub open spec fn tag_unbond() -> u8 {
    9
}

pub open spec fn tag_validator_set() -> u8 {
    10
}

pub open spec fn tag_total_voting_power() -> u8 {
    11
}

/// The tag of a validity-predicate key under any owner.
pub open spec fn tag_vp() -> u8 {
    12
}

/// The tag of a balance key under a token's subspace.
pub open spec fn tag_balance() -> u8 {
    13
}

/// The proof-of-stake subspace prefix: the system account's address.
pub open spec fn pos_prefix() -> Seq<u8> {
    enc_address(AddressV::Internal(InternalAddress::PoS))
}

/// A key of the proof-of-stake subspace with no argument.
pub open spec fn enc_plain_key(tag: u8) -> Seq<u8> {
    pos_prefix() + seq![tag]
}

/// A key of the proof-of-stake subspace naming one validator.
pub open spec fn enc_validator_key(tag: u8, v: AddressV) -> Seq<u8> {
    pos_prefix() + seq![tag] + enc_address(v)
}

/// A bond or unbond key naming the pair.
pub open spec fn enc_pair_key(tag: u8, src: AddressV, val: AddressV) -> Seq<u8> {
    pos_prefix() + seq![tag] + enc_address(src) + enc_address(val)
}

/// The validity-predicate key of an owner.
pub open spec fn enc_vp_key(owner: AddressV) -> Seq<u8> {
    enc_address(owner) + seq![tag_vp()]
}

/// The balance key of an owner under a token's subspace.
pub open spec fn enc_balance_key(token: AddressV, owner: AddressV) -> Seq<u8> {
    enc_address(token) + seq![tag_balance()] + enc_address(owner)
}

/// Write a validator-field key of the proof-of-stake subspace.
pub fn make_validator_key(tag: u8, v: &Address) -> (r: Vec<u8>)
    ensures
        r@ == enc_validator_key(tag, v@),
{
    let mut out: Vec<u8> = Vec::new();
    let pos_acct = pos_address();
    write_address(&mut out, &pos_acct);
    write_tag(&mut out, tag);
    write_address(&mut out, v);
    assert(out@ =~= enc_validator_key(tag, v@));
    out
}

/// Canonical encoding of a stored unsigned counter.
pub fn decode_u64_value(bytes: &Vec<u8>) -> (r: Option<u64>)
    ensures
        r matches Some(x) ==> bytes@ == enc_u64(x),
        forall|x: u64| bytes@ == enc_u64(x) ==> r == Some(x),
{
    if bytes.len() != 8 {
        return None;
    }
    let mut pos: usize = 0;
    let x = crate::codec::read_u64(bytes, &mut pos).unwrap();
    proof {
        lemma_u64_roundtrip_inverse(bytes@, 0, x);
        assert(bytes@.subrange(0, 8) =~= bytes@);
        assert forall|y: u64| bytes@ == enc_u64(y) implies x == y by {
            assert(bytes@.subrange(0, 8) =~= enc_u64(y));
            lemma_u64_roundtrip(y, bytes@, 0);
        }
    }
    Some(x)
}

/// Canonical encoding of a stored signed total: a sign byte and the
/// magnitude split into two unsigned words. Totals stay within the bound the
/// epoch-indexed sums respect.
pub open spec fn enc_i128(x: int) -> Seq<u8> {
    let a = if x < 0 {
        -x
    } else {
        x
    };
    seq![
        if x < 0 {
            1u8
        } else {
            0u8
        },
    ] + enc_u64((a % 0x1_0000_0000_0000_0000) as u64) + enc_u64((a / 0x1_0000_0000_0000_0000) as u64)
}

/// The delta bound the validity predicate accepts for a stored total.
pub open spec fn deltas_bound() -> int {
    0x4_0000_0000_0000_0000_0000
}

/// Decode a stored signed total; succeeds exactly on the canonical encoding
/// of a value within the bound.
pub fn decode_i128_value(bytes: &Vec<u8>) -> (r: Option<i128>)
    ensures
        r matches Some(x) ==> bytes@ == enc_i128(x as int) && -deltas_bound() <= x
            <= deltas_bound(),
        forall|x: int|
            -deltas_bound() <= x <= deltas_bound() && bytes@ == enc_i128(x) ==> (r matches Some(v)
                && v == x),
{
    if bytes.len() != 17 {
        proof {
            assert forall|x: int| bytes@ != enc_i128(x) by {
                if bytes@ == enc_i128(x) {
                    assert(enc_i128(x).len() == 17);
                }
            }
        }
        return None;
    }
    let sign = bytes[0];
    if sign > 1 {
        proof {
            assert forall|x: int| bytes@ != enc_i128(x) by {
                if bytes@ == enc_i128(x) {
                    assert(enc_i128(x)[0] == 0u8 || enc_i128(x)[0] == 1u8);
                }
            }
        }
        return None;
    }
    let lo = {
        let mut pos: usize = 1;
        crate::codec::read_u64(bytes, &mut pos).unwrap()
    };
    let hi = {
        let mut pos: usize = 9;
        crate::codec::read_u64(bytes, &mut pos).unwrap()
    };
    proof {
        assert forall|x: int|
            -deltas_bound() <= x <= deltas_bound() && bytes@ == enc_i128(x) implies {
            let a = if x < 0 {
                -x
            } else {
                x
            };
            &&& lo == (a % 0x1_0000_0000_0000_0000) as u64
            &&& hi == (a / 0x1_0000_0000_0000_0000) as u64
            &&& (if x < 0 {
                sign == 1
            } else {
                sign == 0
            })
        } by {
            let a = if x < 0 {
                -x
            } else {
                x
            };
            assert(bytes@[0] == enc_i128(x)[0]);
            assert(bytes@.subrange(1, 9) =~= enc_u64((a % 0x1_0000_0000_0000_0000) as u64));
            lemma_u64_roundtrip((a % 0x1_0000_0000_0000_0000) as u64, bytes@, 1);
            assert(bytes@.subrange(9, 17) =~= enc_u64((a / 0x1_0000_0000_0000_0000) as u64));
            lemma_u64_roundtrip((a / 0x1_0000_0000_0000_0000) as u64, bytes@, 9);
        }
    }
    proof {
        assert(0 <= (hi as int) * 0x1_0000_0000_0000_0000 + (lo as int)
            < 0x1_0000_0000_0000_0000_0000_0000_0000_0000) by (nonlinear_arith)
            requires hi <= 0xffff_ffff_ffff_ffff && lo <= 0xffff_ffff_ffff_ffff;
        lemma_u64_roundtrip_inverse(bytes@, 1, lo);
        lemma_u64_roundtrip_inverse(bytes@, 9, hi);
    }
    let mag: u128 = lo as u128 + (hi as u128) * 0x1_0000_0000_0000_0000;
    if sign == 1 {
        if mag == 0 || mag > 0x4_0000_0000_0000_0000_0000 {
            proof {
                reject_i128(bytes@, sign, lo, hi, mag);
            }
            return None;
        }
        let x = -(mag as i128);
        proof {
            accept_i128(bytes@, sign, lo, hi, mag, x);
        }
        Some(x)
    } else {
        if mag > 0x4_0000_0000_0000_0000_0000 {
            proof {
                reject_i128(bytes@, sign, lo, hi, mag);
            }
            return None;
        }
        let x = mag as i128;
        proof {
            accept_i128(bytes@, sign, lo, hi, mag, x);
        }
        Some(x)
    }
}

/// The rejected shapes encode no in-bound value.
proof fn reject_i128(bytes: Seq<u8>, sign: u8, lo: u64, hi: u64, mag: u128)
    requires
        mag == lo + hi * 0x1_0000_0000_0000_0000,
        sign == 0 || sign == 1,
        sign == 1 ==> mag == 0 || mag > 0x4_0000_0000_0000_0000_0000,
        sign == 0 ==> mag > 0x4_0000_0000_0000_0000_0000,
        forall|x: int|
            -deltas_bound() <= x <= deltas_bound() && bytes == enc_i128(x) ==> {
                let a = if x < 0 {
                    -x
                } else {
                    x
                };
                &&& lo == (a % 0x1_0000_0000_0000_0000) as u64
                &&& hi == (a / 0x1_0000_0000_0000_0000) as u64
                &&& (if x < 0 {
                    sign == 1
                } else {
                    sign == 0
                })
            },
    ensures
        forall|x: int|
            !(-deltas_bound() <= x <= deltas_bound() && bytes == enc_i128(x)),
{
    assert forall|x: int|
        !(-deltas_bound() <= x <= deltas_bound() && bytes == enc_i128(x)) by {
        if -deltas_bound() <= x <= deltas_bound() && bytes == enc_i128(x) {
            let a = if x < 0 {
                -x
            } else {
                x
            };
            vstd::arithmetic::div_mod::lemma_fundamental_div_mod(a, 0x1_0000_0000_0000_0000);
            assert(mag == a);
        }
    }
}

/// The accepted shapes decode to the value they encode.
proof fn accept_i128(bytes: Seq<u8>, sign: u8, lo: u64, hi: u64, mag: u128, x: i128)
    requires
        mag == lo + hi * 0x1_0000_0000_0000_0000,
        sign == 0 || sign == 1,
        0 <= mag <= 0x4_0000_0000_0000_0000_0000,
        sign == 1 ==> mag > 0 && x == -(mag as int),
        sign == 0 ==> x == mag as int,
        forall|y: int|
            -deltas_bound() <= y <= deltas_bound() && bytes == enc_i128(y) ==> {
                let a = if y < 0 {
                    -y
                } else {
                    y
                };
                &&& lo == (a % 0x1_0000_0000_0000_0000) as u64
                &&& hi == (a / 0x1_0000_0000_0000_0000) as u64
                &&& (if y < 0 {
                    sign == 1
                } else {
                    sign == 0
                })
            },
        bytes.len() == 17,
        bytes[0] == sign,
        bytes.subrange(1, 9) == enc_u64(lo),
        bytes.subrange(9, 17) == enc_u64(hi),
    ensures
        bytes == enc_i128(x as int),
        -deltas_bound() <= x <= deltas_bound(),
        forall|y: int|
            -deltas_bound() <= y <= deltas_bound() && bytes == enc_i128(y) ==> y == x as int,
{
    let a = if (x as int) < 0 {
        -(x as int)
    } else {
        x as int
    };
    assert(a == mag);
    vstd::arithmetic::div_mod::lemma_fundamental_div_mod(a, 0x1_0000_0000_0000_0000);
    assert(lo == (a % 0x1_0000_0000_0000_0000) as u64 && hi == (a / 0x1_0000_0000_0000_0000)
        as u64) by {
        vstd::arithmetic::div_mod::lemma_mod_multiples_vanish(
            hi as int,
            lo as int,
            0x1_0000_0000_0000_0000,
        );
        vstd::arithmetic::div_mod::lemma_div_multiples_vanish_fancy(
            hi as int,
            lo as int,
            0x1_0000_0000_0000_0000,
        );
    }
    assert(bytes =~= enc_i128(x as int));
    assert forall|y: int|
        -deltas_bound() <= y <= deltas_bound() && bytes == enc_i128(y) implies y == x as int by {
        let ay = if y < 0 {
            -y
        } else {
            y
        };
        vstd::arithmetic::div_mod::lemma_fundamental_div_mod(ay, 0x1_0000_0000_0000_0000);
        assert(ay == mag);
    }
}

/// The flattened slices of a bond snapshot: sixteen bytes per slice.
pub open spec fn bond_flat(s: Seq<BondEntry>) -> Seq<u8>
    decreases s.len(),
{
    if s.len() == 0 {
        Seq::empty()
    } else {
        bond_flat(s.drop_last()) + enc_u64(s.last().start) + enc_u64(s.last().amount)
    }
}

/// Canonical encoding of a stored bond snapshot: the slice count, then the
/// flattened slices.
pub open spec fn enc_bond_val(s: Seq<BondEntry>) -> Seq<u8> {
    enc_u64(s.len() as u64) + bond_flat(s)
}

/// Each sixteen-byte chunk of the flattening is its slice's encoding.
proof fn lemma_bond_flat_chunk(s: Seq<BondEntry>, k: int)
    requires
        0 <= k < s.len(),
    ensures
        bond_flat(s).len() == 16 * s.len(),
        bond_flat(s).subrange(16 * k, 16 * k + 16) =~= enc_u64(s[k].start) + enc_u64(s[k].amount),
    decreases s.len(),
{
    lemma_bond_flat_len(s);
    if k == s.len() - 1 {
        lemma_bond_flat_len(s.drop_last());
        assert(bond_flat(s).subrange(16 * k, 16 * k + 16) =~= enc_u64(s[k].start) + enc_u64(
            s[k].amount,
        ));
    } else {
        lemma_bond_flat_chunk(s.drop_last(), k);
        lemma_bond_flat_len(s.drop_last());
        assert(s.drop_last()[k] == s[k]);
        assert(bond_flat(s).subrange(16 * k, 16 * k + 16) =~= bond_flat(s.drop_last()).subrange(
            16 * k,
            16 * k + 16,
        ));
    }
}

/// The flattening is sixteen bytes per slice.
proof fn lemma_bond_flat_len(s: Seq<BondEntry>)
    ensures
        bond_flat(s).len() == 16 * s.len(),
    decreases s.len(),
{
    if s.len() > 0 {
        lemma_bond_flat_len(s.drop_last());
    }
}

/// Decode a stored bond snapshot; succeeds exactly on the canonical encoding
/// of a well-formed snapshot.
#[verifier::rlimit(100)]
#[verifier::spinoff_prover]
pub fn decode_bond_value(bytes: &Vec<u8>) -> (r: Option<Bond>)
    ensures
        r matches Some(b) ==> bytes@ == enc_bond_val(b.entries@) && wf_bond(b.entries@),
        forall|s: Seq<BondEntry>|
            wf_bond(s) && bytes@ == #[trigger] enc_bond_val(s) ==> (r matches Some(b) && b.entries@
                == s),
{
    proof {
        assert forall|s: Seq<BondEntry>|
            wf_bond(s) && bytes@ == #[trigger] enc_bond_val(s) implies {
            &&& bytes@.len() == 8 + 16 * s.len()
            &&& dec_u64_at(bytes@, 0) == s.len() as u64
            &&& forall|k: int|
                0 <= k < s.len() ==> dec_u64_at(bytes@, 8 + 16 * k) == (#[trigger] s[k]).start
                    && dec_u64_at(bytes@, 8 + 16 * k + 8) == s[k].amount
        } by {
            lemma_bond_flat_len(s);
            assert(bytes@.subrange(0, 8) =~= enc_u64(s.len() as u64));
            lemma_u64_roundtrip(s.len() as u64, bytes@, 0);
            assert forall|k: int|
                0 <= k < s.len() implies dec_u64_at(bytes@, 8 + 16 * k) == (
            #[trigger] s[k]).start && dec_u64_at(bytes@, 8 + 16 * k + 8) == s[k].amount by {
                lemma_bond_flat_chunk(s, k);
                let fl = bond_flat(s);
                let chunk = enc_u64(s[k].start) + enc_u64(s[k].amount);
                assert(fl.len() == 16 * s.len());
                assert forall|o: int| 0 <= o < 16 implies bytes@[8 + 16 * k + o] == chunk[o] by {
                    assert(bytes@ == enc_u64(s.len() as u64) + fl);
                    assert((enc_u64(s.len() as u64) + fl)[8 + 16 * k + o] == fl[16 * k + o]);
                    assert(fl.subrange(16 * k, 16 * k + 16)[o] == fl[16 * k + o]);
                    assert(fl.subrange(16 * k, 16 * k + 16) == chunk);
                }
                assert(bytes@.subrange(8 + 16 * k, 8 + 16 * k + 8) =~= enc_u64(s[k].start)) by {
                    assert forall|j: int|
                        0 <= j < 8 implies bytes@.subrange(8 + 16 * k, 8 + 16 * k + 8)[j]
                        == enc_u64(s[k].start)[j] by {
                        assert(bytes@[8 + 16 * k + j] == chunk[j]);
                        assert(chunk[j] == enc_u64(s[k].start)[j]);
                    }
                }
                lemma_u64_roundtrip(s[k].start, bytes@, 8 + 16 * k);
                assert(bytes@.subrange(8 + 16 * k + 8, 8 + 16 * k + 16) =~= enc_u64(
                    s[k].amount,
                )) by {
                    assert forall|j: int|
                        0 <= j < 8 implies bytes@.subrange(8 + 16 * k + 8, 8 + 16 * k + 16)[j]
                        == enc_u64(s[k].amount)[j] by {
                        assert(bytes@[8 + 16 * k + 8 + j] == chunk[8 + j]);
                        assert(chunk[8 + j] == enc_u64(s[k].amount)[j]);
                    }
                }
                lemma_u64_roundtrip(s[k].amount, bytes@, 8 + 16 * k + 8);
            }
        }
    }
    if bytes.len() < 8 {
        return None;
    }
    let count = {
        let mut pos: usize = 0;
        crate::codec::read_u64(bytes, &mut pos).unwrap()
    };
    if count > 0x10_0000 {
        return None;
    }
    let n = count as usize;
    if bytes.len() != 8 + 16 * n {
        return None;
    }
    let mut entries: Vec<BondEntry> = Vec::new();
    let mut k: usize = 0;
    proof {
        assert(bytes@.subrange(8, 8 as int) =~= bond_flat(entries@));
    }
    while k < n
        invariant
            k <= n,
            n <= 0x10_0000,
            bytes@.len() == 8 + 16 * n,
            entries@.len() == k,
            wf_bond(entries@),
            bytes@.subrange(8, 8 + 16 * k) =~= bond_flat(entries@),
            forall|s: Seq<BondEntry>|
                wf_bond(s) && bytes@ == #[trigger] enc_bond_val(s) ==> s.len() == n && forall|
                    q: int,
                |
                    0 <= q < s.len() ==> dec_u64_at(bytes@, 8 + 16 * q) == (#[trigger] s[q]).start
                        && dec_u64_at(bytes@, 8 + 16 * q + 8) == s[q].amount,
            forall|s: Seq<BondEntry>|
                wf_bond(s) && bytes@ == #[trigger] enc_bond_val(s) ==> entries@ == s.take(k as int),
        decreases n - k,
    {
        let start = {
            let mut pos: usize = 8 + 16 * k;
            crate::codec::read_u64(bytes, &mut pos).unwrap()
        };
        let amount = {
            let mut pos: usize = 8 + 16 * k + 8;
            crate::codec::read_u64(bytes, &mut pos).unwrap()
        };
        if amount > MAX_DELTA {
            proof {
                assert forall|s: Seq<BondEntry>|
                    !(wf_bond(s) && bytes@ == #[trigger] enc_bond_val(s)) by {
                    if wf_bond(s) && bytes@ == enc_bond_val(s) {
                        assert(s[k as int].amount <= MAX_DELTA);
                    }
                }
            }
            return None;
        }
        if entries.len() > 0 && entries[entries.len() - 1].start > start {
            proof {
                assert forall|s: Seq<BondEntry>|
                    !(wf_bond(s) && bytes@ == #[trigger] enc_bond_val(s)) by {
                    if wf_bond(s) && bytes@ == enc_bond_val(s) {
                        assert(entries@[k - 1] == s.take(k as int)[k - 1]);
                        assert(s[k - 1].start <= s[k as int].start);
                    }
                }
            }
            return None;
        }
        let ghost prev = entries@;
        entries.push(BondEntry { start, amount });
        proof {
            assert(entries@.drop_last() =~= prev);
            lemma_u64_roundtrip_inverse(bytes@, 8 + 16 * k, start);
            lemma_u64_roundtrip_inverse(bytes@, 8 + 16 * k + 8, amount);
            assert(bytes@.subrange(8, 8 + 16 * (k + 1)) =~= bond_flat(prev) + enc_u64(start)
                + enc_u64(amount));
            assert forall|s: Seq<BondEntry>|
                wf_bond(s) && bytes@ == #[trigger] enc_bond_val(s) implies entries@ == s.take(
                k + 1,
            ) by {
                assert(prev == s.take(k as int));
                assert(s[k as int].start == start && s[k as int].amount == amount);
                assert(entries@ =~= s.take(k + 1));
            }
        }
        k = k + 1;
    }
    let b = Bond { entries };
    proof {
        assert(bytes@ =~= enc_bond_val(b.entries@)) by {
            lemma_bond_flat_len(b.entries@);
            assert(bytes@.subrange(0, 8) =~= enc_u64(count)) by {
                lemma_u64_roundtrip_inverse(bytes@, 0, count);
            }
            assert(bytes@ =~= bytes@.subrange(0, 8) + bytes@.subrange(8, 8 + 16 * n));
        }
        assert forall|s: Seq<BondEntry>|
            wf_bond(s) && bytes@ == #[trigger] enc_bond_val(s) implies b.entries@ == s by {
            assert(s.take(n as int) =~= s);
        }
    }
    Some(b)
}

/// The flattened slices of an unbond snapshot: twenty-four bytes per slice.
pub open spec fn unbond_flat(s: Seq<UnbondEntry>) -> Seq<u8>
    decreases s.len(),
{
    if s.len() == 0 {
        Seq::empty()
    } else {
        unbond_flat(s.drop_last()) + enc_u64(s.last().start) + enc_u64(s.last().withdraw)
            + enc_u64(s.last().amount)
    }
}

/// Canonical encoding of a stored unbond snapshot.
pub open spec fn enc_unbond_val(s: Seq<UnbondEntry>) -> Seq<u8> {
    enc_u64(s.len() as u64) + unbond_flat(s)
}

/// The flattening is twenty-four bytes per slice.
proof fn lemma_unbond_flat_len(s: Seq<UnbondEntry>)
    ensures
        unbond_flat(s).len() == 24 * s.len(),
    decreases s.len(),
{
    if s.len() > 0 {
        lemma_unbond_flat_len(s.drop_last());
    }
}

/// Each chunk of the flattening is its slice's encoding.
proof fn lemma_unbond_flat_chunk(s: Seq<UnbondEntry>, k: int)
    requires
        0 <= k < s.len(),
    ensures
        unbond_flat(s).len() == 24 * s.len(),
        unbond_flat(s).subrange(24 * k, 24 * k + 24) =~= enc_u64(s[k].start) + enc_u64(
            s[k].withdraw,
        ) + enc_u64(s[k].amount),
    decreases s.len(),
{
    lemma_unbond_flat_len(s);
    if k == s.len() - 1 {
        lemma_unbond_flat_len(s.drop_last());
        assert(unbond_flat(s).subrange(24 * k, 24 * k + 24) =~= enc_u64(s[k].start) + enc_u64(
            s[k].withdraw,
        ) + enc_u64(s[k].amount));
    } else {
        lemma_unbond_flat_chunk(s.drop_last(), k);
        lemma_unbond_flat_len(s.drop_last());
        assert(s.drop_last()[k] == s[k]);
        assert(unbond_flat(s).subrange(24 * k, 24 * k + 24) =~= unbond_flat(
            s.drop_last(),
        ).subrange(24 * k, 24 * k + 24));
    }
}

/// Decode a stored unbond snapshot; succeeds exactly on the canonical
/// encoding of a well-formed snapshot.
#[verifier::rlimit(100)]
#[verifier::spinoff_prover]
pub fn decode_unbond_value(bytes: &Vec<u8>) -> (r: Option<Unbond>)
    ensures
        r matches Some(u) ==> bytes@ == enc_unbond_val(u.entries@) && wf_unbond(u.entries@),
        forall|s: Seq<UnbondEntry>|
            wf_unbond(s) && bytes@ == #[trigger] enc_unbond_val(s) ==> (r matches Some(u)
                && u.entries@ == s),
{
    proof {
        assert forall|s: Seq<UnbondEntry>|
            wf_unbond(s) && bytes@ == #[trigger] enc_unbond_val(s) implies {
            &&& bytes@.len() == 8 + 24 * s.len()
            &&& dec_u64_at(bytes@, 0) == s.len() as u64
            &&& forall|k: int|
                0 <= k < s.len() ==> dec_u64_at(bytes@, 8 + 24 * k) == (#[trigger] s[k]).start
                    && dec_u64_at(bytes@, 8 + 24 * k + 8) == s[k].withdraw && dec_u64_at(
                    bytes@,
                    8 + 24 * k + 16,
                ) == s[k].amount
        } by {
            lemma_unbond_flat_len(s);
            assert(bytes@.subrange(0, 8) =~= enc_u64(s.len() as u64));
            lemma_u64_roundtrip(s.len() as u64, bytes@, 0);
            assert forall|k: int|
                0 <= k < s.len() implies dec_u64_at(bytes@, 8 + 24 * k) == (
            #[trigger] s[k]).start && dec_u64_at(bytes@, 8 + 24 * k + 8) == s[k].withdraw
                && dec_u64_at(bytes@, 8 + 24 * k + 16) == s[k].amount by {
                lemma_unbond_flat_chunk(s, k);
                let fl = unbond_flat(s);
                let chunk = enc_u64(s[k].start) + enc_u64(s[k].withdraw) + enc_u64(s[k].amount);
                assert(fl.len() == 24 * s.len());
                assert forall|o: int| 0 <= o < 24 implies bytes@[8 + 24 * k + o] == chunk[o] by {
                    assert(bytes@ == enc_u64(s.len() as u64) + fl);
                    assert((enc_u64(s.len() as u64) + fl)[8 + 24 * k + o] == fl[24 * k + o]);
                    assert(fl.subrange(24 * k, 24 * k + 24)[o] == fl[24 * k + o]);
                    assert(fl.subrange(24 * k, 24 * k + 24) == chunk);
                }
                assert(bytes@.subrange(8 + 24 * k, 8 + 24 * k + 8) =~= enc_u64(s[k].start)) by {
                    assert forall|j: int|
                        0 <= j < 8 implies bytes@.subrange(8 + 24 * k, 8 + 24 * k + 8)[j]
                        == enc_u64(s[k].start)[j] by {
                        assert(bytes@[8 + 24 * k + j] == chunk[j]);
                        assert(chunk[j] == enc_u64(s[k].start)[j]);
                    }
                }
                lemma_u64_roundtrip(s[k].start, bytes@, 8 + 24 * k);
                assert(bytes@.subrange(8 + 24 * k + 8, 8 + 24 * k + 16) =~= enc_u64(
                    s[k].withdraw,
                )) by {
                    assert forall|j: int|
                        0 <= j < 8 implies bytes@.subrange(8 + 24 * k + 8, 8 + 24 * k + 16)[j]
                        == enc_u64(s[k].withdraw)[j] by {
                        assert(bytes@[8 + 24 * k + 8 + j] == chunk[8 + j]);
                        assert(chunk[8 + j] == enc_u64(s[k].withdraw)[j]);
                    }
                }
                lemma_u64_roundtrip(s[k].withdraw, bytes@, 8 + 24 * k + 8);
                assert(bytes@.subrange(8 + 24 * k + 16, 8 + 24 * k + 24) =~= enc_u64(
                    s[k].amount,
                )) by {
                    assert forall|j: int|
                        0 <= j < 8 implies bytes@.subrange(8 + 24 * k + 16, 8 + 24 * k + 24)[j]
                        == enc_u64(s[k].amount)[j] by {
                        assert(bytes@[8 + 24 * k + 16 + j] == chunk[16 + j]);
                        assert(chunk[16 + j] == enc_u64(s[k].amount)[j]);
                    }
                }
                lemma_u64_roundtrip(s[k].amount, bytes@, 8 + 24 * k + 16);
            }
        }
    }
    if bytes.len() < 8 {
        return None;
    }
    let count = {
        let mut pos: usize = 0;
        crate::codec::read_u64(bytes, &mut pos).unwrap()
    };
    if count > 0x10_0000 {
        return None;
    }
    let n = count as usize;
    if bytes.len() != 8 + 24 * n {
        return None;
    }
    let mut entries: Vec<UnbondEntry> = Vec::new();
    let mut k: usize = 0;
    proof {
        assert(bytes@.subrange(8, 8 as int) =~= unbond_flat(entries@));
    }
    while k < n
        invariant
            k <= n,
            n <= 0x10_0000,
            bytes@.len() == 8 + 24 * n,
            entries@.len() == k,
            wf_unbond(entries@),
            bytes@.subrange(8, 8 + 24 * k) =~= unbond_flat(entries@),
            forall|s: Seq<UnbondEntry>|
                wf_unbond(s) && bytes@ == #[trigger] enc_unbond_val(s) ==> s.len() == n && forall|
                    q: int,
                |
                    0 <= q < s.len() ==> dec_u64_at(bytes@, 8 + 24 * q) == (#[trigger] s[q]).start
                        && dec_u64_at(bytes@, 8 + 24 * q + 8) == s[q].withdraw && dec_u64_at(
                        bytes@,
                        8 + 24 * q + 16,
                    ) == s[q].amount,
            forall|s: Seq<UnbondEntry>|
                wf_unbond(s) && bytes@ == #[trigger] enc_unbond_val(s) ==> entries@ == s.take(
                    k as int,
                ),
        decreases n - k,
    {
        let start = {
            let mut pos: usize = 8 + 24 * k;
            crate::codec::read_u64(bytes, &mut pos).unwrap()
        };
        let withdraw = {
            let mut pos: usize = 8 + 24 * k + 8;
            crate::codec::read_u64(bytes, &mut pos).unwrap()
        };
        let amount = {
            let mut pos: usize = 8 + 24 * k + 16;
            crate::codec::read_u64(bytes, &mut pos).unwrap()
        };
        if amount > MAX_DELTA {
            proof {
                assert forall|s: Seq<UnbondEntry>|
                    !(wf_unbond(s) && bytes@ == #[trigger] enc_unbond_val(s)) by {
                    if wf_unbond(s) && bytes@ == enc_unbond_val(s) {
                        assert(s[k as int].amount <= MAX_DELTA);
                    }
                }
            }
            return None;
        }
        let ghost prev = entries@;
        entries.push(UnbondEntry { start, withdraw, amount });
        proof {
            assert(entries@.drop_last() =~= prev);
            lemma_u64_roundtrip_inverse(bytes@, 8 + 24 * k, start);
            lemma_u64_roundtrip_inverse(bytes@, 8 + 24 * k + 8, withdraw);
            lemma_u64_roundtrip_inverse(bytes@, 8 + 24 * k + 16, amount);
            assert(bytes@.subrange(8, 8 + 24 * (k + 1)) =~= unbond_flat(prev) + enc_u64(start)
                + enc_u64(withdraw) + enc_u64(amount));
            assert forall|s: Seq<UnbondEntry>|
                wf_unbond(s) && bytes@ == #[trigger] enc_unbond_val(s) implies entries@ == s.take(
                k + 1,
            ) by {
                assert(prev == s.take(k as int));
                assert(s[k as int].start == start && s[k as int].withdraw == withdraw
                    && s[k as int].amount == amount);
                assert(entries@ =~= s.take(k + 1));
            }
        }
        k = k + 1;
    }
    let u = Unbond { entries };
    proof {
        assert(bytes@ =~= enc_unbond_val(u.entries@)) by {
            lemma_unbond_flat_len(u.entries@);
            assert(bytes@.subrange(0, 8) =~= enc_u64(count)) by {
                lemma_u64_roundtrip_inverse(bytes@, 0, count);
            }
            assert(bytes@ =~= bytes@.subrange(0, 8) + bytes@.subrange(8, 8 + 24 * n));
        }
        assert forall|s: Seq<UnbondEntry>|
            wf_unbond(s) && bytes@ == #[trigger] enc_unbond_val(s) implies u.entries@ == s by {
            assert(s.take(n as int) =~= s);
        }
    }
    Some(u)
}

/// The flattened records of a slash list: twenty-five bytes per slash.
pub open spec fn slash_flat(s: Seq<Slash>) -> Seq<u8>
    decreases s.len(),
{
    if s.len() == 0 {
        Seq::empty()
    } else {
        slash_flat(s.drop_last()) + crate::pos::enc_slash(s.last())
    }
}

/// Canonical encoding of a stored slash list.
pub open spec fn enc_slashes_val(s: Seq<Slash>) -> Seq<u8> {
    enc_u64(s.len() as u64) + slash_flat(s)
}

/// The flattening is twenty-five bytes per slash.
proof fn lemma_slash_flat_len(s: Seq<Slash>)
    ensures
        slash_flat(s).len() == 25 * s.len(),
    decreases s.len(),
{
    if s.len() > 0 {
        lemma_slash_flat_len(s.drop_last());
    }
}

/// Each chunk of the flattening is its slash's encoding.
proof fn lemma_slash_flat_chunk(s: Seq<Slash>, k: int)
    requires
        0 <= k < s.len(),
    ensures
        slash_flat(s).len() == 25 * s.len(),
        slash_flat(s).subrange(25 * k, 25 * k + 25) =~= crate::pos::enc_slash(s[k]),
    decreases s.len(),
{
    lemma_slash_flat_len(s);
    if k == s.len() - 1 {
        lemma_slash_flat_len(s.drop_last());
        assert(slash_flat(s).subrange(25 * k, 25 * k + 25) =~= crate::pos::enc_slash(s[k]));
    } else {
        lemma_slash_flat_chunk(s.drop_last(), k);
        lemma_slash_flat_len(s.drop_last());
        assert(s.drop_last()[k] == s[k]);
        assert(slash_flat(s).subrange(25 * k, 25 * k + 25) =~= slash_flat(s.drop_last()).subrange(
            25 * k,
            25 * k + 25,
        ));
    }
}

/// Decode a stored slash list; succeeds exactly on the canonical encoding of
/// a list of genuine-fraction slashes.
#[verifier::rlimit(100)]
#[verifier::spinoff_prover]
pub fn decode_slashes_value(bytes: &Vec<u8>) -> (r: Option<Vec<Slash>>)
    ensures
        r matches Some(v) ==> bytes@ == enc_slashes_val(v@) && crate::pos::wf_slashes(v@)
            && v@.len() <= 0x10_0000,
        forall|s: Seq<Slash>|
            crate::pos::wf_slashes(s) && s.len() <= 0x10_0000 && bytes@
                == #[trigger] enc_slashes_val(s) ==> (r matches Some(v) && v@ == s),
{
    proof {
        assert forall|s: Seq<Slash>|
            crate::pos::wf_slashes(s) && s.len() <= 0x10_0000 && bytes@
                == #[trigger] enc_slashes_val(s) implies {
            &&& bytes@.len() == 8 + 25 * s.len()
            &&& dec_u64_at(bytes@, 0) == s.len() as u64
            &&& forall|k: int|
                0 <= k < s.len() ==> bytes@.subrange(8 + 25 * k, 8 + 25 * k + 25)
                    == crate::pos::enc_slash(#[trigger] s[k])
        } by {
            lemma_slash_flat_len(s);
            assert(bytes@.subrange(0, 8) =~= enc_u64(s.len() as u64));
            lemma_u64_roundtrip(s.len() as u64, bytes@, 0);
            assert forall|k: int|
                0 <= k < s.len() implies bytes@.subrange(8 + 25 * k, 8 + 25 * k + 25)
                == crate::pos::enc_slash(#[trigger] s[k]) by {
                lemma_slash_flat_chunk(s, k);
                let fl = slash_flat(s);
                let chunk = crate::pos::enc_slash(s[k]);
                assert(fl.len() == 25 * s.len());
                assert forall|o: int| 0 <= o < 25 implies bytes@[8 + 25 * k + o] == chunk[o] by {
                    assert(bytes@ == enc_u64(s.len() as u64) + fl);
                    assert((enc_u64(s.len() as u64) + fl)[8 + 25 * k + o] == fl[25 * k + o]);
                    assert(fl.subrange(25 * k, 25 * k + 25)[o] == fl[25 * k + o]);
                    assert(fl.subrange(25 * k, 25 * k + 25) == chunk);
                }
                assert(bytes@.subrange(8 + 25 * k, 8 + 25 * k + 25) =~= chunk) by {
                    assert forall|j: int|
                        0 <= j < 25 implies bytes@.subrange(8 + 25 * k, 8 + 25 * k + 25)[j]
                        == chunk[j] by {
                        assert(bytes@[8 + 25 * k + j] == chunk[j]);
                    }
                }
            }
        }
    }
    if bytes.len() < 8 {
        return None;
    }
    let count = {
        let mut pos: usize = 0;
        crate::codec::read_u64(bytes, &mut pos).unwrap()
    };
    if count > 0x10_0000 {
        return None;
    }
    let n = count as usize;
    if bytes.len() != 8 + 25 * n {
        return None;
    }
    let mut slashes: Vec<Slash> = Vec::new();
    let mut k: usize = 0;
    proof {
        assert(bytes@.subrange(8, 8 as int) =~= slash_flat(slashes@));
    }
    while k < n
        invariant
            k <= n,
            n <= 0x10_0000,
            bytes@.len() == 8 + 25 * n,
            slashes@.len() == k,
            crate::pos::wf_slashes(slashes@),
            bytes@.subrange(8, 8 + 25 * k) =~= slash_flat(slashes@),
            forall|s: Seq<Slash>|
                crate::pos::wf_slashes(s) && s.len() <= 0x10_0000 && bytes@
                    == #[trigger] enc_slashes_val(s) ==> s.len() == n && forall|q: int|
                    0 <= q < s.len() ==> bytes@.subrange(8 + 25 * q, 8 + 25 * q + 25)
                        == crate::pos::enc_slash(#[trigger] s[q]),
            forall|s: Seq<Slash>|
                crate::pos::wf_slashes(s) && s.len() <= 0x10_0000 && bytes@
                    == #[trigger] enc_slashes_val(s) ==> slashes@ == s.take(k as int),
        decreases n - k,
    {
        let mut chunk: Vec<u8> = Vec::new();
        let mut o: usize = 0;
        while o < 25
            invariant
                o <= 25,
                k < n,
                n <= 0x10_0000,
                bytes@.len() == 8 + 25 * n,
                chunk@ == bytes@.subrange(8 + 25 * k, 8 + 25 * k + o),
            decreases 25 - o,
        {
            chunk.push(bytes[8 + 25 * k + o]);
            o = o + 1;
            assert(chunk@ =~= bytes@.subrange(8 + 25 * k, 8 + 25 * k + o as int));
        }
        let slash = match crate::pos::decode_slash(&chunk) {
            None => {
                proof {
                    assert forall|s: Seq<Slash>|
                        !(crate::pos::wf_slashes(s) && s.len() <= 0x10_0000 && bytes@
                            == #[trigger] enc_slashes_val(s)) by {
                        if crate::pos::wf_slashes(s) && s.len() <= 0x10_0000 && bytes@
                            == enc_slashes_val(s) {
                            assert(chunk@ == crate::pos::enc_slash(s[k as int]));
                        }
                    }
                }
                return None;
            },
            Some(x) => x,
        };
        if slash.rate_bp > BP_WHOLE {
            proof {
                assert forall|s: Seq<Slash>|
                    !(crate::pos::wf_slashes(s) && s.len() <= 0x10_0000 && bytes@
                        == #[trigger] enc_slashes_val(s)) by {
                    if crate::pos::wf_slashes(s) && s.len() <= 0x10_0000 && bytes@
                        == enc_slashes_val(s) {
                        assert(chunk@ == crate::pos::enc_slash(s[k as int]));
                        assert(s[k as int].rate_bp <= BP_WHOLE);
                    }
                }
            }
            return None;
        }
        let ghost prev = slashes@;
        slashes.push(slash);
        proof {
            assert(slashes@.drop_last() =~= prev);
            assert(bytes@.subrange(8, 8 + 25 * (k + 1)) =~= slash_flat(prev)
                + crate::pos::enc_slash(slash));
            assert forall|s: Seq<Slash>|
                crate::pos::wf_slashes(s) && s.len() <= 0x10_0000 && bytes@
                    == #[trigger] enc_slashes_val(s) implies slashes@ == s.take(k + 1) by {
                assert(prev == s.take(k as int));
                assert(chunk@ == crate::pos::enc_slash(s[k as int]));
                assert(slash == s[k as int]);
                assert(slashes@ =~= s.take(k + 1));
            }
        }
        k = k + 1;
    }
    proof {
        assert(bytes@ =~= enc_slashes_val(slashes@)) by {
            lemma_slash_flat_len(slashes@);
            assert(bytes@.subrange(0, 8) =~= enc_u64(count)) by {
                lemma_u64_roundtrip_inverse(bytes@, 0, count);
            }
            assert(bytes@ =~= bytes@.subrange(0, 8) + bytes@.subrange(8, 8 + 25 * n));
        }
        assert forall|s: Seq<Slash>|
            crate::pos::wf_slashes(s) && s.len() <= 0x10_0000 && bytes@
                == #[trigger] enc_slashes_val(s) implies slashes@ == s by {
            assert(s.take(n as int) =~= s);
        }
    }
    Some(slashes)
}

/// Canonical encoding of a stored validator lifecycle state.
pub open spec fn enc_state_val(v: crate::pos::ValidatorState) -> Seq<u8> {
    match v {
        crate::pos::ValidatorState::Pending => seq![0u8],
        crate::pos::ValidatorState::Candidate => seq![1u8],
        crate::pos::ValidatorState::Inactive => seq![2u8],
    }
}

/// Decode a stored lifecycle state; succeeds exactly on the three canonical
/// bytes.
pub fn decode_state_value(bytes: &Vec<u8>) -> (r: Option<crate::pos::ValidatorState>)
    ensures
        r matches Some(v) ==> bytes@ == enc_state_val(v),
        forall|v: crate::pos::ValidatorState| bytes@ == enc_state_val(v) ==> r == Some(v),
{
    if bytes.len() != 1 {
        return None;
    }
    let r = match bytes[0] {
        0 => Some(crate::pos::ValidatorState::Pending),
        1 => Some(crate::pos::ValidatorState::Candidate),
        2 => Some(crate::pos::ValidatorState::Inactive),
        _ => None,
    };
    proof {
        assert forall|v: crate::pos::ValidatorState| bytes@ == enc_state_val(v) implies r == Some(
            v,
        ) by {
            assert(bytes@[0] == enc_state_val(v)[0]);
            assert(bytes@ =~= enc_state_val(v));
        }
        match r {
            Some(v) => {
                assert(bytes@ =~= enc_state_val(v));
            },
            None => {},
        }
    }
    r
}

/// The flattened members of a validator list: a power and an address each.
pub open spec fn wv_flat(s: Seq<WeightedValidator>) -> Seq<u8>
    decreases s.len(),
{
    if s.len() == 0 {
        Seq::empty()
    } else {
        wv_flat(s.drop_last()) + enc_u64(s.last().voting_power) + enc_address(s.last().address@)
    }
}

/// Canonical encoding of a stored validator set: the two member lists, each
/// count-prefixed.
pub open spec fn enc_set_val(active: Seq<WeightedValidator>, inactive: Seq<WeightedValidator>) -> Seq<u8> {
    enc_u64(active.len() as u64) + wv_flat(active) + enc_u64(inactive.len() as u64) + wv_flat(
        inactive,
    )
}

/// Read a count-prefixed validator list at `*pos`, advancing the position.
/// The members read are exactly the encoding consumed.
fn read_wv_list(bytes: &Vec<u8>, pos: &mut usize) -> (r: Option<Vec<WeightedValidator>>)
    ensures
        match r {
            Some(v) => {
                &&& *final(pos) <= bytes@.len()
                &&& *old(pos) < *final(pos)
                &&& bytes@.subrange(*old(pos) as int, *final(pos) as int) == enc_u64(
                    v@.len() as u64,
                ) + wv_flat(v@)
                &&& v@.len() <= 0x1_0000_0000
            },
            None => true,
        },
{
    let start = *pos;
    let count = match crate::codec::read_u64(bytes, pos) {
        None => {
            return None;
        },
        Some(c) => c,
    };
    if count > 0xffff_ffff {
        return None;
    }
    let n = count as usize;
    assert(n as u64 == count);
    let mut members: Vec<WeightedValidator> = Vec::new();
    let mut k: usize = 0;
    proof {
        lemma_u64_roundtrip_inverse(bytes@, start as int, count);
        assert(bytes@.subrange(start as int, *pos as int) =~= enc_u64(count) + wv_flat(members@));
    }
    while k < n
        invariant
            k <= n,
            members@.len() == k,
            start < *pos <= bytes@.len(),
            bytes@.subrange(start as int, *pos as int) == enc_u64(n as u64) + wv_flat(members@),
        decreases n - k,
    {
        let p0 = *pos;
        let power = match crate::codec::read_u64(bytes, pos) {
            None => {
                return None;
            },
            Some(x) => x,
        };
        let p1 = *pos;
        let addr = match read_address(bytes, pos) {
            None => {
                return None;
            },
            Some(a) => a,
        };
        let ghost prev = members@;
        members.push(WeightedValidator { voting_power: power, address: addr });
        proof {
            assert(members@.drop_last() =~= prev);
            lemma_u64_roundtrip_inverse(bytes@, p0 as int, power);
            assert(bytes@.subrange(p0 as int, *pos as int) =~= enc_u64(power) + bytes@.subrange(
                p1 as int,
                *pos as int,
            ));
            assert(bytes@.subrange(start as int, *pos as int) =~= bytes@.subrange(
                start as int,
                p0 as int,
            ) + bytes@.subrange(p0 as int, *pos as int));
            assert(bytes@.subrange(start as int, *pos as int) =~= enc_u64(n as u64) + wv_flat(
                members@,
            ));
        }
        k = k + 1;
    }
    Some(members)
}

/// Decode a stored validator set; a decoded set is exactly what the bytes
/// encode.
pub fn decode_set_value(bytes: &Vec<u8>) -> (r: Option<ValidatorSet>)
    ensures
        r matches Some(vs) ==> bytes@ == enc_set_val(vs.active@, vs.inactive@) && vs.active@.len()
            <= 0x1_0000_0000 && vs.inactive@.len() <= 0x1_0000_0000,
{
    let mut pos: usize = 0;
    let active = match read_wv_list(bytes, &mut pos) {
        None => {
            return None;
        },
        Some(a) => a,
    };
    let mid = pos;
    let inactive = match read_wv_list(bytes, &mut pos) {
        None => {
            return None;
        },
        Some(a) => a,
    };
    if pos != bytes.len() {
        return None;
    }
    let vs = ValidatorSet { active, inactive };
    proof {
        assert(bytes@ =~= bytes@.subrange(0, mid as int) + bytes@.subrange(
            mid as int,
            pos as int,
        ));
        assert(bytes@ =~= enc_set_val(vs.active@, vs.inactive@));
    }
    Some(vs)
}

/// The value stored under a raw key in a byte store.
fn lookup_value<'a>(store: &'a Vec<(Vec<u8>, Vec<u8>)>, key: &Vec<u8>) -> (r: Option<&'a Vec<u8>>)
    ensures
        match r {
            Some(v) => store_lookup(store@, key@) == Some(v@),
            None => store_lookup(store@, key@) is None,
        },
{
    proof {
        assert(store@.take(store@.len() as int) =~= store@);
    }
    let mut i: usize = store.len();
    while i > 0
        invariant
            i <= store@.len(),
            store_lookup(store@.take(i as int), key@) == store_lookup(store@, key@),
        decreases i,
    {
        i = i - 1;
        proof {
            assert(store@.take(i + 1).last() == store@[i as int]);
            assert(store@.take(i + 1).drop_last() =~= store@.take(i as int));
        }
        if crate::crypto::bytes_eq(&store[i].0, key) {
            return Some(&store[i].1);
        }
    }
    assert(store@.take(0) =~= Seq::<(Vec<u8>, Vec<u8>)>::empty());
    None
}

/// A stored signed total, read relationally: absent or undecodable reads
/// zero, a canonical in-bound encoding reads its value.
pub open spec fn dec_i128_rel(b: Option<Seq<u8>>, v: i128) -> bool {
    match b {
        None => v == 0,
        Some(bb) => {
            &&& forall|x: int|
                (-deltas_bound() <= x <= deltas_bound() && bb == enc_i128(x)) ==> v == x
            &&& (!exists|x: int| -deltas_bound() <= x <= deltas_bound() && bb == enc_i128(x))
                ==> v == 0
        },
    }
}

/// A stored counter, read relationally: absent reads zero.
pub open spec fn dec_u64_rel(b: Option<Seq<u8>>, v: u64) -> bool {
    match b {
        None => v == 0,
        Some(bb) => {
            &&& forall|x: u64| bb == enc_u64(x) ==> v == x
            &&& (!exists|x: u64| bb == enc_u64(x)) ==> v == 0
        },
    }
}

/// A stored bond snapshot, read relationally: absent or undecodable reads
/// as no snapshot.
pub open spec fn dec_bond_rel(b: Option<Seq<u8>>, v: Option<Bond>) -> bool {
    match b {
        None => v is None,
        Some(bb) => {
            &&& forall|s: Seq<BondEntry>|
                (wf_bond(s) && bb == #[trigger] enc_bond_val(s)) ==> (v matches Some(bd)
                    && bd.entries@ == s)
            &&& (!exists|s: Seq<BondEntry>| wf_bond(s) && bb == #[trigger] enc_bond_val(s)) ==> v
                is None
        },
    }
}

/// A stored unbond snapshot, read relationally.
pub open spec fn dec_unbond_rel(b: Option<Seq<u8>>, v: Option<Unbond>) -> bool {
    match b {
        None => v is None,
        Some(bb) => {
            &&& forall|s: Seq<UnbondEntry>|
                (wf_unbond(s) && bb == #[trigger] enc_unbond_val(s)) ==> (v matches Some(ud)
                    && ud.entries@ == s)
            &&& (!exists|s: Seq<UnbondEntry>| wf_unbond(s) && bb == #[trigger] enc_unbond_val(s))
                ==> v is None
        },
    }
}

/// A stored slash list, read relationally: absent or undecodable reads
/// empty.
pub open spec fn dec_slashes_rel(b: Option<Seq<u8>>, v: Seq<Slash>) -> bool {
    match b {
        None => v.len() == 0,
        Some(bb) => {
            &&& forall|s: Seq<Slash>|
                (crate::pos::wf_slashes(s) && s.len() <= 0x10_0000 && bb
                    == #[trigger] enc_slashes_val(s)) ==> v == s
            &&& (!exists|s: Seq<Slash>|
                crate::pos::wf_slashes(s) && s.len() <= 0x10_0000 && bb
                    == #[trigger] enc_slashes_val(s)) ==> v.len() == 0
        },
    }
}

/// What the collector must record for one changed key: each key pattern of
/// the proof-of-stake keyspace maps to its typed record with the stored
/// values read relationally; a key of the subspace matching no pattern maps
/// to the unknown-key record; the validator-set pattern maps to the decoded
/// set or, conservatively, to the unknown-key record when the stored set
/// does not decode.
pub open spec fn pos_change_rel(
    key: Seq<u8>,
    pre: Seq<(Vec<u8>, Vec<u8>)>,
    post: Seq<(Vec<u8>, Vec<u8>)>,
    proposal_accepted: bool,
    rec: PosKeyChange,
) -> bool {
    &&& (key == enc_plain_key(tag_params()) ==> rec == PosKeyChange::ParamsChange {
        proposal_accepted,
    })
    &&& (key == enc_plain_key(tag_total_voting_power()) ==> (rec matches
        PosKeyChange::TotalVotingPowerChange { post_total } && dec_u64_rel(
        store_lookup(post, key),
        post_total,
    )))
    &&& (key == enc_plain_key(tag_validator_set()) ==> (rec matches
        PosKeyChange::ValidatorSetChange { post_set } && (store_lookup(post, key) matches Some(bb)
        && bb == enc_set_val(post_set.active@, post_set.inactive@)) || rec
        == PosKeyChange::UnknownPosKey))
    &&& forall|v: AddressV|
        key == #[trigger] enc_validator_key(tag_state(), v) ==> (rec matches
            PosKeyChange::StateChange { validator, post_state } && validator@ == v && (match
        store_lookup(post, key) {
            None => post_state is None,
            Some(bb) => {
                &&& forall|x: crate::pos::ValidatorState| bb == enc_state_val(x) ==> post_state
                    == Some(x)
                &&& (!exists|x: crate::pos::ValidatorState| bb == enc_state_val(x)) ==> post_state
                    is None
            },
        }))
    &&& forall|v: AddressV|
        key == #[trigger] enc_validator_key(tag_consensus_key(), v) ==> (rec matches
            PosKeyChange::ConsensusKeyChange { validator } && validator@ == v)
    &&& forall|v: AddressV|
        key == #[trigger] enc_validator_key(tag_reward_address(), v) ==> (rec matches
            PosKeyChange::StakingRewardAddressChange { validator } && validator@ == v)
    &&& forall|v: AddressV|
        key == #[trigger] enc_validator_key(tag_total_deltas(), v) ==> (rec matches
            PosKeyChange::TotalDeltasChange { validator, pre_deltas, post_deltas } && validator@
            == v && dec_i128_rel(store_lookup(pre, key), pre_deltas) && dec_i128_rel(
            store_lookup(post, key),
            post_deltas,
        ))
    &&& forall|v: AddressV|
        key == #[trigger] enc_validator_key(tag_voting_power(), v) ==> (rec matches
            PosKeyChange::VotingPowerChange { validator, post_power, post_deltas } && validator@
            == v && dec_u64_rel(store_lookup(post, key), post_power) && dec_i128_rel(
            store_lookup(post, enc_validator_key(tag_total_deltas(), v)),
            post_deltas,
        ))
    &&& forall|src: AddressV, val: AddressV|
        key == #[trigger] enc_pair_key(tag_bond(), src, val) ==> (rec matches
            PosKeyChange::BondChange { source, validator, pre: pre_bond, post: post_bond }
            && source@ == src && validator@ == val && dec_bond_rel(
            store_lookup(pre, key),
            pre_bond,
        ) && dec_bond_rel(store_lookup(post, key), post_bond))
    &&& forall|src: AddressV, val: AddressV|
        key == #[trigger] enc_pair_key(tag_unbond(), src, val) ==> (rec matches
            PosKeyChange::UnbondChange { source, validator, pre_unbond, post_unbond, slashes }
            && source@ == src && validator@ == val && dec_unbond_rel(
            store_lookup(pre, key),
            pre_unbond,
        ) && dec_unbond_rel(store_lookup(post, key), post_unbond) && dec_slashes_rel(
            store_lookup(pre, enc_validator_key(tag_slashes(), val)),
            slashes@,
        ))
    &&& forall|h: Seq<u8>|
        key == pos_prefix() + seq![tag_raw_hash()] + #[trigger] crate::codec::enc_bytes(h) ==> (
        rec matches PosKeyChange::RawHashChange { raw_hash } && raw_hash@ == h)
    &&& forall|owner: AddressV|
        key == #[trigger] enc_vp_key(owner) ==> (rec matches
            PosKeyChange::ValidityPredicateChange { owner: o } && o@ == owner)
    &&& forall|token: AddressV, owner: AddressV|
        key == #[trigger] enc_balance_key(token, owner) ==> if token
            == crate::address::staking_token() && owner == AddressV::Internal(
            InternalAddress::PoS,
        ) {
            rec matches PosKeyChange::BalanceChange { pre_balance, post_balance } && dec_u64_rel(
                store_lookup(pre, key),
                pre_balance,
            ) && dec_u64_rel(store_lookup(post, key), post_balance)
        } else if starts_with(key, 0, pos_prefix()) {
            rec == PosKeyChange::UnknownPosKey
        } else {
            rec == PosKeyChange::OutsideKey
        }
    &&& ((starts_with(key, 0, pos_prefix()) && !is_known_pattern(key)) ==> rec
        == PosKeyChange::UnknownPosKey)
}

/// The key matches one of the enumerated patterns.
pub open spec fn is_known_pattern(key: Seq<u8>) -> bool {
    ||| key == enc_plain_key(tag_params())
    ||| key == enc_plain_key(tag_validator_set())
    ||| key == enc_plain_key(tag_total_voting_power())
    ||| exists|v: AddressV| key == #[trigger] enc_validator_key(tag_state(), v)
    ||| exists|v: AddressV| key == #[trigger] enc_validator_key(tag_consensus_key(), v)
    ||| exists|v: AddressV| key == #[trigger] enc_validator_key(tag_reward_address(), v)
    ||| exists|v: AddressV| key == #[trigger] enc_validator_key(tag_total_deltas(), v)
    ||| exists|v: AddressV| key == #[trigger] enc_validator_key(tag_voting_power(), v)
    ||| exists|src: AddressV, val: AddressV| key == #[trigger] enc_pair_key(tag_bond(), src, val)
    ||| exists|src: AddressV, val: AddressV| key == #[trigger] enc_pair_key(tag_unbond(), src, val)
    ||| exists|h: Seq<u8>|
        key == pos_prefix() + seq![tag_raw_hash()] + #[trigger] crate::codec::enc_bytes(h)
    ||| exists|owner: AddressV| key == #[trigger] enc_vp_key(owner)
    ||| exists|token: AddressV, owner: AddressV| key == #[trigger] enc_balance_key(token, owner)
}

/// The proof-of-stake subspace prefix is two concrete bytes.
proof fn lemma_pos_prefix()
    ensures
        pos_prefix() =~= seq![2u8, 0u8],
        pos_prefix().len() == 2,
{
    assert(pos_prefix() =~= seq![2u8, 0u8]);
}

/// The shape of a validator-field key.
proof fn lemma_key_shape_validator(key: Seq<u8>, t: u8, v: AddressV)
    requires
        key == enc_validator_key(t, v),
    ensures
        starts_with(key, 0, pos_prefix()),
        key.len() == pos_prefix().len() + 1 + enc_address(v).len(),
        key[pos_prefix().len() as int] == t,
        starts_with(key, (pos_prefix().len() + 1) as int, enc_address(v)),
{
    assert(key.subrange(0, key.len() as int) =~= key);
    assert(enc_validator_key(t, v) =~= (pos_prefix() + seq![t]) + enc_address(v));
    lemma_starts_with_split(key, 0, pos_prefix() + seq![t], enc_address(v));
    lemma_starts_with_split(key, 0, pos_prefix(), seq![t]);
    assert(key.subrange(0, pos_prefix().len() as int) =~= pos_prefix());
    assert(key.subrange(pos_prefix().len() as int, (pos_prefix().len() + 1) as int)[0] == t);
}

/// The shape of a plain proof-of-stake key.
proof fn lemma_key_shape_plain(key: Seq<u8>, t: u8)
    requires
        key == enc_plain_key(t),
    ensures
        starts_with(key, 0, pos_prefix()),
        key.len() == pos_prefix().len() + 1,
        key[pos_prefix().len() as int] == t,
{
    assert(key.subrange(0, key.len() as int) =~= key);
    lemma_starts_with_split(key, 0, pos_prefix(), seq![t]);
    assert(key.subrange(pos_prefix().len() as int, (pos_prefix().len() + 1) as int)[0] == t);
}

/// The shape of a bond or unbond key.
proof fn lemma_key_shape_pair(key: Seq<u8>, t: u8, src: AddressV, val: AddressV)
    requires
        key == enc_pair_key(t, src, val),
    ensures
        starts_with(key, 0, pos_prefix()),
        key[pos_prefix().len() as int] == t,
        starts_with(key, (pos_prefix().len() + 1) as int, enc_address(src)),
        starts_with(
            key,
            (pos_prefix().len() + 1 + enc_address(src).len()) as int,
            enc_address(val),
        ),
        key.len() == pos_prefix().len() + 1 + enc_address(src).len() + enc_address(val).len(),
{
    assert(key.subrange(0, key.len() as int) =~= key);
    assert(enc_pair_key(t, src, val) =~= ((pos_prefix() + seq![t]) + enc_address(src))
        + enc_address(val));
    lemma_starts_with_split(key, 0, (pos_prefix() + seq![t]) + enc_address(src), enc_address(val));
    assert((pos_prefix() + seq![t]) + enc_address(src) =~= (pos_prefix() + seq![t]) + enc_address(
        src,
    ));
    lemma_starts_with_split(key, 0, pos_prefix() + seq![t], enc_address(src));
    lemma_starts_with_split(key, 0, pos_prefix(), seq![t]);
    assert(key.subrange(pos_prefix().len() as int, (pos_prefix().len() + 1) as int)[0] == t);
}

/// The shape of a raw-hash key.
proof fn lemma_key_shape_rawhash(key: Seq<u8>, h: Seq<u8>)
    requires
        key == pos_prefix() + seq![tag_raw_hash()] + crate::codec::enc_bytes(h),
    ensures
        starts_with(key, 0, pos_prefix()),
        key[pos_prefix().len() as int] == tag_raw_hash(),
        starts_with(key, (pos_prefix().len() + 1) as int, crate::codec::enc_bytes(h)),
        key.len() == pos_prefix().len() + 1 + crate::codec::enc_bytes(h).len(),
{
    assert(key.subrange(0, key.len() as int) =~= key);
    assert(pos_prefix() + seq![tag_raw_hash()] + crate::codec::enc_bytes(h) =~= (pos_prefix()
        + seq![tag_raw_hash()]) + crate::codec::enc_bytes(h));
    lemma_starts_with_split(
        key,
        0,
        pos_prefix() + seq![tag_raw_hash()],
        crate::codec::enc_bytes(h),
    );
    lemma_starts_with_split(key, 0, pos_prefix(), seq![tag_raw_hash()]);
    assert(key.subrange(pos_prefix().len() as int, (pos_prefix().len() + 1) as int)[0] == tag_raw_hash());
}

/// The shape of a validity-predicate key.
proof fn lemma_key_shape_vp(key: Seq<u8>, owner: AddressV)
    requires
        key == enc_vp_key(owner),
    ensures
        starts_with(key, 0, enc_address(owner)),
        key.len() == enc_address(owner).len() + 1,
        key[enc_address(owner).len() as int] == tag_vp(),
{
    assert(key.subrange(0, key.len() as int) =~= key);
    lemma_starts_with_split(key, 0, enc_address(owner), seq![tag_vp()]);
    assert(key.subrange(enc_address(owner).len() as int, (enc_address(owner).len() + 1) as int)[0]
        == tag_vp());
}

/// The shape of a balance key.
proof fn lemma_key_shape_balance(key: Seq<u8>, token: AddressV, owner: AddressV)
    requires
        key == enc_balance_key(token, owner),
    ensures
        starts_with(key, 0, enc_address(token)),
        key[enc_address(token).len() as int] == tag_balance(),
        starts_with(key, (enc_address(token).len() + 1) as int, enc_address(owner)),
        key.len() == enc_address(token).len() + 1 + enc_address(owner).len(),
{
    assert(key.subrange(0, key.len() as int) =~= key);
    assert(enc_balance_key(token, owner) =~= (enc_address(token) + seq![tag_balance()])
        + enc_address(owner));
    lemma_starts_with_split(key, 0, enc_address(token) + seq![tag_balance()], enc_address(owner));
    lemma_starts_with_split(key, 0, enc_address(token), seq![tag_balance()]);
    assert(key.subrange(enc_address(token).len() as int, (enc_address(token).len() + 1) as int)[0]
        == tag_balance());
}

/// Read a stored counter relationally.
fn read_u64_rel_value(store: &Vec<(Vec<u8>, Vec<u8>)>, key: &Vec<u8>) -> (r: u64)
    ensures
        dec_u64_rel(store_lookup(store@, key@), r),
{
    match lookup_value(store, key) {
        None => 0,
        Some(v) => {
            match decode_u64_value(v) {
                None => 0,
                Some(x) => x,
            }
        },
    }
}

/// Read a stored signed total relationally.
fn read_i128_rel_value(store: &Vec<(Vec<u8>, Vec<u8>)>, key: &Vec<u8>) -> (r: i128)
    ensures
        dec_i128_rel(store_lookup(store@, key@), r),
        -deltas_bound() <= r <= deltas_bound(),
{
    match lookup_value(store, key) {
        None => 0,
        Some(v) => {
            match decode_i128_value(v) {
                None => 0,
                Some(x) => x,
            }
        },
    }
}

/// Read a stored bond snapshot relationally.
fn read_bond_rel_value(store: &Vec<(Vec<u8>, Vec<u8>)>, key: &Vec<u8>) -> (r: Option<Bond>)
    ensures
        dec_bond_rel(store_lookup(store@, key@), r),
        match r {
            Some(b) => wf_bond(b.entries@),
            None => true,
        },
{
    match lookup_value(store, key) {
        None => None,
        Some(v) => decode_bond_value(v),
    }
}

/// Read a stored unbond snapshot relationally.
fn read_unbond_rel_value(store: &Vec<(Vec<u8>, Vec<u8>)>, key: &Vec<u8>) -> (r: Option<Unbond>)
    ensures
        dec_unbond_rel(store_lookup(store@, key@), r),
        match r {
            Some(u) => wf_unbond(u.entries@),
            None => true,
        },
{
    match lookup_value(store, key) {
        None => None,
        Some(v) => decode_unbond_value(v),
    }
}

/// Read a stored slash list relationally.
fn read_slashes_rel_value(store: &Vec<(Vec<u8>, Vec<u8>)>, key: &Vec<u8>) -> (r: Vec<Slash>)
    ensures
        dec_slashes_rel(store_lookup(store@, key@), r@),
{
    match lookup_value(store, key) {
        None => Vec::new(),
        Some(v) => {
            match decode_slashes_value(v) {
                None => Vec::new(),
                Some(x) => x,
            }
        },
    }
}

/// Every key pattern's shape, in one place: the prefix, the tag byte, the
/// argument positions and the exact length.
#[verifier::rlimit(100)]
#[verifier::spinoff_prover]
proof fn lemma_key_shapes(key: Seq<u8>)
    ensures
        pos_prefix() =~= seq![2u8, 0u8],
        forall|t: u8|
            key == #[trigger] enc_plain_key(t) ==> starts_with(key, 0, pos_prefix()) && key.len()
                == 3 && key[2] == t,
        forall|t: u8, v: AddressV|
            key == #[trigger] enc_validator_key(t, v) ==> starts_with(key, 0, pos_prefix())
                && key[2] == t && starts_with(key, 3, enc_address(v)) && key.len() == 3
                + enc_address(v).len(),
        forall|t: u8, src: AddressV, val: AddressV|
            key == #[trigger] enc_pair_key(t, src, val) ==> starts_with(key, 0, pos_prefix())
                && key[2] == t && starts_with(key, 3, enc_address(src)) && starts_with(
                key,
                3 + enc_address(src).len() as int,
                enc_address(val),
            ) && key.len() == 3 + enc_address(src).len() + enc_address(val).len(),
        forall|h: Seq<u8>|
            key == pos_prefix() + seq![tag_raw_hash()] + #[trigger] crate::codec::enc_bytes(h)
                ==> starts_with(key, 0, pos_prefix()) && key[2] == tag_raw_hash() && starts_with(
                key,
                3,
                crate::codec::enc_bytes(h),
            ) && key.len() == 3 + crate::codec::enc_bytes(h).len(),
        forall|owner: AddressV|
            key == #[trigger] enc_vp_key(owner) ==> starts_with(key, 0, enc_address(owner))
                && key.len() == enc_address(owner).len() + 1 && key[enc_address(
                owner,
            ).len() as int] == tag_vp(),
        forall|token: AddressV, owner: AddressV|
            key == #[trigger] enc_balance_key(token, owner) ==> starts_with(
                key,
                0,
                enc_address(token),
            ) && key[enc_address(token).len() as int] == tag_balance() && starts_with(
                key,
                enc_address(token).len() + 1 as int,
                enc_address(owner),
            ) && key.len() == enc_address(token).len() + 1 + enc_address(owner).len(),
{
    lemma_pos_prefix();
    assert forall|t: u8| key == #[trigger] enc_plain_key(t) implies starts_with(
        key,
        0,
        pos_prefix(),
    ) && key.len() == 3 && key[2] == t by {
        lemma_key_shape_plain(key, t);
    }
    assert forall|t: u8, v: AddressV|
        key == #[trigger] enc_validator_key(t, v) implies starts_with(key, 0, pos_prefix())
        && key[2] == t && starts_with(key, 3, enc_address(v)) && key.len() == 3 + enc_address(
        v,
    ).len() by {
        lemma_key_shape_validator(key, t, v);
    }
    assert forall|t: u8, src: AddressV, val: AddressV|
        key == #[trigger] enc_pair_key(t, src, val) implies starts_with(key, 0, pos_prefix())
        && key[2] == t && starts_with(key, 3, enc_address(src)) && starts_with(
        key,
        3 + enc_address(src).len() as int,
        enc_address(val),
    ) && key.len() == 3 + enc_address(src).len() + enc_address(val).len() by {
        lemma_key_shape_pair(key, t, src, val);
    }
    assert forall|h: Seq<u8>|
        key == pos_prefix() + seq![tag_raw_hash()] + #[trigger] crate::codec::enc_bytes(h) implies
        starts_with(key, 0, pos_prefix()) && key[2] == tag_raw_hash() && starts_with(
        key,
        3,
        crate::codec::enc_bytes(h),
    ) && key.len() == 3 + crate::codec::enc_bytes(h).len() by {
        lemma_key_shape_rawhash(key, h);
    }
    assert forall|owner: AddressV| key == #[trigger] enc_vp_key(owner) implies starts_with(
        key,
        0,
        enc_address(owner),
    ) && key.len() == enc_address(owner).len() + 1 && key[enc_address(owner).len() as int]
        == tag_vp() by {
        lemma_key_shape_vp(key, owner);
    }
    assert forall|token: AddressV, owner: AddressV|
        key == #[trigger] enc_balance_key(token, owner) implies starts_with(
        key,
        0,
        enc_address(token),
    ) && key[enc_address(token).len() as int] == tag_balance() && starts_with(
        key,
        enc_address(token).len() + 1 as int,
        enc_address(owner),
    ) && key.len() == enc_address(token).len() + 1 + enc_address(owner).len() by {
        lemma_key_shape_balance(key, token, owner);
    }
}

/// Two address encodings that both begin the same string are the same
/// encoding of the same address.
proof fn lemma_enc_address_prefix(bytes: Seq<u8>, a: AddressV, b: AddressV)
    requires
        bytes.len() <= 0xffff_ffff_ffff_ffff,
        starts_with(bytes, 0, enc_address(a)),
        starts_with(bytes, 0, enc_address(b)),
    ensures
        a == b,
        enc_address(a) == enc_address(b),
{
    assert(bytes[0] == enc_address(a)[0]) by {
        assert(bytes.subrange(0, enc_address(a).len() as int)[0] == enc_address(a)[0]);
    }
    assert(bytes[0] == enc_address(b)[0]) by {
        assert(bytes.subrange(0, enc_address(b).len() as int)[0] == enc_address(b)[0]);
    }
    match (a, b) {
        (AddressV::Internal(x), AddressV::Internal(y)) => {
            assert(bytes[1] == enc_address(a)[1]) by {
                assert(bytes.subrange(0, enc_address(a).len() as int)[1] == enc_address(a)[1]);
            }
            assert(bytes[1] == enc_address(b)[1]) by {
                assert(bytes.subrange(0, enc_address(b).len() as int)[1] == enc_address(b)[1]);
            }
            assert(internal_tag(x) == internal_tag(y));
            assert(a == b);
        },
        (AddressV::Established(ha), AddressV::Established(hb)) => {
            lemma_starts_with_split(bytes, 0, seq![0u8], crate::codec::enc_bytes(ha));
            lemma_starts_with_split(bytes, 0, seq![0u8], crate::codec::enc_bytes(hb));
            lemma_enc_address_prefix_payload(bytes, ha, hb);
            assert(enc_address(a) =~= enc_address(b));
        },
        (AddressV::Implicit(ha), AddressV::Implicit(hb)) => {
            lemma_starts_with_split(bytes, 0, seq![1u8], crate::codec::enc_bytes(ha));
            lemma_starts_with_split(bytes, 0, seq![1u8], crate::codec::enc_bytes(hb));
            lemma_enc_address_prefix_payload(bytes, ha, hb);
            assert(enc_address(a) =~= enc_address(b));
        },
        _ => {
            assert(false);
        },
    }
}

/// The payload halves of two length-prefixed encodings beginning the same
/// string agree.
proof fn lemma_enc_address_prefix_payload(bytes: Seq<u8>, ha: Seq<u8>, hb: Seq<u8>)
    requires
        bytes.len() <= 0xffff_ffff_ffff_ffff,
        starts_with(bytes, 1, crate::codec::enc_bytes(ha)),
        starts_with(bytes, 1, crate::codec::enc_bytes(hb)),
    ensures
        ha == hb,
{
    assert(bytes.subrange(1, 9) =~= enc_u64(ha.len() as u64)) by {
        assert forall|j: int|
            0 <= j < 8 implies bytes.subrange(1, 9)[j] == enc_u64(ha.len() as u64)[j] by {
            assert(bytes.subrange(1, 1 + crate::codec::enc_bytes(ha).len() as int)[j]
                == crate::codec::enc_bytes(ha)[j]);
        }
    }
    lemma_u64_roundtrip(ha.len() as u64, bytes, 1);
    assert(bytes.subrange(1, 9) =~= enc_u64(hb.len() as u64)) by {
        assert forall|j: int|
            0 <= j < 8 implies bytes.subrange(1, 9)[j] == enc_u64(hb.len() as u64)[j] by {
            assert(bytes.subrange(1, 1 + crate::codec::enc_bytes(hb).len() as int)[j]
                == crate::codec::enc_bytes(hb)[j]);
        }
    }
    lemma_u64_roundtrip(hb.len() as u64, bytes, 1);
    assert(ha.len() == hb.len());
    assert(ha =~= hb) by {
        assert forall|j: int| 0 <= j < ha.len() implies ha[j] == hb[j] by {
            assert(bytes.subrange(1, 1 + crate::codec::enc_bytes(ha).len() as int)[8 + j]
                == crate::codec::enc_bytes(ha)[8 + j]);
            assert(bytes.subrange(1, 1 + crate::codec::enc_bytes(hb).len() as int)[8 + j]
                == crate::codec::enc_bytes(hb)[8 + j]);
        }
    }
}

/// The facts every sub-classifier needs: the shape facts for this key.
proof fn lemma_collect_context(key: Seq<u8>)
    ensures
        pos_prefix() =~= seq![2u8, 0u8],
        forall|t: u8|
            key == #[trigger] enc_plain_key(t) ==> starts_with(key, 0, pos_prefix()) && key.len()
                == 3 && key[2] == t,
        forall|t: u8, v: AddressV|
            key == #[trigger] enc_validator_key(t, v) ==> starts_with(key, 0, pos_prefix())
                && key[2] == t && starts_with(key, 3, enc_address(v)) && key.len() == 3
                + enc_address(v).len(),
        forall|t: u8, src: AddressV, val: AddressV|
            key == #[trigger] enc_pair_key(t, src, val) ==> starts_with(key, 0, pos_prefix())
                && key[2] == t && starts_with(key, 3, enc_address(src)) && starts_with(
                key,
                3 + enc_address(src).len() as int,
                enc_address(val),
            ) && key.len() == 3 + enc_address(src).len() + enc_address(val).len(),
        forall|h: Seq<u8>|
            key == pos_prefix() + seq![tag_raw_hash()] + #[trigger] crate::codec::enc_bytes(h)
                ==> starts_with(key, 0, pos_prefix()) && key[2] == tag_raw_hash() && starts_with(
                key,
                3,
                crate::codec::enc_bytes(h),
            ) && key.len() == 3 + crate::codec::enc_bytes(h).len(),
        forall|owner: AddressV|
            key == #[trigger] enc_vp_key(owner) ==> starts_with(key, 0, enc_address(owner))
                && key.len() == enc_address(owner).len() + 1 && key[enc_address(
                owner,
            ).len() as int] == tag_vp(),
        forall|token: AddressV, owner: AddressV|
            key == #[trigger] enc_balance_key(token, owner) ==> starts_with(
                key,
                0,
                enc_address(token),
            ) && key[enc_address(token).len() as int] == tag_balance() && starts_with(
                key,
                enc_address(token).len() + 1 as int,
                enc_address(owner),
            ) && key.len() == enc_address(token).len() + 1 + enc_address(owner).len(),
{
    lemma_key_shapes(key);
}

/// Classify a plain proof-of-stake key: parameters, the validator set, or
/// the total voting power.
#[verifier::rlimit(100)]
#[verifier::spinoff_prover]
fn collect_plain(
    key: &Vec<u8>,
    pre: &Vec<(Vec<u8>, Vec<u8>)>,
    post: &Vec<(Vec<u8>, Vec<u8>)>,
    proposal_accepted: bool,
    tag: u8,
) -> (rec: PosKeyChange)
    requires
        starts_with(key@, 0, pos_prefix()),
        key@.len() >= 3,
        key@[2] == tag,
        tag == tag_params() || tag == tag_validator_set() || tag == tag_total_voting_power(),
    ensures
        pos_change_rel(key@, pre@, post@, proposal_accepted, rec),
        wf_change_one(rec),
{
    proof {
        lemma_collect_context(key@);
        if key@.len() == 3 {
            assert(key@ =~= enc_plain_key(tag));
        }
    }
    if key.len() != 3 {
        return PosKeyChange::UnknownPosKey;
    }
    if tag == 0 {
        return PosKeyChange::ParamsChange { proposal_accepted };
    }
    if tag == 11 {
        let post_total = read_u64_rel_value(post, key);
        return PosKeyChange::TotalVotingPowerChange { post_total };
    }
    match lookup_value(post, key) {
        None => PosKeyChange::UnknownPosKey,
        Some(bb) => {
            match decode_set_value(bb) {
                None => PosKeyChange::UnknownPosKey,
                Some(post_set) => PosKeyChange::ValidatorSetChange { post_set },
            }
        },
    }
}

/// Classify a per-validator proof-of-stake key.
#[verifier::rlimit(100)]
#[verifier::spinoff_prover]
fn collect_validator(
    key: &Vec<u8>,
    pre: &Vec<(Vec<u8>, Vec<u8>)>,
    post: &Vec<(Vec<u8>, Vec<u8>)>,
    tag: u8,
) -> (rec: PosKeyChange)
    requires
        starts_with(key@, 0, pos_prefix()),
        key@.len() >= 3,
        key@[2] == tag,
        tag == tag_state() || tag == tag_consensus_key() || tag == tag_reward_address() || tag
            == tag_total_deltas() || tag == tag_voting_power(),
    ensures
        pos_change_rel(key@, pre@, post@, true, rec),
        pos_change_rel(key@, pre@, post@, false, rec),
        wf_change_one(rec),
{
    proof {
        lemma_collect_context(key@);
    }
    let mut pos: usize = 3;
    let v = match read_address(key, &mut pos) {
        None => {
            return PosKeyChange::UnknownPosKey;
        },
        Some(a) => a,
    };
    if pos != key.len() {
        return PosKeyChange::UnknownPosKey;
    }
    proof {
        assert(key@ =~= enc_validator_key(tag, v@));
    }
    if tag == 1 {
        let post_state = match lookup_value(post, key) {
            None => None,
            Some(bb) => decode_state_value(bb),
        };
        return PosKeyChange::StateChange { validator: v, post_state };
    }
    if tag == 2 {
        return PosKeyChange::ConsensusKeyChange { validator: v };
    }
    if tag == 3 {
        return PosKeyChange::StakingRewardAddressChange { validator: v };
    }
    if tag == 4 {
        let pre_deltas = read_i128_rel_value(pre, key);
        let post_deltas = read_i128_rel_value(post, key);
        return PosKeyChange::TotalDeltasChange { validator: v, pre_deltas, post_deltas };
    }
    let post_power = read_u64_rel_value(post, key);
    let deltas_key = make_validator_key(4, &v);
    let post_deltas = read_i128_rel_value(post, &deltas_key);
    PosKeyChange::VotingPowerChange { validator: v, post_power, post_deltas }
}

/// Classify a bond or unbond key.
#[verifier::rlimit(100)]
#[verifier::spinoff_prover]
fn collect_pair(
    key: &Vec<u8>,
    pre: &Vec<(Vec<u8>, Vec<u8>)>,
    post: &Vec<(Vec<u8>, Vec<u8>)>,
    tag: u8,
) -> (rec: PosKeyChange)
    requires
        starts_with(key@, 0, pos_prefix()),
        key@.len() >= 3,
        key@[2] == tag,
        tag == tag_bond() || tag == tag_unbond(),
    ensures
        pos_change_rel(key@, pre@, post@, true, rec),
        pos_change_rel(key@, pre@, post@, false, rec),
        wf_change_one(rec),
{
    proof {
        lemma_collect_context(key@);
    }
    let mut pos: usize = 3;
    let src = match read_address(key, &mut pos) {
        None => {
            return PosKeyChange::UnknownPosKey;
        },
        Some(a) => a,
    };
    let ghost src_end = pos as int;
    let val = match read_address(key, &mut pos) {
        None => {
            return PosKeyChange::UnknownPosKey;
        },
        Some(a) => a,
    };
    if pos != key.len() {
        return PosKeyChange::UnknownPosKey;
    }
    proof {
        assert(key@.subrange(3, pos as int) =~= enc_address(src@) + enc_address(val@));
        assert(key@ =~= enc_pair_key(tag, src@, val@));
    }
    if tag == 8 {
        let pre_bond = read_bond_rel_value(pre, key);
        let post_bond = read_bond_rel_value(post, key);
        return PosKeyChange::BondChange {
            source: src,
            validator: val,
            pre: pre_bond,
            post: post_bond,
        };
    }
    let slashes_key = make_validator_key(6, &val);
    let slashes = read_slashes_rel_value(pre, &slashes_key);
    let pre_unbond = read_unbond_rel_value(pre, key);
    let post_unbond = read_unbond_rel_value(post, key);
    PosKeyChange::UnbondChange { source: src, validator: val, pre_unbond, post_unbond, slashes }
}

/// Classify a raw-hash reverse-lookup key.
#[verifier::rlimit(100)]
#[verifier::spinoff_prover]
fn collect_rawhash(
    key: &Vec<u8>,
    pre: &Vec<(Vec<u8>, Vec<u8>)>,
    post: &Vec<(Vec<u8>, Vec<u8>)>,
) -> (rec: PosKeyChange)
    requires
        starts_with(key@, 0, pos_prefix()),
        key@.len() >= 3,
        key@[2] == tag_raw_hash(),
    ensures
        pos_change_rel(key@, pre@, post@, true, rec),
        pos_change_rel(key@, pre@, post@, false, rec),
        wf_change_one(rec),
{
    proof {
        lemma_collect_context(key@);
    }
    let mut pos: usize = 3;
    let h = match crate::codec::read_bytes(key, &mut pos) {
        None => {
            return PosKeyChange::UnknownPosKey;
        },
        Some(b) => b,
    };
    if pos != key.len() {
        return PosKeyChange::UnknownPosKey;
    }
    proof {
        assert(key@ =~= pos_prefix() + seq![tag_raw_hash()] + crate::codec::enc_bytes(h@));
    }
    PosKeyChange::RawHashChange { raw_hash: h }
}

/// Classify a key whose tag marks a validity predicate or a balance under
/// some owner's subspace.
#[verifier::rlimit(100)]
#[verifier::spinoff_prover]
fn collect_owner_tagged(
    key: &Vec<u8>,
    pre: &Vec<(Vec<u8>, Vec<u8>)>,
    post: &Vec<(Vec<u8>, Vec<u8>)>,
    owner: Address,
    tag: u8,
    arg_start: usize,
) -> (rec: PosKeyChange)
    requires
        starts_with(key@, 0, enc_address(owner@)),
        arg_start == enc_address(owner@).len() + 1,
        arg_start <= key@.len(),
        key@[enc_address(owner@).len() as int] == tag,
        tag == tag_vp() || tag == tag_balance(),
    ensures
        pos_change_rel(key@, pre@, post@, true, rec),
        pos_change_rel(key@, pre@, post@, false, rec),
        wf_change_one(rec),
{
    proof {
        lemma_collect_context(key@);
    }
    let key_len = key.len();
    proof {
        assert(key@.len() == key_len as int);
        assert(key@.len() <= 0xffff_ffff_ffff_ffff);
    }
    let is_pos_space = match &owner {
        Address::Internal(InternalAddress::PoS) => true,
        _ => false,
    };
    proof {
        if !is_pos_space {
            assert(!starts_with(key@, 0, pos_prefix())) by {
                if starts_with(key@, 0, pos_prefix()) {
                    lemma_enc_address_prefix(
                        key@,
                        owner@,
                        AddressV::Internal(InternalAddress::PoS),
                    );
                }
            }
        }
        assert forall|o: AddressV| key@ == #[trigger] enc_vp_key(o) implies o == owner@ by {
            lemma_enc_address_prefix(key@, o, owner@);
        }
        assert forall|t: AddressV, o: AddressV|
            key@ == #[trigger] enc_balance_key(t, o) implies t == owner@ by {
            lemma_enc_address_prefix(key@, t, owner@);
        }
    }
    if tag == 12 {
        if arg_start == key.len() {
            proof {
                assert(key@ =~= enc_vp_key(owner@));
            }
            return PosKeyChange::ValidityPredicateChange { owner };
        }
        if is_pos_space {
            return PosKeyChange::UnknownPosKey;
        }
        return PosKeyChange::OutsideKey;
    }
    let mut pos: usize = arg_start;
    let owner2 = match read_address(key, &mut pos) {
        None => {
            if is_pos_space {
                return PosKeyChange::UnknownPosKey;
            }
            return PosKeyChange::OutsideKey;
        },
        Some(a) => a,
    };
    if pos != key.len() {
        if is_pos_space {
            return PosKeyChange::UnknownPosKey;
        }
        return PosKeyChange::OutsideKey;
    }
    proof {
        assert(key@ =~= enc_balance_key(owner@, owner2@));
        assert forall|t: AddressV, o: AddressV|
            key@ == #[trigger] enc_balance_key(t, o) implies t == owner@ && o == owner2@ by {
            lemma_enc_address_prefix(key@, t, owner@);
            assert(key@.subrange(
                enc_address(owner@).len() + 1 as int,
                key@.len() as int,
            ) =~= enc_address(owner2@));
            assert(key@.subrange(enc_address(t).len() + 1 as int, key@.len() as int)
                =~= enc_address(o));
        }
    }
    let token_is_staking = {
        let staking = crate::address::xan();
        owner.eq_addr(&staking)
    };
    let owner_is_pos = match &owner2 {
        Address::Internal(InternalAddress::PoS) => true,
        _ => false,
    };
    if token_is_staking && owner_is_pos {
        let pre_balance = read_u64_rel_value(pre, key);
        let post_balance = read_u64_rel_value(post, key);
        return PosKeyChange::BalanceChange { pre_balance, post_balance };
    }
    if is_pos_space {
        return PosKeyChange::UnknownPosKey;
    }
    PosKeyChange::OutsideKey
}

/// Classify one changed key and build its typed record from the pre and
/// post stores.
#[verifier::rlimit(100)]
#[verifier::spinoff_prover]
pub fn collect_key(
    key: &Vec<u8>,
    pre: &Vec<(Vec<u8>, Vec<u8>)>,
    post: &Vec<(Vec<u8>, Vec<u8>)>,
    proposal_accepted: bool,
) -> (rec: PosKeyChange)
    ensures
        pos_change_rel(key@, pre@, post@, proposal_accepted, rec),
        wf_change_one(rec),
{
    proof {
        lemma_collect_context(key@);
    }
    let mut pos: usize = 0;
    let owner = match read_address(key, &mut pos) {
        None => {
            return PosKeyChange::OutsideKey;
        },
        Some(a) => a,
    };
    let is_pos_space = match &owner {
        Address::Internal(InternalAddress::PoS) => true,
        _ => false,
    };
    let arg_start = pos;
    let tag = match read_tag(key, &mut pos) {
        None => {
            if is_pos_space {
                return PosKeyChange::UnknownPosKey;
            }
            return PosKeyChange::OutsideKey;
        },
        Some(t) => t,
    };
    if tag == 12 || tag == 13 {
        return collect_owner_tagged(key, pre, post, owner, tag, pos);
    }
    if !is_pos_space {
        return PosKeyChange::OutsideKey;
    }
    if tag == 0 || tag == 10 || tag == 11 {
        return collect_plain(key, pre, post, proposal_accepted, tag);
    }
    if tag == 1 || tag == 2 || tag == 3 || tag == 4 || tag == 5 {
        return collect_validator(key, pre, post, tag);
    }
    if tag == 8 || tag == 9 {
        return collect_pair(key, pre, post, tag);
    }
    if tag == 7 {
        return collect_rawhash(key, pre, post);
    }
    PosKeyChange::UnknownPosKey
}

/// Collect the typed change records of a transaction: one record per changed
/// key, in order.
pub fn collect_pos_changes(
    keys_changed: &Vec<Vec<u8>>,
    pre: &Vec<(Vec<u8>, Vec<u8>)>,
    post: &Vec<(Vec<u8>, Vec<u8>)>,
    proposal_accepted: bool,
) -> (r: Vec<PosKeyChange>)
    requires
        keys_changed@.len() <= 0x1_0000_0000,
    ensures
        r@.len() == keys_changed@.len(),
        forall|i: int|
            0 <= i < r@.len() ==> pos_change_rel(
                keys_changed@[i]@,
                pre@,
                post@,
                proposal_accepted,
                #[trigger] r@[i],
            ),
        wf_changes(r@),
{
    let mut records: Vec<PosKeyChange> = Vec::new();
    let mut i: usize = 0;
    while i < keys_changed.len()
        invariant
            i <= keys_changed@.len(),
            keys_changed@.len() <= 0x1_0000_0000,
            records@.len() == i,
            forall|j: int|
                0 <= j < i ==> pos_change_rel(
                    keys_changed@[j]@,
                    pre@,
                    post@,
                    proposal_accepted,
                    #[trigger] records@[j],
                ),
            forall|j: int| 0 <= j < i ==> wf_change_one(#[trigger] records@[j]),
        decreases keys_changed@.len() - i,
    {
        let rec = collect_key(&keys_changed[i], pre, post, proposal_accepted);
        records.push(rec);
        i = i + 1;
    }
    records
}

/// The proof-of-stake validity predicate over the wire: classify every
/// changed key, read the stored values, and validate the collected records
/// against the declarative rules for the current epoch.
pub fn validate_tx(
    params: &crate::pos::PosParams,
    keys_changed: &Vec<Vec<u8>>,
    proposal_accepted: bool,
    verifiers: &Vec<Address>,
    pre: &Vec<(Vec<u8>, Vec<u8>)>,
    post: &Vec<(Vec<u8>, Vec<u8>)>,
    current_epoch: u64,
) -> (r: bool)
    requires
        params.wf(),
        keys_changed@.len() <= 0x1_0000_0000,
        current_epoch + params.pipeline_len <= u64::MAX,
        current_epoch + params.unbonding_len <= u64::MAX,
    ensures
        exists|records: Seq<PosKeyChange>|
            #![trigger changes_valid(records, *params, verifiers@, current_epoch)]
            records.len() == keys_changed@.len() && (forall|i: int|
                0 <= i < records.len() ==> pos_change_rel(
                    keys_changed@[i]@,
                    pre@,
                    post@,
                    proposal_accepted,
                    #[trigger] records[i],
                )) && r == changes_valid(records, *params, verifiers@, current_epoch),
{
    let records = collect_pos_changes(keys_changed, pre, post, proposal_accepted);
    let ok = validate_changes(params, &records, verifiers, current_epoch);
    proof {
        assert(records@.len() == keys_changed@.len() && (forall|i: int|
            0 <= i < records@.len() ==> pos_change_rel(
                keys_changed@[i]@,
                pre@,
                post@,
                proposal_accepted,
                #[trigger] records@[i],
            )) && ok == changes_valid(records@, *params, verifiers@, current_epoch));
    }
    ok
}

} // verus!
