//! Account addresses. Three disjoint variants: established addresses are
//! hash-derived and exist only once a validity predicate is stored for them;
//! implicit addresses are derived from a public key and exist by
//! construction; internal addresses name the fixed system principals.

use vstd::prelude::*;
use crate::codec::{enc_bytes, read_bytes, read_tag, write_bytes, write_tag};
use crate::crypto::{bytes_eq, clone_bytes};

verus! {

/// The fixed set of well-known system principals.
#[derive(Clone, Copy, PartialEq, Eq, Structural)]
pub enum InternalAddress {
    /// The proof-of-stake system.
    PoS,
    /// The pool that slashed tokens fall into.
    PosSlashPool,
    /// The shielded pool.
    Masp,
    /// The bridge from Ethereum.
    EthBridge,
}

/// An account address.
pub enum Address {
    /// Hash-derived; requires a stored validity predicate to exist.
    Established(Vec<u8>),
    /// Derived from a public key; exists by construction.
    Implicit(Vec<u8>),
    /// A well-known system principal.
    Internal(InternalAddress),
}

/// The mathematical value of an address.
pub enum AddressV {
    Established(Seq<u8>),
    Implicit(Seq<u8>),
    Internal(InternalAddress),
}

impl View for Address {
    type V = AddressV;

    open spec fn view(&self) -> AddressV {
        match self {
            Address::Established(h) => AddressV::Established(h@),
            Address::Implicit(h) => AddressV::Implicit(h@),
            Address::Internal(i) => AddressV::Internal(*i),
        }
    }
}

impl Address {
    /// Copy the address.
    pub fn clone_addr(&self) -> (r: Address)
        ensures
            r@ == self@,
    {
        match self {
            Address::Established(h) => Address::Established(clone_bytes(h)),
            Address::Implicit(h) => Address::Implicit(clone_bytes(h)),
            Address::Internal(i) => Address::Internal(*i),
        }
    }

    /// Compare two addresses.
    pub fn eq_addr(&self, other: &Address) -> (r: bool)
        ensures
            r == (self@ == other@),
    {
        match (self, other) {
            (Address::Established(a), Address::Established(b)) => bytes_eq(a, b),
            (Address::Implicit(a), Address::Implicit(b)) => bytes_eq(a, b),
            (Address::Internal(a), Address::Internal(b)) => *a == *b,
            _ => {
                assert(self@ != other@);
                false
            },
        }
    }
}

/// The address of the staking token.
pub fn xan() -> (r: Address)
    ensures
        r@ == staking_token(),
{
    let mut v: Vec<u8> = Vec::new();
    v.push(120);
    v.push(97);
    v.push(110);
    assert(v@ =~= seq![120u8, 97u8, 110u8]);
    Address::Established(v)
}

/// The value of the staking token's address.
pub open spec fn staking_token() -> AddressV {
    AddressV::Established(seq![120u8, 97u8, 110u8])
}

/// The address of the proof-of-stake system.
pub fn pos_address() -> (r: Address)
    ensures
        r@ == AddressV::Internal(InternalAddress::PoS),
{
    Address::Internal(InternalAddress::PoS)
}

/// The address of the shielded pool.
pub fn masp() -> (r: Address)
    ensures
        r@ == AddressV::Internal(InternalAddress::Masp),
{
    Address::Internal(InternalAddress::Masp)
}

/// The tag byte of an internal address.
pub open spec fn internal_tag(i: InternalAddress) -> u8 {
    match i {
        InternalAddress::PoS => 0,
        InternalAddress::PosSlashPool => 1,
        InternalAddress::Masp => 2,
        InternalAddress::EthBridge => 3,
    }
}

/// Canonical encoding of an address.
pub open spec fn enc_address(a: AddressV) -> Seq<u8> {
    match a {
        AddressV::Established(h) => seq![0u8] + enc_bytes(h),
        AddressV::Implicit(h) => seq![1u8] + enc_bytes(h),
        AddressV::Internal(i) => seq![2u8, internal_tag(i)],
    }
}

/// Append the canonical encoding of `a`.
pub fn write_address(out: &mut Vec<u8>, a: &Address)
    ensures
        final(out)@ == old(out)@ + enc_address(a@),
{
    match a {
        Address::Established(h) => {
            write_tag(out, 0);
            write_bytes(out, h);
            assert(out@ =~= old(out)@ + enc_address(a@));
        },
        Address::Implicit(h) => {
            write_tag(out, 1);
            write_bytes(out, h);
            assert(out@ =~= old(out)@ + enc_address(a@));
        },
        Address::Internal(i) => {
            write_tag(out, 2);
            let t: u8 = match i {
                InternalAddress::PoS => 0,
                InternalAddress::PosSlashPool => 1,
                InternalAddress::Masp => 2,
                InternalAddress::EthBridge => 3,
            };
            write_tag(out, t);
            assert(out@ =~= old(out)@ + enc_address(a@));
        },
    }
}

/// Read an address at `*pos`, advancing the position.
///
/// Sound: a parsed address is the exact encoding consumed. Complete: an
/// input that continues with an encoded address parses to that address.
pub fn read_address(bytes: &Vec<u8>, pos: &mut usize) -> (r: Option<Address>)
    ensures
        match r {
            Some(a) => {
                &&& *final(pos) <= bytes@.len()
                &&& *old(pos) < *final(pos)
                &&& bytes@.subrange(*old(pos) as int, *final(pos) as int) == enc_address(a@)
            },
            None => *final(pos) == *old(pos),
        },
        forall|v: AddressV|
            (*old(pos) + enc_address(v).len() <= bytes@.len() && bytes@.subrange(
                *old(pos) as int,
                *old(pos) + enc_address(v).len(),
            ) == enc_address(v)) ==> (r matches Some(a) && a@ == v && *final(pos) == *old(pos)
                + enc_address(v).len()),
{
    let start = *pos;
    let tag = match read_tag(bytes, pos) {
        None => {
            proof {
                assert forall|v: AddressV|
                    !(start + enc_address(v).len() <= bytes@.len() && bytes@.subrange(
                        start as int,
                        start + enc_address(v).len(),
                    ) == enc_address(v)) by {
                    assert(enc_address(v).len() >= 1);
                }
            }
            return None;
        },
        Some(t) => t,
    };
    proof {
        assert forall|v: AddressV|
            (start + enc_address(v).len() <= bytes@.len() && bytes@.subrange(
                start as int,
                start + enc_address(v).len(),
            ) == enc_address(v)) implies bytes@[start as int] == enc_address(v)[0] by {
            assert(enc_address(v)[0] == bytes@.subrange(start as int, start + enc_address(v).len())[0]);
        }
    }
    if tag == 0 || tag == 1 {
        let r = read_bytes(bytes, pos);
        proof {
            assert forall|v: AddressV|
                (start + enc_address(v).len() <= bytes@.len() && bytes@.subrange(
                    start as int,
                    start + enc_address(v).len(),
                ) == enc_address(v)) implies match v {
                AddressV::Established(h2) => tag == 0 && (r matches Some(h) && h@ == h2 && *pos
                    == start + enc_address(v).len()),
                AddressV::Implicit(h2) => tag == 1 && (r matches Some(h) && h@ == h2 && *pos
                    == start + enc_address(v).len()),
                AddressV::Internal(i) => false,
            } by {
                let ev = enc_address(v);
                match v {
                    AddressV::Established(h2) => {
                        assert forall|j: int| 0 <= j < 8 + h2.len() implies bytes@[start + 1 + j]
                            == enc_bytes(h2)[j] by {
                            assert(bytes@.subrange(start as int, start + ev.len())[j + 1] == ev[j
                                + 1]);
                        }
                        assert(bytes@.subrange(start + 1, start + 1 + 8 + h2.len() as int)
                            =~= enc_bytes(h2));
                    },
                    AddressV::Implicit(h2) => {
                        assert forall|j: int| 0 <= j < 8 + h2.len() implies bytes@[start + 1 + j]
                            == enc_bytes(h2)[j] by {
                            assert(bytes@.subrange(start as int, start + ev.len())[j + 1] == ev[j
                                + 1]);
                        }
                        assert(bytes@.subrange(start + 1, start + 1 + 8 + h2.len() as int)
                            =~= enc_bytes(h2));
                    },
                    AddressV::Internal(i) => {},
                }
            }
        }
        match r {
            None => {
                *pos = start;
                None
            },
            Some(h) => {
                let a = if tag == 0 {
                    Address::Established(h)
                } else {
                    Address::Implicit(h)
                };
                proof {
                    assert(bytes@.subrange(start as int, *pos as int) =~= seq![tag]
                        + bytes@.subrange(start + 1, *pos as int));
                }
                Some(a)
            },
        }
    } else if tag == 2 {
        match read_tag(bytes, pos) {
            None => {
                *pos = start;
                None
            },
            Some(t) => {
                let i = if t == 0 {
                    InternalAddress::PoS
                } else if t == 1 {
                    InternalAddress::PosSlashPool
                } else if t == 2 {
                    InternalAddress::Masp
                } else if t == 3 {
                    InternalAddress::EthBridge
                } else {
                    *pos = start;
                    proof {
                        assert forall|v: AddressV|
                            (start + enc_address(v).len() <= bytes@.len() && bytes@.subrange(
                                start as int,
                                start + enc_address(v).len(),
                            ) == enc_address(v)) implies false by {
                            assert(enc_address(v)[1] == bytes@.subrange(
                                start as int,
                                start + enc_address(v).len(),
                            )[1]);
                        }
                    }
                    return None;
                };
                let a = Address::Internal(i);
                proof {
                    assert(bytes@.subrange(start as int, *pos as int) =~= seq![2u8, t]);
                    assert forall|v: AddressV|
                        (start + enc_address(v).len() <= bytes@.len() && bytes@.subrange(
                            start as int,
                            start + enc_address(v).len(),
                        ) == enc_address(v)) implies (a@ == v && *pos == start + enc_address(
                        v,
                    ).len()) by {
                        assert(enc_address(v)[1] == bytes@.subrange(
                            start as int,
                            start + enc_address(v).len(),
                        )[1]);
                    }
                }
                Some(a)
            },
        }
    } else {
        *pos = start;
        proof {
            assert forall|v: AddressV|
                (start + enc_address(v).len() <= bytes@.len() && bytes@.subrange(
                    start as int,
                    start + enc_address(v).len(),
                ) == enc_address(v)) implies false by {
                assert(enc_address(v)[0] == bytes@.subrange(
                    start as int,
                    start + enc_address(v).len(),
                )[0]);
            }
        }
        None
    }
}

} // verus!
