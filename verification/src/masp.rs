//! The shielded pool's address and key types, modelled by the byte strings
//! the pool's cryptography reads and writes. The strings they show to users
//! are Bech32m encodings under fixed human-readable prefixes; the
//! cryptography itself is an external collaborator.

use vstd::prelude::*;
use vstd::string::StringSliceAdditionalSpecFns;
use crate::address::{masp, Address, AddressV};
use crate::crypto::{bytes_eq, clone_bytes};

verus! {

/// What a Bech32 string parses to: the human-readable part's bytes, the
/// data bytes, and whether the Bech32m variant was used; a function of the
/// string alone.
pub uninterp spec fn bech32_decoded(s: Seq<char>) -> Option<(Seq<u8>, Seq<u8>, bool)>;

/// Relies on bech32::decode and Vec::<u8>::from_base32: parse a Bech32
/// string into its prefix, payload and variant.
#[verifier::external_body]
pub fn bech32_decode(s: &str) -> (r: Option<(Vec<u8>, Vec<u8>, bool)>)
    ensures
        (r is Some) == (bech32_decoded(s@) is Some),
        r matches Some(t) ==> bech32_decoded(s@) matches Some(v) && t.0@ == v.0 && t.1@ == v.1
            && t.2 == v.2,
{
    match bech32::decode(s) {
        Err(_) => None,
        Ok((hrp, data, variant)) => {
            match <Vec<u8> as bech32::FromBase32>::from_base32(&data) {
                Err(_) => None,
                Ok(bytes) => Some((
                    hrp.into_bytes(),
                    bytes,
                    variant == bech32::Variant::Bech32m,
                )),
            }
        },
    }
}

/// What encoding bytes under a prefix yields; a function of the inputs
/// alone.
pub uninterp spec fn bech32_encoded(hrp: Seq<char>, data: Seq<u8>, m: bool) -> Seq<char>;

/// A human-readable part the scheme accepts: one to 83 visible ASCII bytes,
/// none of them uppercase (a mixed-case part is refused).
pub open spec fn hrp_encodable(b: Seq<u8>) -> bool {
    &&& 1 <= b.len() <= 83
    &&& forall|i: int| 0 <= i < b.len() ==> 33 <= #[trigger] b[i] <= 126 && !(65 <= b[i] <= 90)
}

/// Relies on bech32::encode and to_base32: render a payload under a
/// human-readable prefix. The scheme puts no length limit on the data part
/// and fails only on a prefix it refuses, so encoding under an acceptable
/// prefix always succeeds.
#[verifier::external_body]
pub fn bech32_encode(hrp: &str, data: &Vec<u8>, m: bool) -> (r: Option<String>)
    ensures
        r matches Some(x) ==> x@ == bech32_encoded(hrp@, data@, m),
        hrp_encodable(hrp.spec_bytes()) ==> r is Some,
{
    let variant = if m {
        bech32::Variant::Bech32m
    } else {
        bech32::Variant::Bech32
    };
    bech32::encode(hrp, bech32::ToBase32::to_base32(&data.as_slice()), variant).ok()
}

/// Why a shielded value failed to decode.
#[derive(Clone, Copy, PartialEq, Eq, Structural, Debug)]
pub enum DecodeError {
    /// Not a well-formed Bech32 string.
    DecodeBech32,
    /// A prefix other than the expected one.
    UnexpectedBech32Prefix,
    /// A variant other than Bech32m.
    UnexpectedBech32Variant,
    /// A payload of the wrong shape for the inner type.
    InvalidInnerEncoding,
}

/// A full viewing key of the shielded pool: 96 bytes of key material.
pub struct FullViewingKey {
    pub bytes: Vec<u8>,
}

/// A shielded payment address: 43 bytes.
pub struct PaymentAddress {
    pub bytes: Vec<u8>,
}

/// An extended spending key: 169 bytes of key material.
pub struct ExtendedSpendingKey {
    pub bytes: Vec<u8>,
}

/// The string is a Bech32m rendering under the given prefix of a payload of
/// the given length.
pub open spec fn decodes_as(s: Seq<char>, hrp: Seq<u8>, len: nat) -> bool {
    bech32_decoded(s) matches Some(t) && t.0 == hrp && t.2 && t.1.len() == len
}

/// Decode a Bech32m string under the expected prefix into a payload of the
/// expected length; succeeds exactly on such strings.
fn decode_fixed(s: &str, hrp: &str, len: usize) -> (r: Result<Vec<u8>, DecodeError>)
    ensures
        (r is Ok) == decodes_as(s@, hrp.spec_bytes(), len as nat),
        r matches Ok(v) ==> bech32_decoded(s@) matches Some(t) && v@ == t.1,
{
    match bech32_decode(s) {
        None => Err(DecodeError::DecodeBech32),
        Some((prefix, bytes, is_m)) => {
            let expected = vstd::slice::slice_to_vec(hrp.as_bytes());
            if !bytes_eq(&prefix, &expected) {
                Err(DecodeError::UnexpectedBech32Prefix)
            } else if !is_m {
                Err(DecodeError::UnexpectedBech32Variant)
            } else if bytes.len() != len {
                Err(DecodeError::InvalidInnerEncoding)
            } else {
                Ok(bytes)
            }
        },
    }
}

impl FullViewingKey {
    /// Parse a full viewing key from its Bech32m string; succeeds exactly on
    /// a Bech32m string under the viewing-key prefix carrying 96 bytes.
    pub fn from_str(s: &str) -> (r: Result<FullViewingKey, DecodeError>)
        ensures
            (r is Ok) == decodes_as(s@, "fvktest".spec_bytes(), 96),
            r matches Ok(k) ==> bech32_decoded(s@) matches Some(t) && k.bytes@ == t.1
                && k.bytes@.len() == 96,
    {
        match decode_fixed(s, "fvktest", 96) {
            Ok(bytes) => Ok(FullViewingKey { bytes }),
            Err(e) => Err(e),
        }
    }

    /// The Bech32m string of this key.
    pub fn encode(&self) -> (r: Option<String>)
        ensures
            r matches Some(x) ==> x@ == bech32_encoded("fvktest"@, self.bytes@, true),
            r is Some,
    {
        proof {
            vstd::string::is_ascii_spec_bytes("fvktest");
            reveal_strlit("fvktest");
            assert(hrp_encodable("fvktest".spec_bytes()));
        }
        bech32_encode("fvktest", &self.bytes, true)
    }
}

impl PaymentAddress {
    /// Parse a payment address from its Bech32m string; succeeds exactly on
    /// a Bech32m string under the payment-address prefix carrying 43 bytes.
    pub fn from_str(s: &str) -> (r: Result<PaymentAddress, DecodeError>)
        ensures
            (r is Ok) == decodes_as(s@, "patest".spec_bytes(), 43),
            r matches Ok(k) ==> bech32_decoded(s@) matches Some(t) && k.bytes@ == t.1
                && k.bytes@.len() == 43,
    {
        match decode_fixed(s, "patest", 43) {
            Ok(bytes) => Ok(PaymentAddress { bytes }),
            Err(e) => Err(e),
        }
    }

    /// The Bech32m string of this address.
    pub fn encode(&self) -> (r: Option<String>)
        ensures
            r matches Some(x) ==> x@ == bech32_encoded("patest"@, self.bytes@, true),
            r is Some,
    {
        proof {
            vstd::string::is_ascii_spec_bytes("patest");
            reveal_strlit("patest");
            assert(hrp_encodable("patest".spec_bytes()));
        }
        bech32_encode("patest", &self.bytes, true)
    }

    /// Copy the address.
    pub fn clone_pa(&self) -> (r: PaymentAddress)
        ensures
            r.bytes@ == self.bytes@,
    {
        PaymentAddress { bytes: clone_bytes(&self.bytes) }
    }
}

impl ExtendedSpendingKey {
    /// Parse an extended spending key from its Bech32m string; succeeds
    /// exactly on a Bech32m string under the spending-key prefix carrying
    /// 169 bytes.
    pub fn from_str(s: &str) -> (r: Result<ExtendedSpendingKey, DecodeError>)
        ensures
            (r is Ok) == decodes_as(s@, "esktest".spec_bytes(), 169),
            r matches Ok(k) ==> bech32_decoded(s@) matches Some(t) && k.bytes@ == t.1
                && k.bytes@.len() == 169,
    {
        match decode_fixed(s, "esktest", 169) {
            Ok(bytes) => Ok(ExtendedSpendingKey { bytes }),
            Err(e) => Err(e),
        }
    }

    /// The Bech32m string of this key.
    pub fn encode(&self) -> (r: Option<String>)
        ensures
            r matches Some(x) ==> x@ == bech32_encoded("esktest"@, self.bytes@, true),
            r is Some,
    {
        proof {
            vstd::string::is_ascii_spec_bytes("esktest");
            reveal_strlit("esktest");
            assert(hrp_encodable("esktest".spec_bytes()));
        }
        bech32_encode("esktest", &self.bytes, true)
    }

    /// Copy the key.
    pub fn clone_esk(&self) -> (r: ExtendedSpendingKey)
        ensures
            r.bytes@ == self.bytes@,
    {
        ExtendedSpendingKey { bytes: clone_bytes(&self.bytes) }
    }
}

/// A source of funds: a transparent address, or a shielded spending key.
pub enum TransferSource {
    Address(Address),
    ExtendedSpendingKey(ExtendedSpendingKey),
}

impl TransferSource {
    /// The transparent address the source effectively draws from: a shielded
    /// source draws from the pool's account.
    pub fn effective_address(&self) -> (r: Address)
        ensures
            match self {
                TransferSource::Address(a) => r@ == a@,
                TransferSource::ExtendedSpendingKey(_) => r@ == AddressV::Internal(
                    crate::address::InternalAddress::Masp,
                ),
            },
    {
        match self {
            TransferSource::Address(a) => a.clone_addr(),
            TransferSource::ExtendedSpendingKey(_) => masp(),
        }
    }

    /// The contained spending key, if any.
    pub fn spending_key(&self) -> (r: Option<ExtendedSpendingKey>)
        ensures
            match self {
                TransferSource::ExtendedSpendingKey(k) => r matches Some(x) && x.bytes@
                    == k.bytes@,
                TransferSource::Address(_) => r is None,
            },
    {
        match self {
            TransferSource::ExtendedSpendingKey(k) => Some(k.clone_esk()),
            TransferSource::Address(_) => None,
        }
    }
}

/// A target of funds: a transparent address, or a shielded payment address.
pub enum TransferTarget {
    Address(Address),
    PaymentAddress(PaymentAddress),
}

impl TransferTarget {
    /// The transparent address the target effectively goes to: a shielded
    /// target goes to the pool's account.
    pub fn effective_address(&self) -> (r: Address)
        ensures
            match self {
                TransferTarget::Address(a) => r@ == a@,
                TransferTarget::PaymentAddress(_) => r@ == AddressV::Internal(
                    crate::address::InternalAddress::Masp,
                ),
            },
    {
        match self {
            TransferTarget::Address(a) => a.clone_addr(),
            TransferTarget::PaymentAddress(_) => masp(),
        }
    }

    /// The contained payment address, if any.
    pub fn payment_address(&self) -> (r: Option<PaymentAddress>)
        ensures
            match self {
                TransferTarget::PaymentAddress(p) => r matches Some(x) && x.bytes@ == p.bytes@,
                TransferTarget::Address(_) => r is None,
            },
    {
        match self {
            TransferTarget::PaymentAddress(p) => Some(p.clone_pa()),
            TransferTarget::Address(_) => None,
        }
    }

    /// The contained transparent address, if any.
    pub fn address(&self) -> (r: Option<Address>)
        ensures
            match self {
                TransferTarget::Address(a) => r matches Some(x) && x@ == a@,
                TransferTarget::PaymentAddress(_) => r is None,
            },
    {
        match self {
            TransferTarget::Address(a) => Some(a.clone_addr()),
            TransferTarget::PaymentAddress(_) => None,
        }
    }
}

/// The owner of a balance: a transparent address, or a full viewing key.
pub enum BalanceOwner {
    Address(Address),
    FullViewingKey(FullViewingKey),
}

impl BalanceOwner {
    /// The contained transparent address, if any.
    pub fn address(&self) -> (r: Option<Address>)
        ensures
            match self {
                BalanceOwner::Address(a) => r matches Some(x) && x@ == a@,
                BalanceOwner::FullViewingKey(_) => r is None,
            },
    {
        match self {
            BalanceOwner::Address(a) => Some(a.clone_addr()),
            BalanceOwner::FullViewingKey(_) => None,
        }
    }

    /// The contained viewing key, if any.
    pub fn full_viewing_key(&self) -> (r: Option<FullViewingKey>)
        ensures
            match self {
                BalanceOwner::FullViewingKey(k) => r matches Some(x) && x.bytes@ == k.bytes@,
                BalanceOwner::Address(_) => r is None,
            },
    {
        match self {
            BalanceOwner::FullViewingKey(k) => Some(FullViewingKey {
                bytes: clone_bytes(&k.bytes),
            }),
            BalanceOwner::Address(_) => None,
        }
    }
}

/// Any shielded value: parsed by trying each kind in turn.
pub enum MaspValue {
    PaymentAddress(PaymentAddress),
    ExtendedSpendingKey(ExtendedSpendingKey),
    FullViewingKey(FullViewingKey),
}

impl MaspValue {
    /// Parse a shielded value: first as a payment address, then as a
    /// spending key, then as a viewing key; the first kind that fits wins,
    /// and parsing fails exactly when none fits.
    pub fn from_str(s: &str) -> (r: Result<MaspValue, DecodeError>)
        ensures
            match r {
                Ok(MaspValue::PaymentAddress(p)) => decodes_as(s@, "patest".spec_bytes(), 43)
                    && (bech32_decoded(s@) matches Some(t) && p.bytes@ == t.1),
                Ok(MaspValue::ExtendedSpendingKey(k)) => !decodes_as(s@, "patest".spec_bytes(), 43)
                    && decodes_as(s@, "esktest".spec_bytes(), 169) && (bech32_decoded(s@) matches
                Some(t) && k.bytes@ == t.1),
                Ok(MaspValue::FullViewingKey(k)) => !decodes_as(s@, "patest".spec_bytes(), 43)
                    && !decodes_as(s@, "esktest".spec_bytes(), 169) && decodes_as(
                    s@,
                    "fvktest".spec_bytes(),
                    96,
                ) && (bech32_decoded(s@) matches Some(t) && k.bytes@ == t.1),
                Err(_) => !decodes_as(s@, "patest".spec_bytes(), 43) && !decodes_as(
                    s@,
                    "esktest".spec_bytes(),
                    169,
                ) && !decodes_as(s@, "fvktest".spec_bytes(), 96),
            },
    {
        match PaymentAddress::from_str(s) {
            Ok(p) => Ok(MaspValue::PaymentAddress(p)),
            Err(_) => {
                match ExtendedSpendingKey::from_str(s) {
                    Ok(k) => Ok(MaspValue::ExtendedSpendingKey(k)),
                    Err(_) => {
                        match FullViewingKey::from_str(s) {
                            Ok(k) => Ok(MaspValue::FullViewingKey(k)),
                            Err(e) => Err(e),
                        }
                    },
                }
            },
        }
    }
}

} // verus!
