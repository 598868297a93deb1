//! The transaction model: a two-phase pipeline in which a fee-bearing
//! *wrapper* commits to the ciphertext of an inner transaction in one block,
//! and the corresponding *decrypted* form is applied in the next. Protocol
//! transactions carry validator-origin control messages. Every variant has a
//! canonical encoding whose decoder is proved to invert it.

use vstd::prelude::*;
use crate::address::{enc_address, read_address, write_address, Address, AddressV};
use crate::codec::{
    dec_u64_at, enc_bytes, enc_opt_bytes, enc_u64, lemma_starts_with_split, lemma_u64_roundtrip,
    lemma_u64_roundtrip_inverse, opt_view, read_bytes, read_opt_bytes, read_tag, read_u64,
    starts_with, write_bytes, write_opt_bytes, write_tag, write_u64,
};
use crate::crypto::{clone_bytes, sha256_digest, sha256_of, sig_of, PublicKey, SecretKey, SigScheme, Signature};

verus! {

/// A fee: an amount of a given token, debited from the wrapper's fee payer
/// at acceptance time.
pub struct Fee {
    pub amount: u64,
    pub token: Address,
}

/// The mathematical value of a fee.
pub struct FeeV {
    pub amount: u64,
    pub token: AddressV,
}

impl View for Fee {
    type V = FeeV;

    open spec fn view(&self) -> FeeV {
        FeeV { amount: self.amount, token: self.token@ }
    }
}

/// An inner transaction: code to run in the sandbox and optional data.
pub struct Tx {
    pub code: Vec<u8>,
    pub data: Option<Vec<u8>>,
}

/// The mathematical value of an inner transaction.
pub struct TxV {
    pub code: Seq<u8>,
    pub data: Option<Seq<u8>>,
}

impl View for Tx {
    type V = TxV;

    open spec fn view(&self) -> TxV {
        TxV { code: self.code@, data: opt_view(&self.data) }
    }
}

impl Tx {
    /// Build a transaction from code and data.
    pub fn new(code: Vec<u8>, data: Option<Vec<u8>>) -> (r: Tx)
        ensures
            r@.code == code@,
            r@.data == opt_view(&data),
    {
        Tx { code, data }
    }

    /// Copy the transaction.
    pub fn clone_tx(&self) -> (r: Tx)
        ensures
            r@ == self@,
    {
        let data = match &self.data {
            None => None,
            Some(d) => Some(clone_bytes(d)),
        };
        Tx { code: clone_bytes(&self.code), data }
    }
}

/// A fee-bearing envelope committing to the ciphertext of an inner
/// transaction and to the hash of its eventual plaintext.
pub struct WrapperTx {
    pub fee: Fee,
    pub pk: PublicKey,
    pub epoch: u64,
    pub gas_limit: u64,
    pub inner_tx: Vec<u8>,
    pub tx_hash: Vec<u8>,
}

/// The mathematical value of a wrapper transaction.
pub struct WrapperTxV {
    pub fee: FeeV,
    pub pk: Seq<u8>,
    pub epoch: u64,
    pub gas_limit: u64,
    pub inner_tx: Seq<u8>,
    pub tx_hash: Seq<u8>,
}

impl View for WrapperTx {
    type V = WrapperTxV;

    open spec fn view(&self) -> WrapperTxV {
        WrapperTxV {
            fee: self.fee@,
            pk: self.pk.bytes(),
            epoch: self.epoch,
            gas_limit: self.gas_limit,
            inner_tx: self.inner_tx@,
            tx_hash: self.tx_hash@,
        }
    }
}

/// A signed payload: the bytes signed, and the signature over them.
pub struct SignedTxData {
    pub data: Option<Vec<u8>>,
    pub sig: Signature,
}

/// The mathematical value of a signed payload.
pub struct SignedTxDataV {
    pub data: Option<Seq<u8>>,
    pub sig: Seq<u8>,
}

impl View for SignedTxData {
    type V = SignedTxDataV;

    open spec fn view(&self) -> SignedTxDataV {
        SignedTxDataV { data: opt_view(&self.data), sig: self.sig.bytes() }
    }
}

/// The plaintext (or the failure witness) produced in the block following a
/// wrapper's acceptance.
pub enum DecryptedTx {
    /// The inner transaction decrypted successfully.
    Decrypted(Tx),
    /// The ciphertext could not be decrypted; the wrapper is the witness.
    Undecryptable(WrapperTx),
}

/// The mathematical value of a decrypted transaction.
pub enum DecryptedTxV {
    Decrypted(TxV),
    Undecryptable(WrapperTxV),
}

impl View for DecryptedTx {
    type V = DecryptedTxV;

    open spec fn view(&self) -> DecryptedTxV {
        match self {
            DecryptedTx::Decrypted(t) => DecryptedTxV::Decrypted(t@),
            DecryptedTx::Undecryptable(w) => DecryptedTxV::Undecryptable(w@),
        }
    }
}

/// The kinds of validator-origin control messages.
pub enum ProtocolTxType {
    /// A message of the distributed key generation protocol.
    Dkg(Vec<u8>),
    /// A request to rotate a validator's DKG session keypair.
    NewDkgKeypair(Tx),
}

/// The mathematical value of a protocol message kind.
pub enum ProtocolTxTypeV {
    Dkg(Seq<u8>),
    NewDkgKeypair(TxV),
}

impl View for ProtocolTxType {
    type V = ProtocolTxTypeV;

    open spec fn view(&self) -> ProtocolTxTypeV {
        match self {
            ProtocolTxType::Dkg(m) => ProtocolTxTypeV::Dkg(m@),
            ProtocolTxType::NewDkgKeypair(t) => ProtocolTxTypeV::NewDkgKeypair(t@),
        }
    }
}

/// A validator-origin control message, signed by a protocol key.
pub struct ProtocolTx {
    pub pk: PublicKey,
    pub tx: ProtocolTxType,
}

/// The mathematical value of a protocol transaction.
pub struct ProtocolTxV {
    pub pk: Seq<u8>,
    pub tx: ProtocolTxTypeV,
}

impl View for ProtocolTx {
    type V = ProtocolTxV;

    open spec fn view(&self) -> ProtocolTxV {
        ProtocolTxV { pk: self.pk.bytes(), tx: self.tx@ }
    }
}

/// The tagged sum of transaction kinds.
pub enum TxType {
    /// Unencrypted; accepted only through internal paths.
    Raw(Tx),
    /// The fee-bearing envelope.
    Wrapper(WrapperTx),
    /// The plaintext or failure witness of an accepted wrapper.
    Decrypted(DecryptedTx),
    /// A validator-origin control message.
    Protocol(ProtocolTx),
}

/// The mathematical value of a transaction kind.
pub enum TxTypeV {
    Raw(TxV),
    Wrapper(WrapperTxV),
    Decrypted(DecryptedTxV),
    Protocol(ProtocolTxV),
}

impl View for TxType {
    type V = TxTypeV;

    open spec fn view(&self) -> TxTypeV {
        match self {
            TxType::Raw(t) => TxTypeV::Raw(t@),
            TxType::Wrapper(w) => TxTypeV::Wrapper(w@),
            TxType::Decrypted(d) => TxTypeV::Decrypted(d@),
            TxType::Protocol(p) => TxTypeV::Protocol(p@),
        }
    }
}

/// Canonical encoding of a public key.
pub open spec fn enc_pubkey(pk: Seq<u8>) -> Seq<u8> {
    seq![0u8] + enc_bytes(pk)
}

/// Canonical encoding of a signature.
pub open spec fn enc_sig(sg: Seq<u8>) -> Seq<u8> {
    seq![0u8] + enc_bytes(sg)
}

/// Canonical encoding of a fee.
pub open spec fn enc_fee(f: FeeV) -> Seq<u8> {
    enc_u64(f.amount) + enc_address(f.token)
}

/// Canonical encoding of an inner transaction.
pub open spec fn enc_tx(t: TxV) -> Seq<u8> {
    enc_bytes(t.code) + enc_opt_bytes(t.data)
}

/// Canonical encoding of a signed payload.
pub open spec fn enc_signed(sd: SignedTxDataV) -> Seq<u8> {
    enc_opt_bytes(sd.data) + enc_sig(sd.sig)
}

/// Canonical encoding of a wrapper transaction.
pub open spec fn enc_wrapper(w: WrapperTxV) -> Seq<u8> {
    enc_fee(w.fee) + enc_pubkey(w.pk) + enc_u64(w.epoch) + enc_u64(w.gas_limit) + enc_bytes(
        w.inner_tx,
    ) + enc_bytes(w.tx_hash)
}

/// Canonical encoding of a decrypted transaction.
pub open spec fn enc_decrypted(d: DecryptedTxV) -> Seq<u8> {
    match d {
        DecryptedTxV::Decrypted(t) => seq![0u8] + enc_tx(t),
        DecryptedTxV::Undecryptable(w) => seq![1u8] + enc_wrapper(w),
    }
}

/// Canonical encoding of a protocol message kind.
pub open spec fn enc_protocol_type(p: ProtocolTxTypeV) -> Seq<u8> {
    match p {
        ProtocolTxTypeV::Dkg(m) => seq![0u8] + enc_bytes(m),
        ProtocolTxTypeV::NewDkgKeypair(t) => seq![1u8] + enc_tx(t),
    }
}

/// Canonical encoding of a protocol transaction.
pub open spec fn enc_protocol(p: ProtocolTxV) -> Seq<u8> {
    enc_pubkey(p.pk) + enc_protocol_type(p.tx)
}

/// Canonical encoding of a transaction kind.
pub open spec fn enc_tx_type(t: TxTypeV) -> Seq<u8> {
    match t {
        TxTypeV::Raw(x) => seq![0u8] + enc_tx(x),
        TxTypeV::Wrapper(w) => seq![1u8] + enc_wrapper(w),
        TxTypeV::Decrypted(d) => seq![2u8] + enc_decrypted(d),
        TxTypeV::Protocol(p) => seq![3u8] + enc_protocol(p),
    }
}

/// Append the canonical encoding of a public key.
pub fn write_pubkey(out: &mut Vec<u8>, pk: &PublicKey)
    ensures
        final(out)@ == old(out)@ + enc_pubkey(pk.bytes()),
{
    write_tag(out, 0);
    match pk {
        PublicKey::Ed25519(b) => write_bytes(out, b),
    }
    assert(out@ =~= old(out)@ + enc_pubkey(pk.bytes()));
}

/// Append the canonical encoding of a signature.
pub fn write_sig(out: &mut Vec<u8>, sg: &Signature)
    ensures
        final(out)@ == old(out)@ + enc_sig(sg.bytes()),
{
    write_tag(out, 0);
    match sg {
        Signature::Ed25519(b) => write_bytes(out, b),
    }
    assert(out@ =~= old(out)@ + enc_sig(sg.bytes()));
}

/// Append the canonical encoding of a fee.
pub fn write_fee(out: &mut Vec<u8>, f: &Fee)
    ensures
        final(out)@ == old(out)@ + enc_fee(f@),
{
    write_u64(out, f.amount);
    write_address(out, &f.token);
    assert(out@ =~= old(out)@ + enc_fee(f@));
}

/// Append the canonical encoding of an inner transaction.
pub fn write_tx(out: &mut Vec<u8>, t: &Tx)
    ensures
        final(out)@ == old(out)@ + enc_tx(t@),
{
    write_bytes(out, &t.code);
    write_opt_bytes(out, &t.data);
    assert(out@ =~= old(out)@ + enc_tx(t@));
}

/// The canonical encoding of an inner transaction, as bytes.
pub fn encode_tx(t: &Tx) -> (r: Vec<u8>)
    ensures
        r@ == enc_tx(t@),
{
    let mut out: Vec<u8> = Vec::new();
    write_tx(&mut out, t);
    assert(out@ =~= enc_tx(t@));
    out
}

/// Append the canonical encoding of a signed payload.
pub fn write_signed(out: &mut Vec<u8>, sd: &SignedTxData)
    ensures
        final(out)@ == old(out)@ + enc_signed(sd@),
{
    write_opt_bytes(out, &sd.data);
    write_sig(out, &sd.sig);
    assert(out@ =~= old(out)@ + enc_signed(sd@));
}

/// Append the canonical encoding of a wrapper transaction.
pub fn write_wrapper(out: &mut Vec<u8>, w: &WrapperTx)
    ensures
        final(out)@ == old(out)@ + enc_wrapper(w@),
{
    write_fee(out, &w.fee);
    write_pubkey(out, &w.pk);
    write_u64(out, w.epoch);
    write_u64(out, w.gas_limit);
    write_bytes(out, &w.inner_tx);
    write_bytes(out, &w.tx_hash);
    assert(out@ =~= old(out)@ + enc_wrapper(w@));
}

/// Append the canonical encoding of a decrypted transaction.
pub fn write_decrypted(out: &mut Vec<u8>, d: &DecryptedTx)
    ensures
        final(out)@ == old(out)@ + enc_decrypted(d@),
{
    match d {
        DecryptedTx::Decrypted(t) => {
            write_tag(out, 0);
            write_tx(out, t);
        },
        DecryptedTx::Undecryptable(w) => {
            write_tag(out, 1);
            write_wrapper(out, w);
        },
    }
    assert(out@ =~= old(out)@ + enc_decrypted(d@));
}

/// Append the canonical encoding of a protocol message kind.
pub fn write_protocol_type(out: &mut Vec<u8>, p: &ProtocolTxType)
    ensures
        final(out)@ == old(out)@ + enc_protocol_type(p@),
{
    match p {
        ProtocolTxType::Dkg(m) => {
            write_tag(out, 0);
            write_bytes(out, m);
        },
        ProtocolTxType::NewDkgKeypair(t) => {
            write_tag(out, 1);
            write_tx(out, t);
        },
    }
    assert(out@ =~= old(out)@ + enc_protocol_type(p@));
}

/// Append the canonical encoding of a protocol transaction.
pub fn write_protocol(out: &mut Vec<u8>, p: &ProtocolTx)
    ensures
        final(out)@ == old(out)@ + enc_protocol(p@),
{
    write_pubkey(out, &p.pk);
    write_protocol_type(out, &p.tx);
    assert(out@ =~= old(out)@ + enc_protocol(p@));
}

/// Append the canonical encoding of a transaction kind.
pub fn write_tx_type(out: &mut Vec<u8>, t: &TxType)
    ensures
        final(out)@ == old(out)@ + enc_tx_type(t@),
{
    match t {
        TxType::Raw(x) => {
            write_tag(out, 0);
            write_tx(out, x);
        },
        TxType::Wrapper(w) => {
            write_tag(out, 1);
            write_wrapper(out, w);
        },
        TxType::Decrypted(d) => {
            write_tag(out, 2);
            write_decrypted(out, d);
        },
        TxType::Protocol(p) => {
            write_tag(out, 3);
            write_protocol(out, p);
        },
    }
    assert(out@ =~= old(out)@ + enc_tx_type(t@));
}

/// The canonical encoding of a transaction kind, as bytes.
pub fn encode_tx_type(t: &TxType) -> (r: Vec<u8>)
    ensures
        r@ == enc_tx_type(t@),
{
    let mut out: Vec<u8> = Vec::new();
    write_tx_type(&mut out, t);
    assert(out@ =~= enc_tx_type(t@));
    out
}

/// Read a public key at `*pos`, advancing the position.
///
/// Sound: a parsed key is the exact encoding consumed. Complete: an input
/// that continues with an encoded key parses to that key. Every parser
/// below has the same two guarantees.
pub fn read_pubkey(bytes: &Vec<u8>, pos: &mut usize) -> (r: Option<PublicKey>)
    ensures
        match r {
            Some(x) => {
                &&& *final(pos) <= bytes@.len()
                &&& *old(pos) < *final(pos)
                &&& bytes@.subrange(*old(pos) as int, *final(pos) as int) == enc_pubkey(x.bytes())
            },
            None => *final(pos) == *old(pos),
        },
        forall|pk: Seq<u8>|
            starts_with(bytes@, *old(pos) as int, enc_pubkey(pk)) ==> (r matches Some(x)
                && x.bytes() == pk && *final(pos) == *old(pos) + enc_pubkey(pk).len()),
{
    let start = *pos;
    proof {
        assert forall|pk: Seq<u8>|
            starts_with(bytes@, start as int, enc_pubkey(pk)) implies (bytes@[start as int] == 0
            && starts_with(bytes@, start + 1, enc_bytes(pk))) by {
            lemma_starts_with_split(bytes@, start as int, seq![0u8], enc_bytes(pk));
            assert(bytes@.subrange(start as int, start + 1)[0] == bytes@[start as int]);
        }
    }
    match read_tag(bytes, pos) {
        None => None,
        Some(0) => {
            match read_bytes(bytes, pos) {
                None => {
                    *pos = start;
                    None
                },
                Some(b) => {
                    assert(bytes@.subrange(start as int, *pos as int) =~= seq![0u8] + bytes@
                        .subrange(start + 1, *pos as int));
                    Some(PublicKey::Ed25519(b))
                },
            }
        },
        Some(_) => {
            *pos = start;
            None
        },
    }
}

/// Read a signature at `*pos`, advancing the position.
pub fn read_sig(bytes: &Vec<u8>, pos: &mut usize) -> (r: Option<Signature>)
    ensures
        match r {
            Some(x) => {
                &&& *final(pos) <= bytes@.len()
                &&& *old(pos) < *final(pos)
                &&& bytes@.subrange(*old(pos) as int, *final(pos) as int) == enc_sig(x.bytes())
            },
            None => *final(pos) == *old(pos),
        },
        forall|sg: Seq<u8>|
            starts_with(bytes@, *old(pos) as int, enc_sig(sg)) ==> (r matches Some(x) && x.bytes()
                == sg && *final(pos) == *old(pos) + enc_sig(sg).len()),
{
    let start = *pos;
    proof {
        assert forall|sg: Seq<u8>|
            starts_with(bytes@, start as int, enc_sig(sg)) implies (bytes@[start as int] == 0
            && starts_with(bytes@, start + 1, enc_bytes(sg))) by {
            lemma_starts_with_split(bytes@, start as int, seq![0u8], enc_bytes(sg));
            assert(bytes@.subrange(start as int, start + 1)[0] == bytes@[start as int]);
        }
    }
    match read_tag(bytes, pos) {
        None => None,
        Some(0) => {
            match read_bytes(bytes, pos) {
                None => {
                    *pos = start;
                    None
                },
                Some(b) => {
                    assert(bytes@.subrange(start as int, *pos as int) =~= seq![0u8] + bytes@
                        .subrange(start + 1, *pos as int));
                    Some(Signature::Ed25519(b))
                },
            }
        },
        Some(_) => {
            *pos = start;
            None
        },
    }
}

/// Read a fee at `*pos`, advancing the position.
pub fn read_fee(bytes: &Vec<u8>, pos: &mut usize) -> (r: Option<Fee>)
    ensures
        match r {
            Some(x) => {
                &&& *final(pos) <= bytes@.len()
                &&& *old(pos) < *final(pos)
                &&& bytes@.subrange(*old(pos) as int, *final(pos) as int) == enc_fee(x@)
            },
            None => *final(pos) == *old(pos),
        },
        forall|v: FeeV|
            starts_with(bytes@, *old(pos) as int, enc_fee(v)) ==> (r matches Some(x) && x@ == v
                && *final(pos) == *old(pos) + enc_fee(v).len()),
{
    let start = *pos;
    proof {
        assert forall|v: FeeV|
            starts_with(bytes@, start as int, enc_fee(v)) implies (starts_with(
            bytes@,
            start as int,
            enc_u64(v.amount),
        ) && starts_with(bytes@, start + 8, enc_address(v.token)) && dec_u64_at(
            bytes@,
            start as int,
        ) == v.amount) by {
            lemma_starts_with_split(bytes@, start as int, enc_u64(v.amount), enc_address(v.token));
            lemma_u64_roundtrip(v.amount, bytes@, start as int);
        }
    }
    let amount = match read_u64(bytes, pos) {
        None => {
            return None;
        },
        Some(x) => x,
    };
    let token = match read_address(bytes, pos) {
        None => {
            *pos = start;
            return None;
        },
        Some(a) => a,
    };
    proof {
        lemma_u64_roundtrip_inverse(bytes@, start as int, amount);
        assert(bytes@.subrange(start as int, *pos as int) =~= enc_u64(amount) + bytes@.subrange(
            start + 8,
            *pos as int,
        ));
    }
    Some(Fee { amount, token })
}

/// Read an inner transaction at `*pos`, advancing the position.
pub fn read_tx(bytes: &Vec<u8>, pos: &mut usize) -> (r: Option<Tx>)
    ensures
        match r {
            Some(x) => {
                &&& *final(pos) <= bytes@.len()
                &&& *old(pos) < *final(pos)
                &&& bytes@.subrange(*old(pos) as int, *final(pos) as int) == enc_tx(x@)
            },
            None => *final(pos) == *old(pos),
        },
        forall|v: TxV|
            starts_with(bytes@, *old(pos) as int, enc_tx(v)) ==> (r matches Some(x) && x@ == v
                && *final(pos) == *old(pos) + enc_tx(v).len()),
{
    let start = *pos;
    proof {
        assert forall|v: TxV|
            starts_with(bytes@, start as int, enc_tx(v)) implies (starts_with(
            bytes@,
            start as int,
            enc_bytes(v.code),
        ) && starts_with(bytes@, start + enc_bytes(v.code).len(), enc_opt_bytes(v.data))) by {
            lemma_starts_with_split(bytes@, start as int, enc_bytes(v.code), enc_opt_bytes(v.data));
        }
    }
    let code = match read_bytes(bytes, pos) {
        None => {
            return None;
        },
        Some(c) => c,
    };
    let mid = *pos;
    let data = match read_opt_bytes(bytes, pos) {
        None => {
            *pos = start;
            proof {
                assert forall|v: TxV|
                    starts_with(bytes@, start as int, enc_tx(v)) implies false by {
                    assert(enc_bytes(v.code).len() == enc_bytes(code@).len());
                }
            }
            return None;
        },
        Some(d) => d,
    };
    proof {
        assert(bytes@.subrange(start as int, *pos as int) =~= enc_bytes(code@) + bytes@.subrange(
            mid as int,
            *pos as int,
        ));
        assert forall|v: TxV|
            starts_with(bytes@, start as int, enc_tx(v)) implies (Tx {
            code: code,
            data: data,
        }@ == v && *pos == start + enc_tx(v).len()) by {
            assert(enc_bytes(v.code).len() == enc_bytes(code@).len());
        }
    }
    Some(Tx { code, data })
}

/// Read a signed payload at `*pos`, advancing the position.
pub fn read_signed(bytes: &Vec<u8>, pos: &mut usize) -> (r: Option<SignedTxData>)
    ensures
        match r {
            Some(x) => {
                &&& *final(pos) <= bytes@.len()
                &&& *old(pos) < *final(pos)
                &&& bytes@.subrange(*old(pos) as int, *final(pos) as int) == enc_signed(x@)
            },
            None => *final(pos) == *old(pos),
        },
        forall|v: SignedTxDataV|
            starts_with(bytes@, *old(pos) as int, enc_signed(v)) ==> (r matches Some(x) && x@ == v
                && *final(pos) == *old(pos) + enc_signed(v).len()),
{
    let start = *pos;
    proof {
        assert forall|v: SignedTxDataV|
            starts_with(bytes@, start as int, enc_signed(v)) implies (starts_with(
            bytes@,
            start as int,
            enc_opt_bytes(v.data),
        ) && starts_with(bytes@, start + enc_opt_bytes(v.data).len(), enc_sig(v.sig))) by {
            lemma_starts_with_split(bytes@, start as int, enc_opt_bytes(v.data), enc_sig(v.sig));
        }
    }
    let data = match read_opt_bytes(bytes, pos) {
        None => {
            return None;
        },
        Some(d) => d,
    };
    let mid = *pos;
    let sig = match read_sig(bytes, pos) {
        None => {
            *pos = start;
            proof {
                assert forall|v: SignedTxDataV|
                    starts_with(bytes@, start as int, enc_signed(v)) implies false by {
                    assert(enc_opt_bytes(v.data).len() == enc_opt_bytes(opt_view(&data)).len());
                }
            }
            return None;
        },
        Some(s) => s,
    };
    proof {
        assert(bytes@.subrange(start as int, *pos as int) =~= enc_opt_bytes(opt_view(&data))
            + bytes@.subrange(mid as int, *pos as int));
        assert forall|v: SignedTxDataV|
            starts_with(bytes@, start as int, enc_signed(v)) implies (SignedTxData {
            data: data,
            sig: sig,
        }@ == v && *pos == start + enc_signed(v).len()) by {
            assert(enc_opt_bytes(v.data).len() == enc_opt_bytes(opt_view(&data)).len());
        }
    }
    Some(SignedTxData { data, sig })
}

/// Canonical encoding of the tail of a wrapper: epoch, gas limit,
/// ciphertext and commitment.
pub open spec fn enc_wtail(epoch: u64, gas_limit: u64, inner: Seq<u8>, hash: Seq<u8>) -> Seq<u8> {
    enc_u64(epoch) + enc_u64(gas_limit) + enc_bytes(inner) + enc_bytes(hash)
}

/// Splitting an encoded wrapper into fee, public key and tail.
proof fn lemma_wrapper_starts(bytes: Seq<u8>, start: int, v: WrapperTxV)
    requires
        starts_with(bytes, start, enc_wrapper(v)),
    ensures
        starts_with(bytes, start, enc_fee(v.fee)),
        starts_with(bytes, start + enc_fee(v.fee).len(), enc_pubkey(v.pk)),
        starts_with(
            bytes,
            start + enc_fee(v.fee).len() + enc_pubkey(v.pk).len(),
            enc_wtail(v.epoch, v.gas_limit, v.inner_tx, v.tx_hash),
        ),
{
    let p1 = enc_fee(v.fee);
    let p2 = enc_pubkey(v.pk);
    let pt = enc_wtail(v.epoch, v.gas_limit, v.inner_tx, v.tx_hash);
    assert(enc_wrapper(v) =~= (p1 + p2) + pt);
    lemma_starts_with_split(bytes, start, p1 + p2, pt);
    lemma_starts_with_split(bytes, start, p1, p2);
}

/// Splitting an encoded wrapper tail into its four fields.
proof fn lemma_wtail_starts(bytes: Seq<u8>, start: int, e: u64, g: u64, inn: Seq<u8>, h: Seq<u8>)
    requires
        starts_with(bytes, start, enc_wtail(e, g, inn, h)),
    ensures
        starts_with(bytes, start, enc_u64(e)),
        starts_with(bytes, start + 8, enc_u64(g)),
        starts_with(bytes, start + 16, enc_bytes(inn)),
        starts_with(bytes, start + 16 + enc_bytes(inn).len(), enc_bytes(h)),
        dec_u64_at(bytes, start) == e,
        dec_u64_at(bytes, start + 8) == g,
{
    let p1 = enc_u64(e);
    let p2 = enc_u64(g);
    let p3 = enc_bytes(inn);
    let p4 = enc_bytes(h);
    assert(enc_wtail(e, g, inn, h) =~= (p1 + p2 + p3) + p4);
    lemma_starts_with_split(bytes, start, p1 + p2 + p3, p4);
    assert(p1 + p2 + p3 =~= (p1 + p2) + p3);
    lemma_starts_with_split(bytes, start, p1 + p2, p3);
    lemma_starts_with_split(bytes, start, p1, p2);
    lemma_u64_roundtrip(e, bytes, start);
    lemma_u64_roundtrip(g, bytes, start + 8);
}

/// Read the tail of a wrapper transaction, assembling it with the already
/// parsed fee and public key.
fn read_wrapper_tail(bytes: &Vec<u8>, pos: &mut usize, fee: Fee, pk: PublicKey) -> (r: Option<
    WrapperTx,
>)
    ensures
        match r {
            Some(x) => {
                &&& *final(pos) <= bytes@.len()
                &&& *old(pos) < *final(pos)
                &&& bytes@.subrange(*old(pos) as int, *final(pos) as int) == enc_wtail(
                    x.epoch,
                    x.gas_limit,
                    x@.inner_tx,
                    x@.tx_hash,
                )
                &&& x@.fee == fee@
                &&& x@.pk == pk.bytes()
            },
            None => *final(pos) == *old(pos),
        },
        forall|e: u64, g: u64, inn: Seq<u8>, h: Seq<u8>|
            starts_with(bytes@, *old(pos) as int, enc_wtail(e, g, inn, h)) ==> (r matches Some(x)
                && x.epoch == e && x.gas_limit == g && x@.inner_tx == inn && x@.tx_hash == h
                && *final(pos) == *old(pos) + enc_wtail(e, g, inn, h).len()),
{
    let start = *pos;
    proof {
        assert forall|e: u64, g: u64, inn: Seq<u8>, h: Seq<u8>|
            starts_with(bytes@, start as int, enc_wtail(e, g, inn, h)) implies (starts_with(
            bytes@,
            start as int,
            enc_u64(e),
        ) && starts_with(bytes@, start + 8, enc_u64(g)) && starts_with(
            bytes@,
            start + 16,
            enc_bytes(inn),
        ) && starts_with(bytes@, start + 16 + enc_bytes(inn).len(), enc_bytes(h)) && dec_u64_at(
            bytes@,
            start as int,
        ) == e && dec_u64_at(bytes@, start + 8) == g) by {
            lemma_wtail_starts(bytes@, start as int, e, g, inn, h);
        }
    }
    let epoch = match read_u64(bytes, pos) {
        None => {
            return None;
        },
        Some(x) => x,
    };
    let gas_limit = match read_u64(bytes, pos) {
        None => {
            *pos = start;
            return None;
        },
        Some(x) => x,
    };
    let inner_tx = match read_bytes(bytes, pos) {
        None => {
            *pos = start;
            return None;
        },
        Some(b) => b,
    };
    let i5 = *pos;
    let tx_hash = match read_bytes(bytes, pos) {
        None => {
            *pos = start;
            proof {
                assert forall|e: u64, g: u64, inn: Seq<u8>, h: Seq<u8>|
                    starts_with(bytes@, start as int, enc_wtail(e, g, inn, h)) implies false by {
                    assert(enc_bytes(inn).len() == enc_bytes(inner_tx@).len());
                }
            }
            return None;
        },
        Some(b) => b,
    };
    let w = WrapperTx { fee, pk, epoch, gas_limit, inner_tx, tx_hash };
    proof {
        lemma_u64_roundtrip_inverse(bytes@, start as int, epoch);
        lemma_u64_roundtrip_inverse(bytes@, start + 8, gas_limit);
        assert(bytes@.subrange(start as int, start + 16) =~= enc_u64(epoch) + enc_u64(gas_limit));
        assert(bytes@.subrange(start as int, i5 as int) =~= bytes@.subrange(
            start as int,
            start + 16,
        ) + enc_bytes(inner_tx@));
        assert(bytes@.subrange(start as int, *pos as int) =~= bytes@.subrange(
            start as int,
            i5 as int,
        ) + enc_bytes(tx_hash@));
        assert(bytes@.subrange(start as int, *pos as int) =~= enc_wtail(
            epoch,
            gas_limit,
            inner_tx@,
            tx_hash@,
        ));
        assert forall|e: u64, g: u64, inn: Seq<u8>, h: Seq<u8>|
            starts_with(bytes@, start as int, enc_wtail(e, g, inn, h)) implies (epoch == e
            && gas_limit == g && inner_tx@ == inn && tx_hash@ == h && *pos == start + enc_wtail(
            e,
            g,
            inn,
            h,
        ).len()) by {
            assert(enc_bytes(inn).len() == enc_bytes(inner_tx@).len());
        }
    }
    Some(w)
}

/// Read a wrapper transaction at `*pos`, advancing the position.
#[verifier::spinoff_prover]
pub fn read_wrapper(bytes: &Vec<u8>, pos: &mut usize) -> (r: Option<WrapperTx>)
    ensures
        match r {
            Some(x) => {
                &&& *final(pos) <= bytes@.len()
                &&& *old(pos) < *final(pos)
                &&& bytes@.subrange(*old(pos) as int, *final(pos) as int) == enc_wrapper(x@)
            },
            None => *final(pos) == *old(pos),
        },
        forall|v: WrapperTxV|
            starts_with(bytes@, *old(pos) as int, enc_wrapper(v)) ==> (r matches Some(x) && x@ == v
                && *final(pos) == *old(pos) + enc_wrapper(v).len()),
{
    let start = *pos;
    let fee = match read_fee(bytes, pos) {
        None => {
            proof {
                assert forall|v: WrapperTxV|
                    starts_with(bytes@, start as int, enc_wrapper(v)) implies false by {
                    lemma_wrapper_starts(bytes@, start as int, v);
                }
            }
            return None;
        },
        Some(f) => f,
    };
    let i1 = *pos;
    let pk = match read_pubkey(bytes, pos) {
        None => {
            *pos = start;
            proof {
                assert forall|v: WrapperTxV|
                    starts_with(bytes@, start as int, enc_wrapper(v)) implies false by {
                    lemma_wrapper_starts(bytes@, start as int, v);
                    assert(enc_fee(v.fee).len() == enc_fee(fee@).len());
                }
            }
            return None;
        },
        Some(k) => k,
    };
    let i2 = *pos;
    let ghost gfee = fee@;
    let ghost gpk = pk.bytes();
    let w = match read_wrapper_tail(bytes, pos, fee, pk) {
        None => {
            *pos = start;
            proof {
                assert forall|v: WrapperTxV|
                    starts_with(bytes@, start as int, enc_wrapper(v)) implies false by {
                    lemma_wrapper_starts(bytes@, start as int, v);
                    assert(enc_fee(v.fee).len() == enc_fee(gfee).len());
                    assert(enc_pubkey(v.pk).len() == enc_pubkey(gpk).len());
                }
            }
            return None;
        },
        Some(w) => w,
    };
    proof {
        assert(bytes@.subrange(start as int, *pos as int) =~= bytes@.subrange(
            start as int,
            i1 as int,
        ) + bytes@.subrange(i1 as int, i2 as int) + bytes@.subrange(i2 as int, *pos as int));
        assert(bytes@.subrange(start as int, *pos as int) =~= enc_wrapper(w@));
        assert forall|v: WrapperTxV|
            starts_with(bytes@, start as int, enc_wrapper(v)) implies (w@ == v && *pos == start
            + enc_wrapper(v).len()) by {
            lemma_wrapper_starts(bytes@, start as int, v);
            assert(enc_fee(v.fee).len() == enc_fee(gfee).len());
            assert(enc_pubkey(v.pk).len() == enc_pubkey(gpk).len());
        }
    }
    Some(w)
}

/// Read a decrypted transaction at `*pos`, advancing the position.
#[verifier::spinoff_prover]
pub fn read_decrypted(bytes: &Vec<u8>, pos: &mut usize) -> (r: Option<DecryptedTx>)
    ensures
        match r {
            Some(x) => {
                &&& *final(pos) <= bytes@.len()
                &&& *old(pos) < *final(pos)
                &&& bytes@.subrange(*old(pos) as int, *final(pos) as int) == enc_decrypted(x@)
            },
            None => *final(pos) == *old(pos),
        },
        forall|v: DecryptedTxV|
            starts_with(bytes@, *old(pos) as int, enc_decrypted(v)) ==> (r matches Some(x) && x@
                == v && *final(pos) == *old(pos) + enc_decrypted(v).len()),
{
    let start = *pos;
    proof {
        assert forall|v: DecryptedTxV|
            starts_with(bytes@, start as int, enc_decrypted(v)) implies (bytes@[start as int]
            == enc_decrypted(v)[0] && match v {
            DecryptedTxV::Decrypted(t) => starts_with(bytes@, start + 1, enc_tx(t)),
            DecryptedTxV::Undecryptable(w) => starts_with(bytes@, start + 1, enc_wrapper(w)),
        }) by {
            assert(bytes@.subrange(start as int, start + enc_decrypted(v).len())[0]
                == enc_decrypted(v)[0]);
            match v {
                DecryptedTxV::Decrypted(t) => {
                    lemma_starts_with_split(bytes@, start as int, seq![0u8], enc_tx(t));
                },
                DecryptedTxV::Undecryptable(w) => {
                    lemma_starts_with_split(bytes@, start as int, seq![1u8], enc_wrapper(w));
                },
            }
        }
    }
    match read_tag(bytes, pos) {
        None => None,
        Some(0) => {
            match read_tx(bytes, pos) {
                None => {
                    *pos = start;
                    None
                },
                Some(t) => {
                    assert(bytes@.subrange(start as int, *pos as int) =~= seq![0u8] + bytes@
                        .subrange(start + 1, *pos as int));
                    Some(DecryptedTx::Decrypted(t))
                },
            }
        },
        Some(1) => {
            match read_wrapper(bytes, pos) {
                None => {
                    *pos = start;
                    None
                },
                Some(w) => {
                    assert(bytes@.subrange(start as int, *pos as int) =~= seq![1u8] + bytes@
                        .subrange(start + 1, *pos as int));
                    Some(DecryptedTx::Undecryptable(w))
                },
            }
        },
        Some(_) => {
            *pos = start;
            None
        },
    }
}

/// Read a protocol message kind at `*pos`, advancing the position.
pub fn read_protocol_type(bytes: &Vec<u8>, pos: &mut usize) -> (r: Option<ProtocolTxType>)
    ensures
        match r {
            Some(x) => {
                &&& *final(pos) <= bytes@.len()
                &&& *old(pos) < *final(pos)
                &&& bytes@.subrange(*old(pos) as int, *final(pos) as int) == enc_protocol_type(x@)
            },
            None => *final(pos) == *old(pos),
        },
        forall|v: ProtocolTxTypeV|
            starts_with(bytes@, *old(pos) as int, enc_protocol_type(v)) ==> (r matches Some(x)
                && x@ == v && *final(pos) == *old(pos) + enc_protocol_type(v).len()),
{
    let start = *pos;
    proof {
        assert forall|v: ProtocolTxTypeV|
            starts_with(bytes@, start as int, enc_protocol_type(v)) implies (bytes@[start as int]
            == enc_protocol_type(v)[0] && match v {
            ProtocolTxTypeV::Dkg(m) => starts_with(bytes@, start + 1, enc_bytes(m)),
            ProtocolTxTypeV::NewDkgKeypair(t) => starts_with(bytes@, start + 1, enc_tx(t)),
        }) by {
            assert(bytes@.subrange(start as int, start + enc_protocol_type(v).len())[0]
                == enc_protocol_type(v)[0]);
            match v {
                ProtocolTxTypeV::Dkg(m) => {
                    lemma_starts_with_split(bytes@, start as int, seq![0u8], enc_bytes(m));
                },
                ProtocolTxTypeV::NewDkgKeypair(t) => {
                    lemma_starts_with_split(bytes@, start as int, seq![1u8], enc_tx(t));
                },
            }
        }
    }
    match read_tag(bytes, pos) {
        None => None,
        Some(0) => {
            match read_bytes(bytes, pos) {
                None => {
                    *pos = start;
                    None
                },
                Some(m) => {
                    assert(bytes@.subrange(start as int, *pos as int) =~= seq![0u8] + bytes@
                        .subrange(start + 1, *pos as int));
                    Some(ProtocolTxType::Dkg(m))
                },
            }
        },
        Some(1) => {
            match read_tx(bytes, pos) {
                None => {
                    *pos = start;
                    None
                },
                Some(t) => {
                    assert(bytes@.subrange(start as int, *pos as int) =~= seq![1u8] + bytes@
                        .subrange(start + 1, *pos as int));
                    Some(ProtocolTxType::NewDkgKeypair(t))
                },
            }
        },
        Some(_) => {
            *pos = start;
            None
        },
    }
}

/// Read a protocol transaction at `*pos`, advancing the position.
pub fn read_protocol(bytes: &Vec<u8>, pos: &mut usize) -> (r: Option<ProtocolTx>)
    ensures
        match r {
            Some(x) => {
                &&& *final(pos) <= bytes@.len()
                &&& *old(pos) < *final(pos)
                &&& bytes@.subrange(*old(pos) as int, *final(pos) as int) == enc_protocol(x@)
            },
            None => *final(pos) == *old(pos),
        },
        forall|v: ProtocolTxV|
            starts_with(bytes@, *old(pos) as int, enc_protocol(v)) ==> (r matches Some(x) && x@
                == v && *final(pos) == *old(pos) + enc_protocol(v).len()),
{
    let start = *pos;
    proof {
        assert forall|v: ProtocolTxV|
            starts_with(bytes@, start as int, enc_protocol(v)) implies (starts_with(
            bytes@,
            start as int,
            enc_pubkey(v.pk),
        ) && starts_with(bytes@, start + enc_pubkey(v.pk).len(), enc_protocol_type(v.tx))) by {
            lemma_starts_with_split(bytes@, start as int, enc_pubkey(v.pk), enc_protocol_type(v.tx));
        }
    }
    let pk = match read_pubkey(bytes, pos) {
        None => {
            return None;
        },
        Some(k) => k,
    };
    let mid = *pos;
    let ptx = match read_protocol_type(bytes, pos) {
        None => {
            *pos = start;
            proof {
                assert forall|v: ProtocolTxV|
                    starts_with(bytes@, start as int, enc_protocol(v)) implies false by {
                    assert(enc_pubkey(v.pk).len() == enc_pubkey(pk.bytes()).len());
                }
            }
            return None;
        },
        Some(p) => p,
    };
    proof {
        assert(bytes@.subrange(start as int, *pos as int) =~= enc_pubkey(pk.bytes()) + bytes@
            .subrange(mid as int, *pos as int));
        assert forall|v: ProtocolTxV|
            starts_with(bytes@, start as int, enc_protocol(v)) implies (ProtocolTx {
            pk: pk,
            tx: ptx,
        }@ == v && *pos == start + enc_protocol(v).len()) by {
            assert(enc_pubkey(v.pk).len() == enc_pubkey(pk.bytes()).len());
        }
    }
    Some(ProtocolTx { pk, tx: ptx })
}

/// Read a transaction kind at `*pos`, advancing the position.
#[verifier::spinoff_prover]
pub fn read_tx_type(bytes: &Vec<u8>, pos: &mut usize) -> (r: Option<TxType>)
    ensures
        match r {
            Some(x) => {
                &&& *final(pos) <= bytes@.len()
                &&& *old(pos) < *final(pos)
                &&& bytes@.subrange(*old(pos) as int, *final(pos) as int) == enc_tx_type(x@)
            },
            None => *final(pos) == *old(pos),
        },
        forall|v: TxTypeV|
            starts_with(bytes@, *old(pos) as int, enc_tx_type(v)) ==> (r matches Some(x) && x@ == v
                && *final(pos) == *old(pos) + enc_tx_type(v).len()),
{
    let start = *pos;
    proof {
        assert forall|v: TxTypeV|
            starts_with(bytes@, start as int, enc_tx_type(v)) implies (bytes@[start as int]
            == enc_tx_type(v)[0] && match v {
            TxTypeV::Raw(t) => starts_with(bytes@, start + 1, enc_tx(t)),
            TxTypeV::Wrapper(w) => starts_with(bytes@, start + 1, enc_wrapper(w)),
            TxTypeV::Decrypted(d) => starts_with(bytes@, start + 1, enc_decrypted(d)),
            TxTypeV::Protocol(p) => starts_with(bytes@, start + 1, enc_protocol(p)),
        }) by {
            assert(bytes@.subrange(start as int, start + enc_tx_type(v).len())[0] == enc_tx_type(
                v,
            )[0]);
            match v {
                TxTypeV::Raw(t) => {
                    lemma_starts_with_split(bytes@, start as int, seq![0u8], enc_tx(t));
                },
                TxTypeV::Wrapper(w) => {
                    lemma_starts_with_split(bytes@, start as int, seq![1u8], enc_wrapper(w));
                },
                TxTypeV::Decrypted(d) => {
                    lemma_starts_with_split(bytes@, start as int, seq![2u8], enc_decrypted(d));
                },
                TxTypeV::Protocol(p) => {
                    lemma_starts_with_split(bytes@, start as int, seq![3u8], enc_protocol(p));
                },
            }
        }
    }
    match read_tag(bytes, pos) {
        None => None,
        Some(0) => {
            match read_tx(bytes, pos) {
                None => {
                    *pos = start;
                    None
                },
                Some(t) => {
                    assert(bytes@.subrange(start as int, *pos as int) =~= seq![0u8] + bytes@
                        .subrange(start + 1, *pos as int));
                    Some(TxType::Raw(t))
                },
            }
        },
        Some(1) => {
            match read_wrapper(bytes, pos) {
                None => {
                    *pos = start;
                    None
                },
                Some(w) => {
                    assert(bytes@.subrange(start as int, *pos as int) =~= seq![1u8] + bytes@
                        .subrange(start + 1, *pos as int));
                    Some(TxType::Wrapper(w))
                },
            }
        },
        Some(2) => {
            match read_decrypted(bytes, pos) {
                None => {
                    *pos = start;
                    None
                },
                Some(d) => {
                    assert(bytes@.subrange(start as int, *pos as int) =~= seq![2u8] + bytes@
                        .subrange(start + 1, *pos as int));
                    Some(TxType::Decrypted(d))
                },
            }
        },
        Some(3) => {
            match read_protocol(bytes, pos) {
                None => {
                    *pos = start;
                    None
                },
                Some(p) => {
                    assert(bytes@.subrange(start as int, *pos as int) =~= seq![3u8] + bytes@
                        .subrange(start + 1, *pos as int));
                    Some(TxType::Protocol(p))
                },
            }
        },
        Some(_) => {
            *pos = start;
            None
        },
    }
}

/// Decode an inner transaction from exactly the given bytes.
///
/// Canonical round trip: the completeness clause says that decoding the
/// canonical encoding of any transaction yields that very transaction.
pub fn decode_tx(bytes: &Vec<u8>) -> (r: Option<Tx>)
    ensures
        r matches Some(t) ==> bytes@ == enc_tx(t@),
        forall|v: TxV| bytes@ == enc_tx(v) ==> (r matches Some(t) && t@ == v),
{
    let mut pos: usize = 0;
    proof {
        assert forall|v: TxV| bytes@ == enc_tx(v) implies starts_with(bytes@, 0, enc_tx(v)) by {
            assert(bytes@.subrange(0, enc_tx(v).len() as int) =~= bytes@);
        }
    }
    match read_tx(bytes, &mut pos) {
        None => None,
        Some(t) => {
            if pos == bytes.len() {
                assert(bytes@.subrange(0, pos as int) =~= bytes@);
                Some(t)
            } else {
                None
            }
        },
    }
}

/// Decode a transaction kind from exactly the given bytes.
///
/// Canonical round trip: the completeness clause says that decoding the
/// canonical encoding of any transaction kind yields that very value.
pub fn decode_tx_type(bytes: &Vec<u8>) -> (r: Option<TxType>)
    ensures
        r matches Some(t) ==> bytes@ == enc_tx_type(t@),
        forall|v: TxTypeV| bytes@ == enc_tx_type(v) ==> (r matches Some(t) && t@ == v),
{
    let mut pos: usize = 0;
    proof {
        assert forall|v: TxTypeV| bytes@ == enc_tx_type(v) implies starts_with(
            bytes@,
            0,
            enc_tx_type(v),
        ) by {
            assert(bytes@.subrange(0, enc_tx_type(v).len() as int) =~= bytes@);
        }
    }
    match read_tx_type(bytes, &mut pos) {
        None => None,
        Some(t) => {
            if pos == bytes.len() {
                assert(bytes@.subrange(0, pos as int) =~= bytes@);
                Some(t)
            } else {
                None
            }
        },
    }
}

/// Decode a signed payload from exactly the given bytes.
pub fn decode_signed(bytes: &Vec<u8>) -> (r: Option<SignedTxData>)
    ensures
        r matches Some(sd) ==> bytes@ == enc_signed(sd@),
        forall|v: SignedTxDataV| bytes@ == enc_signed(v) ==> (r matches Some(sd) && sd@ == v),
{
    let mut pos: usize = 0;
    proof {
        assert forall|v: SignedTxDataV| bytes@ == enc_signed(v) implies starts_with(
            bytes@,
            0,
            enc_signed(v),
        ) by {
            assert(bytes@.subrange(0, enc_signed(v).len() as int) =~= bytes@);
        }
    }
    match read_signed(bytes, &mut pos) {
        None => None,
        Some(sd) => {
            if pos == bytes.len() {
                assert(bytes@.subrange(0, pos as int) =~= bytes@);
                Some(sd)
            } else {
                None
            }
        },
    }
}

/// The hash a decrypted transaction commits to: for a plaintext, the digest
/// of its canonical encoding; for an undecryptable wrapper, the wrapper's
/// own commitment.
pub open spec fn commitment_of(d: DecryptedTxV) -> Seq<u8> {
    match d {
        DecryptedTxV::Decrypted(t) => sha256_of(enc_tx(t)),
        DecryptedTxV::Undecryptable(w) => w.tx_hash,
    }
}

/// A wrapper's ciphertext decrypts iff it is the canonical encoding of some
/// transaction and the wrapper's commitment is the digest of the ciphertext.
pub open spec fn wrapper_decryptable(w: WrapperTxV) -> bool {
    (exists|t: TxV| w.inner_tx == enc_tx(t)) && w.tx_hash == sha256_of(w.inner_tx)
}

impl WrapperTx {
    /// Build a wrapper committing to `tx`: the ciphertext carries the
    /// canonical encoding of the inner transaction and the commitment is its
    /// digest.
    pub fn new(fee: Fee, keypair: &SecretKey, epoch: u64, gas_limit: u64, tx: &Tx) -> (r:
        WrapperTx)
        ensures
            r@.fee == fee@,
            r@.pk == keypair.public_view(),
            r@.epoch == epoch,
            r@.gas_limit == gas_limit,
            r@.inner_tx == enc_tx(tx@),
            r@.tx_hash == sha256_of(enc_tx(tx@)),
    {
        let inner_tx = encode_tx(tx);
        let tx_hash = sha256_digest(&inner_tx);
        WrapperTx { fee, pk: keypair.ref_to(), epoch, gas_limit, inner_tx, tx_hash }
    }

    /// Copy the wrapper.
    pub fn clone_wrapper(&self) -> (r: WrapperTx)
        ensures
            r@ == self@,
    {
        WrapperTx {
            fee: Fee { amount: self.fee.amount, token: self.fee.token.clone_addr() },
            pk: self.pk.clone_key(),
            epoch: self.epoch,
            gas_limit: self.gas_limit,
            inner_tx: clone_bytes(&self.inner_tx),
            tx_hash: clone_bytes(&self.tx_hash),
        }
    }

    /// Check that the ciphertext is structurally valid: it decodes.
    pub fn validate_ciphertext(&self) -> (r: bool)
        ensures
            r == exists|t: TxV| self@.inner_tx == enc_tx(t),
    {
        match decode_tx(&self.inner_tx) {
            Some(t) => {
                assert(self@.inner_tx == enc_tx(t@));
                true
            },
            None => false,
        }
    }

    /// Decrypt the ciphertext. Fails if the ciphertext does not decode or if
    /// the plaintext does not match the wrapper's commitment.
    pub fn decrypt(&self) -> (r: Option<Tx>)
        ensures
            (r is Some) == wrapper_decryptable(self@),
            r matches Some(t) ==> self@.inner_tx == enc_tx(t@),
    {
        let hash = sha256_digest(&self.inner_tx);
        if !crate::crypto::bytes_eq(&hash, &self.tx_hash) {
            return None;
        }
        match decode_tx(&self.inner_tx) {
            Some(t) => {
                assert(self@.inner_tx == enc_tx(t@));
                Some(t)
            },
            None => None,
        }
    }

    /// Wrap this wrapper in a signed envelope transaction.
    pub fn sign(&self, keypair: &SecretKey) -> (r: Tx)
        ensures
            r@ == signed_envelope(TxTypeV::Wrapper(self@), keypair.public_view()),
    {
        sign_tx_type(&TxType::Wrapper(self.clone_wrapper()), keypair)
    }
}

impl DecryptedTx {
    /// The hash this decrypted transaction commits to.
    pub fn hash_commitment(&self) -> (r: Vec<u8>)
        ensures
            r@ == commitment_of(self@),
    {
        match self {
            DecryptedTx::Decrypted(t) => {
                let bytes = encode_tx(t);
                sha256_digest(&bytes)
            },
            DecryptedTx::Undecryptable(w) => clone_bytes(&w.tx_hash),
        }
    }
}

/// A decrypted transaction is labelled correctly when a plaintext is carried
/// as such, and an undecryptable witness really does not decrypt.
pub open spec fn decrypted_correct(d: DecryptedTxV) -> bool {
    match d {
        DecryptedTxV::Decrypted(t) => true,
        DecryptedTxV::Undecryptable(w) => !wrapper_decryptable(w),
    }
}

/// Check that a decrypted transaction is labelled correctly.
pub fn verify_decrypted_correctly(d: &DecryptedTx) -> (r: bool)
    ensures
        r == decrypted_correct(d@),
{
    match d {
        DecryptedTx::Decrypted(_) => true,
        DecryptedTx::Undecryptable(w) => {
            let decrypted = w.decrypt();
            match decrypted {
                Some(_) => false,
                None => true,
            }
        },
    }
}

/// The envelope carrying a signed transaction kind: empty code, and as data
/// the encoded signed payload over the kind's canonical encoding.
pub open spec fn signed_envelope(t: TxTypeV, pk: Seq<u8>) -> TxV {
    TxV {
        code: Seq::empty(),
        data: Some(
            enc_signed(
                SignedTxDataV { data: Some(enc_tx_type(t)), sig: sig_of(pk, enc_tx_type(t)) },
            ),
        ),
    }
}

/// Sign a transaction kind, producing the envelope transaction.
pub fn sign_tx_type(t: &TxType, keypair: &SecretKey) -> (r: Tx)
    ensures
        r@ == signed_envelope(t@, keypair.public_view()),
{
    let payload = encode_tx_type(t);
    let sig = SigScheme::sign(keypair, &payload);
    let mut data: Vec<u8> = Vec::new();
    write_signed(&mut data, &SignedTxData { data: Some(payload), sig });
    assert(data@ =~= signed_envelope(t@, keypair.public_view()).data.unwrap());
    Tx { code: Vec::new(), data: Some(data) }
}

impl ProtocolTxType {
    /// Wrap this protocol message in a signed envelope transaction.
    pub fn sign(self, keypair: &SecretKey) -> (r: Tx)
        ensures
            r@ == signed_envelope(
                TxTypeV::Protocol(ProtocolTxV { pk: keypair.public_view(), tx: self@ }),
                keypair.public_view(),
            ),
    {
        sign_tx_type(&TxType::Protocol(ProtocolTx { pk: keypair.ref_to(), tx: self }), keypair)
    }
}

/// Why an envelope was rejected at parse time.
#[derive(Clone, Copy, PartialEq, Eq, Structural, Debug)]
pub enum TxError {
    /// A wrapper or protocol transaction arrived without a signature.
    Unsigned,
    /// The envelope signature does not verify.
    InvalidSig,
}

impl TxError {
    /// The diagnostic reported for this rejection.
    pub fn message(&self) -> (r: String)
        ensures
            r@ == self.message_spec(),
    {
        match self {
            TxError::Unsigned => "Wrapper transactions must be signed".to_owned(),
            TxError::InvalidSig => "Signature verification failed: signature error".to_owned(),
        }
    }

    /// The diagnostic for this rejection.
    pub open spec fn message_spec(&self) -> Seq<char> {
        match self {
            TxError::Unsigned => "Wrapper transactions must be signed"@,
            TxError::InvalidSig => "Signature verification failed: signature error"@,
        }
    }
}

/// What `process_tx` must return for an envelope with value `t`.
///
/// A signed wrapper or protocol transaction is accepted only if the
/// signature verifies under the key carried in the payload; an unsigned one
/// is rejected; decrypted transactions need no signature; anything else is
/// a raw transaction.
pub open spec fn process_tx_rel(t: TxV, rv: Result<TxTypeV, TxError>) -> bool {
    &&& (t.data is None ==> rv == Ok::<TxTypeV, TxError>(TxTypeV::Raw(t)))
    &&& (forall|sd: SignedTxDataV, tt: TxTypeV|
        (t.data == Some(enc_signed(sd)) && sd.data == Some(enc_tx_type(tt))) ==> match tt {
            TxTypeV::Wrapper(w) => if sd.sig == sig_of(w.pk, enc_tx_type(tt)) {
                rv == Ok::<TxTypeV, TxError>(tt)
            } else {
                rv == Err::<TxTypeV, TxError>(TxError::InvalidSig)
            },
            TxTypeV::Protocol(p) => if sd.sig == sig_of(p.pk, enc_tx_type(tt)) {
                rv == Ok::<TxTypeV, TxError>(tt)
            } else {
                rv == Err::<TxTypeV, TxError>(TxError::InvalidSig)
            },
            TxTypeV::Decrypted(_) => rv == Ok::<TxTypeV, TxError>(tt),
            TxTypeV::Raw(_) => rv == Ok::<TxTypeV, TxError>(TxTypeV::Raw(t)),
        })
    &&& (forall|sd: SignedTxDataV|
        (t.data == Some(enc_signed(sd)) && match sd.data {
            None => true,
            Some(inner) => !(exists|tt: TxTypeV| inner == enc_tx_type(tt)),
        }) ==> rv == Ok::<TxTypeV, TxError>(TxTypeV::Raw(t)))
    &&& (forall|tt: TxTypeV|
        (t.data == Some(enc_tx_type(tt)) && !(exists|sd: SignedTxDataV| enc_tx_type(tt)
            == enc_signed(sd))) ==> match tt {
            TxTypeV::Wrapper(_) => rv == Err::<TxTypeV, TxError>(TxError::Unsigned),
            TxTypeV::Protocol(_) => rv == Err::<TxTypeV, TxError>(TxError::Unsigned),
            TxTypeV::Decrypted(_) => rv == Ok::<TxTypeV, TxError>(tt),
            TxTypeV::Raw(_) => rv == Ok::<TxTypeV, TxError>(TxTypeV::Raw(t)),
        })
    &&& ((match t.data {
        Some(d) => !(exists|sd: SignedTxDataV| d == enc_signed(sd)) && !(exists|tt: TxTypeV| d
            == enc_tx_type(tt)),
        None => false,
    }) ==> rv == Ok::<TxTypeV, TxError>(TxTypeV::Raw(t)))
}

/// The view of a `process_tx` result.
pub open spec fn process_result_view(r: &Result<TxType, TxError>) -> Result<TxTypeV, TxError> {
    match r {
        Ok(tt) => Ok(tt@),
        Err(e) => Err(*e),
    }
}

/// Classify an envelope transaction, checking the signatures of wrapper and
/// protocol transactions. Signature checking of the envelope happens here,
/// at parse time, once for every path into the shell.
pub fn process_tx(tx: Tx) -> (r: Result<TxType, TxError>)
    ensures
        process_tx_rel(tx@, process_result_view(&r)),
{
    let has_data = tx.data.is_some();
    if !has_data {
        return Ok(TxType::Raw(tx));
    }
    let signed = match &tx.data {
        Some(d) => decode_signed(d),
        None => None,
    };
    match signed {
        Some(sd) => {
            match &sd.data {
                Some(inner) => {
                    match decode_tx_type(inner) {
                        Some(TxType::Wrapper(w)) => {
                            if SigScheme::verify_signature(&w.pk, inner, &sd.sig) {
                                Ok(TxType::Wrapper(w))
                            } else {
                                Err(TxError::InvalidSig)
                            }
                        },
                        Some(TxType::Protocol(p)) => {
                            if SigScheme::verify_signature(&p.pk, inner, &sd.sig) {
                                Ok(TxType::Protocol(p))
                            } else {
                                Err(TxError::InvalidSig)
                            }
                        },
                        Some(TxType::Decrypted(d2)) => Ok(TxType::Decrypted(d2)),
                        Some(TxType::Raw(_)) => Ok(TxType::Raw(tx)),
                        None => Ok(TxType::Raw(tx)),
                    }
                },
                None => Ok(TxType::Raw(tx)),
            }
        },
        None => {
            let parsed = match &tx.data {
                Some(d) => decode_tx_type(d),
                None => None,
            };
            match parsed {
                Some(TxType::Wrapper(_)) => Err(TxError::Unsigned),
                Some(TxType::Protocol(_)) => Err(TxError::Unsigned),
                Some(TxType::Decrypted(d2)) => Ok(TxType::Decrypted(d2)),
                Some(TxType::Raw(_)) => Ok(TxType::Raw(tx)),
                None => Ok(TxType::Raw(tx)),
            }
        },
    }
}

} // verus!
