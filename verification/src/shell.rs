//! The ledger shell's block-proposal validation: classify each transaction
//! of a proposed block, run the scheme-specific checks, and enforce the
//! queue discipline between a block's accepted wrappers and the next
//! block's decrypted transactions.

use vstd::prelude::*;
use crate::address::{Address, AddressV};
use crate::crypto::{bytes_eq, public_key_hash, sha256_of, PublicKey};
use crate::token::{balance_in, Balances};
use crate::pos::PosState;
use crate::tx::{
    commitment_of, decode_signed, decode_tx, decrypted_correct, enc_pubkey, enc_signed, enc_tx,
    enc_tx_type, encode_tx, encode_tx_type, process_result_view, process_tx, process_tx_rel,
    read_pubkey, wrapper_decryptable, DecryptedTx, DecryptedTxV, ProtocolTxType, ProtocolTxTypeV,
    SignedTxDataV, Tx, TxError, TxType, TxTypeV, TxV, WrapperTx, WrapperTxV,
};

verus! {

/// The stable numeric result codes of proposal validation.
pub enum ErrorCodes {
    /// Accepted.
    Accepted,
    /// Malformed, non-deserializable, or semantically invalid.
    InvalidTx,
    /// Envelope signature invalid or signer not entitled.
    InvalidSig,
    /// Reserved for the applier.
    WasmRuntimeError,
    /// A decrypted transaction does not match the head of the queue.
    InvalidOrder,
    /// A decrypted transaction was delivered with an empty queue.
    ExtraTxs,
}

impl ErrorCodes {
    /// The numeric value of the code.
    pub open spec fn spec_u32(&self) -> u32 {
        match self {
            ErrorCodes::Accepted => 0,
            ErrorCodes::InvalidTx => 1,
            ErrorCodes::InvalidSig => 2,
            ErrorCodes::WasmRuntimeError => 3,
            ErrorCodes::InvalidOrder => 4,
            ErrorCodes::ExtraTxs => 5,
        }
    }

    /// The numeric value of the code.
    pub fn to_u32(&self) -> (r: u32)
        ensures
            r == self.spec_u32(),
    {
        match self {
            ErrorCodes::Accepted => 0,
            ErrorCodes::InvalidTx => 1,
            ErrorCodes::InvalidSig => 2,
            ErrorCodes::WasmRuntimeError => 3,
            ErrorCodes::InvalidOrder => 4,
            ErrorCodes::ExtraTxs => 5,
        }
    }
}

/// The outcome reported for one transaction of a proposal.
pub struct TxResult {
    pub code: u32,
    pub info: String,
}

/// The outcome of the decryption-coupled validation path: the result, and
/// the bytes the emitted event must carry.
pub struct ProcessProposalResponse {
    pub result: TxResult,
    pub tx: Vec<u8>,
}

/// The update of a validator's DKG session keypair carried by a protocol
/// transaction.
pub struct UpdateDkgSessionKey {
    pub address: Address,
    pub dkg_public_key: Vec<u8>,
}

/// The mathematical value of a session-key update.
pub struct UpdateDkgSessionKeyV {
    pub address: AddressV,
    pub dkg_public_key: Seq<u8>,
}

impl View for UpdateDkgSessionKey {
    type V = UpdateDkgSessionKeyV;

    open spec fn view(&self) -> UpdateDkgSessionKeyV {
        UpdateDkgSessionKeyV { address: self.address@, dkg_public_key: self.dkg_public_key@ }
    }
}

/// Canonical encoding of a session-key update.
pub open spec fn enc_update_dkg(u: UpdateDkgSessionKeyV) -> Seq<u8> {
    crate::address::enc_address(u.address) + crate::codec::enc_bytes(u.dkg_public_key)
}

/// Append the canonical encoding of a session-key update.
pub fn write_update_dkg(out: &mut Vec<u8>, u: &UpdateDkgSessionKey)
    ensures
        final(out)@ == old(out)@ + enc_update_dkg(u@),
{
    crate::address::write_address(out, &u.address);
    crate::codec::write_bytes(out, &u.dkg_public_key);
    assert(out@ =~= old(out)@ + enc_update_dkg(u@));
}

/// Decode a session-key update from exactly the given bytes.
pub fn decode_update_dkg(bytes: &Vec<u8>) -> (r: Option<UpdateDkgSessionKey>)
    ensures
        r matches Some(u) ==> bytes@ == enc_update_dkg(u@),
        forall|v: UpdateDkgSessionKeyV| bytes@ == enc_update_dkg(v) ==> (r matches Some(u) && u@
            == v),
{
    let mut pos: usize = 0;
    proof {
        assert forall|v: UpdateDkgSessionKeyV| bytes@ == enc_update_dkg(v) implies {
            &&& crate::codec::starts_with(bytes@, 0, crate::address::enc_address(v.address))
            &&& crate::codec::starts_with(
                bytes@,
                crate::address::enc_address(v.address).len() as int,
                crate::codec::enc_bytes(v.dkg_public_key),
            )
        } by {
            assert(bytes@.subrange(0, enc_update_dkg(v).len() as int) =~= bytes@);
            crate::codec::lemma_starts_with_split(
                bytes@,
                0,
                crate::address::enc_address(v.address),
                crate::codec::enc_bytes(v.dkg_public_key),
            );
        }
    }
    let address = match crate::address::read_address(bytes, &mut pos) {
        None => {
            return None;
        },
        Some(a) => a,
    };
    let key = match crate::codec::read_bytes(bytes, &mut pos) {
        None => {
            return None;
        },
        Some(k) => k,
    };
    if pos != bytes.len() {
        proof {
            assert forall|v: UpdateDkgSessionKeyV| bytes@ != enc_update_dkg(v) by {
                if bytes@ == enc_update_dkg(v) {
                    assert(crate::address::enc_address(v.address).len()
                        == crate::address::enc_address(address@).len());
                }
            }
        }
        return None;
    }
    let u = UpdateDkgSessionKey { address, dkg_public_key: key };
    proof {
        assert(bytes@.subrange(0, pos as int) =~= bytes@);
        assert(bytes@ =~= enc_update_dkg(u@));
        assert forall|v: UpdateDkgSessionKeyV| bytes@ == enc_update_dkg(v) implies u@ == v by {
            assert(crate::address::enc_address(v.address).len() == crate::address::enc_address(
                address@,
            ).len());
        }
    }
    Some(u)
}

/// Decode a public key from exactly the given bytes.
pub fn decode_pubkey(bytes: &Vec<u8>) -> (r: Option<PublicKey>)
    ensures
        r matches Some(k) ==> bytes@ == enc_pubkey(k.bytes()),
        forall|pk: Seq<u8>| bytes@ == enc_pubkey(pk) ==> (r matches Some(k) && k.bytes() == pk),
{
    let mut pos: usize = 0;
    proof {
        assert forall|pk: Seq<u8>| bytes@ == enc_pubkey(pk) implies crate::codec::starts_with(
            bytes@,
            0,
            enc_pubkey(pk),
        ) by {
            assert(bytes@.subrange(0, enc_pubkey(pk).len() as int) =~= bytes@);
        }
    }
    match read_pubkey(bytes, &mut pos) {
        None => None,
        Some(k) => {
            if pos == bytes.len() {
                assert(bytes@.subrange(0, pos as int) =~= bytes@);
                Some(k)
            } else {
                None
            }
        },
    }
}

/// The fee payer of a wrapper: the implicit address of its public key.
pub open spec fn fee_payer_of(w: WrapperTxV) -> AddressV {
    AddressV::Implicit(sha256_of(w.pk))
}

/// The diagnostic for a transaction that does not decode.
pub open spec fn msg_undeserializable() -> Seq<char> {
    "The submitted transaction was not deserializable"@
}

/// The diagnostic for a raw transaction.
pub open spec fn msg_raw_rejected() -> Seq<char> {
    "Transaction rejected: Non-encrypted transactions are not supported"@
}

/// The acceptance message of the wrapper and protocol paths.
pub open spec fn msg_accepted() -> Seq<char> {
    "Process proposal accepted this transaction"@
}

/// The acceptance message of the decrypted path.
pub open spec fn msg_accepted_decrypted() -> Seq<char> {
    "Process Proposal accepted this transaction"@
}

/// The diagnostic for an invalid ciphertext.
pub open spec fn msg_invalid_ciphertext() -> Seq<char> {
    "The ciphertext of the wrapped tx is invalid"@
}

/// The diagnostic for an underfunded fee payer.
pub open spec fn msg_insufficient_balance() -> Seq<char> {
    "The address given does not have sufficient balance to pay fee"@
}

/// The diagnostic for a decrypted transaction out of order.
pub open spec fn msg_invalid_order() -> Seq<char> {
    "Process proposal rejected a decrypted transaction that violated the tx order determined in the previous block"@
}

/// The diagnostic for a decrypted transaction with an empty queue.
pub open spec fn msg_extra_txs() -> Seq<char> {
    "Received more decrypted txs than expected"@
}

/// The diagnostic for a wrongly labelled undecryptable transaction.
pub open spec fn msg_wrong_undecryptable() -> Seq<char> {
    "The encrypted payload of tx was incorrectly marked as un-decryptable"@
}

/// The diagnostic for a protocol transaction from an unknown signer.
pub open spec fn msg_unknown_protocol_signer() -> Seq<char> {
    "Could not match signature of protocol tx to a public protocol key of an active validator set."@
}

/// The diagnostic for a malformed DKG message.
pub open spec fn msg_dkg_invalid() -> Seq<char> {
    "The DKG message is empty"@
}

/// The diagnostic for a session-key update without a payload.
pub open spec fn msg_dkg_missing() -> Seq<char> {
    "The address and new DKG public session key are missing from the tx."@
}

/// The diagnostic for an undecodable session-key update.
pub open spec fn msg_dkg_undecodable() -> Seq<char> {
    "The address and / or new DKG public session key were not deserializable. This may be because the inner tx was not signed"@
}

/// Build a result from a code and a diagnostic.
fn reply(code: u32, msg: &str) -> (r: TxResult)
    ensures
        r.code == code,
        r.info@ == msg@,
{
    TxResult { code, info: msg.to_owned() }
}

/// The mathematical state of the shell, as far as proposal validation is
/// concerned.
pub struct ShellV {
    pub balances: Seq<((Address, Address), u64)>,
    pub queue: Seq<WrapperTxV>,
    pub cursor: int,
    pub protocol_keys: Seq<(Seq<u8>, AddressV)>,
}

/// The ledger shell: the validation and application state machine between
/// the consensus engine and the storage backend.
pub struct Shell {
    /// Token balances of all accounts.
    pub balances: Balances,
    /// The wrappers accepted in the previous block, to be matched by this
    /// block's decrypted transactions, in order.
    pub tx_queue: Vec<WrapperTx>,
    /// The next queue position a decrypted transaction must match.
    pub queue_cursor: usize,
    /// The protocol keys of the active validator set.
    pub protocol_keys: Vec<(Vec<u8>, Address)>,
    /// The proof-of-stake state.
    pub pos: PosState,
    /// The raw key-value store of the other subspaces.
    pub store: Vec<(Vec<u8>, Vec<u8>)>,
    /// The height of the last committed block.
    pub last_committed_height: u64,
    /// The epoch clock: seconds an epoch must at least last.
    pub min_epoch_duration: u64,
    /// The epoch clock: blocks an epoch must at least span.
    pub min_epoch_blocks: u64,
    /// The time the current epoch started at.
    pub epoch_start_time: u64,
    /// The height the current epoch started at.
    pub epoch_start_height: u64,
}

impl View for Shell {
    type V = ShellV;

    open spec fn view(&self) -> ShellV {
        ShellV {
            balances: self.balances.accounts@,
            queue: self.tx_queue@.map_values(|w: WrapperTx| w@),
            cursor: self.queue_cursor as int,
            protocol_keys: self.protocol_keys@.map_values(|e: (Vec<u8>, Address)| (e.0@, e.1@)),
        }
    }
}

/// Whether a protocol public key belongs to an active-set validator.
pub open spec fn protocol_key_known(keys: Seq<(Seq<u8>, AddressV)>, pk: Seq<u8>) -> bool {
    exists|i: int| 0 <= i < keys.len() && keys[i].0 == pk
}

/// A session-key update payload is well-formed when it is a signed payload
/// whose data is an encoded update whose key field is an encoded public key.
pub open spec fn dkg_update_payload_ok(d: Seq<u8>) -> bool {
    exists|sd: SignedTxDataV, u: UpdateDkgSessionKeyV, pk: Seq<u8>|
        d == enc_signed(sd) && sd.data == Some(enc_update_dkg(u)) && u.dkg_public_key == enc_pubkey(
            pk,
        )
}

/// What proposal validation must report for a wrapper transaction: reject an
/// invalid ciphertext, reject an underfunded fee payer, accept otherwise.
pub open spec fn wrapper_outcome(s: ShellV, w: WrapperTxV, code: u32, info: Seq<char>) -> bool {
    if !(exists|t: TxV| w.inner_tx == enc_tx(t)) {
        code == 1 && info == msg_invalid_ciphertext()
    } else if w.fee.amount <= balance_in(s.balances, w.fee.token, fee_payer_of(w)) {
        code == 0 && info == msg_accepted()
    } else {
        code == 1 && info == msg_insufficient_balance()
    }
}

/// What proposal validation must report for a decrypted transaction: reject
/// with the queue exhausted, reject a commitment that does not match the
/// queue position, reject a wrong undecryptable label, accept otherwise.
/// The queue position advances whenever a wrapper was available.
pub open spec fn decrypted_outcome(
    s: ShellV,
    d: crate::tx::DecryptedTxV,
    code: u32,
    info: Seq<char>,
    cursor_new: int,
) -> bool {
    if s.cursor >= s.queue.len() {
        code == 5 && info == msg_extra_txs() && cursor_new == s.cursor
    } else {
        cursor_new == s.cursor + 1 && if s.queue[s.cursor].tx_hash != commitment_of(d) {
            code == 4 && info == msg_invalid_order()
        } else if decrypted_correct(d) {
            code == 0 && info == msg_accepted_decrypted()
        } else {
            code == 1 && info == msg_wrong_undecryptable()
        }
    }
}

/// What proposal validation must report for a protocol transaction: reject a
/// signer outside the active set, then apply the kind-specific check.
pub open spec fn protocol_outcome(
    s: ShellV,
    p: crate::tx::ProtocolTxV,
    code: u32,
    info: Seq<char>,
) -> bool {
    if !protocol_key_known(s.protocol_keys, p.pk) {
        code == 2 && info == msg_unknown_protocol_signer()
    } else {
        match p.tx {
            ProtocolTxTypeV::Dkg(m) => if m.len() > 0 {
                code == 0 && info == msg_accepted()
            } else {
                code == 1 && info == msg_dkg_invalid()
            },
            ProtocolTxTypeV::NewDkgKeypair(t) => match t.data {
                None => code == 1 && info == msg_dkg_missing(),
                Some(d) => if dkg_update_payload_ok(d) {
                    code == 0 && info == msg_accepted()
                } else {
                    code == 1 && info == msg_dkg_undecodable()
                },
            },
        }
    }
}

/// What proposal validation must report, given the classified envelope, and
/// how the shell state may change: only the queue position moves, and only
/// for a decrypted transaction.
pub open spec fn proposal_rel(
    s_old: ShellV,
    outcome: Result<TxTypeV, TxError>,
    s_new: ShellV,
    code: u32,
    info: Seq<char>,
) -> bool {
    &&& s_new.balances == s_old.balances
    &&& s_new.queue == s_old.queue
    &&& s_new.protocol_keys == s_old.protocol_keys
    &&& match outcome {
        Err(e) => code == 2 && info == e.message_spec() && s_new.cursor == s_old.cursor,
        Ok(TxTypeV::Raw(_)) => code == 1 && info == msg_raw_rejected() && s_new.cursor
            == s_old.cursor,
        Ok(TxTypeV::Wrapper(w)) => wrapper_outcome(s_old, w, code, info) && s_new.cursor
            == s_old.cursor,
        Ok(TxTypeV::Decrypted(d)) => decrypted_outcome(s_old, d, code, info, s_new.cursor),
        Ok(TxTypeV::Protocol(p)) => protocol_outcome(s_old, p, code, info) && s_new.cursor
            == s_old.cursor,
    }
}

/// Everything of the shell but the wrapper queue and the queue position is
/// unchanged: the decryption-coupled path may remember an accepted wrapper,
/// and nothing else.
pub open spec fn only_queue_moves(new: &Shell, prev: &Shell) -> bool {
    &&& new.balances == prev.balances
    &&& new.protocol_keys == prev.protocol_keys
    &&& new.pos == prev.pos
    &&& new.store == prev.store
    &&& new.last_committed_height == prev.last_committed_height
    &&& new.min_epoch_duration == prev.min_epoch_duration
    &&& new.min_epoch_blocks == prev.min_epoch_blocks
    &&& new.epoch_start_time == prev.epoch_start_time
    &&& new.epoch_start_height == prev.epoch_start_height
}

/// A wrapper clears its checks: the ciphertext decodes and the fee payer
/// holds the fee.
pub open spec fn wrapper_passes(s: ShellV, w: WrapperTxV) -> bool {
    (exists|t: TxV| w.inner_tx == enc_tx(t)) && w.fee.amount <= balance_in(
        s.balances,
        w.fee.token,
        fee_payer_of(w),
    )
}

/// The decrypted form the shell synthesizes for an accepted wrapper: the
/// plaintext when the ciphertext decrypts, the wrapper as its own failure
/// witness otherwise.
pub open spec fn synthesized_decrypted(w: WrapperTxV, d: DecryptedTxV) -> bool {
    if wrapper_decryptable(w) {
        exists|t: TxV| w.inner_tx == enc_tx(t) && d == DecryptedTxV::Decrypted(t)
    } else {
        d == DecryptedTxV::Undecryptable(w)
    }
}

/// The unsigned envelope carrying a decrypted transaction.
pub open spec fn decrypted_envelope_view(d: DecryptedTxV) -> TxV {
    TxV { code: Seq::empty(), data: Some(enc_tx_type(TxTypeV::Decrypted(d))) }
}

/// An encoded decrypted transaction kind is never an encoded signed payload:
/// the two start with different tag bytes.
pub proof fn lemma_decrypted_envelope_unsigned(d: DecryptedTxV)
    ensures
        forall|sd: SignedTxDataV| enc_tx_type(TxTypeV::Decrypted(d)) != #[trigger] enc_signed(sd),
{
    assert forall|sd: SignedTxDataV|
        enc_tx_type(TxTypeV::Decrypted(d)) != #[trigger] enc_signed(sd) by {
        assert(enc_tx_type(TxTypeV::Decrypted(d))[0] == 2u8);
        match sd.data {
            None => {
                assert(enc_signed(sd)[0] == 0u8);
            },
            Some(x) => {
                assert(enc_signed(sd)[0] == 1u8);
            },
        }
    }
}

/// What the decryption-coupled path must return and how the shell may
/// change, given the classified envelope: everything but an accepted wrapper
/// echoes the plain validator with the input bytes and an unchanged state;
/// an accepted wrapper is queued, and the response is the validation of the
/// synthesized decrypted form, whose canonical bytes are returned.
pub open spec fn pad_outcome(
    s_old: ShellV,
    outcome: Result<TxTypeV, TxError>,
    s_new: ShellV,
    code: u32,
    info: Seq<char>,
    out_bytes: Seq<u8>,
    in_bytes: Seq<u8>,
) -> bool {
    match outcome {
        Err(e) => code == 2 && info == e.message_spec() && s_new == s_old && out_bytes == in_bytes,
        Ok(TxTypeV::Raw(_)) => code == 1 && info == msg_raw_rejected() && s_new == s_old
            && out_bytes == in_bytes,
        Ok(TxTypeV::Decrypted(_)) => code == 1 && info == msg_raw_rejected() && s_new == s_old
            && out_bytes == in_bytes,
        Ok(TxTypeV::Protocol(p)) => protocol_outcome(s_old, p, code, info) && s_new == s_old
            && out_bytes == in_bytes,
        Ok(TxTypeV::Wrapper(w)) => if !wrapper_passes(s_old, w) {
            wrapper_outcome(s_old, w, code, info) && s_new == s_old && out_bytes == in_bytes
        } else {
            &&& s_new.balances == s_old.balances
            &&& s_new.protocol_keys == s_old.protocol_keys
            &&& s_new.queue == s_old.queue.push(w)
            &&& exists|d: DecryptedTxV|
                #![trigger synthesized_decrypted(w, d)]
                synthesized_decrypted(w, d) && out_bytes == enc_tx(decrypted_envelope_view(d))
                    && decrypted_outcome(
                    ShellV {
                        balances: s_old.balances,
                        queue: s_old.queue.push(w),
                        cursor: s_old.cursor,
                        protocol_keys: s_old.protocol_keys,
                    },
                    d,
                    code,
                    info,
                    s_new.cursor,
                )
        },
    }
}

/// Everything of the shell but the queue position is unchanged: proposal
/// validation never touches committed state.
pub open spec fn only_cursor_moves(new: &Shell, prev: &Shell) -> bool {
    &&& new.balances == prev.balances
    &&& new.tx_queue == prev.tx_queue
    &&& new.protocol_keys == prev.protocol_keys
    &&& new.pos == prev.pos
    &&& new.store == prev.store
    &&& new.last_committed_height == prev.last_committed_height
    &&& new.min_epoch_duration == prev.min_epoch_duration
    &&& new.min_epoch_blocks == prev.min_epoch_blocks
    &&& new.epoch_start_time == prev.epoch_start_time
    &&& new.epoch_start_height == prev.epoch_start_height
}

impl Shell {
    /// A fresh shell: no balances, an empty queue, no known validators.
    pub fn new() -> (r: Shell)
        ensures
            r@.queue.len() == 0,
            r@.cursor == 0,
            r@.protocol_keys.len() == 0,
            forall|t: AddressV, o: AddressV| balance_in(r@.balances, t, o) == 0,
    {
        let r = Shell {
            balances: Balances::new(),
            tx_queue: Vec::new(),
            queue_cursor: 0,
            protocol_keys: Vec::new(),
            pos: PosState::new(crate::pos::PosParams::default_params()),
            store: Vec::new(),
            last_committed_height: 0,
            min_epoch_duration: 86400,
            min_epoch_blocks: 4,
            epoch_start_time: 0,
            epoch_start_height: 0,
        };
        proof {
            assert(r@.queue =~= Seq::<WrapperTxV>::empty());
            assert(r@.protocol_keys =~= Seq::<(Seq<u8>, AddressV)>::empty());
        }
        r
    }

    /// Push a wrapper onto the queue of accepted wrappers.
    pub fn enqueue_tx(&mut self, w: WrapperTx)
        ensures
            final(self)@.queue == old(self)@.queue.push(w@),
            final(self).tx_queue@ == old(self).tx_queue@.push(w),
            final(self).queue_cursor == old(self).queue_cursor,
            only_queue_moves(final(self), old(self)),
    {
        let ghost gw = w@;
        self.tx_queue.push(w);
        proof {
            assert(self@.queue =~= old(self)@.queue.push(gw));
        }
    }

    /// Register a validator's protocol key as part of the active set.
    pub fn register_protocol_key(&mut self, pk_bytes: Vec<u8>, validator: Address)
        ensures
            final(self)@.protocol_keys == old(self)@.protocol_keys.push((pk_bytes@, validator@)),
            final(self)@.balances == old(self)@.balances,
            final(self)@.queue == old(self)@.queue,
            final(self)@.cursor == old(self)@.cursor,
    {
        let ghost g = (pk_bytes@, validator@);
        self.protocol_keys.push((pk_bytes, validator));
        proof {
            assert(self@.protocol_keys =~= old(self)@.protocol_keys.push(g));
        }
    }

    /// Whether a protocol public key belongs to a known active validator.
    fn protocol_key_lookup(&self, pk: &PublicKey) -> (r: bool)
        ensures
            r == protocol_key_known(self@.protocol_keys, pk.bytes()),
    {
        let pk_bytes = match pk {
            PublicKey::Ed25519(b) => b,
        };
        let mut i: usize = 0;
        while i < self.protocol_keys.len()
            invariant
                i <= self@.protocol_keys.len(),
                self@.protocol_keys.len() == self.protocol_keys@.len(),
                forall|j: int| 0 <= j < i ==> self@.protocol_keys[j].0 != pk.bytes(),
                pk.bytes() == pk_bytes@,
            decreases self@.protocol_keys.len() - i,
        {
            if bytes_eq(&self.protocol_keys[i].0, pk_bytes) {
                assert(self@.protocol_keys[i as int].0 == pk.bytes());
                return true;
            }
            i = i + 1;
        }
        false
    }

    /// Validate one transaction of a proposed block.
    ///
    /// Result codes: 0 accepted; 1 invalid transaction; 2 invalid signature;
    /// 3 reserved for the applier; 4 decrypted transaction out of order;
    /// 5 more decrypted transactions than expected. The shell state is
    /// unchanged except for the queue position, which advances past the
    /// wrapper matched by a decrypted transaction.
    pub fn process_proposal(&mut self, tx_bytes: &Vec<u8>) -> (r: TxResult)
        ensures
            only_cursor_moves(final(self), old(self)),
            (!exists|t: TxV| tx_bytes@ == enc_tx(t)) ==> (r.code == 1 && r.info@
                == msg_undeserializable() && *final(self) == *old(self)),
            forall|t: TxV|
                tx_bytes@ == enc_tx(t) ==> exists|outcome: Result<TxTypeV, TxError>|
                    process_tx_rel(t, outcome) && proposal_rel(
                        old(self)@,
                        outcome,
                        final(self)@,
                        r.code,
                        r.info@,
                    ),
    {
        let tx = match decode_tx(tx_bytes) {
            None => {
                return reply(1, "The submitted transaction was not deserializable");
            },
            Some(tx) => tx,
        };
        let ghost gt = tx@;
        let processed = process_tx(tx);
        let ghost goutcome = process_result_view(&processed);
        match processed {
            Err(e) => {
                let msg = e.message();
                let r = TxResult { code: 2, info: msg };
                proof {
                    assert(proposal_rel(old(self)@, goutcome, self@, r.code, r.info@));
                }
                r
            },
            Ok(TxType::Raw(_)) => {
                let r = reply(
                    1,
                    "Transaction rejected: Non-encrypted transactions are not supported",
                );
                proof {
                    assert(proposal_rel(old(self)@, goutcome, self@, r.code, r.info@));
                }
                r
            },
            Ok(TxType::Wrapper(w)) => {
                let r = self.check_wrapper(&w);
                proof {
                    assert(proposal_rel(old(self)@, goutcome, self@, r.code, r.info@));
                }
                r
            },
            Ok(TxType::Decrypted(d)) => {
                let r = self.check_decrypted(&d);
                proof {
                    assert(proposal_rel(old(self)@, goutcome, self@, r.code, r.info@));
                }
                r
            },
            Ok(TxType::Protocol(p)) => {
                let r = self.check_protocol(&p);
                proof {
                    assert(proposal_rel(old(self)@, goutcome, self@, r.code, r.info@));
                }
                r
            },
        }
    }

    /// The wrapper checks: ciphertext validity, then the fee payer's balance.
    fn check_wrapper(&self, w: &WrapperTx) -> (r: TxResult)
        ensures
            wrapper_outcome(self@, w@, r.code, r.info@),
    {
        if !w.validate_ciphertext() {
            return reply(1, "The ciphertext of the wrapped tx is invalid");
        }
        let pkh = public_key_hash(&w.pk);
        let fee_payer = Address::Implicit(pkh);
        let balance = self.balances.balance_of(&w.fee.token, &fee_payer);
        if w.fee.amount <= balance {
            reply(0, "Process proposal accepted this transaction")
        } else {
            reply(1, "The address given does not have sufficient balance to pay fee")
        }
    }

    /// The decrypted checks: queue exhaustion, the committed hash at the
    /// current queue position, and the undecryptable label.
    fn check_decrypted(&mut self, d: &DecryptedTx) -> (r: TxResult)
        ensures
            decrypted_outcome(old(self)@, d@, r.code, r.info@, final(self)@.cursor),
            only_cursor_moves(final(self), old(self)),
    {
        if self.queue_cursor >= self.tx_queue.len() {
            return reply(5, "Received more decrypted txs than expected");
        }
        let wrapper = &self.tx_queue[self.queue_cursor];
        let ghost gidx = self.queue_cursor as int;
        self.queue_cursor = self.queue_cursor + 1;
        let commitment = d.hash_commitment();
        proof {
            assert(old(self)@.queue[gidx] == old(self).tx_queue@[gidx]@);
        }
        if !bytes_eq(&self.tx_queue[self.queue_cursor - 1].tx_hash, &commitment) {
            return reply(
                4,
                "Process proposal rejected a decrypted transaction that violated the tx order determined in the previous block",
            );
        }
        if crate::tx::verify_decrypted_correctly(d) {
            reply(0, "Process Proposal accepted this transaction")
        } else {
            reply(1, "The encrypted payload of tx was incorrectly marked as un-decryptable")
        }
    }

    /// The protocol checks: the signer must be an active-set validator, and
    /// the message kind's stateless structural check must pass.
    fn check_protocol(&self, p: &crate::tx::ProtocolTx) -> (r: TxResult)
        ensures
            protocol_outcome(self@, p@, r.code, r.info@),
    {
        if !self.protocol_key_lookup(&p.pk) {
            return reply(
                2,
                "Could not match signature of protocol tx to a public protocol key of an active validator set.",
            );
        }
        match &p.tx {
            ProtocolTxType::Dkg(m) => {
                if m.len() > 0 {
                    reply(0, "Process proposal accepted this transaction")
                } else {
                    reply(1, "The DKG message is empty")
                }
            },
            ProtocolTxType::NewDkgKeypair(t) => {
                match &t.data {
                    None => reply(
                        1,
                        "The address and new DKG public session key are missing from the tx.",
                    ),
                    Some(d) => {
                        if Self::dkg_payload_check(d) {
                            reply(0, "Process proposal accepted this transaction")
                        } else {
                            reply(
                                1,
                                "The address and / or new DKG public session key were not deserializable. This may be because the inner tx was not signed",
                            )
                        }
                    },
                }
            },
        }
    }

    /// The structural check of a session-key update payload.
    fn dkg_payload_check(d: &Vec<u8>) -> (r: bool)
        ensures
            r == dkg_update_payload_ok(d@),
    {
        match decode_signed(d) {
            None => {
                assert(!dkg_update_payload_ok(d@));
                false
            },
            Some(sd) => {
                match &sd.data {
                    None => {
                        assert forall|
                            sd2: SignedTxDataV,
                            u: UpdateDkgSessionKeyV,
                            pk: Seq<u8>,
                        |
                            !(d@ == enc_signed(sd2) && sd2.data == Some(enc_update_dkg(u))
                                && u.dkg_public_key == enc_pubkey(pk)) by {
                            if d@ == enc_signed(sd2) {
                                assert(sd2 == sd@);
                            }
                        }
                        false
                    },
                    Some(inner) => {
                        match decode_update_dkg(inner) {
                            None => {
                                assert forall|
                                    sd2: SignedTxDataV,
                                    u: UpdateDkgSessionKeyV,
                                    pk: Seq<u8>,
                                |
                                    !(d@ == enc_signed(sd2) && sd2.data == Some(enc_update_dkg(u))
                                        && u.dkg_public_key == enc_pubkey(pk)) by {
                                    if d@ == enc_signed(sd2) {
                                        assert(sd2 == sd@);
                                    }
                                }
                                false
                            },
                            Some(u) => {
                                match decode_pubkey(&u.dkg_public_key) {
                                    None => {
                                        assert forall|
                                            sd2: SignedTxDataV,
                                            u2: UpdateDkgSessionKeyV,
                                            pk: Seq<u8>,
                                        |
                                            !(d@ == enc_signed(sd2) && sd2.data == Some(
                                                enc_update_dkg(u2),
                                            ) && u2.dkg_public_key == enc_pubkey(pk)) by {
                                            if d@ == enc_signed(sd2) {
                                                assert(sd2 == sd@);
                                                if sd2.data == Some(enc_update_dkg(u2)) {
                                                    assert(u2 == u@);
                                                }
                                            }
                                        }
                                        false
                                    },
                                    Some(k) => {
                                        assert(dkg_update_payload_ok(d@)) by {
                                            assert(d@ == enc_signed(sd@) && sd@.data == Some(
                                                enc_update_dkg(u@),
                                            ) && u@.dkg_public_key == enc_pubkey(k.bytes()));
                                        }
                                        true
                                    },
                                }
                            },
                        }
                    },
                }
            },
        }
    }
}

/// The two event kinds the shell emits.
#[derive(Clone, Copy, PartialEq, Eq, Structural, Debug)]
pub enum TmEventType {
    /// A wrapper was accepted and its fee debited.
    Accepted,
    /// A decrypted transaction was applied.
    Applied,
}

/// A tagged event emitted for an accepted or applied transaction.
pub struct Event {
    pub event_type: TmEventType,
    pub hash: Vec<u8>,
    pub height: u64,
    pub code: u32,
    pub gas_used: u64,
    pub initialized_accounts: Vec<Address>,
}

/// Why a block could not be finalized.
#[derive(Clone, Copy, PartialEq, Eq, Structural, Debug)]
pub enum ShellError {
    /// The block height is not the successor of the committed height: a
    /// replayed or skipped block.
    Replay,
}

/// An unsigned envelope carrying the decrypted transaction `d`.
pub open spec fn decrypted_envelope(t: TxV, d: DecryptedTxV) -> bool {
    &&& t.data == Some(enc_tx_type(TxTypeV::Decrypted(d)))
    &&& !(exists|sd: SignedTxDataV| enc_tx_type(TxTypeV::Decrypted(d)) == enc_signed(sd))
}

/// A signed envelope carrying the wrapper `w`, with a verifying signature.
pub open spec fn wrapper_envelope(t: TxV, w: WrapperTxV) -> bool {
    exists|sd: SignedTxDataV|
        t.data == Some(enc_signed(sd)) && sd.data == Some(enc_tx_type(TxTypeV::Wrapper(w)))
            && sd.sig == crate::crypto::sig_of(w.pk, enc_tx_type(TxTypeV::Wrapper(w)))
}

/// What the event for one transaction of a finalized block must look like:
/// an applied event carrying the decrypted transaction's commitment, or an
/// accepted event for a wrapper.
pub open spec fn event_ok(bytes: Seq<u8>, ev: Event, height: u64) -> bool {
    &&& ev.height == height
    &&& forall|t: TxV, d: DecryptedTxV|
        (bytes == enc_tx(t) && decrypted_envelope(t, d)) ==> ev.event_type == TmEventType::Applied
            && ev.hash@ == commitment_of(d)
    &&& forall|t: TxV, w: WrapperTxV|
        (bytes == enc_tx(t) && wrapper_envelope(t, w)) ==> ev.event_type == TmEventType::Accepted
}

/// Applying the same block twice is a detected replay: a successful
/// application moves the committed height to the block's own height, and the
/// successor check of `finalize_block` then refuses that height, leaving the
/// state unchanged.
pub proof fn lemma_replay_detected(committed_after: u64, height: u64)
    requires
        committed_after == height,
    ensures
        height != committed_after + 1,
{
}

impl Shell {
    /// Apply one delivered block: debit wrapper fees and queue the wrappers,
    /// pop the queue for each decrypted transaction and apply its payload,
    /// and emit one event per transaction. A block whose height is not the
    /// successor of the committed height is rejected as a replay, leaving
    /// the state unchanged.
    pub fn finalize_block(&mut self, height: u64, txs: &Vec<Vec<u8>>) -> (r: Result<
        Vec<Event>,
        ShellError,
    >)
        ensures
            (r is Err) == (height != old(self).last_committed_height + 1),
            final(self).pos == old(self).pos,
            r is Err ==> *final(self) == *old(self),
            r matches Ok(events) ==> {
                &&& final(self).last_committed_height == height
                &&& final(self).queue_cursor == 0
                &&& events@.len() == txs@.len()
                &&& forall|i: int|
                    0 <= i < txs@.len() ==> event_ok(txs@[i]@, #[trigger] events@[i], height)
            },
    {
        if height == 0 || self.last_committed_height > u64::MAX - 1
            || height != self.last_committed_height + 1 {
            return Err(ShellError::Replay);
        }
        let mut events: Vec<Event> = Vec::new();
        let mut i: usize = 0;
        while i < txs.len()
            invariant
                i <= txs@.len(),
                events@.len() == i,
                self.pos == old(self).pos,
                forall|j: int| 0 <= j < i ==> event_ok(txs@[j]@, #[trigger] events@[j], height),
            decreases txs@.len() - i,
        {
            let ev = self.apply_tx(&txs[i], height);
            events.push(ev);
            i = i + 1;
        }
        self.last_committed_height = height;
        self.queue_cursor = 0;
        Ok(events)
    }

    /// Apply one transaction of a block, emitting its event.
    fn apply_tx(&mut self, tx_bytes: &Vec<u8>, height: u64) -> (ev: Event)
        ensures
            event_ok(tx_bytes@, ev, height),
            final(self).pos == old(self).pos,
    {
        let tx = match decode_tx(tx_bytes) {
            None => {
                return Event {
                    event_type: TmEventType::Applied,
                    hash: crate::crypto::hash_tx(tx_bytes),
                    height,
                    code: 1,
                    gas_used: 0,
                    initialized_accounts: Vec::new(),
                };
            },
            Some(tx) => tx,
        };
        let processed = process_tx(tx);
        match processed {
            Ok(TxType::Wrapper(w)) => {
                let pkh = public_key_hash(&w.pk);
                let fee_payer = Address::Implicit(pkh);
                let paid = self.balances.debit(&w.fee.token, &fee_payer, w.fee.amount);
                let hash = crate::crypto::hash_tx(&encode_tx_type(&TxType::Wrapper(
                    w.clone_wrapper(),
                )));
                let code: u32 = if paid {
                    0
                } else {
                    1
                };
                if paid {
                    self.tx_queue.push(w);
                }
                Event {
                    event_type: TmEventType::Accepted,
                    hash,
                    height,
                    code,
                    gas_used: 0,
                    initialized_accounts: Vec::new(),
                }
            },
            Ok(TxType::Decrypted(d)) => {
                // The delivered decrypted transaction must match the
                // committed wrapper at the queue's head; a mismatch is a
                // consensus-level fault, so nothing is popped or applied.
                let hash = d.hash_commitment();
                let matches_head = self.tx_queue.len() > 0 && bytes_eq(
                    &self.tx_queue[0].tx_hash,
                    &hash,
                );
                let code: u32 = if matches_head {
                    let _popped = self.tx_queue.remove(0);
                    match &d {
                        DecryptedTx::Decrypted(inner) => self.run_inner_tx(inner),
                        DecryptedTx::Undecryptable(_) => 0,
                    }
                } else {
                    1
                };
                Event {
                    event_type: TmEventType::Applied,
                    hash,
                    height,
                    code,
                    gas_used: 0,
                    initialized_accounts: Vec::new(),
                }
            },
            Ok(TxType::Raw(_)) | Ok(TxType::Protocol(_)) | Err(_) => {
                Event {
                    event_type: TmEventType::Applied,
                    hash: crate::crypto::hash_tx(tx_bytes),
                    height,
                    code: 1,
                    gas_used: 0,
                    initialized_accounts: Vec::new(),
                }
            },
        }
    }

    /// Run a decrypted inner transaction: a payload that carries a signed
    /// transparent transfer moves the amount; anything else has no storage
    /// effect here, as user code runs in the external sandbox.
    fn run_inner_tx(&mut self, inner: &Tx) -> (code: u32)
        ensures
            final(self).pos == old(self).pos,
    {
        match &inner.data {
            None => 0,
            Some(d) => {
                match decode_signed(d) {
                    None => 0,
                    Some(sd) => {
                        match &sd.data {
                            None => 0,
                            Some(payload) => {
                                match crate::token::decode_transfer(payload) {
                                    None => 0,
                                    Some(t) => {
                                        if self.balances.transfer(
                                            &t.token,
                                            &t.source,
                                            &t.target,
                                            t.amount,
                                        ) {
                                            0
                                        } else {
                                            3
                                        }
                                    },
                                }
                            },
                        }
                    },
                }
            },
        }
    }

    /// Commit the block: advance the epoch clock. The epoch advances when
    /// the block's time has outrun the epoch's minimum duration and its
    /// height has outrun the epoch's minimum block count.
    pub fn commit(&mut self, time: u64) -> (r: u64)
        requires
            old(self).pos.wf(),
            old(self).pos.current_epoch < u64::MAX,
        ensures
            final(self).pos.wf(),
            ({
                let advanced = time >= old(self).epoch_start_time + old(self).min_epoch_duration
                    && old(self).last_committed_height >= old(self).epoch_start_height
                    + old(self).min_epoch_blocks;
                &&& advanced ==> final(self).pos.current_epoch == old(self).pos.current_epoch + 1
                    && final(self).epoch_start_time == time && final(self).epoch_start_height
                    == old(self).last_committed_height
                &&& !advanced ==> final(self).pos.current_epoch == old(self).pos.current_epoch
                    && final(self).epoch_start_time == old(self).epoch_start_time
                    && final(self).epoch_start_height == old(self).epoch_start_height
                &&& r == final(self).pos.current_epoch
            }),
    {
        let advanced = self.epoch_start_time <= u64::MAX - self.min_epoch_duration && time
            >= self.epoch_start_time && time - self.epoch_start_time >= self.min_epoch_duration
            && self.epoch_start_height <= u64::MAX - self.min_epoch_blocks
            && self.last_committed_height >= self.epoch_start_height
            && self.last_committed_height - self.epoch_start_height >= self.min_epoch_blocks;
        if advanced {
            self.pos.advance_epoch();
            self.epoch_start_time = time;
            self.epoch_start_height = self.last_committed_height;
        }
        self.pos.current_epoch
    }

    /// The value stored under a raw key, if any.
    pub fn read_storage(&self, key: &Vec<u8>) -> (r: Option<&Vec<u8>>)
        ensures
            match r {
                Some(v) => store_lookup(self.store@, key@) == Some(v@),
                None => store_lookup(self.store@, key@) is None,
            },
    {
        proof {
            assert(self.store@.take(self.store@.len() as int) =~= self.store@);
        }
        let mut i: usize = self.store.len();
        while i > 0
            invariant
                i <= self.store@.len(),
                store_lookup(self.store@.take(i as int), key@) == store_lookup(self.store@, key@),
            decreases i,
        {
            i = i - 1;
            proof {
                assert(self.store@.take(i + 1).last() == self.store@[i as int]);
                assert(self.store@.take(i + 1).drop_last() =~= self.store@.take(i as int));
            }
            if bytes_eq(&self.store[i].0, key) {
                return Some(&self.store[i].1);
            }
        }
        assert(self.store@.take(0) =~= Seq::<(Vec<u8>, Vec<u8>)>::empty());
        None
    }

    /// Store a value under a raw key.
    pub fn write_storage(&mut self, key: Vec<u8>, value: Vec<u8>)
        ensures
            store_lookup(final(self).store@, key@) == Some(value@),
            forall|k: Seq<u8>|
                k != key@ ==> store_lookup(final(self).store@, k) == store_lookup(
                    old(self).store@,
                    k,
                ),
            final(self).balances == old(self).balances,
            final(self).tx_queue@ == old(self).tx_queue@,
    {
        let ghost prev = self.store@;
        let ghost kv = key@;
        let ghost vv = value@;
        self.store.push((key, value));
        proof {
            assert(self.store@.drop_last() =~= prev);
            assert(self.store@.last().0@ == kv && self.store@.last().1@ == vv);
        }
    }

    /// Answer a query against committed state. Code 0 is success; code 1 is
    /// the only error and does not distinguish missing from malformed data.
    pub fn query(&self, q: &QueryRequest) -> (r: QueryResponse)
        ensures
            match q {
                QueryRequest::Epoch => r.code == 0 && r.value@ == crate::codec::enc_u64(
                    self.pos.current_epoch,
                ),
                QueryRequest::Value(key) => match store_lookup(self.store@, key@) {
                    Some(v) => r.code == 0 && r.value@ == v,
                    None => r.code == 1,
                },
                QueryRequest::HasKey(key) => r.code == 0 && r.value@ == seq![
                    if store_lookup(self.store@, key@) is Some {
                        1u8
                    } else {
                        0u8
                    },
                ],
            },
    {
        match q {
            QueryRequest::Epoch => {
                let mut value: Vec<u8> = Vec::new();
                crate::codec::write_u64(&mut value, self.pos.current_epoch);
                assert(value@ =~= crate::codec::enc_u64(self.pos.current_epoch));
                QueryResponse { code: 0, value }
            },
            QueryRequest::Value(key) => {
                match self.read_storage(key) {
                    Some(v) => QueryResponse { code: 0, value: crate::crypto::clone_bytes(v) },
                    None => QueryResponse { code: 1, value: Vec::new() },
                }
            },
            QueryRequest::HasKey(key) => {
                let mut value: Vec<u8> = Vec::new();
                let found = match self.read_storage(key) {
                    Some(_) => true,
                    None => false,
                };
                value.push(if found {
                    1
                } else {
                    0
                });
                proof {
                    assert(value@ =~= seq![
                        if store_lookup(self.store@, key@) is Some {
                            1u8
                        } else {
                            0u8
                        },
                    ]);
                }
                QueryResponse { code: 0, value }
            },
        }
    }

    /// The decryption-coupled validation path: check the wrapper, and on
    /// success decrypt it, append it to the queue, synthesize the decrypted
    /// form, and validate that too; the emitted event carries the
    /// post-decryption bytes. Anything that is not an accepted wrapper is
    /// answered like the plain validator, echoing the input bytes.
    #[verifier::rlimit(100)]
    #[verifier::spinoff_prover]
    pub fn process_and_decode_proposal(&mut self, tx_bytes: &Vec<u8>) -> (r:
        ProcessProposalResponse)
        ensures
            only_queue_moves(final(self), old(self)),
            (!exists|t: TxV| tx_bytes@ == enc_tx(t)) ==> (r.result.code == 1 && r.result.info@
                == msg_undeserializable() && r.tx@ == tx_bytes@ && *final(self) == *old(self)),
            forall|t: TxV|
                tx_bytes@ == enc_tx(t) ==> exists|outcome: Result<TxTypeV, TxError>|
                    process_tx_rel(t, outcome) && pad_outcome(
                        old(self)@,
                        outcome,
                        final(self)@,
                        r.result.code,
                        r.result.info@,
                        r.tx@,
                        tx_bytes@,
                    ),
    {
        let tx = match decode_tx(tx_bytes) {
            None => {
                return ProcessProposalResponse {
                    result: reply(1, "The submitted transaction was not deserializable"),
                    tx: crate::crypto::clone_bytes(tx_bytes),
                };
            },
            Some(tx) => tx,
        };
        let ghost gt = tx@;
        let processed = process_tx(tx);
        let ghost goutcome = process_result_view(&processed);
        match processed {
            Err(e) => {
                let msg = e.message();
                let r = ProcessProposalResponse {
                    result: TxResult { code: 2, info: msg },
                    tx: crate::crypto::clone_bytes(tx_bytes),
                };
                proof {
                    assert(pad_outcome(
                        old(self)@,
                        goutcome,
                        self@,
                        r.result.code,
                        r.result.info@,
                        r.tx@,
                        tx_bytes@,
                    ));
                }
                r
            },
            Ok(TxType::Raw(_)) => {
                let r = ProcessProposalResponse {
                    result: reply(
                        1,
                        "Transaction rejected: Non-encrypted transactions are not supported",
                    ),
                    tx: crate::crypto::clone_bytes(tx_bytes),
                };
                proof {
                    assert(pad_outcome(
                        old(self)@,
                        goutcome,
                        self@,
                        r.result.code,
                        r.result.info@,
                        r.tx@,
                        tx_bytes@,
                    ));
                }
                r
            },
            Ok(TxType::Decrypted(_)) => {
                let r = ProcessProposalResponse {
                    result: reply(
                        1,
                        "Transaction rejected: Non-encrypted transactions are not supported",
                    ),
                    tx: crate::crypto::clone_bytes(tx_bytes),
                };
                proof {
                    assert(pad_outcome(
                        old(self)@,
                        goutcome,
                        self@,
                        r.result.code,
                        r.result.info@,
                        r.tx@,
                        tx_bytes@,
                    ));
                }
                r
            },
            Ok(TxType::Protocol(p)) => {
                let result = self.check_protocol(&p);
                let r = ProcessProposalResponse {
                    result,
                    tx: crate::crypto::clone_bytes(tx_bytes),
                };
                proof {
                    assert(pad_outcome(
                        old(self)@,
                        goutcome,
                        self@,
                        r.result.code,
                        r.result.info@,
                        r.tx@,
                        tx_bytes@,
                    ));
                }
                r
            },
            Ok(TxType::Wrapper(w)) => {
                let wrapper_result = self.check_wrapper(&w);
                if wrapper_result.code != 0 {
                    let r = ProcessProposalResponse {
                        result: wrapper_result,
                        tx: crate::crypto::clone_bytes(tx_bytes),
                    };
                    proof {
                        assert(!wrapper_passes(old(self)@, w@));
                        assert(pad_outcome(
                            old(self)@,
                            goutcome,
                            self@,
                            r.result.code,
                            r.result.info@,
                            r.tx@,
                            tx_bytes@,
                        ));
                    }
                    return r;
                }
                // The wrapper passed: decrypt it, synthesize the decrypted
                // form, remember the wrapper in the queue, and validate the
                // synthesized form.
                let ghost gw = w@;
                let decoded = match w.decrypt() {
                    Some(inner) => DecryptedTx::Decrypted(inner),
                    None => DecryptedTx::Undecryptable(w.clone_wrapper()),
                };
                let ghost gd = decoded@;
                proof {
                    assert(synthesized_decrypted(gw, gd));
                }
                self.enqueue_tx(w);
                let ghost mid = self@;
                let envelope = Tx {
                    code: Vec::new(),
                    data: Some(encode_tx_type(&TxType::Decrypted(decoded))),
                };
                proof {
                    assert(envelope@.code =~= Seq::<u8>::empty());
                    assert(envelope@ == decrypted_envelope_view(gd));
                }
                let decoded_bytes = encode_tx(&envelope);
                let result = self.process_proposal(&decoded_bytes);
                let ghost code = result.code;
                let ghost info = result.info@;
                proof {
                    let t2 = decrypted_envelope_view(gd);
                    assert(decoded_bytes@ == enc_tx(t2));
                    let outcome2 = choose|outcome2: Result<TxTypeV, TxError>|
                        process_tx_rel(t2, outcome2) && proposal_rel(mid, outcome2, self@, code, info);
                    lemma_decrypted_envelope_unsigned(gd);
                    assert(outcome2 == Ok::<TxTypeV, TxError>(TxTypeV::Decrypted(gd))) by {
                        assert(t2.data == Some(enc_tx_type(TxTypeV::Decrypted(gd))));
                        assert(!(exists|sd: SignedTxDataV| enc_tx_type(TxTypeV::Decrypted(gd))
                            == enc_signed(sd)));
                    }
                    assert(decrypted_outcome(mid, gd, code, info, self@.cursor));
                    assert(mid.queue =~= old(self)@.queue.push(gw));
                    assert(wrapper_passes(old(self)@, gw));
                }
                let r = ProcessProposalResponse { result, tx: decoded_bytes };
                proof {
                    assert(pad_outcome(
                        old(self)@,
                        goutcome,
                        self@,
                        r.result.code,
                        r.result.info@,
                        r.tx@,
                        tx_bytes@,
                    ));
                }
                r
            },
        }
    }

    /// Header verification is stateless and always succeeds here.
    pub fn verify_header(&self) -> (r: bool)
        ensures
            r,
    {
        true
    }

    /// Revert a rejected proposal: forget the queue positions the proposal
    /// consumed.
    pub fn revert_proposal(&mut self)
        ensures
            final(self).queue_cursor == 0,
            final(self).pos == old(self).pos,
            final(self).balances == old(self).balances,
            final(self).tx_queue@ == old(self).tx_queue@,
    {
        self.queue_cursor = 0;
    }
}

/// The value stored under a raw key: the last entry written for it.
pub open spec fn store_lookup(s: Seq<(Vec<u8>, Vec<u8>)>, key: Seq<u8>) -> Option<Seq<u8>>
    decreases s.len(),
{
    if s.len() == 0 {
        None
    } else if s.last().0@ == key {
        Some(s.last().1@)
    } else {
        store_lookup(s.drop_last(), key)
    }
}

/// A query against committed state.
pub enum QueryRequest {
    /// The current epoch.
    Epoch,
    /// The value under a storage key.
    Value(Vec<u8>),
    /// Whether a storage key exists.
    HasKey(Vec<u8>),
}

/// The answer to a query.
pub struct QueryResponse {
    pub code: u32,
    pub value: Vec<u8>,
}

/// Every wrapper accepted in a block appears as exactly one applied event in
/// the next block: if the next block delivers, at position `i`, the unsigned
/// envelope of a decrypted transaction whose commitment equals the queued
/// wrapper's, then the event at position `i` is an applied event whose hash
/// is that wrapper's commitment.
pub proof fn lemma_wrapper_has_decrypted_event(
    queue: Seq<WrapperTxV>,
    txs: Seq<Vec<u8>>,
    events: Seq<Event>,
    decrypted: Seq<DecryptedTxV>,
    height: u64,
    i: int,
)
    requires
        0 <= i < txs.len(),
        events.len() == txs.len(),
        decrypted.len() == txs.len(),
        txs.len() == queue.len(),
        forall|j: int| 0 <= j < txs.len() ==> event_ok(txs[j]@, #[trigger] events[j], height),
        forall|j: int|
            0 <= j < txs.len() ==> exists|t: TxV|
                txs[j]@ == enc_tx(t) && decrypted_envelope(t, #[trigger] decrypted[j]),
        forall|j: int| 0 <= j < txs.len() ==> commitment_of(#[trigger] decrypted[j]) == queue[j].tx_hash,
    ensures
        events[i].event_type == TmEventType::Applied,
        events[i].hash@ == queue[i].tx_hash,
{
    let t = choose|t: TxV| txs[i]@ == enc_tx(t) && decrypted_envelope(t, decrypted[i]);
    assert(event_ok(txs[i]@, events[i], height));
}

/// A request of the consensus engine, with every outside value already
/// turned into plain data.
pub enum Request {
    /// Start the chain: the genesis time.
    InitChain { time: u64 },
    /// The shell's last state.
    Info,
    /// A read-only query.
    Query(QueryRequest),
    /// A proposed block's header: checked statelessly.
    VerifyHeader,
    /// One transaction of a proposed block.
    ProcessProposal(Vec<u8>),
    /// The proposal was rejected; forget its validation state.
    RevertProposal,
    /// A decided block to apply.
    FinalizeBlock { height: u64, txs: Vec<Vec<u8>> },
    /// Commit the applied block at the given time.
    Commit { time: u64 },
    /// A liveness check.
    Echo(Vec<u8>),
}

/// The shell's answer to a request.
pub enum Response {
    InitChain,
    Info { last_height: u64, epoch: u64 },
    Query(QueryResponse),
    VerifyHeader(bool),
    ProcessProposal(TxResult),
    RevertProposal,
    FinalizeBlock(Result<Vec<Event>, ShellError>),
    Commit { epoch: u64 },
    Echo(Vec<u8>),
}

impl Shell {
    /// Serve one request. Every request kind is answered, with the response
    /// kind matching the request kind; the per-kind behaviour is that of the
    /// named handler.
    pub fn call(&mut self, req: Request) -> (r: Response)
        requires
            old(self).pos.wf(),
            old(self).pos.current_epoch < u64::MAX,
        ensures
            final(self).pos.wf(),
            match req {
                Request::InitChain { .. } => r is InitChain,
                Request::Info => r matches Response::Info { last_height, epoch } && last_height
                    == old(self).last_committed_height && epoch == old(self).pos.current_epoch
                    && *final(self) == *old(self),
                Request::Query(_) => r is Query && *final(self) == *old(self),
                Request::VerifyHeader => (r matches Response::VerifyHeader(ok) && ok)
                    && *final(self) == *old(self),
                Request::ProcessProposal(_) => r is ProcessProposal,
                Request::RevertProposal => r is RevertProposal && final(self).queue_cursor == 0,
                Request::FinalizeBlock { .. } => r is FinalizeBlock,
                Request::Commit { .. } => r is Commit,
                Request::Echo(_) => r is Echo,
            },
    {
        match req {
            Request::InitChain { time } => {
                self.epoch_start_time = time;
                Response::InitChain
            },
            Request::Info => Response::Info {
                last_height: self.last_committed_height,
                epoch: self.pos.current_epoch,
            },
            Request::Query(q) => Response::Query(self.query(&q)),
            Request::VerifyHeader => Response::VerifyHeader(self.verify_header()),
            Request::ProcessProposal(tx) => Response::ProcessProposal(self.process_proposal(&tx)),
            Request::RevertProposal => {
                self.revert_proposal();
                Response::RevertProposal
            },
            Request::FinalizeBlock { height, txs } => Response::FinalizeBlock(
                self.finalize_block(height, &txs),
            ),
            Request::Commit { time } => Response::Commit { epoch: self.commit(time) },
            Request::Echo(msg) => Response::Echo(msg),
        }
    }
}

} // verus!
