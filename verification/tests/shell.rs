//! Block application, the epoch clock, replay detection and queries.

use ledger_shell::address::{xan, Address};
use ledger_shell::crypto::{public_key_hash, SecretKey};
use ledger_shell::shell::{QueryRequest, Request, Response, Shell, TmEventType};
use ledger_shell::tx::{encode_tx, encode_tx_type, DecryptedTx, Fee, Tx, TxType, WrapperTx};

fn wrapper_block_pair(shell: &mut Shell, seed: u8) -> (Vec<u8>, Vec<u8>, Vec<u8>) {
    // A signed wrapper envelope, the matching decrypted envelope, and the
    // wrapper's commitment.
    let keypair = SecretKey::Ed25519(vec![seed; 32]);
    let payer = Address::Implicit(public_key_hash(&keypair.ref_to()));
    shell.balances.set_balance(&xan(), &payer, 1_000);
    let inner = Tx::new(vec![seed], Some(vec![seed, seed]));
    let wrapper = WrapperTx::new(Fee { amount: 5, token: xan() }, &keypair, 0, 0, &inner);
    let hash = wrapper.tx_hash.clone();
    let signed = wrapper.sign(&keypair);
    let wrapper_bytes = encode_tx(&signed);
    let decrypted = Tx::new(
        vec![],
        Some(encode_tx_type(&TxType::Decrypted(DecryptedTx::Decrypted(inner)))),
    );
    (wrapper_bytes, encode_tx(&decrypted), hash)
}

/// A wrapper accepted in one block yields exactly one applied event with its
/// commitment as hash in the next block.
#[test]
fn test_wrapper_decrypted_event_round() {
    let mut shell = Shell::new();
    let (wrapper_bytes, decrypted_bytes, hash) = wrapper_block_pair(&mut shell, 31);

    // Block one carries the wrapper; its fee is debited and it is queued.
    let events = shell.finalize_block(1, &vec![wrapper_bytes]).expect("Test failed");
    assert_eq!(events.len(), 1);
    assert!(matches!(events[0].event_type, TmEventType::Accepted));
    assert_eq!(events[0].code, 0);
    assert_eq!(shell.tx_queue.len(), 1);

    // Block two carries the decrypted form; the applied event carries the
    // wrapper's commitment.
    let events = shell.finalize_block(2, &vec![decrypted_bytes]).expect("Test failed");
    assert_eq!(events.len(), 1);
    assert!(matches!(events[0].event_type, TmEventType::Applied));
    assert_eq!(events[0].hash, hash);
    assert!(shell.tx_queue.is_empty());
}

/// Applying a block at an already committed height is a detected replay and
/// changes nothing.
#[test]
fn test_finalize_replay_detected() {
    let mut shell = Shell::new();
    let (wrapper_bytes, _, _) = wrapper_block_pair(&mut shell, 37);
    let block = vec![wrapper_bytes];
    shell.finalize_block(1, &block).expect("Test failed");
    let queue_len = shell.tx_queue.len();
    assert!(shell.finalize_block(1, &block).is_err());
    assert_eq!(shell.tx_queue.len(), queue_len);
    // Skipping a height is refused too.
    assert!(shell.finalize_block(3, &block).is_err());
    shell.finalize_block(2, &vec![]).expect("Test failed");
}

/// The wrapper's fee is debited at acceptance, in the first block.
#[test]
fn test_fee_debited_at_acceptance() {
    let mut shell = Shell::new();
    let keypair = SecretKey::Ed25519(vec![41u8; 32]);
    let payer = Address::Implicit(public_key_hash(&keypair.ref_to()));
    shell.balances.set_balance(&xan(), &payer, 1_000);
    let inner = Tx::new(vec![1], None);
    let wrapper = WrapperTx::new(Fee { amount: 7, token: xan() }, &keypair, 0, 0, &inner);
    let signed = wrapper.sign(&keypair);
    shell.finalize_block(1, &vec![encode_tx(&signed)]).expect("Test failed");
    assert_eq!(shell.balances.balance_of(&xan(), &payer), 993);
}

/// The epoch advances only once both the duration and the block count have
/// outrun their minimums.
#[test]
fn test_epoch_clock() {
    let mut shell = Shell::new();
    shell.min_epoch_duration = 100;
    shell.min_epoch_blocks = 4;
    for h in 1..=3u64 {
        shell.finalize_block(h, &vec![]).expect("Test failed");
    }
    // Enough time, too few blocks.
    assert_eq!(shell.commit(1_000), 0);
    shell.finalize_block(4, &vec![]).expect("Test failed");
    // Enough blocks, too little time.
    assert_eq!(shell.commit(50), 0);
    // Both thresholds met.
    assert_eq!(shell.commit(1_000), 1);
    // The clock restarts.
    assert_eq!(shell.commit(1_050), 1);
}

/// Queries: the epoch, a stored value, a missing value, and key existence.
#[test]
fn test_queries() {
    let mut shell = Shell::new();
    shell.write_storage(vec![1, 2], vec![9, 9, 9]);
    let r = shell.query(&QueryRequest::Epoch);
    assert_eq!(r.code, 0);
    assert_eq!(r.value, vec![0u8; 8]);
    let r = shell.query(&QueryRequest::Value(vec![1, 2]));
    assert_eq!(r.code, 0);
    assert_eq!(r.value, vec![9, 9, 9]);
    // Code one is the only error; it does not say why.
    let r = shell.query(&QueryRequest::Value(vec![3]));
    assert_eq!(r.code, 1);
    let r = shell.query(&QueryRequest::HasKey(vec![1, 2]));
    assert_eq!(r.code, 0);
    assert_eq!(r.value, vec![1]);
    let r = shell.query(&QueryRequest::HasKey(vec![3]));
    assert_eq!(r.value, vec![0]);
}

/// The decryption-coupled path: a valid wrapper is queued and the emitted
/// bytes carry the decrypted form, which validates in turn.
#[test]
fn test_process_and_decode() {
    let mut shell = Shell::new();
    let (wrapper_bytes, decrypted_bytes, _) = wrapper_block_pair(&mut shell, 43);
    let response = shell.process_and_decode_proposal(&wrapper_bytes);
    assert_eq!(response.result.code, 0);
    assert_eq!(response.tx, decrypted_bytes);
    assert_eq!(shell.tx_queue.len(), 1);
}

/// A transparent transfer inside a decrypted transaction moves the amount.
#[test]
fn test_inner_transfer_applied() {
    let mut shell = Shell::new();
    let keypair = SecretKey::Ed25519(vec![47u8; 32]);
    let from = Address::Implicit(vec![4u8; 32]);
    let to = Address::Implicit(vec![5u8; 32]);
    shell.balances.set_balance(&xan(), &from, 50);
    let transfer = ledger_shell::token::Transfer {
        source: from.clone_addr(),
        target: to.clone_addr(),
        token: xan(),
        amount: 20,
    };
    let payload = ledger_shell::token::encode_transfer(&transfer);
    let sig = ledger_shell::crypto::SigScheme::sign(&keypair, &payload);
    let mut data: Vec<u8> = Vec::new();
    ledger_shell::tx::write_signed(
        &mut data,
        &ledger_shell::tx::SignedTxData { data: Some(payload), sig },
    );
    let inner = Tx::new(vec![1], Some(data));
    // Queue discipline: the queued wrapper must commit to this very payload.
    let queued = WrapperTx::new(Fee { amount: 0, token: xan() }, &keypair, 0, 0, &inner);
    shell.enqueue_tx(queued);
    let envelope = Tx::new(
        vec![],
        Some(encode_tx_type(&TxType::Decrypted(DecryptedTx::Decrypted(inner)))),
    );
    shell.finalize_block(1, &vec![encode_tx(&envelope)]).expect("Test failed");
    assert_eq!(shell.balances.balance_of(&xan(), &from), 30);
    assert_eq!(shell.balances.balance_of(&xan(), &to), 20);
}

/// Every request kind is answered with a matching response kind.
#[test]
fn test_call_dispatch_total() {
    let mut shell = Shell::new();
    assert!(matches!(shell.call(Request::InitChain { time: 0 }), Response::InitChain));
    match shell.call(Request::Info) {
        Response::Info { last_height, epoch } => {
            assert_eq!(last_height, 0);
            assert_eq!(epoch, 0);
        }
        _ => panic!("Test failed"),
    }
    assert!(matches!(
        shell.call(Request::Query(QueryRequest::Epoch)),
        Response::Query(_)
    ));
    assert!(matches!(shell.call(Request::VerifyHeader), Response::VerifyHeader(true)));
    assert!(matches!(
        shell.call(Request::ProcessProposal(vec![1, 2])),
        Response::ProcessProposal(_)
    ));
    assert!(matches!(shell.call(Request::RevertProposal), Response::RevertProposal));
    assert!(matches!(
        shell.call(Request::FinalizeBlock { height: 1, txs: vec![] }),
        Response::FinalizeBlock(Ok(_))
    ));
    assert!(matches!(shell.call(Request::Commit { time: 5 }), Response::Commit { .. }));
    assert!(matches!(shell.call(Request::Echo(vec![7])), Response::Echo(_)));
}

/// The decryption-coupled path echoes the input and leaves the queue alone
/// on anything but an accepted wrapper.
#[test]
fn test_process_and_decode_rejections() {
    let mut shell = Shell::new();
    // An unsigned wrapper fails signature checking: echoed, nothing queued.
    let keypair = SecretKey::Ed25519(vec![51u8; 32]);
    let inner = Tx::new(vec![1], None);
    let wrapper = WrapperTx::new(Fee { amount: 0, token: xan() }, &keypair, 0, 0, &inner);
    let unsigned = encode_tx(&Tx::new(vec![], Some(encode_tx_type(&TxType::Wrapper(wrapper)))));
    let response = shell.process_and_decode_proposal(&unsigned);
    assert_eq!(response.result.code, 2);
    assert_eq!(response.tx, unsigned);
    assert!(shell.tx_queue.is_empty());
    // A decrypted transaction from outside is not accepted on this path.
    let decrypted = encode_tx(&Tx::new(
        vec![],
        Some(encode_tx_type(&TxType::Decrypted(DecryptedTx::Decrypted(Tx::new(vec![2], None)))))
    ));
    let response = shell.process_and_decode_proposal(&decrypted);
    assert_eq!(response.result.code, 1);
    assert_eq!(response.tx, decrypted);
    assert!(shell.tx_queue.is_empty());
}

/// The wallet store refuses a taken alias for a generated key too, and
/// registers the implicit address on success.
#[test]
fn test_gen_key_registers_address() {
    let mut store = ledger_shell::wallet::Store::new();
    let (alias, sk) = store.gen_key(Some("mine".to_string())).expect("Test failed");
    assert_eq!(alias, "mine".to_string());
    let pkh = public_key_hash(&sk.ref_to());
    assert!(matches!(
        store.find_address(&alias).expect("Test failed"),
        Address::Implicit(h) if *h == pkh
    ));
    assert!(store.gen_key(Some("mine".to_string())).is_none());
}
