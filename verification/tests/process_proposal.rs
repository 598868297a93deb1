//! The failure cases of proposal validation: signatures, fees, queue order
//! and mislabelled payloads.

use ledger_shell::address::xan;
use ledger_shell::crypto::{SecretKey, SigScheme};
use ledger_shell::shell::Shell;
use ledger_shell::tx::{
    decode_signed, encode_tx, encode_tx_type, write_signed, DecryptedTx, Fee, ProtocolTxType,
    SignedTxData, Tx, TxType, WrapperTx,
};

fn gen_keypair() -> SecretKey {
    SecretKey::Ed25519(vec![7u8; 32])
}

fn decrypted_envelope(d: DecryptedTx) -> Vec<u8> {
    let envelope = Tx::new(vec![], Some(encode_tx_type(&TxType::Decrypted(d))));
    encode_tx(&envelope)
}

/// An unsigned wrapper is rejected with an invalid-signature code.
#[test]
fn test_unsigned_wrapper_rejected() {
    let mut shell = Shell::new();
    let keypair = gen_keypair();
    let tx = Tx::new(
        "wasm_code".as_bytes().to_owned(),
        Some("transaction data".as_bytes().to_owned()),
    );
    let wrapper = WrapperTx::new(
        Fee { amount: 0, token: xan() },
        &keypair,
        0,
        0,
        &tx,
    );
    let tx = Tx::new(vec![], Some(encode_tx_type(&TxType::Wrapper(wrapper))));
    let request = encode_tx(&tx);

    let response = shell.process_proposal(&request);
    assert_eq!(response.code, 2);
    assert_eq!(response.info, String::from("Wrapper transactions must be signed"));
    assert!(shell.tx_queue.is_empty());
}

/// A wrapper whose fee was reduced after signing fails signature
/// verification.
#[test]
fn test_wrapper_bad_signature_rejected() {
    let mut shell = Shell::new();
    let keypair = gen_keypair();
    let tx = Tx::new(
        "wasm_code".as_bytes().to_owned(),
        Some("transaction data".as_bytes().to_owned()),
    );
    let wrapper = WrapperTx::new(
        Fee { amount: 100, token: xan() },
        &keypair,
        0,
        0,
        &tx,
    );
    let signed = wrapper.sign(&keypair);
    // Mount a malleability attack: reuse the signature over a wrapper whose
    // fee was zeroed.
    let new_tx = {
        let data = signed.data.clone().expect("Test failed");
        let sd = decode_signed(&data).expect("Test failed");
        let sig = sd.sig;
        let inner = sd.data.expect("Test failed");
        let mut new_wrapper = match decode_tx_type_helper(&inner) {
            TxType::Wrapper(w) => w,
            _ => panic!("Test failed"),
        };
        new_wrapper.fee.amount = 0;
        let new_data = encode_tx_type(&TxType::Wrapper(new_wrapper));
        let mut payload: Vec<u8> = Vec::new();
        write_signed(&mut payload, &SignedTxData { data: Some(new_data), sig });
        Tx::new(vec![], Some(payload))
    };
    let request = encode_tx(&new_tx);
    let response = shell.process_proposal(&request);
    let expected_error = "Signature verification failed: signature error";
    assert_eq!(response.code, 2);
    assert!(
        response.info.contains(expected_error),
        "Result info {} doesn't contain the expected error {}",
        response.info,
        expected_error
    );
    assert!(shell.tx_queue.is_empty());
}

fn decode_tx_type_helper(bytes: &Vec<u8>) -> TxType {
    ledger_shell::tx::decode_tx_type(bytes).expect("Test failed")
}

/// A wrapper from an account with no balance and a non-zero fee is rejected.
#[test]
fn test_wrapper_unknown_address() {
    let mut shell = Shell::new();
    let keypair = SecretKey::Ed25519(vec![9u8; 32]);
    let tx = Tx::new(
        "wasm_code".as_bytes().to_owned(),
        Some("transaction data".as_bytes().to_owned()),
    );
    let wrapper = WrapperTx::new(
        Fee { amount: 1, token: xan() },
        &keypair,
        0,
        0,
        &tx,
    );
    let signed = wrapper.sign(&keypair);
    let request = encode_tx(&signed);
    let response = shell.process_proposal(&request);
    assert_eq!(response.code, 1);
    assert_eq!(
        response.info,
        "The address given does not have sufficient balance to pay fee".to_string(),
    );
    assert!(shell.tx_queue.is_empty());
}

/// A wrapper whose fee exceeds the payer's balance is rejected.
#[test]
fn test_wrapper_insufficient_balance_address() {
    let mut shell = Shell::new();
    let keypair = SecretKey::Ed25519(vec![11u8; 32]);
    // Genesis gives the payer a million tokens.
    let payer = ledger_shell::address::Address::Implicit(ledger_shell::crypto::public_key_hash(
        &keypair.ref_to(),
    ));
    shell.balances.set_balance(&xan(), &payer, 1_000_000);
    let tx = Tx::new(
        "wasm_code".as_bytes().to_owned(),
        Some("transaction data".as_bytes().to_owned()),
    );
    let wrapper = WrapperTx::new(
        Fee { amount: 1_000_100, token: xan() },
        &keypair,
        0,
        0,
        &tx,
    );
    let signed = wrapper.sign(&keypair);
    let request = encode_tx(&signed);
    let response = shell.process_proposal(&request);
    assert_eq!(response.code, 1);
    assert_eq!(
        response.info,
        String::from("The address given does not have sufficient balance to pay fee")
    );
    assert!(shell.tx_queue.is_empty());
}

/// Decrypted transactions must arrive in the order the queue fixed.
#[test]
fn test_decrypted_txs_out_of_order() {
    let mut shell = Shell::new();
    let keypair = gen_keypair();
    let mut txs = vec![];
    for i in 0..3u64 {
        let tx = Tx::new(
            "wasm_code".as_bytes().to_owned(),
            Some(format!("transaction data: {}", i).as_bytes().to_owned()),
        );
        let wrapper = WrapperTx::new(
            Fee { amount: i, token: xan() },
            &keypair,
            0,
            0,
            &tx,
        );
        shell.enqueue_tx(wrapper);
        txs.push(decrypted_envelope(DecryptedTx::Decrypted(tx)));
    }
    let response_1 = shell.process_proposal(&txs[0]);
    assert_eq!(response_1.code, 0);

    let response_2 = shell.process_proposal(&txs[2]);
    assert_eq!(response_2.code, 4);
    assert_eq!(
        response_2.info,
        String::from(
            "Process proposal rejected a decrypted transaction that violated the tx order \
             determined in the previous block"
        ),
    );
}

/// A decryptable payload wrongly labelled undecryptable is rejected.
#[test]
fn test_incorrectly_labelled_as_undecryptable() {
    let mut shell = Shell::new();
    let keypair = gen_keypair();

    let tx = Tx::new(
        "wasm_code".as_bytes().to_owned(),
        Some("transaction data".as_bytes().to_owned()),
    );
    let wrapper = WrapperTx::new(
        Fee { amount: 0, token: xan() },
        &keypair,
        0,
        0,
        &tx,
    );
    shell.enqueue_tx(wrapper.clone_wrapper());

    let request = decrypted_envelope(DecryptedTx::Undecryptable(wrapper));
    let response = shell.process_proposal(&request);
    assert_eq!(response.code, 1);
    assert_eq!(
        response.info,
        String::from("The encrypted payload of tx was incorrectly marked as un-decryptable"),
    )
}

/// A genuinely undecryptable payload is accepted.
#[test]
fn test_undecryptable() {
    let mut shell = Shell::new();
    let keypair = SecretKey::Ed25519(vec![13u8; 32]);
    let tx = Tx::new(
        "wasm_code".as_bytes().to_owned(),
        Some("transaction data".as_bytes().to_owned()),
    );
    let mut wrapper = WrapperTx::new(
        Fee { amount: 0, token: xan() },
        &keypair,
        0,
        0,
        &tx,
    );
    // A zeroed commitment makes the ciphertext undecryptable.
    wrapper.tx_hash = vec![0u8; 32];
    shell.enqueue_tx(wrapper.clone_wrapper());
    let request = decrypted_envelope(DecryptedTx::Undecryptable(wrapper));
    let response = shell.process_proposal(&request);
    println!("{}", response.info);
    assert_eq!(response.code, 0);
}

/// A decrypted transaction with an empty queue is one too many.
#[test]
fn test_too_many_decrypted_txs() {
    let mut shell = Shell::new();

    let tx = Tx::new(
        "wasm_code".as_bytes().to_owned(),
        Some("transaction data".as_bytes().to_owned()),
    );
    let request = decrypted_envelope(DecryptedTx::Decrypted(tx));
    let response = shell.process_proposal(&request);
    assert_eq!(response.code, 5);
    assert_eq!(
        response.info,
        String::from("Received more decrypted txs than expected"),
    );
}

/// A raw transaction is rejected, without a panic.
#[test]
fn test_raw_tx_rejected() {
    let mut shell = Shell::new();

    let tx = Tx::new(
        "wasm_code".as_bytes().to_owned(),
        Some("transaction data".as_bytes().to_owned()),
    );
    let envelope = Tx::new(vec![], Some(encode_tx_type(&TxType::Raw(tx))));
    let request = encode_tx(&envelope);
    let response = shell.process_proposal(&request);
    assert_eq!(response.code, 1);
    assert_eq!(
        response.info,
        String::from("Transaction rejected: Non-encrypted transactions are not supported"),
    );
}

/// A well-formed DKG message from an active validator is accepted.
#[test]
fn test_valid_dkg_msgs_accepted() {
    let mut shell = Shell::new();
    let protocol_keys = SecretKey::Ed25519(vec![21u8; 32]);
    let pk = protocol_keys.ref_to();
    let pk_bytes = match &pk {
        ledger_shell::crypto::PublicKey::Ed25519(b) => b.clone(),
    };
    let validator = ledger_shell::address::Address::Established(vec![1u8; 20]);
    shell.register_protocol_key(pk_bytes, validator);

    let msg = vec![42u8; 16];
    let protocol_tx = ProtocolTxType::Dkg(msg).sign(&protocol_keys);
    let request = encode_tx(&protocol_tx);
    let response = shell.process_proposal(&request);
    assert_eq!(response.code, 0, "Test failed");
}

/// A well-formed session-keypair rotation request is accepted.
#[test]
fn test_valid_new_dkg_keypair() {
    let mut shell = Shell::new();
    let protocol_keys = SecretKey::Ed25519(vec![22u8; 32]);
    let pk = protocol_keys.ref_to();
    let pk_bytes = match &pk {
        ledger_shell::crypto::PublicKey::Ed25519(b) => b.clone(),
    };
    let validator = ledger_shell::address::Address::Established(vec![2u8; 20]);
    shell.register_protocol_key(pk_bytes, validator.clone_addr());

    let dkg_pk = {
        let mut out: Vec<u8> = Vec::new();
        ledger_shell::tx::write_pubkey(&mut out, &pk);
        out
    };
    let update = ledger_shell::shell::UpdateDkgSessionKey {
        address: validator,
        dkg_public_key: dkg_pk,
    };
    let mut payload: Vec<u8> = Vec::new();
    ledger_shell::shell::write_update_dkg(&mut payload, &update);
    let sig = SigScheme::sign(&protocol_keys, &payload);
    let mut data: Vec<u8> = Vec::new();
    write_signed(&mut data, &SignedTxData { data: Some(payload), sig });
    let inner = Tx::new("tx_update_dkg_session_keypair".as_bytes().to_owned(), Some(data));
    let protocol_tx = ProtocolTxType::NewDkgKeypair(inner).sign(&protocol_keys);
    let request = encode_tx(&protocol_tx);
    let response = shell.process_proposal(&request);
    assert_eq!(response.code, 0, "Test failed");
}

/// A protocol transaction signed by a non-validator is rejected.
#[test]
fn test_reject_protocol_txs_from_non_validators() {
    let mut shell = Shell::new();
    let non_validator_keys = gen_keypair();
    let msg = vec![42u8; 16];
    let protocol_tx = ProtocolTxType::Dkg(msg).sign(&non_validator_keys);
    let request = encode_tx(&protocol_tx);
    let response = shell.process_proposal(&request);
    assert_eq!(response.code, 2, "Test failed");
}

/// Malformed or missing session-keypair payloads are rejected.
#[test]
fn test_malformed_dkg_keypair_tx() {
    let mut shell = Shell::new();
    let protocol_keys = SecretKey::Ed25519(vec![23u8; 32]);
    let pk = protocol_keys.ref_to();
    let pk_bytes = match &pk {
        ledger_shell::crypto::PublicKey::Ed25519(b) => b.clone(),
    };
    let validator = ledger_shell::address::Address::Established(vec![3u8; 20]);
    shell.register_protocol_key(pk_bytes, validator);

    let code = "tx_update_dkg_session_keypair".as_bytes().to_owned();
    // A payload that is signed but not a session-key update.
    let request_data: Vec<u8> = "invalid".as_bytes().to_owned();
    let sig = SigScheme::sign(&protocol_keys, &request_data);
    let mut data: Vec<u8> = Vec::new();
    write_signed(&mut data, &SignedTxData { data: Some(request_data), sig });
    let tx_1 = {
        let inner = Tx::new(code.clone(), Some(data));
        let ptx = ProtocolTxType::NewDkgKeypair(inner).sign(&protocol_keys);
        encode_tx(&ptx)
    };
    // A rotation request with no payload at all.
    let tx_2 = {
        let inner = Tx::new(code, None);
        let ptx = ProtocolTxType::NewDkgKeypair(inner).sign(&protocol_keys);
        encode_tx(&ptx)
    };
    let response = shell.process_proposal(&tx_1);
    assert_eq!(response.code, 1);
    let response = shell.process_proposal(&tx_2);
    assert_eq!(response.code, 1);
}
