//! Canonical round trips: encoding any transaction kind and decoding it
//! yields the identical value.

use ledger_shell::address::{xan, Address};
use ledger_shell::crypto::SecretKey;
use ledger_shell::token::{decode_transfer, encode_transfer, Transfer};
use ledger_shell::tx::{
    decode_tx, decode_tx_type, encode_tx, encode_tx_type, DecryptedTx, Fee, ProtocolTx,
    ProtocolTxType, Tx, TxType, WrapperTx,
};

fn sample_wrapper() -> WrapperTx {
    let keypair = SecretKey::Ed25519(vec![3u8; 32]);
    let tx = Tx::new(vec![1, 2, 3], Some(vec![4, 5]));
    WrapperTx::new(Fee { amount: 17, token: xan() }, &keypair, 3, 500, &tx)
}

/// An inner transaction round trips bit-identically.
#[test]
fn test_tx_round_trip() {
    let tx = Tx::new(vec![9, 8, 7], Some(vec![6]));
    let bytes = encode_tx(&tx);
    let back = decode_tx(&bytes).expect("Test failed");
    assert_eq!(back.code, vec![9, 8, 7]);
    assert_eq!(back.data, Some(vec![6]));
    // And one without data.
    let tx = Tx::new(vec![], None);
    let bytes = encode_tx(&tx);
    let back = decode_tx(&bytes).expect("Test failed");
    assert!(back.code.is_empty());
    assert!(back.data.is_none());
}

/// Every transaction kind round trips bit-identically.
#[test]
fn test_tx_type_round_trip() {
    let keypair = SecretKey::Ed25519(vec![3u8; 32]);
    let wrapper = sample_wrapper();
    let hash = wrapper.tx_hash.clone();
    let cases: Vec<TxType> = vec![
        TxType::Raw(Tx::new(vec![1], None)),
        TxType::Wrapper(wrapper),
        TxType::Decrypted(DecryptedTx::Decrypted(Tx::new(vec![2], Some(vec![3])))),
        TxType::Decrypted(DecryptedTx::Undecryptable(sample_wrapper())),
        TxType::Protocol(ProtocolTx {
            pk: keypair.ref_to(),
            tx: ProtocolTxType::Dkg(vec![5, 5]),
        }),
        TxType::Protocol(ProtocolTx {
            pk: keypair.ref_to(),
            tx: ProtocolTxType::NewDkgKeypair(Tx::new(vec![6], None)),
        }),
    ];
    for t in cases {
        let bytes = encode_tx_type(&t);
        let back = decode_tx_type(&bytes).expect("Test failed");
        let bytes_again = encode_tx_type(&back);
        assert_eq!(bytes, bytes_again);
    }
    // The untouched commitment survives a round trip through the wrapper.
    let bytes = encode_tx_type(&TxType::Wrapper(sample_wrapper()));
    match decode_tx_type(&bytes).expect("Test failed") {
        TxType::Wrapper(w) => assert_eq!(w.tx_hash, hash),
        _ => panic!("Test failed"),
    }
}

/// A transparent transfer round trips bit-identically.
#[test]
fn test_transfer_round_trip() {
    let t = Transfer {
        source: Address::Implicit(vec![1u8; 32]),
        target: Address::Established(vec![2u8; 20]),
        token: xan(),
        amount: 12_345,
    };
    let bytes = encode_transfer(&t);
    let back = decode_transfer(&bytes).expect("Test failed");
    assert_eq!(back.amount, 12_345);
    assert_eq!(encode_transfer(&back), bytes);
}

/// Corrupted bytes do not decode.
#[test]
fn test_decode_rejects_garbage() {
    assert!(decode_tx(&vec![1, 2, 3]).is_none());
    assert!(decode_tx_type(&vec![]).is_none());
    let mut bytes = encode_tx(&Tx::new(vec![1], None));
    bytes.push(0);
    assert!(decode_tx(&bytes).is_none());
}

/// A slash record round trips bit-identically.
#[test]
fn test_slash_round_trip() {
    let s = ledger_shell::pos::Slash {
        epoch: 7,
        block_height: 123,
        rate_bp: 500,
        kind: ledger_shell::pos::SlashType::LightClientAttack,
    };
    let bytes = ledger_shell::pos::encode_slash(&s);
    let back = ledger_shell::pos::decode_slash(&bytes).expect("Test failed");
    assert_eq!(back, s);
    let mut corrupted = bytes.clone();
    corrupted.push(0);
    assert!(ledger_shell::pos::decode_slash(&corrupted).is_none());
}
