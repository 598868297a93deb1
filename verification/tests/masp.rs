//! The shielded value types and their Bech32m strings, and the node
//! configuration defaults.

use ledger_shell::config::{Config, DiscoverPeer, IntentGossiper, Ledger, RpcServer, SerdeError};
use ledger_shell::masp::{
    BalanceOwner, DecodeError, ExtendedSpendingKey, FullViewingKey, MaspValue, PaymentAddress,
    TransferSource, TransferTarget,
};
use ledger_shell::address::Address;

fn encoded_payment_address() -> String {
    PaymentAddress { bytes: vec![7u8; 43] }.encode().expect("Test failed")
}

/// A payment address round trips through its string.
#[test]
fn test_payment_address_round_trip() {
    let s = encoded_payment_address();
    assert!(s.starts_with("patest"));
    let back = PaymentAddress::from_str(&s).expect("Test failed");
    assert_eq!(back.bytes, vec![7u8; 43]);
}

/// The wrong prefix, and a payload of the wrong length, are refused.
#[test]
fn test_masp_decode_errors() {
    let s = encoded_payment_address();
    assert!(matches!(
        FullViewingKey::from_str(&s),
        Err(DecodeError::UnexpectedBech32Prefix)
    ));
    assert!(matches!(
        PaymentAddress::from_str("not bech32 at all"),
        Err(DecodeError::DecodeBech32)
    ));
    let short = PaymentAddress { bytes: vec![7u8; 10] }.encode().expect("Test failed");
    assert!(matches!(
        PaymentAddress::from_str(&short),
        Err(DecodeError::InvalidInnerEncoding)
    ));
}

/// Spending and viewing keys round trip; any shielded value parses to its
/// kind.
#[test]
fn test_masp_value_kinds() {
    let esk = ExtendedSpendingKey { bytes: vec![1u8; 169] }.encode().expect("Test failed");
    let fvk = FullViewingKey { bytes: vec![2u8; 96] }.encode().expect("Test failed");
    let pa = encoded_payment_address();
    assert!(matches!(MaspValue::from_str(&pa), Ok(MaspValue::PaymentAddress(_))));
    assert!(matches!(MaspValue::from_str(&esk), Ok(MaspValue::ExtendedSpendingKey(_))));
    assert!(matches!(MaspValue::from_str(&fvk), Ok(MaspValue::FullViewingKey(_))));
    assert!(MaspValue::from_str("junk").is_err());
}

/// Shielded sources and targets draw from and pay into the pool's account.
#[test]
fn test_effective_addresses() {
    let a = Address::Established(vec![4u8; 20]);
    let src = TransferSource::Address(a.clone_addr());
    assert!(src.spending_key().is_none());
    let shielded = TransferSource::ExtendedSpendingKey(ExtendedSpendingKey { bytes: vec![1u8; 169] });
    assert!(matches!(shielded.effective_address(), Address::Internal(_)));
    assert!(shielded.spending_key().is_some());
    let tgt = TransferTarget::PaymentAddress(PaymentAddress { bytes: vec![7u8; 43] });
    assert!(matches!(tgt.effective_address(), Address::Internal(_)));
    assert!(tgt.address().is_none());
    let owner = BalanceOwner::Address(a);
    assert!(owner.address().is_some());
    assert!(owner.full_viewing_key().is_none());
}

/// The enumerated configuration defaults.
#[test]
fn test_config_defaults() {
    let ledger = Ledger::default_ledger();
    assert_eq!(ledger.network, "mainnet".to_string());
    assert_eq!(ledger.address.port, 26658);
    let rpc = RpcServer::default_rpc();
    assert_eq!(rpc.address.port, 39111);
    let discover = DiscoverPeer::default_discover();
    assert_eq!(discover.max_discovery_peers, 16);
    assert!(discover.kademlia && discover.mdns);
    let gossiper = IntentGossiper::default_gossiper();
    assert_eq!(gossiper.address, "/ip4/0.0.0.0/tcp/20201".to_string());
    let config = Config::default_config();
    assert!(config.ledger.is_some());
    let generated = Config::generate("base");
    assert_eq!(generated.ledger.expect("Test failed").db, "base/db/devchain-00000".to_string());
    let err = SerdeError::Message("oops".to_string());
    assert_eq!(err.message(), &"oops".to_string());
}

/// A reset clears exactly the database and the consensus home.
#[test]
fn test_reset_directories() {
    let ledger = Ledger::default_ledger();
    let dirs = ledger_shell::config::reset(&ledger);
    assert_eq!(dirs, vec![
        ".ledger/db/devchain-00000".to_string(),
        ".ledger/tendermint".to_string(),
    ]);
}
