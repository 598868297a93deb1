//! The wallet store and the client-side query arithmetic.

use ledger_shell::address::{xan, Address};
use ledger_shell::client::{process_bonds_query, process_unbonds_query, value_by_address, TxEventQuery};
use ledger_shell::crypto::{public_key_hash, SecretKey};
use ledger_shell::pos::{Bond, BondEntry, Slash, SlashType, Unbond, UnbondEntry};
use ledger_shell::wallet::{hex_decode, hex_encode, wallet_file, StoredKeypair, Store};

/// Addresses and keys are found under the alias they were stored with.
#[test]
fn test_store_insert_and_find() {
    let mut store = Store::new();
    let addr = Address::Established(vec![1u8; 20]);
    assert!(store.insert_address("alice".to_string(), addr));
    // A taken alias is refused and nothing changes.
    let other = Address::Established(vec![2u8; 20]);
    assert!(!store.insert_address("alice".to_string(), other));
    let found = store.find_address(&"alice".to_string()).expect("Test failed");
    assert!(matches!(found, Address::Established(_)));
    assert!(store.find_address(&"bob".to_string()).is_none());

    let sk = SecretKey::Ed25519(vec![5u8; 32]);
    let pkh = public_key_hash(&sk.ref_to());
    assert!(store.insert_keypair("akey".to_string(), StoredKeypair::Raw(sk), pkh.clone()));
    assert!(store.find_key(&"akey".to_string()).is_some());
    // Lookup through the hex of the public key hash.
    let hex_pkh = hex_encode(&pkh);
    assert!(store.find_key(&hex_pkh).is_some());
    assert_eq!(store.find_alias_by_pkh(&pkh).expect("Test failed"), "akey".to_string());
}

/// A generated key lands in the store under the hex of its hash.
#[test]
fn test_gen_key() {
    let mut store = Store::new();
    let (alias, _sk) = store.gen_key(None).expect("Test failed");
    assert_eq!(alias.len(), 64);
    assert!(store.find_key(&alias).is_some());
}

/// Hex decoding accepts exactly even-length hex and inverts encoding.
#[test]
fn test_hex_round_trip() {
    let bytes = vec![0u8, 15, 16, 255];
    let s = hex_encode(&bytes);
    assert_eq!(s, "000f10ff".to_string());
    assert_eq!(hex_decode(&s).expect("Test failed"), bytes);
    assert!(hex_decode("abc").is_none());
    assert!(hex_decode("zz").is_none());
    assert!(hex_decode("ABCD").is_some());
}

/// The wallet file sits under the base directory.
#[test]
fn test_wallet_file() {
    assert_eq!(wallet_file(".ledger"), ".ledger/wallet.toml".to_string());
}

/// Bond totals after slashing, and which of them count as active.
#[test]
fn test_process_bonds_query() {
    let bonds = Bond {
        entries: vec![
            BondEntry { start: 2, amount: 100 },
            BondEntry { start: 8, amount: 50 },
        ],
    };
    let slashes = vec![Slash { epoch: 3, block_height: 5, rate_bp: 100, kind: SlashType::DuplicateVote }];
    // The first slice loses one percent; the second was not active yet.
    let (total, active) = process_bonds_query(&bonds, &slashes, 5, None, None).expect("Test failed");
    assert_eq!(total, 99 + 50);
    assert_eq!(active, 99);
    // Carried totals accumulate.
    let (total, active) =
        process_bonds_query(&bonds, &slashes, 5, Some(total), Some(active)).expect("Test failed");
    assert_eq!(total, 2 * 149);
    assert_eq!(active, 2 * 99);
}

/// Unbond totals after slashing, and which of them are withdrawable.
#[test]
fn test_process_unbonds_query() {
    let unbonds = Unbond {
        entries: vec![
            UnbondEntry { start: 2, withdraw: 8, amount: 100 },
            UnbondEntry { start: 2, withdraw: 12, amount: 40 },
        ],
    };
    let slashes = vec![Slash { epoch: 3, block_height: 5, rate_bp: 500, kind: SlashType::LightClientAttack }];
    let (total, withdrawable) =
        process_unbonds_query(&unbonds, &slashes, 9, None, None).expect("Test failed");
    // Both slices lose five percent; only the first is withdrawable at nine.
    assert_eq!(total, 95 + 38);
    assert_eq!(withdrawable, 95);
}

/// The component of a multi-asset amount for a token at an epoch.
#[test]
fn test_value_by_address() {
    let token = xan();
    let (asset, zero) = value_by_address(&vec![], &token, 1);
    assert_eq!(zero, 0);
    let amt = vec![(asset.clone(), 77i64), (vec![9u8; 32], 5i64)];
    let (_, value) = value_by_address(&amt, &token, 1);
    assert_eq!(value, 77);
    // Another epoch names another asset.
    let (other_asset, other) = value_by_address(&amt, &token, 2);
    assert_ne!(other_asset, asset);
    assert_eq!(other, 0);
}

/// Event queries carry their type and hash.
#[test]
fn test_tx_event_query() {
    let q = TxEventQuery::Accepted("ff00".to_string());
    assert_eq!(q.event_type(), "accepted".to_string());
    assert_eq!(q.tx_hash(), &"ff00".to_string());
    let q = TxEventQuery::Applied("aa11".to_string());
    assert_eq!(q.event_type(), "applied".to_string());
}

/// The exact bond totals of a single slice active since its activation
/// epoch: fully counted, and active only once the epoch has arrived.
#[test]
fn test_bonds_query_exact_instances() {
    let bonds = Bond { entries: vec![BondEntry { start: 2, amount: 100 }] };
    let none: Vec<Slash> = vec![];
    assert_eq!(process_bonds_query(&bonds, &none, 5, None, None), Some((100, 100)));
    assert_eq!(process_bonds_query(&bonds, &none, 1, None, None), Some((100, 0)));
}

/// The exact unbond totals of a single slice: withdrawable exactly from its
/// withdraw epoch on.
#[test]
fn test_unbonds_query_exact_instances() {
    let unbonds = Unbond {
        entries: vec![UnbondEntry { start: 2, withdraw: 11, amount: 100 }],
    };
    let none: Vec<Slash> = vec![];
    assert_eq!(process_unbonds_query(&unbonds, &none, 11, None, None), Some((100, 100)));
    assert_eq!(process_unbonds_query(&unbonds, &none, 10, None, None), Some((100, 0)));
}
