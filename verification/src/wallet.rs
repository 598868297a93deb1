//! The wallet store: aliases mapped to keypairs and addresses, with lookup
//! by alias, public key or public key hash. Loading and saving the store
//! file is I/O and lives outside the library.

use vstd::prelude::*;
use crate::address::Address;
use crate::crypto::{bytes_eq, public_key_hash, sha256_of, PublicKey, SecretKey};

verus! {

/// A stored keypair: raw, or encrypted under a password outside the
/// library.
pub enum StoredKeypair {
    Raw(SecretKey),
    Encrypted(Vec<u8>),
}

/// The value of a hex digit; 255 for anything else.
pub open spec fn hex_val(c: char) -> u8 {
    if '0' <= c && c <= '9' {
        (c as u8 - '0' as u8) as u8
    } else if 'a' <= c && c <= 'f' {
        (c as u8 - 'a' as u8 + 10) as u8
    } else if 'A' <= c && c <= 'F' {
        (c as u8 - 'A' as u8 + 10) as u8
    } else {
        255
    }
}

/// Whether a character is a hex digit.
pub open spec fn is_hex_digit(c: char) -> bool {
    hex_val(c) < 16
}

/// The byte a pair of hex digits denotes.
pub open spec fn hex_pair(hi: char, lo: char) -> u8 {
    (hex_val(hi) * 16 + hex_val(lo)) as u8
}

/// The lowercase hex digit of a value below sixteen.
pub open spec fn hex_digit(n: u8) -> char {
    if n < 10 {
        ((n + '0' as u8) as u8) as char
    } else {
        ((n - 10 + 'a' as u8) as u8) as char
    }
}

/// Relies on hex::decode: it succeeds exactly on even-length strings of hex
/// digits, producing one byte per digit pair.
#[verifier::external_body]
pub fn hex_decode(s: &str) -> (r: Option<Vec<u8>>)
    ensures
        (r is Some) == (s@.len() % 2 == 0 && forall|i: int|
            0 <= i < s@.len() ==> is_hex_digit(#[trigger] s@[i])),
        r matches Some(v) ==> v@.len() == s@.len() / 2 && forall|i: int|
            0 <= i < v@.len() ==> #[trigger] v@[i] == hex_pair(s@[2 * i], s@[2 * i + 1]),
{
    hex::decode(s).ok()
}

/// Relies on hex::encode: two lowercase digits per byte.
#[verifier::external_body]
pub fn hex_encode(b: &Vec<u8>) -> (r: String)
    ensures
        r@.len() == 2 * b@.len(),
        forall|i: int|
            0 <= i < b@.len() ==> #[trigger] r@[2 * i] == hex_digit((b@[i] / 16) as u8) && r@[2 * i
                + 1] == hex_digit((b@[i] % 16) as u8),
{
    hex::encode(b.as_slice())
}

/// Relies on rand::rngs::OsRng through RngCore::fill_bytes: 32 bytes from
/// the operating system's entropy source; nothing holds of their values.
#[verifier::external_body]
fn random_seed() -> (r: Vec<u8>)
    ensures
        r@.len() == 32,
{
    let mut bytes = [0u8; 32];
    rand::RngCore::fill_bytes(&mut rand::rngs::OsRng, &mut bytes);
    bytes.to_vec()
}

/// The keypair stored under an alias: the last entry for it.
pub open spec fn key_in(s: Seq<(String, StoredKeypair)>, alias: Seq<char>) -> Option<StoredKeypair>
    decreases s.len(),
{
    if s.len() == 0 {
        None
    } else if s.last().0@ == alias {
        Some(s.last().1)
    } else {
        key_in(s.drop_last(), alias)
    }
}

/// The address stored under an alias.
pub open spec fn address_in(s: Seq<(String, Address)>, alias: Seq<char>) -> Option<Address>
    decreases s.len(),
{
    if s.len() == 0 {
        None
    } else if s.last().0@ == alias {
        Some(s.last().1)
    } else {
        address_in(s.drop_last(), alias)
    }
}

/// The string is entirely hex digits of even count.
pub open spec fn is_hex_str(s: Seq<char>) -> bool {
    s.len() % 2 == 0 && forall|i: int| 0 <= i < s.len() ==> is_hex_digit(#[trigger] s[i])
}

/// The bytes a hex string denotes.
pub open spec fn hex_bytes(s: Seq<char>) -> Seq<u8> {
    Seq::new((s.len() / 2) as nat, |i: int| hex_pair(s[2 * i], s[2 * i + 1]))
}

/// The alias stored for a public key hash.
pub open spec fn alias_in(s: Seq<(Vec<u8>, String)>, pkh: Seq<u8>) -> Option<String>
    decreases s.len(),
{
    if s.len() == 0 {
        None
    } else if s.last().0@ == pkh {
        Some(s.last().1)
    } else {
        alias_in(s.drop_last(), pkh)
    }
}

/// The wallet store: keypairs and addresses by alias, and the reverse map
/// from public key hashes to aliases.
pub struct Store {
    /// Cryptographic keypairs, by alias.
    pub keys: Vec<(String, StoredKeypair)>,
    /// The address book, by alias.
    pub addresses: Vec<(String, Address)>,
    /// Known public key hashes of the stored keys, mapped to their aliases.
    pub pkhs: Vec<(Vec<u8>, String)>,
}

impl Store {
    /// An empty store.
    pub fn new() -> (r: Store)
        ensures
            r.keys@.len() == 0,
            r.addresses@.len() == 0,
            r.pkhs@.len() == 0,
    {
        Store { keys: Vec::new(), addresses: Vec::new(), pkhs: Vec::new() }
    }

    /// The stored key under an alias.
    fn find_key_by_alias(&self, alias: &String) -> (r: Option<&StoredKeypair>)
        ensures
            match r {
                Some(k) => key_in(self.keys@, alias@) == Some(*k),
                None => key_in(self.keys@, alias@) is None,
            },
    {
        proof {
            assert(self.keys@.take(self.keys@.len() as int) =~= self.keys@);
        }
        let mut i: usize = self.keys.len();
        while i > 0
            invariant
                i <= self.keys@.len(),
                key_in(self.keys@.take(i as int), alias@) == key_in(self.keys@, alias@),
            decreases i,
        {
            i = i - 1;
            proof {
                assert(self.keys@.take(i + 1).last() == self.keys@[i as int]);
                assert(self.keys@.take(i + 1).drop_last() =~= self.keys@.take(i as int));
            }
            if self.keys[i].0.eq(alias) {
                return Some(&self.keys[i].1);
            }
        }
        assert(self.keys@.take(0) =~= Seq::<(String, StoredKeypair)>::empty());
        None
    }

    /// The stored key whose public key hash is given.
    pub fn find_key_by_pkh(&self, pkh: &Vec<u8>) -> (r: Option<&StoredKeypair>)
        ensures
            match alias_in(self.pkhs@, pkh@) {
                None => r is None,
                Some(alias) => match r {
                    Some(k) => key_in(self.keys@, alias@) == Some(*k),
                    None => key_in(self.keys@, alias@) is None,
                },
            },
    {
        let alias = match self.find_alias_by_pkh(pkh) {
            None => {
                return None;
            },
            Some(a) => a,
        };
        self.find_key_by_alias(&alias)
    }

    /// The stored key for a public key: looked up through its hash.
    pub fn find_key_by_pk(&self, pk: &PublicKey) -> (r: Option<&StoredKeypair>)
        ensures
            match alias_in(self.pkhs@, sha256_of(pk.bytes())) {
                None => r is None,
                Some(alias) => match r {
                    Some(k) => key_in(self.keys@, alias@) == Some(*k),
                    None => key_in(self.keys@, alias@) is None,
                },
            },
    {
        let pkh = public_key_hash(pk);
        self.find_key_by_pkh(&pkh)
    }

    /// The alias stored for a public key hash.
    pub fn find_alias_by_pkh(&self, pkh: &Vec<u8>) -> (r: Option<String>)
        ensures
            match r {
                Some(a) => alias_in(self.pkhs@, pkh@) matches Some(x) && x@ == a@,
                None => alias_in(self.pkhs@, pkh@) is None,
            },
    {
        proof {
            assert(self.pkhs@.take(self.pkhs@.len() as int) =~= self.pkhs@);
        }
        let mut i: usize = self.pkhs.len();
        while i > 0
            invariant
                i <= self.pkhs@.len(),
                alias_in(self.pkhs@.take(i as int), pkh@) == alias_in(self.pkhs@, pkh@),
            decreases i,
        {
            i = i - 1;
            proof {
                assert(self.pkhs@.take(i + 1).last() == self.pkhs@[i as int]);
                assert(self.pkhs@.take(i + 1).drop_last() =~= self.pkhs@.take(i as int));
            }
            if bytes_eq(&self.pkhs[i].0, pkh) {
                return Some(self.pkhs[i].1.clone());
            }
        }
        assert(self.pkhs@.take(0) =~= Seq::<(Vec<u8>, String)>::empty());
        None
    }

    /// The key the routes reach for a query string: the alias route first,
    /// then, for a hex string, the key-hash route, then the public-key
    /// route.
    pub open spec fn find_key_route(&self, s: Seq<char>) -> Option<StoredKeypair> {
        if key_in(self.keys@, s) is Some {
            key_in(self.keys@, s)
        } else if !is_hex_str(s) {
            None
        } else {
            let b = hex_bytes(s);
            let via_pkh = if b.len() == 32 {
                match alias_in(self.pkhs@, b) {
                    Some(a) => key_in(self.keys@, a@),
                    None => None,
                }
            } else {
                None
            };
            if via_pkh is Some {
                via_pkh
            } else {
                match alias_in(self.pkhs@, sha256_of(b)) {
                    Some(a) => key_in(self.keys@, a@),
                    None => None,
                }
            }
        }
    }

    /// The stored key under an alias, a public key hash in hex, or a public
    /// key in hex, tried in that order.
    pub fn find_key(&self, alias_pkh_or_pk: &String) -> (r: Option<&StoredKeypair>)
        ensures
            match r {
                Some(k) => self.find_key_route(alias_pkh_or_pk@) == Some(*k),
                None => self.find_key_route(alias_pkh_or_pk@) is None,
            },
    {
        match self.find_key_by_alias(alias_pkh_or_pk) {
            Some(k) => Some(k),
            None => {
                match hex_decode(alias_pkh_or_pk.as_str()) {
                    None => None,
                    Some(bytes) => {
                        proof {
                            assert(bytes@ =~= hex_bytes(alias_pkh_or_pk@));
                        }
                        if bytes.len() == 32 {
                            match self.find_key_by_pkh(&bytes) {
                                Some(k) => Some(k),
                                None => self.find_key_by_pk(&PublicKey::Ed25519(bytes)),
                            }
                        } else {
                            self.find_key_by_pk(&PublicKey::Ed25519(bytes))
                        }
                    },
                }
            },
        }
    }

    /// The stored address under an alias.
    pub fn find_address(&self, alias: &String) -> (r: Option<&Address>)
        ensures
            match r {
                Some(a) => address_in(self.addresses@, alias@) == Some(*a),
                None => address_in(self.addresses@, alias@) is None,
            },
    {
        proof {
            assert(self.addresses@.take(self.addresses@.len() as int) =~= self.addresses@);
        }
        let mut i: usize = self.addresses.len();
        while i > 0
            invariant
                i <= self.addresses@.len(),
                address_in(self.addresses@.take(i as int), alias@) == address_in(
                    self.addresses@,
                    alias@,
                ),
            decreases i,
        {
            i = i - 1;
            proof {
                assert(self.addresses@.take(i + 1).last() == self.addresses@[i as int]);
                assert(self.addresses@.take(i + 1).drop_last() =~= self.addresses@.take(i as int));
            }
            if self.addresses[i].0.eq(alias) {
                return Some(&self.addresses[i].1);
            }
        }
        assert(self.addresses@.take(0) =~= Seq::<(String, Address)>::empty());
        None
    }

    /// All stored addresses, by alias.
    pub fn get_addresses(&self) -> (r: &Vec<(String, Address)>)
        ensures
            r@ == self.addresses@,
    {
        &self.addresses
    }

    /// All stored keys, by alias.
    pub fn get_keys(&self) -> (r: &Vec<(String, StoredKeypair)>)
        ensures
            r@ == self.keys@,
    {
        &self.keys
    }

    /// Store an address under an alias. Refused when the alias is taken;
    /// whoever drives the wallet decides about replacement. Nothing else in
    /// the store moves.
    pub fn insert_address(&mut self, alias: String, address: Address) -> (r: bool)
        ensures
            r == (address_in(old(self).addresses@, alias@) is None),
            r ==> final(self).addresses@ == old(self).addresses@.push((alias, address)),
            r ==> address_in(final(self).addresses@, alias@) == Some(address),
            final(self).keys@ == old(self).keys@,
            final(self).pkhs@ == old(self).pkhs@,
            forall|a: Seq<char>|
                a != alias@ ==> address_in(final(self).addresses@, a) == address_in(
                    old(self).addresses@,
                    a,
                ),
            !r ==> *final(self) == *old(self),
    {
        match self.find_address(&alias) {
            Some(_) => false,
            None => {
                let ghost prev = self.addresses@;
                self.addresses.push((alias, address));
                proof {
                    assert(self.addresses@.drop_last() =~= prev);
                }
                true
            },
        }
    }

    /// Store a keypair under an alias, registering its public key hash.
    /// Refused when the alias is taken. The address book and every other
    /// entry stay as they were.
    pub fn insert_keypair(&mut self, alias: String, keypair: StoredKeypair, pkh: Vec<u8>) -> (r:
        bool)
        ensures
            r == (key_in(old(self).keys@, alias@) is None),
            r ==> key_in(final(self).keys@, alias@) == Some(keypair) && (alias_in(
                final(self).pkhs@,
                pkh@,
            ) matches Some(x) && x@ == alias@),
            r ==> final(self).keys@ == old(self).keys@.push((alias, keypair)),
            final(self).addresses@ == old(self).addresses@,
            forall|a: Seq<char>|
                a != alias@ ==> key_in(final(self).keys@, a) == key_in(old(self).keys@, a),
            forall|h: Seq<u8>|
                h != pkh@ ==> alias_in(final(self).pkhs@, h) == alias_in(old(self).pkhs@, h),
            !r ==> *final(self) == *old(self),
    {
        match self.find_key_by_alias(&alias) {
            Some(_) => false,
            None => {
                let alias2 = alias.clone();
                let ghost prev_keys = self.keys@;
                let ghost prev_pkhs = self.pkhs@;
                self.keys.push((alias, keypair));
                self.pkhs.push((pkh, alias2));
                proof {
                    assert(self.keys@.drop_last() =~= prev_keys);
                    assert(self.pkhs@.drop_last() =~= prev_pkhs);
                }
                true
            },
        }
    }

    /// Generate a new keypair and store it under the given alias, or under
    /// the hex of its public key hash when none is given. The key, its hash
    /// and the implicit address it derives are all registered; nothing is
    /// stored when either alias is taken. Encrypting the stored key under a
    /// password happens outside the library.
    pub fn gen_key(&mut self, alias: Option<String>) -> (r: Option<(String, SecretKey)>)
        ensures
            r is None ==> *final(self) == *old(self),
            (alias matches Some(x) && key_in(old(self).keys@, x@) is None && address_in(
                old(self).addresses@,
                x@,
            ) is None) ==> r is Some,
            r matches Some(p) ==> {
                &&& alias matches Some(x) ==> p.0@ == x@
                &&& key_in(final(self).keys@, p.0@) matches Some(k) && (k matches
                    StoredKeypair::Raw(stored) && stored.seed() == p.1.seed())
                &&& alias_in(final(self).pkhs@, sha256_of(p.1.public_view())) matches Some(x)
                    && x@ == p.0@
                &&& address_in(final(self).addresses@, p.0@) matches Some(ad) && ad@
                    == crate::address::AddressV::Implicit(sha256_of(p.1.public_view()))
            },
    {
        let seed = random_seed();
        let sk = SecretKey::Ed25519(seed);
        let pk = sk.ref_to();
        let pkh = public_key_hash(&pk);
        let alias = match alias {
            Some(a) => a,
            None => hex_encode(&pkh),
        };
        let taken = match self.find_key_by_alias(&alias) {
            Some(_) => true,
            None => match self.find_address(&alias) {
                Some(_) => true,
                None => false,
            },
        };
        if taken {
            return None;
        }
        let alias2 = alias.clone();
        let alias3 = alias.clone();
        let sk2 = match &sk {
            SecretKey::Ed25519(s) => SecretKey::Ed25519(crate::crypto::clone_bytes(s)),
        };
        let address = Address::Implicit(crate::crypto::clone_bytes(&pkh));
        let inserted_key = self.insert_keypair(alias, StoredKeypair::Raw(sk), pkh);
        let inserted_address = self.insert_address(alias3, address);
        proof {
            assert(inserted_key && inserted_address);
        }
        Some((alias2, sk2))
    }
}

/// The path of the wallet store under a base directory.
pub fn wallet_file(base_dir: &str) -> (r: String)
    ensures
        r@ == base_dir@ + "/"@ + "wallet.toml"@,
{
    crate::config::join_path(base_dir, "wallet.toml")
}

} // verus!
