//! Node configuration: the ledger, RPC and intent-gossip sections with
//! their enumerated defaults. Reading and writing the configuration file,
//! and everything that touches the network stack, live outside the library.

use vstd::prelude::*;
use vstd::string::StringExecFns;

verus! {

/// A socket address: four octets and a port.
#[derive(Clone, Copy, PartialEq, Eq, Structural, Debug)]
pub struct SockAddr {
    pub a: u8,
    pub b: u8,
    pub c: u8,
    pub d: u8,
    pub port: u16,
}

/// The ledger section of the configuration.
pub struct Ledger {
    pub tendermint: String,
    pub db: String,
    pub address: SockAddr,
    pub network: String,
}

/// The RPC server section.
pub struct RpcServer {
    pub address: SockAddr,
}

/// A peer of the intent gossip overlay: its multiaddress and peer id.
pub struct PeerAddress {
    pub address: String,
    pub peer_id: Vec<u8>,
}

/// How the gossip node discovers peers.
pub struct DiscoverPeer {
    pub max_discovery_peers: u64,
    pub kademlia: bool,
    pub mdns: bool,
    pub bootstrap_peers: Vec<PeerAddress>,
}

/// The topic filter of an intent subscription.
pub enum SubscriptionFilter {
    /// Topics matching a regular expression.
    RegexFilter(String),
    /// An explicit list of topics.
    WhitelistFilter(Vec<String>),
}

/// The matchmaker section.
pub struct Matchmaker {
    pub matchmaker: String,
    pub tx_code: String,
    pub ledger_address: String,
    pub filter: Option<String>,
}

/// The intent gossiper section.
pub struct IntentGossiper {
    pub address: String,
    pub topics: Vec<String>,
    pub subscription_filter: SubscriptionFilter,
    pub rpc: Option<RpcServer>,
    pub gossiper: Vec<u8>,
    pub discover_peer: Option<DiscoverPeer>,
    pub matchmaker: Option<Matchmaker>,
}

/// The whole configuration document.
pub struct Config {
    pub ledger: Option<Ledger>,
    pub intent_gossiper: Option<IntentGossiper>,
}

/// An error raised while decoding a configuration value.
pub enum SerdeError {
    /// A bootstrap peer is not of the form the overlay accepts.
    BadBootstrapPeerFormat(String),
    /// Any other decoding failure.
    Message(String),
}

impl SerdeError {
    /// The offending input or message.
    pub fn message(&self) -> (r: &String)
        ensures
            match self {
                SerdeError::BadBootstrapPeerFormat(m) => r@ == m@,
                SerdeError::Message(m) => r@ == m@,
            },
    {
        match self {
            SerdeError::BadBootstrapPeerFormat(m) => m,
            SerdeError::Message(m) => m,
        }
    }
}

/// Join a base directory and a file name with a separator.
pub fn join_path(base: &str, name: &str) -> (r: String)
    ensures
        r@ == base@ + "/"@ + name@,
{
    let mut s = base.to_owned();
    s.append("/");
    s.append(name);
    s
}

impl Ledger {
    /// The default ledger section.
    pub fn default_ledger() -> (r: Ledger)
        ensures
            r.tendermint@ == ".ledger/tendermint"@,
            r.db@ == ".ledger/db/devchain-00000"@,
            r.address == (SockAddr { a: 0, b: 0, c: 0, d: 0, port: 26658 }),
            r.network@ == "mainnet"@,
    {
        Ledger {
            tendermint: ".ledger/tendermint".to_owned(),
            db: ".ledger/db/devchain-00000".to_owned(),
            address: SockAddr { a: 0, b: 0, c: 0, d: 0, port: 26658 },
            network: "mainnet".to_owned(),
        }
    }
}

impl RpcServer {
    /// The default RPC section.
    pub fn default_rpc() -> (r: RpcServer)
        ensures
            r.address == (SockAddr { a: 127, b: 0, c: 0, d: 1, port: 39111 }),
    {
        RpcServer { address: SockAddr { a: 127, b: 0, c: 0, d: 1, port: 39111 } }
    }
}

impl DiscoverPeer {
    /// The default discovery section.
    pub fn default_discover() -> (r: DiscoverPeer)
        ensures
            r.max_discovery_peers == 16,
            r.kademlia,
            r.mdns,
            r.bootstrap_peers@.len() == 0,
    {
        DiscoverPeer {
            max_discovery_peers: 16,
            kademlia: true,
            mdns: true,
            bootstrap_peers: Vec::new(),
        }
    }
}

impl IntentGossiper {
    /// The default gossiper section.
    pub fn default_gossiper() -> (r: IntentGossiper)
        ensures
            r.address@ == "/ip4/0.0.0.0/tcp/20201"@,
            r.rpc is None,
            r.matchmaker is None,
            r.discover_peer is Some,
    {
        let mut topics: Vec<String> = Vec::new();
        topics.push("asset_v0".to_owned());
        IntentGossiper {
            address: "/ip4/0.0.0.0/tcp/20201".to_owned(),
            topics,
            subscription_filter: SubscriptionFilter::RegexFilter("asset_v\\d{1,2}".to_owned()),
            rpc: None,
            gossiper: Vec::new(),
            discover_peer: Some(DiscoverPeer::default_discover()),
            matchmaker: None,
        }
    }

    /// The default gossiper at a given multiaddress, with the given
    /// bootstrap peers and discovery switches.
    pub fn default_with_address(
        address: String,
        peers: Vec<PeerAddress>,
        mdns: bool,
        kademlia: bool,
    ) -> (r: IntentGossiper)
        ensures
            r.address@ == address@,
            r.discover_peer matches Some(d) && d.mdns == mdns && d.kademlia == kademlia
                && d.bootstrap_peers@ == peers@,
    {
        let mut gossiper = IntentGossiper::default_gossiper();
        let mut discover = DiscoverPeer::default_discover();
        discover.bootstrap_peers = peers;
        discover.mdns = mdns;
        discover.kademlia = kademlia;
        gossiper.address = address;
        gossiper.discover_peer = Some(discover);
        gossiper
    }
}

impl Config {
    /// The default configuration.
    pub fn default_config() -> (r: Config)
        ensures
            r.ledger is Some,
            r.intent_gossiper is Some,
    {
        Config {
            ledger: Some(Ledger::default_ledger()),
            intent_gossiper: Some(IntentGossiper::default_gossiper()),
        }
    }

    /// The default configuration rooted at a base directory: the database
    /// and consensus directories move under it.
    pub fn generate(base_dir: &str) -> (r: Config)
        ensures
            r.ledger matches Some(l) && l.db@ == base_dir@ + "/"@ + "db/devchain-00000"@
                && l.tendermint@ == base_dir@ + "/"@ + "tendermint"@,
    {
        let mut config = Config::default_config();
        let ledger = Ledger {
            tendermint: join_path(base_dir, "tendermint"),
            db: join_path(base_dir, "db/devchain-00000"),
            address: SockAddr { a: 0, b: 0, c: 0, d: 0, port: 26658 },
            network: "mainnet".to_owned(),
        };
        config.ledger = Some(ledger);
        config
    }
}

/// The directories a node reset must clear: the database and the consensus
/// engine's home. Removing them is I/O and happens outside the library.
pub fn reset(config: &Ledger) -> (r: Vec<String>)
    ensures
        r@.len() == 2,
        r@[0]@ == config.db@,
        r@[1]@ == config.tendermint@,
{
    let mut dirs: Vec<String> = Vec::new();
    dirs.push(config.db.clone());
    dirs.push(config.tendermint.clone());
    dirs
}

} // verus!
