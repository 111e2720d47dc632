//! The configuration of a node: the server itself, its peers, its logs, an optional peer
//! to join through, and the credentials of its clients.
use vstd::prelude::*;

verus! {

/// The configuration of a node.
#[derive(Debug, Clone)]
pub struct Config {
    pub server: ServerConfig,
    pub peers: Vec<PeerConfig>,
    pub logs: Vec<LogConfig>,
    pub dynamic_peer: Option<DynamicPeer>,
    pub security: SecurityConfig,
}

/// The node's own settings.
#[derive(Debug, Clone)]
pub struct ServerConfig {
    pub node_id: u64,
    pub node_address: String,
    pub community_string: String,
    pub binding_addr: String,
}

/// A peer to ask for admission when no peers are configured.
#[derive(Debug, Clone)]
pub struct DynamicPeer {
    pub node_id: u64,
    pub node_address: String,
}

/// A peer of the node.
#[derive(Debug, Clone)]
pub struct PeerConfig {
    pub node_id: u64,
    pub node_address: String,
}

/// A log that the node keeps: the directory it is stored in and its identifier as text.
#[derive(Debug, Clone)]
pub struct LogConfig {
    pub path: String,
    pub lid: String,
}

/// The credentials of the node's clients.
#[derive(Debug, Clone)]
pub struct SecurityConfig {
    pub username: String,
    pub password: String,
}

/// The 128-bit value of the UUID that the text `s` spells, if it spells one.
pub uninterp spec fn uuid_parsed(s: Seq<char>) -> Option<u128>;

/// Relies on uuid::Uuid::parse_str: the UUID that the text spells in one of the forms
/// that uuid accepts, or an error.
#[verifier::external_body]
fn parse_uuid(s: &str) -> (r: Option<u128>)
    ensures
        r == uuid_parsed(s@),
{
    match uuid::Uuid::parse_str(s) {
        Ok(u) => Some(u.as_u128()),
        Err(_) => None,
    }
}

impl Config {
    /// The identifiers of the peers, in the order of the configuration.
    pub fn get_peers_id(&self) -> (r: Vec<u64>)
        ensures
            r@ == self.peers@.map_values(|p: PeerConfig| p.node_id),
    {
        let mut out: Vec<u64> = Vec::new();
        let len = self.peers.len();
        let mut i: usize = 0;
        while i < len
            invariant
                len == self.peers@.len(),
                0 <= i <= len,
                out@ == self.peers@.subrange(0, i as int).map_values(|p: PeerConfig| p.node_id),
            decreases len - i,
        {
            out.push(self.peers[i].node_id);
            assert(out@ =~= self.peers@.subrange(0, i + 1).map_values(|p: PeerConfig| p.node_id));
            i = i + 1;
        }
        assert(self.peers@.subrange(0, len as int) =~= self.peers@);
        out
    }
}

impl LogConfig {
    /// The identifier of the log, if its text spells a UUID.
    pub fn get_log_id(&self) -> (r: Option<u128>)
        ensures
            r == uuid_parsed(self.lid@),
    {
        parse_uuid(self.lid.as_str())
    }
}

} // verus!
