use vstd::prelude::*;

use crate::error::CompactFiltersError;

verus! {

#[verifier::external_type_specification]
#[verifier::external_body]
pub struct ExNetwork(bitcoin::Network);

/// What a blockchain backend can do for a wallet.
#[derive(Debug, Clone, Copy, PartialEq, Eq, Structural, Hash)]
pub enum Capability {
    /// Can recover the full history of a wallet and not only the set of currently spendable UTXOs
    FullHistory,
    /// Can fetch any historical transaction
    GetAnyTx,
    /// Can compute accurate fees for the transactions found during sync
    AccurateFees,
}

/// Data to connect to a Bitcoin P2P peer
#[derive(Debug, Clone)]
pub struct BitcoinPeerConfig {
    /// Peer address such as 127.0.0.1:18333
    pub address: String,
    /// Optional socks5 proxy
    pub socks5: Option<String>,
    /// Optional socks5 proxy credentials
    pub socks5_credentials: Option<(String, String)>,
}

/// Configuration for a [`CompactFiltersBlockchain`]
#[derive(Debug)]
pub struct CompactFiltersBlockchainConfig {
    /// List of peers to try to connect to for asking headers and filters
    pub peers: Vec<BitcoinPeerConfig>,
    /// Network used
    pub network: bitcoin::Network,
    /// Storage dir to save partially downloaded headers and full blocks
    pub storage_dir: String,
    /// Optionally skip initial `skip_blocks` blocks (default: 0)
    pub skip_blocks: Option<usize>,
}

/// A compact filters backend: the connections to its peers, the store of
/// headers and filters, and the height below which no filter is scanned.
/// The first peer is the designated one, asked for headers and mempool.
#[derive(Debug)]
pub struct CompactFiltersBlockchain<P, S> {
    peers: Vec<P>,
    headers: S,
    skip_blocks: Option<usize>,
}

impl<P, S> CompactFiltersBlockchain<P, S> {
    /// The peers, the first one designated.
    pub closed spec fn spec_peers(&self) -> Seq<P> {
        self.peers@
    }

    /// The store of headers and filters.
    pub closed spec fn spec_headers(&self) -> S {
        self.headers
    }

    /// The height below which no filter is scanned, where one was given.
    pub closed spec fn spec_skip_blocks(&self) -> Option<usize> {
        self.skip_blocks
    }

    /// A backend always has a designated peer.
    pub open spec fn wf(&self) -> bool {
        self.spec_peers().len() > 0
    }

    /// Builds a backend over its peers and store; there must be at least
    /// one peer.
    pub fn new(peers: Vec<P>, headers: S, skip_blocks: Option<usize>) -> (r: Result<
        Self,
        CompactFiltersError,
    >)
        ensures
            peers@.len() == 0 <==> (r matches Err(CompactFiltersError::NoPeers)),
            r is Err ==> (r matches Err(CompactFiltersError::NoPeers)),
            r matches Ok(b) ==> {
                &&& b.wf()
                &&& b.spec_peers() == peers@
                &&& b.spec_headers() == headers
                &&& b.spec_skip_blocks() == skip_blocks
            },
    {
        if peers.len() == 0 {
            return Err(CompactFiltersError::NoPeers);
        }
        Ok(CompactFiltersBlockchain { peers, headers, skip_blocks })
    }

    /// What this backend can do: recover a wallet's full history.
    pub fn get_capabilities(&self) -> (r: Vec<Capability>)
        ensures
            r@ == seq![Capability::FullHistory],
    {
        vec![Capability::FullHistory]
    }

    /// The peers, the first one designated.
    pub fn peers(&self) -> (r: &Vec<P>)
        ensures
            r@ == self.spec_peers(),
    {
        &self.peers
    }

    /// The designated peer, which serves headers, mempool and broadcasts.
    pub fn first_peer(&self) -> (r: &P)
        requires
            self.wf(),
        ensures
            *r == self.spec_peers()[0],
    {
        &self.peers[0]
    }

    /// The store of headers and filters.
    pub fn headers(&self) -> (r: &S)
        ensures
            *r == self.spec_headers(),
    {
        &self.headers
    }

    /// The height below which no filter is scanned; zero where none was given.
    pub fn skip_blocks(&self) -> (r: usize)
        ensures
            r == match self.spec_skip_blocks() {
                Some(s) => s,
                None => 0,
            },
    {
        match self.skip_blocks {
            Some(s) => s,
            None => 0,
        }
    }
}

/// The bytes of `_headers:`, the prefix that names a header snapshot in storage.
pub open spec fn snapshot_prefix() -> Seq<u8> {
    seq![95u8, 104u8, 101u8, 97u8, 100u8, 101u8, 114u8, 115u8, 58u8]
}

/// Whether a storage partition name is that of a header snapshot.
pub open spec fn is_snapshot_name_spec(name: Seq<u8>) -> bool {
    name.len() >= snapshot_prefix().len() && name.subrange(0, snapshot_prefix().len() as int)
        == snapshot_prefix()
}

/// Whether a storage partition name is that of a header snapshot, left by
/// an interrupted header sync.
pub fn is_snapshot_name(name: &[u8]) -> (r: bool)
    ensures
        r == is_snapshot_name_spec(name@),
{
    let prefix: Vec<u8> = vec![95u8, 104u8, 101u8, 97u8, 100u8, 101u8, 114u8, 115u8, 58u8];
    assert(prefix@ =~= snapshot_prefix());
    let bytes = name;
    if bytes.len() < prefix.len() {
        return false;
    }
    let mut i: usize = 0;
    while i < prefix.len()
        invariant
            prefix@ == snapshot_prefix(),
            bytes@ == name@,
            bytes@.len() >= prefix@.len(),
            i <= prefix@.len(),
            forall|k: int| 0 <= k < i ==> bytes@[k] == prefix@[k],
        decreases prefix@.len() - i,
    {
        if bytes[i] != prefix[i] {
            assert(bytes@.subrange(0, prefix@.len() as int)[i as int] != prefix@[i as int]);
            return false;
        }
        i = i + 1;
    }
    assert(bytes@.subrange(0, prefix@.len() as int) =~= prefix@);
    true
}

/// Indices, ascending, of the first `n` names that are header snapshots.
pub open spec fn snapshot_names(names: Seq<Vec<u8>>, n: int) -> Seq<usize>
    decreases n,
{
    if n <= 0 {
        seq![]
    } else {
        snapshot_names(names, n - 1) + if is_snapshot_name_spec(names[n - 1]@) {
            seq![(n - 1) as usize]
        } else {
            seq![]
        }
    }
}

/// Selects, by index, the storage partitions that hold header snapshots to
/// recover at startup.
pub fn snapshots_to_recover(names: &Vec<Vec<u8>>) -> (r: Vec<usize>)
    ensures
        r@ == snapshot_names(names@, names@.len() as int),
{
    let mut r: Vec<usize> = Vec::new();
    let mut i: usize = 0;
    while i < names.len()
        invariant
            i <= names@.len(),
            r@ == snapshot_names(names@, i as int),
        decreases names@.len() - i,
    {
        if is_snapshot_name(names[i].as_slice()) {
            r.push(i);
        }
        i = i + 1;
    }
    r
}

} // verus!
