//! Where the application keeps its data, and the small records kept there:
//! discovered peers, pending pairing requests, cached peer descriptors,
//! diagnostic metrics and the tail of the log.

use vstd::prelude::*;
use crate::primitives::{joined_path, join_path, main_separator};

verus! {

pub const QUALIFIER: &'static str = "org";

pub const ORGANIZATION: &'static str = "Deskflow";

pub const APPLICATION: &'static str = "Deskflow-Plus";

pub const CONFIG_FILE_NAME: &'static str = "config.json";

pub const LOG_FILE_NAME: &'static str = "core-service.log";

pub const DIAGNOSTIC_FILE_NAME: &'static str = "diagnostic.json";

pub const DEVICE_IDENTITY_FILE_NAME: &'static str = "device-identity.json";

pub const DEVICE_CERTIFICATE_FILE_NAME: &'static str = "device-certificate.json";

pub const TRUST_STORE_FILE_NAME: &'static str = "trust-store.json";

pub const TOPOLOGY_FILE_NAME: &'static str = "topology.json";

pub const DISCOVERY_FILE_NAME: &'static str = "discovery.json";

pub const PAIRING_REQUESTS_FILE_NAME: &'static str = "pairing-requests.json";

pub const TRANSFERS_DIR_NAME: &'static str = "transfers";

pub const DATA_ROOT_ENV_VAR: &'static str = "DESKFLOW_PLUS_DATA_ROOT";

/// The role an application takes unless configured otherwise.
pub fn default_app_role() -> (role: String)
    ensures
        role@ == "controller"@,
{
    String::from_str("controller")
}

#[derive(Clone, Debug, PartialEq, Eq)]
pub struct DiagnosticSnapshot {
    pub config_path: String,
    pub log_path: String,
    pub log_level: String,
    pub auto_discovery_enabled: bool,
    pub clipboard_enabled: bool,
}

#[derive(Clone, Debug, PartialEq, Eq)]
pub struct DiscoveryPeer {
    pub device_id: String,
    pub display_name: String,
    pub platform: String,
    pub address: String,
    pub port: u16,
    pub fingerprint_sha256: String,
    pub certificate_pem: String,
    pub discovered_at_unix_ms: u128,
}

#[derive(Clone, Debug, PartialEq, Eq)]
pub struct PendingPairingRequest {
    pub device_id: String,
    pub display_name: String,
    pub platform: String,
    pub address: String,
    pub port: u16,
    pub fingerprint_sha256: String,
    pub certificate_pem: String,
    pub pairing_code: String,
    pub received_at_unix_ms: u128,
}

/// A peer descriptor remembered after pairing, to reconnect to later.
#[derive(Clone, Debug, PartialEq, Eq)]
pub struct CachedPeerDescriptor {
    pub device_id: String,
    pub display_name: String,
    pub platform: String,
    pub address: String,
    pub port: u16,
    pub fingerprint_sha256: String,
    pub certificate_pem: String,
    pub updated_at_unix_ms: u128,
}

#[derive(Clone, Debug, PartialEq, Eq)]
pub struct DiagnosticMetric {
    pub name: String,
    pub value: String,
    pub status: String,
}

/// The data directory of the application and the layout below it, with
/// the separator its paths are joined with.
#[derive(Clone, Debug)]
pub struct AppPaths {
    root: String,
    separator: char,
}

impl View for AppPaths {
    type V = (Seq<char>, char);

    closed spec fn view(&self) -> (Seq<char>, char) {
        (self.root@, self.separator)
    }
}

/// The directory `dir` below the data directory of `paths`.
pub open spec fn dir_below(paths: (Seq<char>, char), dir: Seq<char>) -> Seq<char> {
    joined_path(paths.0, dir, paths.1)
}

/// The file `file` in the directory `dir` below the data directory of
/// `paths`.
pub open spec fn file_below(paths: (Seq<char>, char), dir: Seq<char>, file: Seq<char>) -> Seq<char> {
    joined_path(dir_below(paths, dir), file, paths.1)
}

impl AppPaths {
    /// The layout below `root`, joined with the platform's separator.
    pub fn from_root(root: &str) -> (paths: Self)
        ensures
            paths@.0 == root@,
            paths@.1 == '/' || paths@.1 == '\\',
    {
        AppPaths { root: root.to_owned(), separator: main_separator() }
    }

    pub fn root(&self) -> (root: &str)
        ensures
            root@ == self@.0,
    {
        self.root.as_str()
    }

    fn dir(&self, name: &str) -> (path: String)
        requires
            crate::primitives::is_plain_name(name@),
        ensures
            path@ == dir_below(self@, name@),
    {
        join_path(self.root.as_str(), name, self.separator)
    }

    fn file(&self, dir: &str, name: &str) -> (path: String)
        requires
            crate::primitives::is_plain_name(dir@),
            crate::primitives::is_plain_name(name@),
        ensures
            path@ == file_below(self@, dir@, name@),
    {
        let d = self.dir(dir);
        join_path(d.as_str(), name, self.separator)
    }

    pub fn config_dir(&self) -> (path: String)
        ensures
            path@ == dir_below(self@, "config"@),
    {
        proof {
            reveal_strlit("config");
        }
        self.dir("config")
    }

    pub fn logs_dir(&self) -> (path: String)
        ensures
            path@ == dir_below(self@, "logs"@),
    {
        proof {
            reveal_strlit("logs");
        }
        self.dir("logs")
    }

    pub fn diagnostic_dir(&self) -> (path: String)
        ensures
            path@ == dir_below(self@, "diagnostic"@),
    {
        proof {
            reveal_strlit("diagnostic");
        }
        self.dir("diagnostic")
    }

    pub fn security_dir(&self) -> (path: String)
        ensures
            path@ == dir_below(self@, "security"@),
    {
        proof {
            reveal_strlit("security");
        }
        self.dir("security")
    }

    pub fn topology_dir(&self) -> (path: String)
        ensures
            path@ == dir_below(self@, "topology"@),
    {
        proof {
            reveal_strlit("topology");
        }
        self.dir("topology")
    }

    pub fn discovery_dir(&self) -> (path: String)
        ensures
            path@ == dir_below(self@, "discovery"@),
    {
        proof {
            reveal_strlit("discovery");
        }
        self.dir("discovery")
    }

    pub fn transfers_dir(&self) -> (path: String)
        ensures
            path@ == dir_below(self@, TRANSFERS_DIR_NAME@),
    {
        proof {
            reveal_strlit("transfers");
        }
        self.dir(TRANSFERS_DIR_NAME)
    }

    pub fn config_file(&self) -> (path: String)
        ensures
            path@ == file_below(self@, "config"@, CONFIG_FILE_NAME@),
    {
        proof {
            reveal_strlit("config");
            reveal_strlit("config.json");
        }
        self.file("config", CONFIG_FILE_NAME)
    }

    pub fn log_file(&self) -> (path: String)
        ensures
            path@ == file_below(self@, "logs"@, LOG_FILE_NAME@),
    {
        proof {
            reveal_strlit("logs");
            reveal_strlit("core-service.log");
        }
        self.file("logs", LOG_FILE_NAME)
    }

    pub fn diagnostic_file(&self) -> (path: String)
        ensures
            path@ == file_below(self@, "diagnostic"@, DIAGNOSTIC_FILE_NAME@),
    {
        proof {
            reveal_strlit("diagnostic");
            reveal_strlit("diagnostic.json");
        }
        self.file("diagnostic", DIAGNOSTIC_FILE_NAME)
    }

    pub fn device_identity_file(&self) -> (path: String)
        ensures
            path@ == file_below(self@, "security"@, DEVICE_IDENTITY_FILE_NAME@),
    {
        proof {
            reveal_strlit("security");
            reveal_strlit("device-identity.json");
        }
        self.file("security", DEVICE_IDENTITY_FILE_NAME)
    }

    pub fn device_certificate_file(&self) -> (path: String)
        ensures
            path@ == file_below(self@, "security"@, DEVICE_CERTIFICATE_FILE_NAME@),
    {
        proof {
            reveal_strlit("security");
            reveal_strlit("device-certificate.json");
        }
        self.file("security", DEVICE_CERTIFICATE_FILE_NAME)
    }

    pub fn trust_store_file(&self) -> (path: String)
        ensures
            path@ == file_below(self@, "security"@, TRUST_STORE_FILE_NAME@),
    {
        proof {
            reveal_strlit("security");
            reveal_strlit("trust-store.json");
        }
        self.file("security", TRUST_STORE_FILE_NAME)
    }

    pub fn topology_file(&self) -> (path: String)
        ensures
            path@ == file_below(self@, "topology"@, TOPOLOGY_FILE_NAME@),
    {
        proof {
            reveal_strlit("topology");
            reveal_strlit("topology.json");
        }
        self.file("topology", TOPOLOGY_FILE_NAME)
    }

    pub fn discovery_file(&self) -> (path: String)
        ensures
            path@ == file_below(self@, "discovery"@, DISCOVERY_FILE_NAME@),
    {
        proof {
            reveal_strlit("discovery");
            reveal_strlit("discovery.json");
        }
        self.file("discovery", DISCOVERY_FILE_NAME)
    }

    pub fn pairing_requests_file(&self) -> (path: String)
        ensures
            path@ == file_below(self@, "discovery"@, PAIRING_REQUESTS_FILE_NAME@),
    {
        proof {
            reveal_strlit("discovery");
            reveal_strlit("pairing-requests.json");
        }
        self.file("discovery", PAIRING_REQUESTS_FILE_NAME)
    }
}

/// The diagnostic snapshot of a configuration kept under `paths`.
pub fn diagnostic_snapshot(
    paths: &AppPaths,
    log_level: &str,
    auto_discovery_enabled: bool,
    clipboard_enabled: bool,
) -> (snapshot: DiagnosticSnapshot)
    ensures
        snapshot.config_path@ == file_below(paths@, "config"@, CONFIG_FILE_NAME@),
        snapshot.log_path@ == file_below(paths@, "logs"@, LOG_FILE_NAME@),
        snapshot.log_level@ == log_level@,
        snapshot.auto_discovery_enabled == auto_discovery_enabled,
        snapshot.clipboard_enabled == clipboard_enabled,
{
    DiagnosticSnapshot {
        config_path: paths.config_file(),
        log_path: paths.log_file(),
        log_level: log_level.to_owned(),
        auto_discovery_enabled,
        clipboard_enabled,
    }
}

/// The last `limit` lines of a log, in order (none for a limit of zero).
pub open spec fn recent_lines(lines: Seq<String>, limit: nat) -> Seq<String> {
    if lines.len() <= limit {
        lines
    } else {
        lines.skip(lines.len() - limit)
    }
}

/// Keeps the last `limit` lines of a log.
pub fn recent_log_lines(lines: Vec<String>, limit: usize) -> (recent: Vec<String>)
    ensures
        recent@ == recent_lines(lines@, limit as nat),
{
    let n = lines.len();
    if n <= limit {
        return lines;
    }
    let mut lines = lines;
    let recent = lines.split_off(n - limit);
    recent
}

/// The pending requests once a new one is recorded: any earlier request of
/// the same device is dropped and the new one comes last.
pub open spec fn without_device_requests(requests: Seq<PendingPairingRequest>, device_id: Seq<char>) -> Seq<
    PendingPairingRequest,
>
    decreases requests.len(),
{
    if requests.len() == 0 {
        requests
    } else {
        let rest = without_device_requests(requests.drop_last(), device_id);
        if requests.last().device_id@ == device_id {
            rest
        } else {
            rest.push(requests.last())
        }
    }
}

pub fn record_pairing_request(requests: Vec<PendingPairingRequest>, request: PendingPairingRequest) -> (r:
    Vec<PendingPairingRequest>)
    ensures
        r@ == without_device_requests(requests@, request.device_id@).push(request),
{
    let mut kept: Vec<PendingPairingRequest> = Vec::new();
    let mut requests = requests;
    let ghost all = requests@;
    let mut i: usize = 0;
    let n = requests.len();
    let mut rest = requests.split_off(0);
    assert(rest@ == all);
    while i < n
        invariant
            n == all.len(),
            i <= n,
            rest@ == all.skip(i as int),
            kept@ == without_device_requests(all.take(i as int), request.device_id@),
        decreases n - i,
    {
        let item = rest.remove(0);
        assert(all.take(i as int + 1).drop_last() =~= all.take(i as int));
        assert(all.take(i as int + 1).last() == all[i as int]);
        assert(rest@ =~= all.skip(i as int + 1));
        if item.device_id != request.device_id {
            kept.push(item);
        }
        i += 1;
    }
    assert(all.take(n as int) =~= all);
    kept.push(request);
    kept
}

/// Position of the first peer with this identifier.
pub open spec fn peer_index(peers: Seq<DiscoveryPeer>, device_id: Seq<char>) -> Option<int>
    decreases peers.len(),
{
    if peers.len() == 0 {
        None
    } else if peers[0].device_id@ == device_id {
        Some(0)
    } else {
        match peer_index(peers.drop_first(), device_id) {
            Some(i) => Some(i + 1),
            None => None,
        }
    }
}

proof fn lemma_peer_index(peers: Seq<DiscoveryPeer>, device_id: Seq<char>)
    ensures
        match peer_index(peers, device_id) {
            Some(i) => 0 <= i < peers.len() && peers[i].device_id@ == device_id && forall|j: int|
                0 <= j < i ==> (#[trigger] peers[j]).device_id@ != device_id,
            None => forall|j: int| 0 <= j < peers.len() ==> (#[trigger] peers[j]).device_id@ != device_id,
        },
    decreases peers.len(),
{
    if peers.len() > 0 && peers[0].device_id@ != device_id {
        let rest = peers.drop_first();
        lemma_peer_index(rest, device_id);
        assert forall|j: int| 0 < j < peers.len() implies peers[j] == rest[j - 1] by {}
    }
}

proof fn lemma_peer_index_at(peers: Seq<DiscoveryPeer>, device_id: Seq<char>, i: int)
    requires
        0 <= i < peers.len(),
        peers[i].device_id@ == device_id,
        forall|j: int| 0 <= j < i ==> (#[trigger] peers[j]).device_id@ != device_id,
    ensures
        peer_index(peers, device_id) == Some(i),
{
    lemma_peer_index(peers, device_id);
    match peer_index(peers, device_id) {
        Some(k) => {
            if k < i {
                assert(peers[k].device_id@ != device_id);
            } else if k > i {
                assert(peers[i].device_id@ != device_id);
            }
        },
        None => {
            assert(peers[i].device_id@ != device_id);
        },
    }
}

fn find_peer(peers: &Vec<DiscoveryPeer>, device_id: &String) -> (r: Option<usize>)
    ensures
        match r {
            Some(i) => i < peers@.len() && peer_index(peers@, device_id@) == Some(i as int),
            None => peer_index(peers@, device_id@) is None,
        },
{
    proof {
        lemma_peer_index(peers@, device_id@);
    }
    let mut i: usize = 0;
    while i < peers.len()
        invariant
            i <= peers@.len(),
            forall|j: int| 0 <= j < i ==> (#[trigger] peers@[j]).device_id@ != device_id@,
        decreases peers@.len() - i,
    {
        if peers[i].device_id == *device_id {
            proof {
                lemma_peer_index_at(peers@, device_id@, i as int);
            }
            return Some(i);
        }
        i += 1;
    }
    proof {
        if let Some(k) = peer_index(peers@, device_id@) {
            assert(peers@[k].device_id@ != device_id@);
        }
    }
    None
}

/// The peers once `peer` is recorded: it replaces the entry with its
/// identifier, or comes last.
pub open spec fn peers_with(peers: Seq<DiscoveryPeer>, peer: DiscoveryPeer) -> Seq<DiscoveryPeer> {
    match peer_index(peers, peer.device_id@) {
        Some(i) => peers.update(i, peer),
        None => peers.push(peer),
    }
}

/// The peers once the one with this identifier is withdrawn.
pub open spec fn peers_without(peers: Seq<DiscoveryPeer>, device_id: Seq<char>) -> Seq<DiscoveryPeer> {
    match peer_index(peers, device_id) {
        Some(i) => peers.remove(i),
        None => peers,
    }
}

/// No two peers share an identifier.
pub open spec fn unique_peers(peers: Seq<DiscoveryPeer>) -> bool {
    forall|i: int, j: int|
        0 <= i < peers.len() && 0 <= j < peers.len() && i != j ==> (#[trigger] peers[i]).device_id@
            != (#[trigger] peers[j]).device_id@
}

/// Records a discovered peer.
pub fn upsert_discovery_peer(peers: &mut Vec<DiscoveryPeer>, peer: DiscoveryPeer)
    ensures
        final(peers)@ == peers_with(old(peers)@, peer),
{
    match find_peer(peers, &peer.device_id) {
        Some(i) => {
            peers.set(i, peer);
        },
        None => {
            peers.push(peer);
        },
    }
}

/// Forgets the peer with this identifier, if any.
pub fn remove_discovery_peer(peers: &mut Vec<DiscoveryPeer>, device_id: &String)
    ensures
        final(peers)@ == peers_without(old(peers)@, device_id@),
{
    match find_peer(peers, device_id) {
        Some(i) => {
            peers.remove(i);
        },
        None => {},
    }
}

/// The peer was seen within `ttl_ms` of `now`.
pub open spec fn peer_is_fresh(peer: DiscoveryPeer, now: u128, ttl_ms: u128) -> bool {
    now - peer.discovered_at_unix_ms <= ttl_ms
}

/// The peers seen within `ttl_ms` of `now`, in order.
pub open spec fn fresh_peers(peers: Seq<DiscoveryPeer>, now: u128, ttl_ms: u128) -> Seq<DiscoveryPeer>
    decreases peers.len(),
{
    if peers.len() == 0 {
        peers
    } else {
        let rest = fresh_peers(peers.drop_last(), now, ttl_ms);
        if peer_is_fresh(peers.last(), now, ttl_ms) {
            rest.push(peers.last())
        } else {
            rest
        }
    }
}

/// Drops the peers not seen within `ttl_ms` of `now`.
pub fn prune_discovery_peers(peers: Vec<DiscoveryPeer>, now_unix_ms: u128, ttl_ms: u128) -> (kept: Vec<
    DiscoveryPeer,
>)
    ensures
        kept@ == fresh_peers(peers@, now_unix_ms, ttl_ms),
{
    let ghost all = peers@;
    let n = peers.len();
    let mut rest = peers;
    let mut kept: Vec<DiscoveryPeer> = Vec::new();
    let mut i: usize = 0;
    while i < n
        invariant
            n == all.len(),
            i <= n,
            rest@ == all.skip(i as int),
            kept@ == fresh_peers(all.take(i as int), now_unix_ms, ttl_ms),
        decreases n - i,
    {
        let peer = rest.remove(0);
        assert(all.take(i as int + 1).drop_last() =~= all.take(i as int));
        assert(all.take(i as int + 1).last() == all[i as int]);
        assert(rest@ =~= all.skip(i as int + 1));
        let age = now_unix_ms.saturating_sub(peer.discovered_at_unix_ms);
        if age <= ttl_ms {
            kept.push(peer);
        }
        i += 1;
    }
    assert(all.take(n as int) =~= all);
    kept
}

/// Position of the first cached descriptor with this identifier.
pub open spec fn cached_index(peers: Seq<CachedPeerDescriptor>, device_id: Seq<char>) -> Option<int>
    decreases peers.len(),
{
    if peers.len() == 0 {
        None
    } else if peers[0].device_id@ == device_id {
        Some(0)
    } else {
        match cached_index(peers.drop_first(), device_id) {
            Some(i) => Some(i + 1),
            None => None,
        }
    }
}

pub proof fn lemma_cached_index_of(peers: Seq<CachedPeerDescriptor>, device_id: Seq<char>)
    ensures
        match cached_index(peers, device_id) {
            Some(i) => 0 <= i < peers.len() && peers[i].device_id@ == device_id && forall|j: int|
                0 <= j < i ==> (#[trigger] peers[j]).device_id@ != device_id,
            None => forall|j: int| 0 <= j < peers.len() ==> (#[trigger] peers[j]).device_id@ != device_id,
        },
    decreases peers.len(),
{
    if peers.len() > 0 && peers[0].device_id@ != device_id {
        let rest = peers.drop_first();
        lemma_cached_index_of(rest, device_id);
        assert forall|j: int| 0 < j < peers.len() implies peers[j] == rest[j - 1] by {}
    }
}

/// Remembers a peer descriptor: it replaces the cached one with its
/// identifier, or comes last.
pub fn upsert_cached_peer_descriptor(peers: &mut Vec<CachedPeerDescriptor>, peer: CachedPeerDescriptor)
    ensures
        final(peers)@ == match cached_index(old(peers)@, peer.device_id@) {
            Some(i) => old(peers)@.update(i, peer),
            None => old(peers)@.push(peer),
        },
{
    proof {
        lemma_cached_index_of(peers@, peer.device_id@);
    }
    let mut i: usize = 0;
    while i < peers.len()
        invariant
            peers@ == old(peers)@,
            i <= peers@.len(),
            forall|j: int| 0 <= j < i ==> (#[trigger] peers@[j]).device_id@ != peer.device_id@,
            match cached_index(peers@, peer.device_id@) {
                Some(k) => 0 <= k < peers@.len() && peers@[k].device_id@ == peer.device_id@
                    && forall|j: int|
                    0 <= j < k ==> (#[trigger] peers@[j]).device_id@ != peer.device_id@,
                None => forall|j: int|
                    0 <= j < peers@.len() ==> (#[trigger] peers@[j]).device_id@ != peer.device_id@,
            },
        decreases peers@.len() - i,
    {
        if peers[i].device_id == peer.device_id {
            proof {
                if let Some(k) = cached_index(peers@, peer.device_id@) {
                    if k < i {
                        assert(peers@[k].device_id@ != peer.device_id@);
                    } else if k > i {
                        assert(peers@[i as int].device_id@ != peer.device_id@);
                    }
                } else {
                    assert(peers@[i as int].device_id@ != peer.device_id@);
                }
            }
            peers.set(i, peer);
            return;
        }
        i += 1;
    }
    proof {
        if let Some(k) = cached_index(peers@, peer.device_id@) {
            assert(peers@[k].device_id@ != peer.device_id@);
        }
    }
    peers.push(peer);
}

/// The cached descriptors without those of `device_id`, in order.
pub open spec fn cached_without(peers: Seq<CachedPeerDescriptor>, device_id: Seq<char>) -> Seq<
    CachedPeerDescriptor,
>
    decreases peers.len(),
{
    if peers.len() == 0 {
        peers
    } else {
        let rest = cached_without(peers.drop_last(), device_id);
        if peers.last().device_id@ == device_id {
            rest
        } else {
            rest.push(peers.last())
        }
    }
}

/// Forgets every cached descriptor of `device_id`.
pub fn remove_cached_peer_descriptor(peers: &mut Vec<CachedPeerDescriptor>, device_id: &String)
    ensures
        final(peers)@ == cached_without(old(peers)@, device_id@),
{
    let ghost all = peers@;
    let mut kept: Vec<CachedPeerDescriptor> = Vec::new();
    let n = peers.len();
    let mut i: usize = 0;
    while i < n
        invariant
            n == all.len(),
            i <= n,
            peers@ == all.skip(i as int),
            kept@ == cached_without(all.take(i as int), device_id@),
        decreases n - i,
    {
        let p = peers.remove(0);
        assert(all.take(i as int + 1).drop_last() =~= all.take(i as int));
        assert(all.take(i as int + 1).last() == p);
        assert(peers@ =~= all.skip(i as int + 1));
        if p.device_id != *device_id {
            kept.push(p);
        }
        i += 1;
    }
    assert(all.take(n as int) =~= all);
    *peers = kept;
}

/// Recording a peer keeps identifiers unique.
pub proof fn lemma_peers_with_keeps_unique(peers: Seq<DiscoveryPeer>, peer: DiscoveryPeer)
    requires
        unique_peers(peers),
    ensures
        unique_peers(peers_with(peers, peer)),
        peer_index(peers_with(peers, peer), peer.device_id@) is Some,
{
    lemma_peer_index(peers, peer.device_id@);
    let after = peers_with(peers, peer);
    match peer_index(peers, peer.device_id@) {
        Some(i) => {
            assert forall|a: int, b: int|
                0 <= a < after.len() && 0 <= b < after.len() && a != b implies (#[trigger] after[a]).device_id@
                != (#[trigger] after[b]).device_id@ by {
                if a == i {
                    assert(peers[b].device_id@ != peers[i].device_id@);
                } else if b == i {
                    assert(peers[a].device_id@ != peers[i].device_id@);
                } else {
                    assert(peers[a].device_id@ != peers[b].device_id@);
                }
            }
            lemma_peer_index_at(after, peer.device_id@, i);
        },
        None => {
            let n = peers.len() as int;
            assert forall|a: int, b: int|
                0 <= a < after.len() && 0 <= b < after.len() && a != b implies (#[trigger] after[a]).device_id@
                != (#[trigger] after[b]).device_id@ by {
                if a == n {
                    assert(peers[b].device_id@ != peer.device_id@);
                } else if b == n {
                    assert(peers[a].device_id@ != peer.device_id@);
                } else {
                    assert(peers[a].device_id@ != peers[b].device_id@);
                }
            }
            assert forall|j: int| 0 <= j < n implies (#[trigger] after[j]).device_id@ != peer.device_id@ by {
                assert(after[j] == peers[j]);
            }
            lemma_peer_index_at(after, peer.device_id@, n);
        },
    }
}

/// Once a peer is withdrawn no peer with its identifier remains, provided
/// identifiers were unique.
pub proof fn lemma_withdrawn_peer_is_gone(peers: Seq<DiscoveryPeer>, device_id: Seq<char>)
    requires
        unique_peers(peers),
    ensures
        peer_index(peers_without(peers, device_id), device_id) is None,
        unique_peers(peers_without(peers, device_id)),
{
    lemma_peer_index(peers, device_id);
    let after = peers_without(peers, device_id);
    lemma_peer_index(after, device_id);
    match peer_index(peers, device_id) {
        Some(i) => {
            assert forall|j: int| 0 <= j < after.len() implies (#[trigger] after[j]).device_id@
                != device_id by {
                if j < i {
                    assert(after[j] == peers[j]);
                } else {
                    assert(after[j] == peers[j + 1]);
                    assert(peers[j + 1].device_id@ != peers[i].device_id@);
                }
            }
            assert forall|a: int, b: int|
                0 <= a < after.len() && 0 <= b < after.len() && a != b implies (#[trigger] after[a]).device_id@
                != (#[trigger] after[b]).device_id@ by {
                let pa = if a < i {
                    a
                } else {
                    a + 1
                };
                let pb = if b < i {
                    b
                } else {
                    b + 1
                };
                assert(after[a] == peers[pa]);
                assert(after[b] == peers[pb]);
                assert(peers[pa].device_id@ != peers[pb].device_id@);
            }
        },
        None => {},
    }
}


/// No two requests are from the same device.
pub open spec fn one_request_per_device(requests: Seq<PendingPairingRequest>) -> bool {
    forall|i: int, j: int|
        0 <= i < j < requests.len() ==> (#[trigger] requests[i]).device_id@ != (
        #[trigger] requests[j]).device_id@
}

proof fn lemma_without_device_requests(requests: Seq<PendingPairingRequest>, device_id: Seq<char>)
    ensures
        forall|i: int|
            0 <= i < without_device_requests(requests, device_id).len() ==> (
            #[trigger] without_device_requests(requests, device_id)[i]).device_id@ != device_id
                && requests.contains(without_device_requests(requests, device_id)[i]),
        forall|q: PendingPairingRequest|
            #[trigger] requests.contains(q) && q.device_id@ != device_id ==> without_device_requests(
                requests,
                device_id,
            ).contains(q),
        one_request_per_device(requests) ==> one_request_per_device(
            without_device_requests(requests, device_id),
        ),
    decreases requests.len(),
{
    let w = without_device_requests(requests, device_id);
    if requests.len() > 0 {
        let t = requests.drop_last();
        let x = requests.last();
        let rest = without_device_requests(t, device_id);
        lemma_without_device_requests(t, device_id);
        assert forall|i: int| 0 <= i < w.len() implies (#[trigger] w[i]).device_id@ != device_id
            && requests.contains(w[i]) by {
            if i < rest.len() {
                assert(w[i] == rest[i]);
                let k = choose|k: int| 0 <= k < t.len() && t[k] == rest[i];
                assert(requests[k] == t[k]);
            } else {
                assert(requests[requests.len() - 1] == x);
            }
        }
        assert forall|q: PendingPairingRequest|
            #[trigger] requests.contains(q) && q.device_id@ != device_id implies w.contains(q) by {
            let k = choose|k: int| 0 <= k < requests.len() && requests[k] == q;
            if k < t.len() {
                assert(t[k] == q);
                assert(t.contains(q));
                let m = choose|m: int| 0 <= m < rest.len() && rest[m] == q;
                assert(w[m] == q);
            } else {
                assert(w[w.len() - 1] == q);
            }
        }
        if one_request_per_device(requests) {
            assert(one_request_per_device(t)) by {
                assert forall|i: int, j: int| 0 <= i < j < t.len() implies (#[trigger] t[i]).device_id@
                    != (#[trigger] t[j]).device_id@ by {
                    assert(t[i] == requests[i] && t[j] == requests[j]);
                }
            }
            assert forall|i: int, j: int| 0 <= i < j < w.len() implies (#[trigger] w[i]).device_id@
                != (#[trigger] w[j]).device_id@ by {
                if j < rest.len() {
                    assert(w[i] == rest[i] && w[j] == rest[j]);
                } else {
                    assert(w[i] == rest[i]);
                    let k = choose|k: int| 0 <= k < t.len() && t[k] == rest[i];
                    assert(requests[k] == t[k]);
                    assert(requests[requests.len() - 1] == x);
                }
            }
        }
    }
}

/// Recording a pairing request leaves exactly one request of its device,
/// the new one, last; the requests of every other device stay; and where
/// no device had two requests before, none has after.
pub proof fn lemma_pairing_request_recorded_once(
    requests: Seq<PendingPairingRequest>,
    request: PendingPairingRequest,
)
    ensures
        ({
            let r = without_device_requests(requests, request.device_id@).push(request);
            &&& r.last() == request
            &&& forall|i: int|
                0 <= i < r.len() - 1 ==> (#[trigger] r[i]).device_id@ != request.device_id@
            &&& forall|q: PendingPairingRequest|
                #[trigger] requests.contains(q) && q.device_id@ != request.device_id@ ==> r.contains(q)
            &&& forall|i: int| 0 <= i < r.len() ==> requests.contains(#[trigger] r[i]) || r[i] == request
            &&& one_request_per_device(requests) ==> one_request_per_device(r)
        }),
{
    let w = without_device_requests(requests, request.device_id@);
    let r = w.push(request);
    lemma_without_device_requests(requests, request.device_id@);
    assert forall|i: int| 0 <= i < r.len() - 1 implies (#[trigger] r[i]).device_id@
        != request.device_id@ by {
        assert(r[i] == w[i]);
    }
    assert forall|q: PendingPairingRequest|
        #[trigger] requests.contains(q) && q.device_id@ != request.device_id@ implies r.contains(q) by {
        let m = choose|m: int| 0 <= m < w.len() && w[m] == q;
        assert(r[m] == q);
    }
    assert forall|i: int| 0 <= i < r.len() implies requests.contains(#[trigger] r[i]) || r[i]
        == request by {
        if i < w.len() {
            assert(r[i] == w[i]);
        }
    }
    if one_request_per_device(requests) {
        assert forall|i: int, j: int| 0 <= i < j < r.len() implies (#[trigger] r[i]).device_id@ != (
        #[trigger] r[j]).device_id@ by {
            assert(r[i] == w[i]);
            if j < w.len() {
                assert(r[j] == w[j]);
            }
        }
    }
}
} // verus!
