//! The discovery service on the local network: what it does on each tick
//! of its timer and with each message it receives. The service itself
//! (sockets, timer, files) carries out the actions decided here.

use vstd::prelude::*;
use crate::connection::DISCOVERY_PEER_TTL_MS;
use crate::foundation::{
    fresh_peers, peers_with, peers_without, prune_discovery_peers, remove_discovery_peer,
    upsert_discovery_peer, DiscoveryPeer, PendingPairingRequest,
};
use crate::primitives::{parse_uuid, trim_text, trimmed, uuid_parse};
use crate::protocol::{DeviceDescriptor, ProtocolMessage};

verus! {

/// What the discovery service reads of the configuration.
#[derive(Clone, Copy, Debug, PartialEq, Eq, Structural)]
pub struct DiscoveryConfig {
    pub auto_discovery_enabled: bool,
    /// The device is a controller and its service is enabled.
    pub serving_as_controller: bool,
    /// The device is a client.
    pub is_client: bool,
}

/// How the discovery service reads the configuration: a controller serves
/// while its service is enabled; a device is a client by its role.
pub fn discovery_config_of(
    app_role: &str,
    auto_discovery_enabled: bool,
    controller_service_enabled: bool,
) -> (c: DiscoveryConfig)
    ensures
        c.auto_discovery_enabled == auto_discovery_enabled,
        c.serving_as_controller == (app_role@ == "controller"@ && controller_service_enabled),
        c.is_client == (app_role@ == "client"@),
{
    let role = app_role.to_owned();
    DiscoveryConfig {
        auto_discovery_enabled,
        serving_as_controller: role == String::from_str("controller") && controller_service_enabled,
        is_client: role == String::from_str("client"),
    }
}

/// Something the discovery service must do.
#[derive(Clone, Debug, PartialEq, Eq)]
pub enum DiscoveryAction {
    /// Persist the list of discovered peers.
    SavePeers,
    /// Broadcast a discovery probe.
    BroadcastProbe,
    /// Broadcast this device's announcement.
    BroadcastAnnounce,
    /// Send this device's announcement back to the sender of the message.
    AnnounceToSender,
    /// Record that the trusted device was seen now.
    MarkSeen(u128),
    /// Keep the pairing request for the user to answer.
    StorePairingRequest(PendingPairingRequest),
    /// The controller accepted this device's request: pair with it.
    CompletePairingWith(String),
    /// The controller refused this device's request with this explanation.
    RecordPairingError(String),
}

/// A tick of the timer: peers not heard within the lifetime are dropped
/// and the list saved; a probe is broadcast while discovery is on, and the
/// announcement while serving as controller.
pub open spec fn tick_actions(config: DiscoveryConfig) -> Seq<DiscoveryAction> {
    let a = seq![DiscoveryAction::SavePeers];
    let b = if config.auto_discovery_enabled {
        a.push(DiscoveryAction::BroadcastProbe)
    } else {
        a
    };
    if config.serving_as_controller {
        b.push(DiscoveryAction::BroadcastAnnounce)
    } else {
        b
    }
}

pub fn on_discovery_tick(peers: Vec<DiscoveryPeer>, config: DiscoveryConfig, now_unix_ms: u128) -> (r: (
    Vec<DiscoveryPeer>,
    Vec<DiscoveryAction>,
))
    ensures
        r.0@ == fresh_peers(peers@, now_unix_ms, DISCOVERY_PEER_TTL_MS),
        r.1@ == tick_actions(config),
{
    let kept = prune_discovery_peers(peers, now_unix_ms, DISCOVERY_PEER_TTL_MS);
    let mut actions: Vec<DiscoveryAction> = Vec::new();
    actions.push(DiscoveryAction::SavePeers);
    if config.auto_discovery_enabled {
        actions.push(DiscoveryAction::BroadcastProbe);
    }
    if config.serving_as_controller {
        actions.push(DiscoveryAction::BroadcastAnnounce);
    }
    assert(actions@ =~= tick_actions(config));
    (kept, actions)
}

/// The record kept of a pairing request received from `ip` at `now`.
pub open spec fn received_request_matches(
    r: PendingPairingRequest,
    device: DeviceDescriptor,
    code: Seq<char>,
    ip: Seq<char>,
    now: u128,
) -> bool {
    &&& r.device_id == device.device_id
    &&& r.display_name == device.display_name
    &&& r.platform == device.platform
    &&& r.address@ == ip
    &&& r.port == device.port
    &&& r.fingerprint_sha256 == device.fingerprint_sha256
    &&& r.certificate_pem == device.certificate_pem
    &&& r.pairing_code@ == code
    &&& r.received_at_unix_ms == now
}

/// The explanation recorded when the controller refuses a request.
pub open spec fn refusal_text(reason: Seq<char>) -> Seq<char> {
    if trimmed(reason).len() == 0 {
        "主控端已拒绝连接请求"@
    } else {
        "主控端已拒绝连接请求："@ + reason
    }
}

/// The record of a peer that announced itself from `ip` at `now`.
pub open spec fn peer_matches(p: DiscoveryPeer, remote: DeviceDescriptor, ip: Seq<char>, now: u128) -> bool {
    &&& p.device_id == remote.device_id
    &&& p.display_name == remote.display_name
    &&& p.platform == remote.platform
    &&& p.address@ == ip
    &&& p.port == remote.port
    &&& p.fingerprint_sha256 == remote.fingerprint_sha256
    &&& p.certificate_pem == remote.certificate_pem
    &&& p.discovered_at_unix_ms == now
}

/// The action that records a sighting of a device, where its identifier
/// parses.
pub open spec fn seen_actions(device_id: Seq<char>) -> Seq<DiscoveryAction> {
    match uuid_parse(device_id) {
        Some(id) => seq![DiscoveryAction::MarkSeen(id)],
        None => Seq::empty(),
    }
}

fn peer_record(remote: &DeviceDescriptor, ip: &str, now: u128) -> (p: DiscoveryPeer)
    ensures
        peer_matches(p, *remote, ip@, now),
{
    DiscoveryPeer {
        device_id: remote.device_id.clone(),
        display_name: remote.display_name.clone(),
        platform: remote.platform.clone(),
        address: ip.to_owned(),
        port: remote.port,
        fingerprint_sha256: remote.fingerprint_sha256.clone(),
        certificate_pem: remote.certificate_pem.clone(),
        discovered_at_unix_ms: now,
    }
}

fn push_seen(actions: &mut Vec<DiscoveryAction>, device_id: &String)
    ensures
        final(actions)@ == old(actions)@ + seen_actions(device_id@),
{
    match parse_uuid(device_id.as_str()) {
        Some(id) => {
            actions.push(DiscoveryAction::MarkSeen(id));
            assert(actions@ =~= old(actions)@ + seen_actions(device_id@));
        },
        None => {
            assert(actions@ =~= old(actions)@ + seen_actions(device_id@));
        },
    }
}

/// Handles a message received from `ip` at `now`. Messages of this device
/// itself are ignored. A probe is answered with the announcement while
/// serving; an announcement records the peer; a withdrawal forgets it; a
/// pairing request is kept while serving; the controller's acceptance or
/// refusal of this device's own request is passed on.
pub fn on_discovery_message(
    peers: &mut Vec<DiscoveryPeer>,
    local_device_id: &String,
    config: DiscoveryConfig,
    message: ProtocolMessage,
    ip: &str,
    now_unix_ms: u128,
) -> (actions: Vec<DiscoveryAction>)
    ensures
        match message {
            ProtocolMessage::DiscoverProbe(remote) => final(peers)@ == old(peers)@ && if remote.device_id@
                == local_device_id@ {
                actions@.len() == 0
            } else {
                actions@ == seen_actions(remote.device_id@) + if config.serving_as_controller {
                    seq![DiscoveryAction::AnnounceToSender]
                } else {
                    Seq::<DiscoveryAction>::empty()
                }
            },
            ProtocolMessage::DiscoverAnnounce(remote) => if remote.device_id@ == local_device_id@ {
                final(peers)@ == old(peers)@ && actions@.len() == 0
            } else {
                &&& actions@ == seen_actions(remote.device_id@).push(DiscoveryAction::SavePeers)
                &&& exists|p: DiscoveryPeer|
                    peer_matches(p, remote, ip@, now_unix_ms) && final(peers)@ == peers_with(
                        old(peers)@,
                        p,
                    )
            },
            ProtocolMessage::DiscoverWithdraw { device_id } => final(peers)@ == peers_without(
                old(peers)@,
                device_id@,
            ) && actions@ == seq![DiscoveryAction::SavePeers],
            ProtocolMessage::PairRequest { device, pairing_code } => final(peers)@ == old(peers)@
                && if config.serving_as_controller {
                actions@.len() == 1 && (actions@[0] matches DiscoveryAction::StorePairingRequest(r)
                    && received_request_matches(r, device, pairing_code.value@, ip@, now_unix_ms))
            } else {
                actions@.len() == 0
            },
            ProtocolMessage::PairAccept { device_id } => final(peers)@ == old(peers)@ && if device_id@
                == local_device_id@ {
                actions@.len() == 0
            } else {
                actions@ == seq![DiscoveryAction::CompletePairingWith(device_id)]
            },
            ProtocolMessage::PairReject { device_id: _, reason } => final(peers)@ == old(peers)@
                && if config.is_client {
                actions@.len() == 1 && (actions@[0] matches DiscoveryAction::RecordPairingError(t)
                    && t@ == refusal_text(reason@))
            } else {
                actions@.len() == 0
            },
            _ => final(peers)@ == old(peers)@ && actions@.len() == 0,
        },
{
    let mut actions: Vec<DiscoveryAction> = Vec::new();
    match message {
        ProtocolMessage::DiscoverProbe(remote) => {
            if remote.device_id == *local_device_id {
                return actions;
            }
            push_seen(&mut actions, &remote.device_id);
            if config.serving_as_controller {
                actions.push(DiscoveryAction::AnnounceToSender);
            }
            assert(actions@ =~= seen_actions(remote.device_id@) + if config.serving_as_controller {
                seq![DiscoveryAction::AnnounceToSender]
            } else {
                Seq::<DiscoveryAction>::empty()
            });
        },
        ProtocolMessage::DiscoverAnnounce(remote) => {
            if remote.device_id == *local_device_id {
                return actions;
            }
            push_seen(&mut actions, &remote.device_id);
            let peer = peer_record(&remote, ip, now_unix_ms);
            let ghost p = peer;
            upsert_discovery_peer(peers, peer);
            actions.push(DiscoveryAction::SavePeers);
            assert(actions@ =~= seen_actions(remote.device_id@).push(DiscoveryAction::SavePeers));
            assert(peer_matches(p, remote, ip@, now_unix_ms));
        },
        ProtocolMessage::DiscoverWithdraw { device_id } => {
            remove_discovery_peer(peers, &device_id);
            actions.push(DiscoveryAction::SavePeers);
            assert(actions@ =~= seq![DiscoveryAction::SavePeers]);
        },
        ProtocolMessage::PairRequest { device, pairing_code } => {
            if config.serving_as_controller {
                let request = PendingPairingRequest {
                    device_id: device.device_id,
                    display_name: device.display_name,
                    platform: device.platform,
                    address: ip.to_owned(),
                    port: device.port,
                    fingerprint_sha256: device.fingerprint_sha256,
                    certificate_pem: device.certificate_pem,
                    pairing_code: pairing_code.value,
                    received_at_unix_ms: now_unix_ms,
                };
                actions.push(DiscoveryAction::StorePairingRequest(request));
            }
        },
        ProtocolMessage::PairAccept { device_id } => {
            if device_id == *local_device_id {
                return actions;
            }
            actions.push(DiscoveryAction::CompletePairingWith(device_id));
            assert(actions@ =~= seq![DiscoveryAction::CompletePairingWith(device_id)]);
        },
        ProtocolMessage::PairReject { device_id: _, reason } => {
            if config.is_client {
                let trimmed_reason = trim_text(reason.as_str());
                let text = if trimmed_reason.as_str().is_empty() {
                    String::from_str("主控端已拒绝连接请求")
                } else {
                    let mut t = String::from_str("主控端已拒绝连接请求：");
                    t.append(reason.as_str());
                    t
                };
                actions.push(DiscoveryAction::RecordPairingError(text));
            }
        },
        _ => {},
    }
    actions
}

/// Once a peer that announced itself withdraws, it is no longer listed,
/// provided the list held each identifier once.
pub proof fn lemma_announce_then_withdraw(peers: Seq<DiscoveryPeer>, p: DiscoveryPeer)
    requires
        crate::foundation::unique_peers(peers),
    ensures
        crate::foundation::peer_index(
            peers_without(peers_with(peers, p), p.device_id@),
            p.device_id@,
        ) is None,
{
    crate::foundation::lemma_peers_with_keeps_unique(peers, p);
    crate::foundation::lemma_withdrawn_peer_is_gone(peers_with(peers, p), p.device_id@);
}

/// A pairing request received while serving is kept once: where the
/// request the message handler hands on is recorded into the stored
/// requests, the only request of the sending device is that one, last, and
/// it names the sender's identity, address, pairing code and time; every
/// other device's requests stay, and no device ends with two requests
/// where none had two before.
pub proof fn lemma_received_pairing_request_kept_once(
    requests: Seq<PendingPairingRequest>,
    r: PendingPairingRequest,
    device: DeviceDescriptor,
    code: Seq<char>,
    ip: Seq<char>,
    now: u128,
)
    requires
        received_request_matches(r, device, code, ip, now),
    ensures
        ({
            let stored = crate::foundation::without_device_requests(requests, device.device_id@).push(
                r,
            );
            &&& stored.last() == r
            &&& received_request_matches(stored.last(), device, code, ip, now)
            &&& forall|i: int|
                0 <= i < stored.len() - 1 ==> (#[trigger] stored[i]).device_id@ != device.device_id@
            &&& forall|q: PendingPairingRequest|
                #[trigger] requests.contains(q) && q.device_id@ != device.device_id@
                    ==> stored.contains(q)
            &&& crate::foundation::one_request_per_device(requests)
                ==> crate::foundation::one_request_per_device(stored)
        }),
{
    crate::foundation::lemma_pairing_request_recorded_once(requests, r);
}

} // verus!
