//! How the desktop shell judges its connection to the active peer, which
//! pending pairing request an answer applies to, and where a file transfer
//! can be sent.

use vstd::prelude::*;
use crate::desktop::{cached_peer_to_descriptor, discovery_peer_to_descriptor};
use crate::foundation::{
    cached_index, without_device_requests, CachedPeerDescriptor, DiscoveryPeer,
    PendingPairingRequest,
};
use crate::primitives::{parse_uuid, uuid_parse, uuid_string, uuid_text};
use crate::protocol::DeviceDescriptor;
use crate::session::{
    apply_device_repair, backoff_for_attempt, repaired, schedule_device_reconnect,
    DeviceRepairAction, ManagedDevice, ManagedDeviceStatus,
};
use crate::text::{has_prefix, starts_with};
use crate::trust::{first_match, TrustStore, TrustedDevice};

verus! {

/// How long a discovered peer counts as present after it was last heard.
pub const DISCOVERY_PEER_TTL_MS: u128 = 8000;

/// How the shell shows its link to the active peer.
#[derive(Clone, Copy, Debug, PartialEq, Eq, Structural)]
pub enum PeerConnectionState {
    Connected,
    Pending,
    Disconnected,
}

/// The text `as_text` gives for each case.
pub open spec fn peer_connection_state_label(e: PeerConnectionState) -> Seq<char> {
    match e {
        PeerConnectionState::Connected => "connected"@,
        PeerConnectionState::Pending => "pending"@,
        PeerConnectionState::Disconnected => "disconnected"@,
    }
}

impl PeerConnectionState {
    pub fn as_text(&self) -> (text: String)
        ensures
            text@ == peer_connection_state_label(*self),
    {
        match self {
            PeerConnectionState::Connected => String::from_str("connected"),
            PeerConnectionState::Pending => String::from_str("pending"),
            PeerConnectionState::Disconnected => String::from_str("disconnected"),
        }
    }
}

/// Why the shell refuses a connection request.
#[derive(Clone, Copy, Debug, PartialEq, Eq, Structural)]
pub enum ConnectionError {
    InvalidDeviceId,
    NotController,
    ServiceDisabled,
    RequestNotFound,
    SelfPairing,
    NoPairingCode,
    PairingCodeMismatch,
    TargetNotTrusted,
    TargetOffline,
    TargetUnreachable,
}

/// The text `message` gives for each case.
pub open spec fn connection_error_text(e: ConnectionError) -> Seq<char> {
    match e {
        ConnectionError::InvalidDeviceId => "parse device id"@,
        ConnectionError::NotController => "当前设备不是主控端，不能处理配对请求"@,
        ConnectionError::ServiceDisabled => "请先启用主控端服务，再处理连接请求"@,
        ConnectionError::RequestNotFound => "未找到待确认配对请求"@,
        ConnectionError::SelfPairing => "不能和自己设备配对"@,
        ConnectionError::NoPairingCode => "主控端当前没有可用配对码"@,
        ConnectionError::PairingCodeMismatch => "配对码校验失败，请刷新主控端配对码后重试"@,
        ConnectionError::TargetNotTrusted => "target device is not trusted"@,
        ConnectionError::TargetOffline => "target device is currently offline"@,
        ConnectionError::TargetUnreachable => "target device is not currently reachable"@,
    }
}

impl ConnectionError {
    pub fn message(&self) -> (text: String)
        ensures
            text@ == connection_error_text(*self),
    {
        match self {
            ConnectionError::InvalidDeviceId => String::from_str("parse device id"),
            ConnectionError::NotController => String::from_str(
                "当前设备不是主控端，不能处理配对请求",
            ),
            ConnectionError::ServiceDisabled => String::from_str(
                "请先启用主控端服务，再处理连接请求",
            ),
            ConnectionError::RequestNotFound => String::from_str("未找到待确认配对请求"),
            ConnectionError::SelfPairing => String::from_str("不能和自己设备配对"),
            ConnectionError::NoPairingCode => String::from_str(
                "主控端当前没有可用配对码",
            ),
            ConnectionError::PairingCodeMismatch => String::from_str("配对码校验失败，请刷新主控端配对码后重试"),
            ConnectionError::TargetNotTrusted => String::from_str("target device is not trusted"),
            ConnectionError::TargetOffline => String::from_str("target device is currently offline"),
            ConnectionError::TargetUnreachable => String::from_str(
                "target device is not currently reachable",
            ),
        }
    }
}

/// Position of the first managed device whose identifier reads `id`.
pub open spec fn managed_index(managed: Seq<ManagedDevice>, id: Seq<char>) -> Option<int>
    decreases managed.len(),
{
    if managed.len() == 0 {
        None
    } else if uuid_text(managed[0].device_id) == id {
        Some(0)
    } else {
        match managed_index(managed.drop_first(), id) {
            Some(i) => Some(i + 1),
            None => None,
        }
    }
}

/// Position of the first discovered peer with identifier `id`, among those
/// heard within the discovery lifetime of `now` where `fresh_only`.
pub open spec fn peer_position(peers: Seq<DiscoveryPeer>, id: Seq<char>, now: u128, fresh_only: bool) -> Option<int>
    decreases peers.len(),
{
    if peers.len() == 0 {
        None
    } else if peers[0].device_id@ == id && (!fresh_only || now - peers[0].discovered_at_unix_ms
        <= DISCOVERY_PEER_TTL_MS) {
        Some(0)
    } else {
        match peer_position(peers.drop_first(), id, now, fresh_only) {
            Some(i) => Some(i + 1),
            None => None,
        }
    }
}

proof fn lemma_managed_index(managed: Seq<ManagedDevice>, id: Seq<char>)
    ensures
        match managed_index(managed, id) {
            Some(i) => 0 <= i < managed.len() && uuid_text(managed[i].device_id) == id && forall|j: int|
                0 <= j < i ==> uuid_text((#[trigger] managed[j]).device_id) != id,
            None => forall|j: int|
                0 <= j < managed.len() ==> uuid_text((#[trigger] managed[j]).device_id) != id,
        },
    decreases managed.len(),
{
    if managed.len() > 0 && uuid_text(managed[0].device_id) != id {
        lemma_managed_index(managed.drop_first(), id);
        assert forall|j: int| 0 < j < managed.len() implies managed[j] == managed.drop_first()[j
            - 1] by {}
    }
}

proof fn lemma_peer_position(peers: Seq<DiscoveryPeer>, id: Seq<char>, now: u128, fresh_only: bool)
    ensures
        match peer_position(peers, id, now, fresh_only) {
            Some(i) => 0 <= i < peers.len() && peers[i].device_id@ == id && (!fresh_only || now
                - peers[i].discovered_at_unix_ms <= DISCOVERY_PEER_TTL_MS) && forall|j: int|
                0 <= j < i ==> !((#[trigger] peers[j]).device_id@ == id && (!fresh_only || now
                    - peers[j].discovered_at_unix_ms <= DISCOVERY_PEER_TTL_MS)),
            None => forall|j: int|
                0 <= j < peers.len() ==> !((#[trigger] peers[j]).device_id@ == id && (!fresh_only
                    || now - peers[j].discovered_at_unix_ms <= DISCOVERY_PEER_TTL_MS)),
        },
    decreases peers.len(),
{
    if peers.len() > 0 && !(peers[0].device_id@ == id && (!fresh_only || now
        - peers[0].discovered_at_unix_ms <= DISCOVERY_PEER_TTL_MS)) {
        lemma_peer_position(peers.drop_first(), id, now, fresh_only);
        assert forall|j: int| 0 < j < peers.len() implies peers[j] == peers.drop_first()[j - 1] by {}
    }
}

fn find_managed(managed: &Vec<ManagedDevice>, id: &String) -> (r: Option<usize>)
    ensures
        match r {
            Some(i) => i < managed@.len() && managed_index(managed@, id@) == Some(i as int),
            None => managed_index(managed@, id@) is None,
        },
{
    proof {
        lemma_managed_index(managed@, id@);
    }
    let mut i: usize = 0;
    while i < managed.len()
        invariant
            i <= managed@.len(),
            forall|j: int| 0 <= j < i ==> uuid_text((#[trigger] managed@[j]).device_id) != id@,
            match managed_index(managed@, id@) {
                Some(k) => 0 <= k < managed@.len() && uuid_text(managed@[k].device_id) == id@
                    && forall|j: int|
                    0 <= j < k ==> uuid_text((#[trigger] managed@[j]).device_id) != id@,
                None => forall|j: int|
                    0 <= j < managed@.len() ==> uuid_text((#[trigger] managed@[j]).device_id)
                        != id@,
            },
        decreases managed@.len() - i,
    {
        if uuid_string(managed[i].device_id) == *id {
            proof {
                match managed_index(managed@, id@) {
                    Some(k) => {
                        if k < i {
                            assert(uuid_text(managed@[k].device_id) != id@);
                        } else if k > i {
                            assert(uuid_text(managed@[i as int].device_id) != id@);
                        }
                    },
                    None => {
                        assert(uuid_text(managed@[i as int].device_id) != id@);
                    },
                }
            }
            return Some(i);
        }
        i += 1;
    }
    proof {
        if let Some(k) = managed_index(managed@, id@) {
            assert(uuid_text(managed@[k].device_id) != id@);
        }
    }
    None
}

pub(crate) fn find_peer_position(peers: &Vec<DiscoveryPeer>, id: &String, now: u128, fresh_only: bool) -> (r:
    Option<usize>)
    ensures
        match r {
            Some(i) => i < peers@.len() && peer_position(peers@, id@, now, fresh_only) == Some(
                i as int,
            ),
            None => peer_position(peers@, id@, now, fresh_only) is None,
        },
{
    proof {
        lemma_peer_position(peers@, id@, now, fresh_only);
    }
    let mut i: usize = 0;
    while i < peers.len()
        invariant
            i <= peers@.len(),
            forall|j: int|
                0 <= j < i ==> !((#[trigger] peers@[j]).device_id@ == id@ && (!fresh_only || now
                    - peers@[j].discovered_at_unix_ms <= DISCOVERY_PEER_TTL_MS)),
            match peer_position(peers@, id@, now, fresh_only) {
                Some(k) => 0 <= k < peers@.len() && peers@[k].device_id@ == id@ && (!fresh_only
                    || now - peers@[k].discovered_at_unix_ms <= DISCOVERY_PEER_TTL_MS)
                    && forall|j: int|
                    0 <= j < k ==> !((#[trigger] peers@[j]).device_id@ == id@ && (!fresh_only
                        || now - peers@[j].discovered_at_unix_ms <= DISCOVERY_PEER_TTL_MS)),
                None => forall|j: int|
                    0 <= j < peers@.len() ==> !((#[trigger] peers@[j]).device_id@ == id@ && (
                    !fresh_only || now - peers@[j].discovered_at_unix_ms <= DISCOVERY_PEER_TTL_MS)),
            },
        decreases peers@.len() - i,
    {
        let age = now.saturating_sub(peers[i].discovered_at_unix_ms);
        if peers[i].device_id == *id && (!fresh_only || age <= DISCOVERY_PEER_TTL_MS) {
            proof {
                match peer_position(peers@, id@, now, fresh_only) {
                    Some(k) => {
                        if k < i {
                            assert(peers@[k].device_id@ == id@);
                        } else if k > i {
                            assert(peers@[i as int].device_id@ == id@);
                        }
                    },
                    None => {
                        assert(peers@[i as int].device_id@ == id@);
                    },
                }
            }
            return Some(i);
        }
        i += 1;
    }
    proof {
        if let Some(k) = peer_position(peers@, id@, now, fresh_only) {
            assert(peers@[k].device_id@ == id@);
        }
    }
    None
}

/// The link to the active peer. A client is connected when the controller
/// is trusted and was heard lately, pending until it is trusted; a
/// controller is connected while its service runs and the peer is online.
pub open spec fn peer_state(
    is_client: bool,
    service_enabled: bool,
    id: u128,
    id_text: Seq<char>,
    devices: Seq<TrustedDevice>,
    managed: Seq<ManagedDevice>,
    peers: Seq<DiscoveryPeer>,
    now: u128,
) -> PeerConnectionState {
    let trusted = first_match(devices, id, true) is Some;
    let controller_online = peer_position(peers, id_text, now, false) matches Some(i) && now
        - peers[i].discovered_at_unix_ms <= DISCOVERY_PEER_TTL_MS;
    let managed_online = managed_index(managed, id_text) matches Some(i) && managed[i].status
        == ManagedDeviceStatus::Online;
    if is_client {
        if trusted && controller_online {
            PeerConnectionState::Connected
        } else if !trusted {
            PeerConnectionState::Pending
        } else {
            PeerConnectionState::Disconnected
        }
    } else if service_enabled && managed_online {
        PeerConnectionState::Connected
    } else {
        PeerConnectionState::Disconnected
    }
}

/// The link to the active peer, if there is one; an active peer whose
/// identifier does not parse is refused.
pub fn active_peer_state(
    app_role: &str,
    controller_service_enabled: bool,
    active_peer_device_id: &Option<String>,
    trust_store: &TrustStore,
    managed: &Vec<ManagedDevice>,
    peers: &Vec<DiscoveryPeer>,
    now_unix_ms: u128,
) -> (r: Result<PeerConnectionState, ConnectionError>)
    ensures
        match active_peer_device_id {
            None => r == Ok::<PeerConnectionState, ConnectionError>(
                PeerConnectionState::Disconnected,
            ),
            Some(text) => match uuid_parse(text@) {
                None => r == Err::<PeerConnectionState, ConnectionError>(
                    ConnectionError::InvalidDeviceId,
                ),
                Some(id) => r == Ok::<PeerConnectionState, ConnectionError>(
                    peer_state(
                        app_role@ == "client"@,
                        controller_service_enabled,
                        id,
                        text@,
                        trust_store.devices@,
                        managed@,
                        peers@,
                        now_unix_ms,
                    ),
                ),
            },
        },
{
    let text = match active_peer_device_id {
        None => {
            return Ok(PeerConnectionState::Disconnected);
        },
        Some(text) => text,
    };
    let id = match parse_uuid(text.as_str()) {
        Some(id) => id,
        None => {
            return Err(ConnectionError::InvalidDeviceId);
        },
    };
    let trusted = trust_store.trusted_device(id).is_some();
    let controller_online = match find_peer_position(peers, text, now_unix_ms, false) {
        Some(i) => now_unix_ms.saturating_sub(peers[i].discovered_at_unix_ms)
            <= DISCOVERY_PEER_TTL_MS,
        None => false,
    };
    let managed_online = match find_managed(managed, text) {
        Some(i) => managed[i].status == ManagedDeviceStatus::Online,
        None => false,
    };
    let role = app_role.to_owned();
    if role == String::from_str("client") {
        if trusted && controller_online {
            Ok(PeerConnectionState::Connected)
        } else if !trusted {
            Ok(PeerConnectionState::Pending)
        } else {
            Ok(PeerConnectionState::Disconnected)
        }
    } else if controller_service_enabled && managed_online {
        Ok(PeerConnectionState::Connected)
    } else {
        Ok(PeerConnectionState::Disconnected)
    }
}

/// Position of the first pending request from the device `id`.
pub open spec fn request_index(requests: Seq<PendingPairingRequest>, id: Seq<char>) -> Option<int>
    decreases requests.len(),
{
    if requests.len() == 0 {
        None
    } else if requests[0].device_id@ == id {
        Some(0)
    } else {
        match request_index(requests.drop_first(), id) {
            Some(i) => Some(i + 1),
            None => None,
        }
    }
}

proof fn lemma_request_index(requests: Seq<PendingPairingRequest>, id: Seq<char>)
    ensures
        match request_index(requests, id) {
            Some(i) => 0 <= i < requests.len() && requests[i].device_id@ == id && forall|j: int|
                0 <= j < i ==> (#[trigger] requests[j]).device_id@ != id,
            None => forall|j: int| 0 <= j < requests.len() ==> (#[trigger] requests[j]).device_id@ != id,
        },
    decreases requests.len(),
{
    if requests.len() > 0 && requests[0].device_id@ != id {
        lemma_request_index(requests.drop_first(), id);
        assert forall|j: int| 0 < j < requests.len() implies requests[j]
            == requests.drop_first()[j - 1] by {}
    }
}

/// Which pending request an answer applies to, and the requests left once
/// it is answered: only a controller whose service runs answers, the
/// request must exist, and a device never pairs with itself.
pub open spec fn pending_pairing_selection(
    is_controller: bool,
    service_enabled: bool,
    local_device_id: u128,
    requests: Seq<PendingPairingRequest>,
    id: Seq<char>,
) -> Result<(PendingPairingRequest, Seq<PendingPairingRequest>), ConnectionError> {
    if !is_controller {
        Err(ConnectionError::NotController)
    } else if !service_enabled {
        Err(ConnectionError::ServiceDisabled)
    } else {
        match request_index(requests, id) {
            None => Err(ConnectionError::RequestNotFound),
            Some(i) => if requests[i].device_id@ == uuid_text(local_device_id) {
                Err(ConnectionError::SelfPairing)
            } else {
                Ok((requests[i], without_device_requests(requests, id)))
            },
        }
    }
}

fn copy_request(r: &PendingPairingRequest) -> (c: PendingPairingRequest)
    ensures
        c == *r,
{
    PendingPairingRequest {
        device_id: r.device_id.clone(),
        display_name: r.display_name.clone(),
        platform: r.platform.clone(),
        address: r.address.clone(),
        port: r.port,
        fingerprint_sha256: r.fingerprint_sha256.clone(),
        certificate_pem: r.certificate_pem.clone(),
        pairing_code: r.pairing_code.clone(),
        received_at_unix_ms: r.received_at_unix_ms,
    }
}

/// Picks the pending request from `device_id` to answer, and the requests
/// that stay pending.
pub fn select_pending_pairing(
    app_role: &str,
    controller_service_enabled: bool,
    local_device_id: u128,
    pending: Vec<PendingPairingRequest>,
    device_id: &String,
) -> (r: Result<(PendingPairingRequest, Vec<PendingPairingRequest>), ConnectionError>)
    ensures
        match pending_pairing_selection(
            app_role@ == "controller"@,
            controller_service_enabled,
            local_device_id,
            pending@,
            device_id@,
        ) {
            Err(e) => r == Err::<(PendingPairingRequest, Vec<PendingPairingRequest>), ConnectionError>(
                e,
            ),
            Ok((target, rest)) => r matches Ok((t, remaining)) && t == target && remaining@ == rest,
        },
{
    let role = app_role.to_owned();
    if role != String::from_str("controller") {
        return Err(ConnectionError::NotController);
    }
    if !controller_service_enabled {
        return Err(ConnectionError::ServiceDisabled);
    }
    proof {
        lemma_request_index(pending@, device_id@);
    }
    let mut found: Option<usize> = None;
    let mut i: usize = 0;
    while i < pending.len()
        invariant
            i <= pending@.len(),
            found is None ==> forall|j: int| 0 <= j < i ==> (#[trigger] pending@[j]).device_id@ != device_id@,
            found matches Some(k) ==> request_index(pending@, device_id@) == Some(k as int) && k
                < pending@.len(),
            match request_index(pending@, device_id@) {
                Some(k) => 0 <= k < pending@.len() && pending@[k].device_id@ == device_id@
                    && forall|j: int|
                    0 <= j < k ==> (#[trigger] pending@[j]).device_id@ != device_id@,
                None => forall|j: int|
                    0 <= j < pending@.len() ==> (#[trigger] pending@[j]).device_id@ != device_id@,
            },
        decreases pending@.len() - i,
    {
        if found.is_none() && pending[i].device_id == *device_id {
            proof {
                match request_index(pending@, device_id@) {
                    Some(k) => {
                        if k < i {
                            assert(pending@[k].device_id@ == device_id@);
                        } else if k > i {
                            assert(pending@[i as int].device_id@ != device_id@);
                        }
                    },
                    None => {
                        assert(pending@[i as int].device_id@ != device_id@);
                    },
                }
            }
            found = Some(i);
        }
        i += 1;
    }
    let k = match found {
        Some(k) => k,
        None => {
            proof {
                if let Some(k) = request_index(pending@, device_id@) {
                    assert(pending@[k].device_id@ == device_id@);
                }
            }
            return Err(ConnectionError::RequestNotFound);
        },
    };
    let target = copy_request(&pending[k]);
    if target.device_id == uuid_string(local_device_id) {
        return Err(ConnectionError::SelfPairing);
    }
    let ghost all = pending@;
    let mut remaining: Vec<PendingPairingRequest> = Vec::new();
    let mut rest = pending;
    let n = rest.len();
    let mut j: usize = 0;
    while j < n
        invariant
            n == all.len(),
            j <= n,
            rest@ == all.skip(j as int),
            remaining@ == without_device_requests(all.take(j as int), device_id@),
        decreases n - j,
    {
        let item = rest.remove(0);
        assert(all.take(j as int + 1).drop_last() =~= all.take(j as int));
        assert(all.take(j as int + 1).last() == all[j as int]);
        assert(rest@ =~= all.skip(j as int + 1));
        if item.device_id != *device_id {
            remaining.push(item);
        }
        j += 1;
    }
    assert(all.take(n as int) =~= all);
    Ok((target, remaining))
}

/// Whether an accepted request's code is good: requests raised by
/// discovery (code `auto:...`) need none; others must carry the
/// controller's current code.
pub open spec fn pairing_code_verdict(code: Seq<char>, current: Option<Seq<char>>) -> Result<
    (),
    ConnectionError,
> {
    if has_prefix(code, "auto:"@) {
        Ok(())
    } else {
        match current {
            None => Err(ConnectionError::NoPairingCode),
            Some(expected) => if code == expected {
                Ok(())
            } else {
                Err(ConnectionError::PairingCodeMismatch)
            },
        }
    }
}

pub fn check_pairing_code(code: &String, current: &Option<String>) -> (r: Result<(), ConnectionError>)
    ensures
        r == pairing_code_verdict(
            code@,
            match current {
                Some(c) => Some(c@),
                None => None,
            },
        ),
{
    if starts_with(code.as_str(), "auto:") {
        return Ok(());
    }
    match current {
        None => Err(ConnectionError::NoPairingCode),
        Some(expected) => {
            if *code == *expected {
                Ok(())
            } else {
                Err(ConnectionError::PairingCodeMismatch)
            }
        },
    }
}

/// Where a file transfer to the device named `id_text` goes: the device
/// must be trusted and online, and reachable either as a peer heard lately
/// or as a cached peer.
pub open spec fn transfer_target(
    id_text: Seq<char>,
    devices: Seq<TrustedDevice>,
    managed: Seq<ManagedDevice>,
    peers: Seq<DiscoveryPeer>,
    cached: Seq<CachedPeerDescriptor>,
    now: u128,
) -> Result<(u128, TransferRoute), ConnectionError> {
    match uuid_parse(id_text) {
        None => Err(ConnectionError::InvalidDeviceId),
        Some(id) => if first_match(devices, id, true) is None {
            Err(ConnectionError::TargetNotTrusted)
        } else if !(managed_position(managed, id) matches Some(i) && managed[i].status
            == ManagedDeviceStatus::Online) {
            Err(ConnectionError::TargetOffline)
        } else {
            match peer_position(peers, uuid_text(id), now, true) {
                Some(i) => Ok((id, TransferRoute::Discovered(i))),
                None => match cached_index(cached, uuid_text(id)) {
                    Some(i) => Ok((id, TransferRoute::Cached(i))),
                    None => Err(ConnectionError::TargetUnreachable),
                },
            }
        },
    }
}

/// Which record a transfer's destination was taken from.
pub ghost enum TransferRoute {
    Discovered(int),
    Cached(int),
}

/// Position of the first managed device with this identifier.
pub open spec fn managed_position(managed: Seq<ManagedDevice>, id: u128) -> Option<int>
    decreases managed.len(),
{
    if managed.len() == 0 {
        None
    } else if managed[0].device_id == id {
        Some(0)
    } else {
        match managed_position(managed.drop_first(), id) {
            Some(i) => Some(i + 1),
            None => None,
        }
    }
}

proof fn lemma_managed_position(managed: Seq<ManagedDevice>, id: u128)
    ensures
        match managed_position(managed, id) {
            Some(i) => 0 <= i < managed.len() && managed[i].device_id == id && forall|j: int|
                0 <= j < i ==> (#[trigger] managed[j]).device_id != id,
            None => forall|j: int| 0 <= j < managed.len() ==> (#[trigger] managed[j]).device_id != id,
        },
    decreases managed.len(),
{
    if managed.len() > 0 && managed[0].device_id != id {
        lemma_managed_position(managed.drop_first(), id);
        assert forall|j: int| 0 < j < managed.len() implies managed[j] == managed.drop_first()[j
            - 1] by {}
    }
}

fn managed_online(managed: &Vec<ManagedDevice>, id: u128) -> (online: bool)
    ensures
        online == (managed_position(managed@, id) matches Some(i) && managed@[i].status
            == ManagedDeviceStatus::Online),
{
    proof {
        lemma_managed_position(managed@, id);
    }
    let mut i: usize = 0;
    while i < managed.len()
        invariant
            i <= managed@.len(),
            forall|j: int| 0 <= j < i ==> (#[trigger] managed@[j]).device_id != id,
            match managed_position(managed@, id) {
                Some(k) => 0 <= k < managed@.len() && managed@[k].device_id == id && forall|j: int|
                    0 <= j < k ==> (#[trigger] managed@[j]).device_id != id,
                None => forall|j: int|
                    0 <= j < managed@.len() ==> (#[trigger] managed@[j]).device_id != id,
            },
        decreases managed@.len() - i,
    {
        if managed[i].device_id == id {
            proof {
                match managed_position(managed@, id) {
                    Some(k) => {
                        if k < i {
                            assert(managed@[k].device_id == id);
                        } else if k > i {
                            assert(managed@[i as int].device_id != id);
                        }
                    },
                    None => {
                        assert(managed@[i as int].device_id != id);
                    },
                }
            }
            return managed[i].status == ManagedDeviceStatus::Online;
        }
        i += 1;
    }
    proof {
        if let Some(k) = managed_position(managed@, id) {
            assert(managed@[k].device_id == id);
        }
    }
    false
}

fn find_cached(cached: &Vec<CachedPeerDescriptor>, id: &String) -> (r: Option<usize>)
    ensures
        match r {
            Some(i) => i < cached@.len() && cached_index(cached@, id@) == Some(i as int),
            None => cached_index(cached@, id@) is None,
        },
{
    proof {
        crate::foundation::lemma_cached_index_of(cached@, id@);
    }
    let mut i: usize = 0;
    while i < cached.len()
        invariant
            i <= cached@.len(),
            forall|j: int| 0 <= j < i ==> (#[trigger] cached@[j]).device_id@ != id@,
            match cached_index(cached@, id@) {
                Some(k) => 0 <= k < cached@.len() && cached@[k].device_id@ == id@ && forall|j: int|
                    0 <= j < k ==> (#[trigger] cached@[j]).device_id@ != id@,
                None => forall|j: int|
                    0 <= j < cached@.len() ==> (#[trigger] cached@[j]).device_id@ != id@,
            },
        decreases cached@.len() - i,
    {
        if cached[i].device_id == *id {
            proof {
                match cached_index(cached@, id@) {
                    Some(k) => {
                        if k < i {
                            assert(cached@[k].device_id@ == id@);
                        } else if k > i {
                            assert(cached@[i as int].device_id@ != id@);
                        }
                    },
                    None => {
                        assert(cached@[i as int].device_id@ != id@);
                    },
                }
            }
            return Some(i);
        }
        i += 1;
    }
    proof {
        if let Some(k) = cached_index(cached@, id@) {
            assert(cached@[k].device_id@ == id@);
        }
    }
    None
}

/// Resolves where a file transfer to the device named `target_device_id`
/// goes: its identifier and the descriptor to connect to.
pub fn resolve_transfer_target(
    target_device_id: &String,
    trust_store: &TrustStore,
    managed: &Vec<ManagedDevice>,
    peers: &Vec<DiscoveryPeer>,
    cached: &Vec<CachedPeerDescriptor>,
    now_unix_ms: u128,
) -> (r: Result<(u128, DeviceDescriptor), ConnectionError>)
    ensures
        match transfer_target(
            target_device_id@,
            trust_store.devices@,
            managed@,
            peers@,
            cached@,
            now_unix_ms,
        ) {
            Err(e) => r == Err::<(u128, DeviceDescriptor), ConnectionError>(e),
            Ok((id, TransferRoute::Discovered(i))) => r matches Ok((rid, d)) && rid == id && d
                == (DeviceDescriptor {
                device_id: peers@[i].device_id,
                display_name: peers@[i].display_name,
                platform: peers@[i].platform,
                address: peers@[i].address,
                port: peers@[i].port,
                fingerprint_sha256: peers@[i].fingerprint_sha256,
                certificate_pem: peers@[i].certificate_pem,
            }),
            Ok((id, TransferRoute::Cached(i))) => r matches Ok((rid, d)) && rid == id && d
                == (DeviceDescriptor {
                device_id: cached@[i].device_id,
                display_name: cached@[i].display_name,
                platform: cached@[i].platform,
                address: cached@[i].address,
                port: cached@[i].port,
                fingerprint_sha256: cached@[i].fingerprint_sha256,
                certificate_pem: cached@[i].certificate_pem,
            }),
        },
{
    let id = match parse_uuid(target_device_id.as_str()) {
        Some(id) => id,
        None => {
            return Err(ConnectionError::InvalidDeviceId);
        },
    };
    if trust_store.trusted_device(id).is_none() {
        return Err(ConnectionError::TargetNotTrusted);
    }
    if !managed_online(managed, id) {
        return Err(ConnectionError::TargetOffline);
    }
    let id_text = uuid_string(id);
    match find_peer_position(peers, &id_text, now_unix_ms, true) {
        Some(i) => Ok((id, discovery_peer_to_descriptor(&peers[i]))),
        None => match find_cached(cached, &id_text) {
            Some(i) => Ok((id, cached_peer_to_descriptor(&cached[i]))),
            None => Err(ConnectionError::TargetUnreachable),
        },
    }
}

fn managed_position_of(managed: &Vec<ManagedDevice>, id: u128) -> (r: Option<usize>)
    ensures
        match r {
            Some(i) => managed_position(managed@, id) == Some(i as int) && i < managed@.len(),
            None => managed_position(managed@, id) is None,
        },
{
    proof {
        lemma_managed_position(managed@, id);
    }
    let mut i: usize = 0;
    while i < managed.len()
        invariant
            i <= managed@.len(),
            forall|j: int| 0 <= j < i ==> (#[trigger] managed@[j]).device_id != id,
            match managed_position(managed@, id) {
                Some(k) => 0 <= k < managed@.len() && managed@[k].device_id == id && forall|j: int|
                    0 <= j < k ==> (#[trigger] managed@[j]).device_id != id,
                None => forall|j: int|
                    0 <= j < managed@.len() ==> (#[trigger] managed@[j]).device_id != id,
            },
        decreases managed@.len() - i,
    {
        if managed[i].device_id == id {
            proof {
                match managed_position(managed@, id) {
                    Some(k) => {
                        if k < i {
                            assert(managed@[k].device_id == id);
                        } else if k > i {
                            assert(managed@[i as int].device_id != id);
                        }
                    },
                    None => {
                        assert(managed@[i as int].device_id != id);
                    },
                }
            }
            return Some(i);
        }
        i += 1;
    }
    proof {
        if let Some(k) = managed_position(managed@, id) {
            assert(managed@[k].device_id == id);
        }
    }
    None
}

/// The managed devices without those with identifier `id`, in order.
pub open spec fn managed_without(managed: Seq<ManagedDevice>, id: u128) -> Seq<ManagedDevice>
    decreases managed.len(),
{
    if managed.len() == 0 {
        managed
    } else {
        let rest = managed_without(managed.drop_last(), id);
        if managed.last().device_id == id {
            rest
        } else {
            rest.push(managed.last())
        }
    }
}

/// What a repair requested by the user makes of a managed device: a retry
/// schedules the next reconnect attempt with its backoff, the other actions
/// apply directly.
pub open spec fn user_repair(device: ManagedDevice, action: DeviceRepairAction, now: u128) -> ManagedDevice {
    match action {
        DeviceRepairAction::RetryNow => {
            let attempt = if device.reconnect_attempt == u32::MAX {
                u32::MAX
            } else {
                (device.reconnect_attempt + 1) as u32
            };
            ManagedDevice {
                status: ManagedDeviceStatus::Reconnecting,
                reconnect_attempt: attempt,
                next_retry_after_ms: backoff_for_attempt(attempt),
                ..device
            }
        },
        _ => repaired(device, action, now),
    }
}

/// Applies a repair requested by the user to the managed devices: a
/// revoked device leaves the list; otherwise the first device with the
/// identifier is repaired. False where no such device is listed (the list
/// is then rebuilt from the trust store by the caller).
pub fn repair_managed_devices(
    managed: &mut Vec<ManagedDevice>,
    device_id: u128,
    action: DeviceRepairAction,
    now_unix_ms: u128,
) -> (found: bool)
    ensures
        action == DeviceRepairAction::Revoke ==> found && final(managed)@ == managed_without(
            old(managed)@,
            device_id,
        ),
        action != DeviceRepairAction::Revoke ==> match managed_position(old(managed)@, device_id) {
            Some(i) => found && final(managed)@ == old(managed)@.update(
                i,
                user_repair(old(managed)@[i], action, now_unix_ms),
            ),
            None => !found && final(managed)@ == old(managed)@,
        },
{
    if action == DeviceRepairAction::Revoke {
        let ghost all = managed@;
        let mut kept: Vec<ManagedDevice> = Vec::new();
        let n = managed.len();
        let mut i: usize = 0;
        while i < n
            invariant
                n == all.len(),
                i <= n,
                managed@ == all.skip(i as int),
                kept@ == managed_without(all.take(i as int), device_id),
            decreases n - i,
        {
            let d = managed.remove(0);
            assert(all.take(i as int + 1).drop_last() =~= all.take(i as int));
            assert(all.take(i as int + 1).last() == d);
            assert(managed@ =~= all.skip(i as int + 1));
            if d.device_id != device_id {
                kept.push(d);
            }
            i += 1;
        }
        assert(all.take(n as int) =~= all);
        *managed = kept;
        return true;
    }
    match managed_position_of(managed, device_id) {
        Some(i) => {
            let next = match action {
                DeviceRepairAction::RetryNow => schedule_device_reconnect(
                    &managed[i],
                    managed[i].reconnect_attempt.saturating_add(1),
                ),
                _ => apply_device_repair(&managed[i], action, now_unix_ms),
            };
            managed.set(i, next);
            true
        },
        None => false,
    }
}

proof fn lemma_managed_without(managed: Seq<ManagedDevice>, id: u128)
    ensures
        forall|j: int| 0 <= j < managed_without(managed, id).len() ==> (#[trigger] managed_without(
            managed,
            id,
        )[j]).device_id != id,
    decreases managed.len(),
{
    if managed.len() > 0 {
        lemma_managed_without(managed.drop_last(), id);
    }
}

/// Once a device is revoked from the device list, the list no longer
/// holds it.
pub proof fn lemma_revoked_device_leaves_list(managed: Seq<ManagedDevice>, id: u128)
    ensures
        forall|j: int| 0 <= j < managed_without(managed, id).len() ==> (#[trigger] managed_without(
            managed,
            id,
        )[j]).device_id != id,
{
    lemma_managed_without(managed, id);
}

/// The name under which the active peer is shown: that of the managed
/// device with its identifier, else that of the discovered peer.
pub open spec fn peer_display_name(
    active: Option<Seq<char>>,
    managed: Seq<ManagedDevice>,
    peers: Seq<DiscoveryPeer>,
) -> Option<Seq<char>> {
    match active {
        None => None,
        Some(id) => match managed_index(managed, id) {
            Some(i) => Some(managed[i].display_name@),
            None => match peer_position(peers, id, 0, false) {
                Some(i) => Some(peers[i].display_name@),
                None => None,
            },
        },
    }
}

pub fn active_peer_display_name(
    active_peer_device_id: &Option<String>,
    managed: &Vec<ManagedDevice>,
    peers: &Vec<DiscoveryPeer>,
) -> (name: Option<String>)
    ensures
        match name {
            Some(n) => peer_display_name(
                match active_peer_device_id {
                    Some(id) => Some(id@),
                    None => None,
                },
                managed@,
                peers@,
            ) == Some(n@),
            None => peer_display_name(
                match active_peer_device_id {
                    Some(id) => Some(id@),
                    None => None,
                },
                managed@,
                peers@,
            ) is None,
        },
{
    match active_peer_device_id {
        None => None,
        Some(id) => match find_managed(managed, id) {
            Some(i) => Some(managed[i].display_name.clone()),
            None => match find_peer_position(peers, id, 0, false) {
                Some(i) => Some(peers[i].display_name.clone()),
                None => None,
            },
        },
    }
}

} // verus!
