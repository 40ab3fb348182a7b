//! Sessions between paired devices: the descriptor a device announces,
//! pairing decisions, validation of a remote device before a session is
//! opened, heartbeats, reconnect backoff and the recovery view of trusted
//! devices.

use vstd::prelude::*;
use crate::primitives::{parse_uuid, uuid_parse, uuid_string, uuid_text};
use crate::protocol::{DeviceDescriptor, PairingCode, ProtocolMessage};
use crate::text::sha256_hex_text;
use crate::trust::{
    certificate_fingerprint_sha256, lemma_revoked_device_is_not_trusted,
    lemma_trusted_device_validates, revoked, trust_device, trust_error_text, trust_verdict_for, unique_ids, upserted,
    validate_trust, DeviceCertificate, DeviceIdentity, TrustError, TrustStore, TrustedDevice,
};
use vstd::utf8::encode_utf8;

verus! {

pub const DISCOVERY_PORT: u16 = 24800;

pub const SESSION_PORT: u16 = 24801;

pub const DEFAULT_HEARTBEAT_INTERVAL_MS: u64 = 1000;

pub const DEFAULT_RECONNECT_BACKOFF_MS: u64 = 1500;

pub const DEFAULT_OFFLINE_AFTER_MS: u64 = 5000;

#[derive(Clone, Debug, PartialEq, Eq)]
pub struct ManualEndpoint {
    pub host: String,
    pub port: u16,
}

#[derive(Clone, Debug, PartialEq, Eq)]
pub struct DiscoveryAnnouncement {
    pub device: DeviceDescriptor,
}

#[derive(Clone, Debug, PartialEq, Eq)]
pub enum PairingDecision {
    Accept,
    Reject { reason: String },
}

#[derive(Clone, Debug, PartialEq, Eq)]
pub struct PairingRequest {
    pub requester: DeviceDescriptor,
    pub pairing_code: PairingCode,
}

#[derive(Clone, Debug, PartialEq, Eq)]
pub struct PairingResult {
    pub trusted_device: Option<TrustedDevice>,
    pub message: ProtocolMessage,
}

#[derive(Clone, Copy, Debug, PartialEq, Eq, Structural)]
pub enum SessionConnectionState {
    Idle,
    Connecting,
    Active { session_id: u128, peer_device_id: u128, heartbeat_interval_ms: u64 },
    Reconnecting { peer_device_id: u128, attempt: u32, backoff_ms: u64 },
}

#[derive(Clone, Copy, Debug, PartialEq, Eq, Structural)]
pub enum ManagedDeviceStatus {
    Online,
    Offline,
    Reconnecting,
    Revoked,
}

#[derive(Clone, Debug, PartialEq, Eq)]
pub struct ManagedDevice {
    pub device_id: u128,
    pub display_name: String,
    pub platform: String,
    pub status: ManagedDeviceStatus,
    pub last_seen_unix_ms: Option<u128>,
    pub reconnect_attempt: u32,
    pub next_retry_after_ms: u64,
}

#[derive(Clone, Debug, PartialEq, Eq)]
pub struct RecoveryScan {
    pub now_unix_ms: u128,
    pub offline_after_ms: u64,
    pub devices: Vec<ManagedDevice>,
}

#[derive(Clone, Copy, Debug, PartialEq, Eq, Structural)]
pub enum DeviceRepairAction {
    MarkOnline,
    RetryNow,
    Revoke,
}

/// Why a pairing or a session with a remote device is refused.
#[derive(Clone, Copy, Debug, PartialEq, Eq, Structural)]
pub enum SessionError {
    /// The descriptor's fingerprint is not that of its certificate.
    FingerprintMismatch,
    /// The descriptor's device identifier is not an identifier.
    InvalidDeviceId,
    /// The trust store does not vouch for the device.
    Trust(TrustError),
}

/// The text `message` gives for each case.
pub open spec fn session_error_text(e: SessionError) -> Seq<char> {
    match e {
        SessionError::FingerprintMismatch => "remote certificate fingerprint does not match descriptor"@,
        SessionError::InvalidDeviceId => "parse remote device id"@,
        SessionError::Trust(e) => trust_error_text(e),
    }
}
impl SessionError {
    pub fn message(&self) -> (text: String)
        ensures
            text@ == session_error_text(*self),
    {
        match self {
            SessionError::FingerprintMismatch => String::from_str(
                "remote certificate fingerprint does not match descriptor",
            ),
            SessionError::InvalidDeviceId => String::from_str("parse remote device id"),
            SessionError::Trust(e) => e.message(),
        }
    }
}

/// An endpoint entered by hand.
pub fn manual_endpoint(host: &str, port: u16) -> (endpoint: ManualEndpoint)
    ensures
        endpoint.host@ == host@,
        endpoint.port == port,
{
    ManualEndpoint { host: host.to_owned(), port }
}

/// What a device announces of itself: its identity, where it listens, and
/// its certificate with the certificate's fingerprint.
pub fn session_descriptor(
    identity: &DeviceIdentity,
    certificate: &DeviceCertificate,
    endpoint: &ManualEndpoint,
) -> (d: DeviceDescriptor)
    ensures
        d.device_id@ == uuid_text(identity.device_id),
        d.display_name == identity.display_name,
        d.platform == identity.platform,
        d.address == endpoint.host,
        d.port == endpoint.port,
        d.fingerprint_sha256 == certificate.fingerprint_sha256,
        d.certificate_pem == certificate.certificate_pem,
{
    DeviceDescriptor {
        device_id: uuid_string(identity.device_id),
        display_name: identity.display_name.clone(),
        platform: identity.platform.clone(),
        address: endpoint.host.clone(),
        port: endpoint.port,
        fingerprint_sha256: certificate.fingerprint_sha256.clone(),
        certificate_pem: certificate.certificate_pem.clone(),
    }
}

pub fn discovery_announce_message(device: DeviceDescriptor) -> (m: ProtocolMessage)
    ensures
        m == ProtocolMessage::DiscoverAnnounce(device),
{
    ProtocolMessage::DiscoverAnnounce(device)
}

pub fn pair_request_message(request: PairingRequest) -> (m: ProtocolMessage)
    ensures
        m == (ProtocolMessage::PairRequest {
            device: request.requester,
            pairing_code: request.pairing_code,
        }),
{
    ProtocolMessage::PairRequest { device: request.requester, pairing_code: request.pairing_code }
}

/// The identity a remote descriptor stands for, under the identifier `id`.
pub open spec fn remote_identity(d: DeviceDescriptor, id: u128) -> DeviceIdentity {
    DeviceIdentity {
        device_id: id,
        display_name: d.display_name,
        platform: d.platform,
        created_at_unix_ms: 0,
    }
}

fn remote_identity_of(d: &DeviceDescriptor, id: u128) -> (identity: DeviceIdentity)
    ensures
        identity == remote_identity(*d, id),
{
    DeviceIdentity {
        device_id: id,
        display_name: d.display_name.clone(),
        platform: d.platform.clone(),
        created_at_unix_ms: 0,
    }
}

fn remote_certificate_of(d: &DeviceDescriptor, id: u128) -> (certificate: DeviceCertificate)
    ensures
        certificate.subject_device_id == id,
        certificate.fingerprint_sha256 == d.fingerprint_sha256,
        certificate.certificate_pem == d.certificate_pem,
        certificate.issued_at_unix_ms == 0,
{
    DeviceCertificate {
        subject_device_id: id,
        algorithm: String::from_str("remote"),
        issued_at_unix_ms: 0,
        fingerprint_sha256: d.fingerprint_sha256.clone(),
        certificate_pem: d.certificate_pem.clone(),
        private_key_pem: String::new(),
    }
}

/// Answers a pairing request at `now`. Accepting trusts the requester
/// under the certificate it presented and answers `PairAccept`; rejecting
/// changes nothing and answers `PairReject` with the reason.
pub fn process_pairing_request(
    store: &mut TrustStore,
    request: PairingRequest,
    decision: PairingDecision,
    now: u128,
) -> (r: Result<PairingResult, SessionError>)
    ensures
        match decision {
            PairingDecision::Reject { reason } => final(store).devices@ == old(store).devices@
                && r == Ok::<PairingResult, SessionError>(
                PairingResult {
                    trusted_device: None,
                    message: ProtocolMessage::PairReject {
                        device_id: request.requester.device_id,
                        reason,
                    },
                },
            ),
            PairingDecision::Accept => match uuid_parse(request.requester.device_id@) {
                None => final(store).devices@ == old(store).devices@ && r == Err::<
                    PairingResult,
                    SessionError,
                >(SessionError::InvalidDeviceId),
                Some(id) => {
                    let trusted = TrustedDevice {
                        device_id: id,
                        display_name: request.requester.display_name,
                        platform: request.requester.platform,
                        certificate_fingerprint_sha256: request.requester.fingerprint_sha256,
                        paired_at_unix_ms: now,
                        last_seen_unix_ms: Some(now),
                        revoked_at_unix_ms: None,
                    };
                    &&& final(store).devices@ == upserted(old(store).devices@, trusted)
                    &&& r == Ok::<PairingResult, SessionError>(
                        PairingResult {
                            trusted_device: Some(trusted),
                            message: ProtocolMessage::PairAccept {
                                device_id: request.requester.device_id,
                            },
                        },
                    )
                },
            },
        },
{
    match decision {
        PairingDecision::Accept => {
            let id = match parse_uuid(request.requester.device_id.as_str()) {
                Some(id) => id,
                None => {
                    return Err(SessionError::InvalidDeviceId);
                },
            };
            let identity = remote_identity_of(&request.requester, id);
            let certificate = remote_certificate_of(&request.requester, id);
            let trusted = trust_device(store, &identity, &certificate, now);
            Ok(
                PairingResult {
                    trusted_device: Some(trusted),
                    message: ProtocolMessage::PairAccept { device_id: request.requester.device_id },
                },
            )
        },
        PairingDecision::Reject { reason } => Ok(
            PairingResult {
                trusted_device: None,
                message: ProtocolMessage::PairReject {
                    device_id: request.requester.device_id,
                    reason,
                },
            },
        ),
    }
}

/// Whether a session with the device a descriptor stands for may be
/// opened: its certificate must hash to the fingerprint it claims, its
/// identifier must parse, and the store must trust it under that
/// fingerprint.
pub open spec fn remote_session_verdict(devices: Seq<TrustedDevice>, d: DeviceDescriptor) -> Result<
    u128,
    SessionError,
> {
    if sha256_hex_text(encode_utf8(d.certificate_pem@)) != d.fingerprint_sha256@ {
        Err(SessionError::FingerprintMismatch)
    } else {
        match uuid_parse(d.device_id@) {
            None => Err(SessionError::InvalidDeviceId),
            Some(id) => match trust_verdict_for(devices, id, d.fingerprint_sha256@) {
                Err(e) => Err(SessionError::Trust(e)),
                Ok(_) => Ok(id),
            },
        }
    }
}

/// Checks a remote device before a session is opened, and describes it as
/// trusted where it passes.
pub fn validate_remote_session(store: &TrustStore, descriptor: &DeviceDescriptor) -> (r: Result<
    TrustedDevice,
    SessionError,
>)
    ensures
        match remote_session_verdict(store.devices@, *descriptor) {
            Err(e) => r == Err::<TrustedDevice, SessionError>(e),
            Ok(id) => r == Ok::<TrustedDevice, SessionError>(
                TrustedDevice {
                    device_id: id,
                    display_name: descriptor.display_name,
                    platform: descriptor.platform,
                    certificate_fingerprint_sha256: descriptor.fingerprint_sha256,
                    paired_at_unix_ms: 0,
                    last_seen_unix_ms: None,
                    revoked_at_unix_ms: None,
                },
            ),
        },
{
    let derived = certificate_fingerprint_sha256(descriptor.certificate_pem.as_str());
    if derived != descriptor.fingerprint_sha256 {
        return Err(SessionError::FingerprintMismatch);
    }
    let id = match parse_uuid(descriptor.device_id.as_str()) {
        Some(id) => id,
        None => {
            return Err(SessionError::InvalidDeviceId);
        },
    };
    let identity = remote_identity_of(descriptor, id);
    let certificate = remote_certificate_of(descriptor, id);
    match validate_trust(store, &identity, &certificate) {
        Err(e) => Err(SessionError::Trust(e)),
        Ok(()) => Ok(
            TrustedDevice {
                device_id: id,
                display_name: identity.display_name,
                platform: identity.platform,
                certificate_fingerprint_sha256: descriptor.fingerprint_sha256.clone(),
                paired_at_unix_ms: 0,
                last_seen_unix_ms: None,
                revoked_at_unix_ms: None,
            },
        ),
    }
}

pub fn heartbeat_message(device_id: u128, sequence: u64) -> (m: ProtocolMessage)
    ensures
        m matches ProtocolMessage::SessionHeartbeat { device_id: text, sequence: s } && text@
            == uuid_text(device_id) && s == sequence,
{
    ProtocolMessage::SessionHeartbeat { device_id: uuid_string(device_id), sequence }
}

pub fn resume_message(device_id: u128, session_id: u128) -> (m: ProtocolMessage)
    ensures
        m matches ProtocolMessage::SessionResume { device_id: d, session_id: s } && d@ == uuid_text(
            device_id,
        ) && s@ == uuid_text(session_id),
{
    ProtocolMessage::SessionResume {
        device_id: uuid_string(device_id),
        session_id: uuid_string(session_id),
    }
}

/// The wait before reconnect attempt `attempt`: the default backoff times
/// the attempt, attempt 0 counting as the first.
pub open spec fn backoff_for_attempt(attempt: u32) -> u64 {
    let n: u64 = if attempt > 1 {
        attempt as u64
    } else {
        1
    };
    (DEFAULT_RECONNECT_BACKOFF_MS * n) as u64
}

fn backoff_ms(attempt: u32) -> (ms: u64)
    ensures
        ms == backoff_for_attempt(attempt),
        ms == DEFAULT_RECONNECT_BACKOFF_MS * (if attempt > 1 {
            attempt as int
        } else {
            1
        }),
{
    let n: u64 = if attempt > 1 {
        attempt as u64
    } else {
        1
    };
    DEFAULT_RECONNECT_BACKOFF_MS * n
}

pub fn next_reconnect_state(peer_device_id: u128, attempt: u32) -> (s: SessionConnectionState)
    ensures
        s == (SessionConnectionState::Reconnecting {
            peer_device_id,
            attempt,
            backoff_ms: backoff_for_attempt(attempt),
        }),
{
    SessionConnectionState::Reconnecting { peer_device_id, attempt, backoff_ms: backoff_ms(attempt) }
}

/// How a trusted device is shown: revoked, online where seen within
/// `offline_after_ms` of `now`, offline otherwise.
pub open spec fn managed_status(d: TrustedDevice, now: u128, offline_after_ms: u64) -> ManagedDeviceStatus {
    if d.revoked_at_unix_ms is Some {
        ManagedDeviceStatus::Revoked
    } else {
        match d.last_seen_unix_ms {
            Some(seen) => if now - seen <= offline_after_ms {
                ManagedDeviceStatus::Online
            } else {
                ManagedDeviceStatus::Offline
            },
            None => ManagedDeviceStatus::Offline,
        }
    }
}

/// The managed view of one trusted device.
pub open spec fn managed_view(d: TrustedDevice, now: u128, offline_after_ms: u64) -> ManagedDevice {
    ManagedDevice {
        device_id: d.device_id,
        display_name: d.display_name,
        platform: d.platform,
        status: managed_status(d, now, offline_after_ms),
        last_seen_unix_ms: d.last_seen_unix_ms,
        reconnect_attempt: 0,
        next_retry_after_ms: 0,
    }
}

fn managed_device(d: &TrustedDevice, now_unix_ms: u128, offline_after_ms: u64) -> (m: ManagedDevice)
    ensures
        m == managed_view(*d, now_unix_ms, offline_after_ms),
{
    let status = if d.revoked_at_unix_ms.is_some() {
        ManagedDeviceStatus::Revoked
    } else {
        match d.last_seen_unix_ms {
            Some(seen) => {
                let age = now_unix_ms.saturating_sub(seen);
                if age <= offline_after_ms as u128 {
                    ManagedDeviceStatus::Online
                } else {
                    ManagedDeviceStatus::Offline
                }
            },
            None => ManagedDeviceStatus::Offline,
        }
    };
    ManagedDevice {
        device_id: d.device_id,
        display_name: d.display_name.clone(),
        platform: d.platform.clone(),
        status,
        last_seen_unix_ms: d.last_seen_unix_ms,
        reconnect_attempt: 0,
        next_retry_after_ms: 0,
    }
}

/// The devices of the store that are not revoked, in order, with their
/// status.
pub open spec fn active_managed(devices: Seq<TrustedDevice>, now: u128, offline_after_ms: u64) -> Seq<
    ManagedDevice,
>
    decreases devices.len(),
{
    if devices.len() == 0 {
        Seq::empty()
    } else {
        let rest = active_managed(devices.drop_last(), now, offline_after_ms);
        if devices.last().revoked_at_unix_ms is None {
            rest.push(managed_view(devices.last(), now, offline_after_ms))
        } else {
            rest
        }
    }
}

/// The trusted devices of the store that are not revoked, in order, with
/// their status.
pub fn managed_devices_from_trust_store(
    trust_store: &TrustStore,
    now_unix_ms: u128,
    offline_after_ms: u64,
) -> (devices: Vec<ManagedDevice>)
    ensures
        devices@ == active_managed(trust_store.devices@, now_unix_ms, offline_after_ms),
{
    let ghost all = trust_store.devices@;
    let mut devices: Vec<ManagedDevice> = Vec::new();
    let mut i: usize = 0;
    while i < trust_store.devices.len()
        invariant
            all == trust_store.devices@,
            i <= all.len(),
            devices@ == active_managed(all.take(i as int), now_unix_ms, offline_after_ms),
        decreases all.len() - i,
    {
        assert(all.take(i as int + 1).drop_last() =~= all.take(i as int));
        assert(all.take(i as int + 1).last() == all[i as int]);
        if trust_store.devices[i].revoked_at_unix_ms.is_none() {
            devices.push(managed_device(&trust_store.devices[i], now_unix_ms, offline_after_ms));
        }
        i += 1;
    }
    assert(all.take(all.len() as int) =~= all);
    devices
}

/// Every trusted device of the store, revoked ones included, in order,
/// with its status.
fn all_managed_devices(trust_store: &TrustStore, now_unix_ms: u128, offline_after_ms: u64) -> (devices:
    Vec<ManagedDevice>)
    ensures
        devices@.len() == trust_store.devices@.len(),
        forall|i: int|
            0 <= i < devices@.len() ==> #[trigger] devices@[i] == managed_view(
                trust_store.devices@[i],
                now_unix_ms,
                offline_after_ms,
            ),
{
    let mut devices: Vec<ManagedDevice> = Vec::new();
    let mut i: usize = 0;
    while i < trust_store.devices.len()
        invariant
            i <= trust_store.devices@.len(),
            devices@.len() == i,
            forall|j: int|
                0 <= j < i ==> #[trigger] devices@[j] == managed_view(
                    trust_store.devices@[j],
                    now_unix_ms,
                    offline_after_ms,
                ),
        decreases trust_store.devices@.len() - i,
    {
        devices.push(managed_device(&trust_store.devices[i], now_unix_ms, offline_after_ms));
        i += 1;
    }
    devices
}

/// A recovery scan lists every trusted device, revoked ones marked so.
pub fn recovery_scan_from_trust_store(
    trust_store: &TrustStore,
    now_unix_ms: u128,
    offline_after_ms: u64,
) -> (scan: RecoveryScan)
    ensures
        scan.now_unix_ms == now_unix_ms,
        scan.offline_after_ms == offline_after_ms,
        scan.devices@.len() == trust_store.devices@.len(),
        forall|i: int|
            0 <= i < scan.devices@.len() ==> #[trigger] scan.devices@[i] == managed_view(
                trust_store.devices@[i],
                now_unix_ms,
                offline_after_ms,
            ),
{
    RecoveryScan {
        now_unix_ms,
        offline_after_ms,
        devices: all_managed_devices(trust_store, now_unix_ms, offline_after_ms),
    }
}

fn copy_managed_device(d: &ManagedDevice) -> (r: ManagedDevice)
    ensures
        r == *d,
{
    ManagedDevice {
        device_id: d.device_id,
        display_name: d.display_name.clone(),
        platform: d.platform.clone(),
        status: d.status,
        last_seen_unix_ms: d.last_seen_unix_ms,
        reconnect_attempt: d.reconnect_attempt,
        next_retry_after_ms: d.next_retry_after_ms,
    }
}

/// A device waiting for reconnect attempt `attempt`, with its backoff.
pub fn schedule_device_reconnect(device: &ManagedDevice, attempt: u32) -> (r: ManagedDevice)
    ensures
        r == (ManagedDevice {
            status: ManagedDeviceStatus::Reconnecting,
            reconnect_attempt: attempt,
            next_retry_after_ms: backoff_for_attempt(attempt),
            ..*device
        }),
{
    let mut r = copy_managed_device(device);
    r.status = ManagedDeviceStatus::Reconnecting;
    r.reconnect_attempt = attempt;
    r.next_retry_after_ms = backoff_ms(attempt);
    r
}

/// What a repair action makes of a device at `now`.
pub open spec fn repaired(device: ManagedDevice, action: DeviceRepairAction, now: u128) -> ManagedDevice {
    match action {
        DeviceRepairAction::MarkOnline => ManagedDevice {
            status: ManagedDeviceStatus::Online,
            last_seen_unix_ms: Some(now),
            reconnect_attempt: 0,
            next_retry_after_ms: 0,
            ..device
        },
        DeviceRepairAction::RetryNow => ManagedDevice {
            status: ManagedDeviceStatus::Reconnecting,
            reconnect_attempt: if device.reconnect_attempt == u32::MAX {
                u32::MAX
            } else {
                (device.reconnect_attempt + 1) as u32
            },
            next_retry_after_ms: 0,
            ..device
        },
        DeviceRepairAction::Revoke => ManagedDevice {
            status: ManagedDeviceStatus::Revoked,
            reconnect_attempt: 0,
            next_retry_after_ms: 0,
            ..device
        },
    }
}

pub fn apply_device_repair(device: &ManagedDevice, action: DeviceRepairAction, now_unix_ms: u128) -> (r:
    ManagedDevice)
    ensures
        r == repaired(*device, action, now_unix_ms),
{
    let mut r = copy_managed_device(device);
    match action {
        DeviceRepairAction::MarkOnline => {
            r.status = ManagedDeviceStatus::Online;
            r.last_seen_unix_ms = Some(now_unix_ms);
            r.reconnect_attempt = 0;
            r.next_retry_after_ms = 0;
        },
        DeviceRepairAction::RetryNow => {
            r.status = ManagedDeviceStatus::Reconnecting;
            r.reconnect_attempt = device.reconnect_attempt.saturating_add(1);
            r.next_retry_after_ms = 0;
        },
        DeviceRepairAction::Revoke => {
            r.status = ManagedDeviceStatus::Revoked;
            r.reconnect_attempt = 0;
            r.next_retry_after_ms = 0;
        },
    }
    r
}

/// Once a pairing request is accepted, a session with the requester
/// validates, provided its descriptor is genuine: the certificate hashes to
/// the fingerprint claimed and the identifier parses.
pub proof fn lemma_accepted_pairing_validates(
    devices: Seq<TrustedDevice>,
    d: DeviceDescriptor,
    id: u128,
    now: u128,
)
    requires
        sha256_hex_text(encode_utf8(d.certificate_pem@)) == d.fingerprint_sha256@,
        uuid_parse(d.device_id@) == Some(id),
    ensures
        remote_session_verdict(
            upserted(
                devices,
                TrustedDevice {
                    device_id: id,
                    display_name: d.display_name,
                    platform: d.platform,
                    certificate_fingerprint_sha256: d.fingerprint_sha256,
                    paired_at_unix_ms: now,
                    last_seen_unix_ms: Some(now),
                    revoked_at_unix_ms: None,
                },
            ),
            d,
        ) == Ok::<u128, SessionError>(id),
{
    let certificate = DeviceCertificate {
        subject_device_id: id,
        algorithm: d.platform,
        issued_at_unix_ms: 0,
        fingerprint_sha256: d.fingerprint_sha256,
        certificate_pem: d.certificate_pem,
        private_key_pem: d.platform,
    };
    lemma_trusted_device_validates(devices, remote_identity(d, id), certificate, now);
}

/// Where identifiers are unique, once a device is revoked a session with it
/// is refused as untrusted.
pub proof fn lemma_revoked_device_blocks_session(
    devices: Seq<TrustedDevice>,
    d: DeviceDescriptor,
    id: u128,
    at: u128,
)
    requires
        unique_ids(devices),
        sha256_hex_text(encode_utf8(d.certificate_pem@)) == d.fingerprint_sha256@,
        uuid_parse(d.device_id@) == Some(id),
    ensures
        remote_session_verdict(revoked(devices, id, at), d) == Err::<u128, SessionError>(
            SessionError::Trust(TrustError::NotTrusted),
        ),
{
    let certificate = DeviceCertificate {
        subject_device_id: id,
        algorithm: d.platform,
        issued_at_unix_ms: 0,
        fingerprint_sha256: d.fingerprint_sha256,
        certificate_pem: d.certificate_pem,
        private_key_pem: d.platform,
    };
    lemma_revoked_device_is_not_trusted(devices, remote_identity(d, id), certificate, at);
}


/// Each repair action resets what it is for and leaves the device's
/// identity alone: retrying now makes the device reconnect at once and
/// counts one more attempt (held at the largest count); marking it online
/// records it as seen now and clears its attempts; revoking it clears its
/// attempts and marks it revoked.
pub proof fn lemma_repair_actions(device: ManagedDevice, now: u128)
    ensures
        ({
            let r = repaired(device, DeviceRepairAction::RetryNow, now);
            &&& r.status == ManagedDeviceStatus::Reconnecting
            &&& r.next_retry_after_ms == 0
            &&& device.reconnect_attempt < u32::MAX ==> r.reconnect_attempt
                == device.reconnect_attempt + 1
            &&& device.reconnect_attempt == u32::MAX ==> r.reconnect_attempt == u32::MAX
            &&& r.reconnect_attempt >= device.reconnect_attempt
            &&& r.device_id == device.device_id
            &&& r.display_name == device.display_name
            &&& r.platform == device.platform
            &&& r.last_seen_unix_ms == device.last_seen_unix_ms
        }),
        ({
            let r = repaired(device, DeviceRepairAction::MarkOnline, now);
            &&& r.status == ManagedDeviceStatus::Online
            &&& r.last_seen_unix_ms == Some(now)
            &&& r.reconnect_attempt == 0
            &&& r.next_retry_after_ms == 0
            &&& r.device_id == device.device_id
        }),
        ({
            let r = repaired(device, DeviceRepairAction::Revoke, now);
            &&& r.status == ManagedDeviceStatus::Revoked
            &&& r.reconnect_attempt == 0
            &&& r.next_retry_after_ms == 0
            &&& r.device_id == device.device_id
        }),
{
}

} // verus!
