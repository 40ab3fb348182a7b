//! Device identities, certificates and the store of trusted devices: who
//! was paired, with which certificate, and who has been revoked since.

use vstd::prelude::*;
use crate::text::{sha256_hex, sha256_hex_text};
use vstd::utf8::encode_utf8;

verus! {

#[derive(Clone, Debug, PartialEq, Eq)]
pub struct DeviceIdentity {
    pub device_id: u128,
    pub display_name: String,
    pub platform: String,
    pub created_at_unix_ms: u128,
}

#[derive(Clone, Debug, PartialEq, Eq)]
pub struct DeviceCertificate {
    pub subject_device_id: u128,
    pub algorithm: String,
    pub issued_at_unix_ms: u128,
    pub fingerprint_sha256: String,
    pub certificate_pem: String,
    pub private_key_pem: String,
}

#[derive(Clone, Debug, PartialEq, Eq)]
pub struct TrustedDevice {
    pub device_id: u128,
    pub display_name: String,
    pub platform: String,
    pub certificate_fingerprint_sha256: String,
    pub paired_at_unix_ms: u128,
    pub last_seen_unix_ms: Option<u128>,
    pub revoked_at_unix_ms: Option<u128>,
}

#[derive(Clone, Debug, PartialEq, Eq)]
pub struct TrustStore {
    pub devices: Vec<TrustedDevice>,
}

impl Default for TrustStore {
    fn default() -> (store: Self)
        ensures
            store.devices@ == Seq::<TrustedDevice>::empty(),
    {
        TrustStore { devices: Vec::new() }
    }
}

/// Why a trust decision goes against a device.
#[derive(Clone, Copy, Debug, PartialEq, Eq, Structural)]
pub enum TrustError {
    /// No device with the identifier is trusted (never paired, or revoked).
    NotTrusted,
    /// The device is trusted, but under another certificate.
    FingerprintMismatch,
    /// No device with the identifier was ever stored.
    NotFound,
}

/// The text `message` gives for each case.
pub open spec fn trust_error_text(e: TrustError) -> Seq<char> {
    match e {
        TrustError::NotTrusted => "device is not trusted"@,
        TrustError::FingerprintMismatch => "certificate fingerprint mismatch"@,
        TrustError::NotFound => "trusted device not found"@,
    }
}
impl TrustError {
    pub fn message(&self) -> (text: String)
        ensures
            text@ == trust_error_text(*self),
    {
        match self {
            TrustError::NotTrusted => String::from_str("device is not trusted"),
            TrustError::FingerprintMismatch => String::from_str("certificate fingerprint mismatch"),
            TrustError::NotFound => String::from_str("trusted device not found"),
        }
    }
}

/// The device has this identifier and, where `active_only`, is not revoked.
pub open spec fn device_matches(d: TrustedDevice, id: u128, active_only: bool) -> bool {
    d.device_id == id && (!active_only || d.revoked_at_unix_ms is None)
}

/// Position of the first stored device that matches.
pub open spec fn first_match(devices: Seq<TrustedDevice>, id: u128, active_only: bool) -> Option<
    int,
>
    decreases devices.len(),
{
    if devices.len() == 0 {
        None
    } else if device_matches(devices[0], id, active_only) {
        Some(0)
    } else {
        match first_match(devices.drop_first(), id, active_only) {
            Some(i) => Some(i + 1),
            None => None,
        }
    }
}

/// `first_match` is the least matching position.
pub proof fn lemma_first_match(devices: Seq<TrustedDevice>, id: u128, active_only: bool)
    ensures
        match first_match(devices, id, active_only) {
            Some(i) => 0 <= i < devices.len() && device_matches(devices[i], id, active_only)
                && forall|j: int|
                0 <= j < i ==> !device_matches(#[trigger] devices[j], id, active_only),
            None => forall|j: int|
                0 <= j < devices.len() ==> !device_matches(#[trigger] devices[j], id, active_only),
        },
    decreases devices.len(),
{
    if devices.len() > 0 && !device_matches(devices[0], id, active_only) {
        let rest = devices.drop_first();
        lemma_first_match(rest, id, active_only);
        match first_match(rest, id, active_only) {
            Some(i) => {
                assert forall|j: int| 0 <= j < i + 1 implies !device_matches(
                    #[trigger] devices[j],
                    id,
                    active_only,
                ) by {
                    if j > 0 {
                        assert(devices[j] == rest[j - 1]);
                    }
                }
            },
            None => {
                assert forall|j: int| 0 <= j < devices.len() implies !device_matches(
                    #[trigger] devices[j],
                    id,
                    active_only,
                ) by {
                    if j > 0 {
                        assert(devices[j] == rest[j - 1]);
                    }
                }
            },
        }
    }
}

/// A position where the device matches and none before it does is the
/// first match.
pub proof fn lemma_first_match_at(devices: Seq<TrustedDevice>, id: u128, active_only: bool, i: int)
    requires
        0 <= i < devices.len(),
        device_matches(devices[i], id, active_only),
        forall|j: int| 0 <= j < i ==> !device_matches(#[trigger] devices[j], id, active_only),
    ensures
        first_match(devices, id, active_only) == Some(i),
{
    lemma_first_match(devices, id, active_only);
    match first_match(devices, id, active_only) {
        Some(k) => {
            if k < i {
                assert(!device_matches(devices[k], id, active_only));
            } else if k > i {
                assert(!device_matches(devices[i], id, active_only));
            }
        },
        None => {
            assert(!device_matches(devices[i], id, active_only));
        },
    }
}

/// The stored devices once `device` is stored: it replaces the first entry
/// with its identifier, or comes last where there is none.
pub open spec fn upserted(devices: Seq<TrustedDevice>, device: TrustedDevice) -> Seq<TrustedDevice> {
    match first_match(devices, device.device_id, false) {
        Some(i) => devices.update(i, device),
        None => devices.push(device),
    }
}

/// The stored devices once the first entry with the identifier is revoked.
pub open spec fn revoked(devices: Seq<TrustedDevice>, id: u128, at: u128) -> Seq<TrustedDevice> {
    match first_match(devices, id, false) {
        Some(i) => devices.update(
            i,
            TrustedDevice { revoked_at_unix_ms: Some(at), ..devices[i] },
        ),
        None => devices,
    }
}

/// Whether the device with this identifier is trusted under this
/// fingerprint: the first unrevoked entry with the identifier must carry it.
pub open spec fn trust_verdict_for(devices: Seq<TrustedDevice>, id: u128, fingerprint: Seq<char>) -> Result<
    (),
    TrustError,
> {
    match first_match(devices, id, true) {
        None => Err(TrustError::NotTrusted),
        Some(i) => if devices[i].certificate_fingerprint_sha256@ != fingerprint {
            Err(TrustError::FingerprintMismatch)
        } else {
            Ok(())
        },
    }
}

/// Whether a device presenting this identity and certificate is trusted.
pub open spec fn trust_verdict(
    devices: Seq<TrustedDevice>,
    identity: DeviceIdentity,
    certificate: DeviceCertificate,
) -> Result<(), TrustError> {
    trust_verdict_for(devices, identity.device_id, certificate.fingerprint_sha256@)
}

/// The entry stored when a device is trusted at `now`.
pub open spec fn trusted_record(
    identity: DeviceIdentity,
    certificate: DeviceCertificate,
    now: u128,
) -> TrustedDevice {
    TrustedDevice {
        device_id: identity.device_id,
        display_name: identity.display_name,
        platform: identity.platform,
        certificate_fingerprint_sha256: certificate.fingerprint_sha256,
        paired_at_unix_ms: now,
        last_seen_unix_ms: Some(now),
        revoked_at_unix_ms: None,
    }
}

/// No two stored devices share an identifier.
pub open spec fn unique_ids(devices: Seq<TrustedDevice>) -> bool {
    forall|i: int, j: int|
        0 <= i < devices.len() && 0 <= j < devices.len() && i != j ==> #[trigger] devices[i].device_id
            != #[trigger] devices[j].device_id
}

/// A copy of a stored device.
pub fn copy_trusted_device(d: &TrustedDevice) -> (r: TrustedDevice)
    ensures
        r == *d,
{
    TrustedDevice {
        device_id: d.device_id,
        display_name: d.display_name.clone(),
        platform: d.platform.clone(),
        certificate_fingerprint_sha256: d.certificate_fingerprint_sha256.clone(),
        paired_at_unix_ms: d.paired_at_unix_ms,
        last_seen_unix_ms: d.last_seen_unix_ms,
        revoked_at_unix_ms: d.revoked_at_unix_ms,
    }
}

fn find_first(devices: &Vec<TrustedDevice>, id: u128, active_only: bool) -> (r: Option<usize>)
    ensures
        match r {
            Some(i) => i < devices@.len() && first_match(devices@, id, active_only) == Some(
                i as int,
            ),
            None => first_match(devices@, id, active_only) is None,
        },
{
    proof {
        lemma_first_match(devices@, id, active_only);
    }
    let mut i: usize = 0;
    while i < devices.len()
        invariant
            i <= devices@.len(),
            forall|j: int| 0 <= j < i ==> !device_matches(#[trigger] devices@[j], id, active_only),
        decreases devices@.len() - i,
    {
        if devices[i].device_id == id && (!active_only || devices[i].revoked_at_unix_ms.is_none()) {
            proof {
                lemma_first_match_at(devices@, id, active_only, i as int);
            }
            return Some(i);
        }
        i += 1;
    }
    proof {
        lemma_first_match(devices@, id, active_only);
        if let Some(k) = first_match(devices@, id, active_only) {
            assert(!device_matches(devices@[k], id, active_only));
        }
    }
    None
}

impl TrustStore {
    /// Stores a device: it replaces the entry with its identifier, or is
    /// added at the end.
    pub fn upsert(&mut self, device: TrustedDevice)
        ensures
            final(self).devices@ == upserted(old(self).devices@, device),
    {
        match find_first(&self.devices, device.device_id, false) {
            Some(i) => {
                self.devices.set(i, device);
            },
            None => {
                self.devices.push(device);
            },
        }
    }

    /// The trusted (unrevoked) device with this identifier, if any.
    pub fn trusted_device(&self, device_id: u128) -> (r: Option<&TrustedDevice>)
        ensures
            match first_match(self.devices@, device_id, true) {
                Some(i) => r == Some(&self.devices@[i]),
                None => r is None,
            },
    {
        match find_first(&self.devices, device_id, true) {
            Some(i) => {
                Some(&self.devices[i])
            },
            None => None,
        }
    }

    /// Marks the device with this identifier revoked at the given time.
    pub fn revoke(&mut self, device_id: u128, revoked_at_unix_ms: u128) -> (r: Result<(), TrustError>)
        ensures
            final(self).devices@ == revoked(old(self).devices@, device_id, revoked_at_unix_ms),
            r is Ok <==> first_match(old(self).devices@, device_id, false) is Some,
            r is Err ==> r == Err::<(), TrustError>(TrustError::NotFound),
    {
        match find_first(&self.devices, device_id, false) {
            Some(i) => {
                let mut entry = copy_trusted_device(&self.devices[i]);
                entry.revoked_at_unix_ms = Some(revoked_at_unix_ms);
                self.devices.set(i, entry);
                Ok(())
            },
            None => Err(TrustError::NotFound),
        }
    }
}

/// Trusts a device under its identity and certificate at `now`: its entry
/// is stored (replacing an earlier one) and returned.
pub fn trust_device(
    store: &mut TrustStore,
    identity: &DeviceIdentity,
    certificate: &DeviceCertificate,
    now: u128,
) -> (trusted: TrustedDevice)
    ensures
        trusted == trusted_record(*identity, *certificate, now),
        final(store).devices@ == upserted(old(store).devices@, trusted),
{
    let trusted = TrustedDevice {
        device_id: identity.device_id,
        display_name: identity.display_name.clone(),
        platform: identity.platform.clone(),
        certificate_fingerprint_sha256: certificate.fingerprint_sha256.clone(),
        paired_at_unix_ms: now,
        last_seen_unix_ms: Some(now),
        revoked_at_unix_ms: None,
    };
    store.upsert(copy_trusted_device(&trusted));
    trusted
}

/// Records that the trusted device with this identifier was seen; false
/// where no such device is trusted.
pub fn update_trusted_device_last_seen(store: &mut TrustStore, device_id: u128, seen_at_unix_ms: u128) -> (found: bool)
    ensures
        found == (first_match(old(store).devices@, device_id, true) is Some),
        match first_match(old(store).devices@, device_id, true) {
            Some(i) => final(store).devices@ == old(store).devices@.update(
                i,
                TrustedDevice { last_seen_unix_ms: Some(seen_at_unix_ms), ..old(store).devices@[i] },
            ),
            None => final(store).devices@ == old(store).devices@,
        },
{
    match find_first(&store.devices, device_id, true) {
        Some(i) => {
            let mut entry = copy_trusted_device(&store.devices[i]);
            entry.last_seen_unix_ms = Some(seen_at_unix_ms);
            store.devices.set(i, entry);
            true
        },
        None => false,
    }
}

/// Checks that the device presenting this identity and certificate is
/// trusted under that certificate.
pub fn validate_trust(
    store: &TrustStore,
    identity: &DeviceIdentity,
    certificate: &DeviceCertificate,
) -> (r: Result<(), TrustError>)
    ensures
        r == trust_verdict(store.devices@, *identity, *certificate),
{
    match store.trusted_device(identity.device_id) {
        None => Err(TrustError::NotTrusted),
        Some(trusted) => {
            if trusted.certificate_fingerprint_sha256 != certificate.fingerprint_sha256 {
                Err(TrustError::FingerprintMismatch)
            } else {
                Ok(())
            }
        },
    }
}

/// The lowercase hexadecimal SHA-256 of a certificate's PEM text.
pub fn certificate_fingerprint_sha256(certificate_pem: &str) -> (fingerprint: String)
    ensures
        fingerprint@ == sha256_hex_text(encode_utf8(certificate_pem@)),
        fingerprint@.len() == 64,
{
    sha256_hex(certificate_pem.as_bytes())
}

/// A device just trusted passes validation with the certificate it was
/// trusted under.
pub proof fn lemma_trusted_device_validates(
    devices: Seq<TrustedDevice>,
    identity: DeviceIdentity,
    certificate: DeviceCertificate,
    now: u128,
)
    ensures
        trust_verdict(
            upserted(devices, trusted_record(identity, certificate, now)),
            identity,
            certificate,
        ) == Ok::<(), TrustError>(()),
{
    let rec = trusted_record(identity, certificate, now);
    let after = upserted(devices, rec);
    let id = identity.device_id;
    lemma_first_match(devices, id, false);
    match first_match(devices, id, false) {
        Some(i) => {
            assert forall|j: int| 0 <= j < i implies !device_matches(#[trigger] after[j], id, true) by {
                assert(after[j] == devices[j]);
                assert(!device_matches(devices[j], id, false));
            }
            lemma_first_match_at(after, id, true, i);
        },
        None => {
            let n = devices.len() as int;
            assert forall|j: int| 0 <= j < n implies !device_matches(#[trigger] after[j], id, true) by {
                assert(after[j] == devices[j]);
                assert(!device_matches(devices[j], id, false));
            }
            lemma_first_match_at(after, id, true, n);
        },
    }
}

/// Trusted under one certificate, a device presenting a certificate with
/// another fingerprint is refused.
pub proof fn lemma_rotated_certificate_is_refused(
    devices: Seq<TrustedDevice>,
    identity: DeviceIdentity,
    certificate: DeviceCertificate,
    presented: DeviceCertificate,
    now: u128,
)
    requires
        presented.fingerprint_sha256@ != certificate.fingerprint_sha256@,
    ensures
        trust_verdict(
            upserted(devices, trusted_record(identity, certificate, now)),
            identity,
            presented,
        ) == Err::<(), TrustError>(TrustError::FingerprintMismatch),
{
    lemma_trusted_device_validates(devices, identity, certificate, now);
}

/// Storing a device keeps identifiers unique.
pub proof fn lemma_upsert_keeps_ids_unique(devices: Seq<TrustedDevice>, device: TrustedDevice)
    requires
        unique_ids(devices),
    ensures
        unique_ids(upserted(devices, device)),
{
    lemma_first_match(devices, device.device_id, false);
    let after = upserted(devices, device);
    match first_match(devices, device.device_id, false) {
        Some(i) => {
            assert forall|a: int, b: int|
                0 <= a < after.len() && 0 <= b < after.len() && a != b implies #[trigger] after[a].device_id
                != #[trigger] after[b].device_id by {
                if a == i {
                    assert(devices[b].device_id != devices[i].device_id);
                } else if b == i {
                    assert(devices[a].device_id != devices[i].device_id);
                } else {
                    assert(devices[a].device_id != devices[b].device_id);
                }
            }
        },
        None => {
            let n = devices.len() as int;
            assert forall|a: int, b: int|
                0 <= a < after.len() && 0 <= b < after.len() && a != b implies #[trigger] after[a].device_id
                != #[trigger] after[b].device_id by {
                if a == n {
                    assert(!device_matches(devices[b], device.device_id, false));
                } else if b == n {
                    assert(!device_matches(devices[a], device.device_id, false));
                } else {
                    assert(devices[a].device_id != devices[b].device_id);
                }
            }
        },
    }
}

/// Where identifiers are unique, a revoked device is no longer trusted.
pub proof fn lemma_revoked_device_is_not_trusted(
    devices: Seq<TrustedDevice>,
    identity: DeviceIdentity,
    certificate: DeviceCertificate,
    at: u128,
)
    requires
        unique_ids(devices),
    ensures
        trust_verdict(revoked(devices, identity.device_id, at), identity, certificate) == Err::<
            (),
            TrustError,
        >(TrustError::NotTrusted),
{
    let id = identity.device_id;
    let after = revoked(devices, id, at);
    lemma_first_match(devices, id, false);
    lemma_first_match(after, id, true);
    match first_match(after, id, true) {
        Some(k) => {
            match first_match(devices, id, false) {
                Some(i) => {
                    if k == i {
                        assert(after[k].revoked_at_unix_ms == Some(at));
                    } else {
                        assert(after[k] == devices[k]);
                        assert(devices[k].device_id != devices[i].device_id);
                    }
                },
                None => {
                    assert(after[k] == devices[k]);
                },
            }
        },
        None => {},
    }
}

} // verus!
