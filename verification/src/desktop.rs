//! Decisions of the desktop shell: test images, repair actions, pairing
//! codes and manually entered peers, whether a host is this machine, and
//! the conversions between the peer records it keeps.

use vstd::prelude::*;
use crate::foundation::{CachedPeerDescriptor, DiagnosticMetric, DiscoveryPeer, PendingPairingRequest};
use crate::primitives::{
    decimal_string, decimal_text, hex_char, lowercase_text, lowercased, push_char, trim_text, trimmed,
};
use crate::protocol::DeviceDescriptor;
use crate::session::{DeviceRepairAction, ManagedDevice, ManagedDeviceStatus};
use crate::text::{ascii_lower_text, chars_of, text_of, to_ascii_lowercase};

verus! {

/// Why a request of the desktop shell is refused.
#[derive(Clone, Copy, Debug, PartialEq, Eq, Structural)]
pub enum DesktopError {
    ZeroImageDimensions,
    ImageTooLarge,
}

/// The text `message` gives for each case.
pub open spec fn desktop_error_text(e: DesktopError) -> Seq<char> {
    match e {
        DesktopError::ZeroImageDimensions => "image dimensions must be non-zero"@,
        DesktopError::ImageTooLarge => "image dimensions exceed platform capacity"@,
    }
}
impl DesktopError {
    pub fn message(&self) -> (text: String)
        ensures
            text@ == desktop_error_text(*self),
    {
        match self {
            DesktopError::ZeroImageDimensions => String::from_str("image dimensions must be non-zero"),
            DesktopError::ImageTooLarge => String::from_str("image dimensions exceed platform capacity"),
        }
    }
}

/// Byte `k` of the test image: blue, green and red follow the pixel index
/// modulo 251 (times 1, 3 and 7), alpha is opaque.
pub open spec fn test_image_byte(k: int) -> u8 {
    let i = k / 4;
    if k % 4 == 0 {
        (i % 251) as u8
    } else if k % 4 == 1 {
        ((3 * i) % 251) as u8
    } else if k % 4 == 2 {
        ((7 * i) % 251) as u8
    } else {
        255
    }
}

/// A test image of `width` by `height` BGRA pixels with a fixed pattern.
pub fn deterministic_bgra_image(width: u32, height: u32) -> (r: Result<Vec<u8>, DesktopError>)
    requires
        width as int * height as int > usize::MAX || width as int * height as int * 4
            <= usize::MAX,
    ensures
        width == 0 || height == 0 ==> r == Err::<Vec<u8>, DesktopError>(
            DesktopError::ZeroImageDimensions,
        ),
        width > 0 && height > 0 && width as int * height as int > usize::MAX ==> r == Err::<
            Vec<u8>,
            DesktopError,
        >(DesktopError::ImageTooLarge),
        width > 0 && height > 0 && width as int * height as int <= usize::MAX ==> (r matches Ok(
            bytes,
        ) && bytes@.len() == 4 * width * height && forall|k: int|
            0 <= k < bytes@.len() ==> #[trigger] bytes@[k] == test_image_byte(k)),
{
    if width == 0 || height == 0 {
        return Err(DesktopError::ZeroImageDimensions);
    }
    let w = width as usize;
    let h = height as usize;
    let pixels = match w.checked_mul(h) {
        Some(p) => p,
        None => {
            return Err(DesktopError::ImageTooLarge);
        },
    };
    let mut bytes: Vec<u8> = Vec::new();
    let mut index: usize = 0;
    while index < pixels
        invariant
            pixels == width * height,
            pixels * 4 <= usize::MAX,
            index <= pixels,
            bytes@.len() == 4 * index,
            forall|k: int| 0 <= k < bytes@.len() ==> #[trigger] bytes@[k] == test_image_byte(k),
        decreases pixels - index,
    {
        let m = index % 251;
        let ghost i = index as int;
        assert((3 * i) % 251 == (3 * m) % 251) by (nonlinear_arith)
            requires
                m == i % 251,
                i >= 0,
        ;
        assert((7 * i) % 251 == (7 * m) % 251) by (nonlinear_arith)
            requires
                m == i % 251,
                i >= 0,
        ;
        let base = bytes.len();
        bytes.push(m as u8);
        bytes.push(((m * 3) % 251) as u8);
        bytes.push(((m * 7) % 251) as u8);
        bytes.push(255u8);
        assert forall|k: int| 0 <= k < bytes@.len() implies #[trigger] bytes@[k] == test_image_byte(k) by {
            if k >= base {
                assert(k / 4 == i) by (nonlinear_arith)
                    requires
                        base == 4 * i,
                        base <= k < base + 4,
                ;
                assert(k % 4 == k - base) by (nonlinear_arith)
                    requires
                        base == 4 * i,
                        base <= k < base + 4,
                ;
            }
        }
        index += 1;
    }
    assert(4 * width * height == 4 * pixels) by (nonlinear_arith)
        requires
            pixels == width * height,
    ;
    Ok(bytes)
}

/// The repair action a command names.
pub open spec fn repair_action_named(name: Seq<char>) -> Option<DeviceRepairAction> {
    if name == "mark_online"@ {
        Some(DeviceRepairAction::MarkOnline)
    } else if name == "retry_now"@ {
        Some(DeviceRepairAction::RetryNow)
    } else if name == "revoke"@ {
        Some(DeviceRepairAction::Revoke)
    } else {
        None
    }
}

/// Reads a repair action; an unknown name is refused with a message that
/// names it.
pub fn parse_device_repair_action(action: &str) -> (r: Result<DeviceRepairAction, String>)
    ensures
        match repair_action_named(action@) {
            Some(a) => r == Ok::<DeviceRepairAction, String>(a),
            None => r matches Err(text) && text@ == "unknown repair action: "@ + action@,
        },
{
    let name = action.to_owned();
    if name == String::from_str("mark_online") {
        Ok(DeviceRepairAction::MarkOnline)
    } else if name == String::from_str("retry_now") {
        Ok(DeviceRepairAction::RetryNow)
    } else if name == String::from_str("revoke") {
        Ok(DeviceRepairAction::Revoke)
    } else {
        let mut text = String::from_str("unknown repair action: ");
        text.append(action);
        Err(text)
    }
}

/// A diagnostic metric.
pub fn metric(name: &str, value: &str, status: &str) -> (m: DiagnosticMetric)
    ensures
        m.name@ == name@,
        m.value@ == value@,
        m.status@ == status@,
{
    DiagnosticMetric { name: name.to_owned(), value: value.to_owned(), status: status.to_owned() }
}

/// The descriptor of the device behind a pending pairing request.
pub fn pending_request_descriptor(request: &PendingPairingRequest) -> (d: DeviceDescriptor)
    ensures
        d == (DeviceDescriptor {
            device_id: request.device_id,
            display_name: request.display_name,
            platform: request.platform,
            address: request.address,
            port: request.port,
            fingerprint_sha256: request.fingerprint_sha256,
            certificate_pem: request.certificate_pem,
        }),
{
    DeviceDescriptor {
        device_id: request.device_id.clone(),
        display_name: request.display_name.clone(),
        platform: request.platform.clone(),
        address: request.address.clone(),
        port: request.port,
        fingerprint_sha256: request.fingerprint_sha256.clone(),
        certificate_pem: request.certificate_pem.clone(),
    }
}

/// The descriptor of a discovered peer.
pub fn discovery_peer_to_descriptor(peer: &DiscoveryPeer) -> (d: DeviceDescriptor)
    ensures
        d == (DeviceDescriptor {
            device_id: peer.device_id,
            display_name: peer.display_name,
            platform: peer.platform,
            address: peer.address,
            port: peer.port,
            fingerprint_sha256: peer.fingerprint_sha256,
            certificate_pem: peer.certificate_pem,
        }),
{
    DeviceDescriptor {
        device_id: peer.device_id.clone(),
        display_name: peer.display_name.clone(),
        platform: peer.platform.clone(),
        address: peer.address.clone(),
        port: peer.port,
        fingerprint_sha256: peer.fingerprint_sha256.clone(),
        certificate_pem: peer.certificate_pem.clone(),
    }
}

/// The cache entry of a peer descriptor, stamped `now`.
pub fn descriptor_to_cached_peer(descriptor: &DeviceDescriptor, now_unix_ms: u128) -> (c:
    CachedPeerDescriptor)
    ensures
        c == (CachedPeerDescriptor {
            device_id: descriptor.device_id,
            display_name: descriptor.display_name,
            platform: descriptor.platform,
            address: descriptor.address,
            port: descriptor.port,
            fingerprint_sha256: descriptor.fingerprint_sha256,
            certificate_pem: descriptor.certificate_pem,
            updated_at_unix_ms: now_unix_ms,
        }),
{
    CachedPeerDescriptor {
        device_id: descriptor.device_id.clone(),
        display_name: descriptor.display_name.clone(),
        platform: descriptor.platform.clone(),
        address: descriptor.address.clone(),
        port: descriptor.port,
        fingerprint_sha256: descriptor.fingerprint_sha256.clone(),
        certificate_pem: descriptor.certificate_pem.clone(),
        updated_at_unix_ms: now_unix_ms,
    }
}

/// The descriptor of a cached peer.
pub fn cached_peer_to_descriptor(peer: &CachedPeerDescriptor) -> (d: DeviceDescriptor)
    ensures
        d == (DeviceDescriptor {
            device_id: peer.device_id,
            display_name: peer.display_name,
            platform: peer.platform,
            address: peer.address,
            port: peer.port,
            fingerprint_sha256: peer.fingerprint_sha256,
            certificate_pem: peer.certificate_pem,
        }),
{
    DeviceDescriptor {
        device_id: peer.device_id.clone(),
        display_name: peer.display_name.clone(),
        platform: peer.platform.clone(),
        address: peer.address.clone(),
        port: peer.port,
        fingerprint_sha256: peer.fingerprint_sha256.clone(),
        certificate_pem: peer.certificate_pem.clone(),
    }
}

/// A text without its dashes.
pub open spec fn without_dashes(s: Seq<char>) -> Seq<char>
    decreases s.len(),
{
    if s.len() == 0 {
        s
    } else if s.last() == '-' {
        without_dashes(s.drop_last())
    } else {
        without_dashes(s.drop_last()).push(s.last())
    }
}

/// The suffix a manual pairing code gives a peer: the code without dashes
/// in lowercase, or `manual` for an empty one.
pub open spec fn manual_suffix(code: Seq<char>) -> Seq<char> {
    let normalized = lowercased(without_dashes(code));
    if normalized.len() == 0 {
        "manual"@
    } else {
        normalized
    }
}

/// A text padded with leading zeros to at least twelve characters.
pub open spec fn padded_to_twelve(s: Seq<char>) -> Seq<char> {
    if s.len() >= 12 {
        s
    } else {
        Seq::new((12 - s.len()) as nat, |i: int| '0') + s
    }
}

/// The number of bytes of a character in UTF-8.
pub open spec fn utf8_width(c: char) -> int {
    if (c as u32) < 0x80 {
        1
    } else if (c as u32) < 0x800 {
        2
    } else if (c as u32) < 0x10000 {
        3
    } else {
        4
    }
}

/// How many leading characters of `s` take exactly `n` bytes in UTF-8;
/// none where byte `n` falls inside a character or beyond the text.
pub open spec fn chars_in_bytes(s: Seq<char>, n: int) -> Option<int>
    decreases s.len(),
{
    if n == 0 {
        Some(0)
    } else if n < 0 || s.len() == 0 {
        None
    } else {
        match chars_in_bytes(s.drop_first(), n - utf8_width(s[0])) {
            Some(k) => Some(k + 1),
            None => None,
        }
    }
}

/// The last part of the identifier a manual pairing code gives a peer:
/// the first twelve bytes of its suffix padded to twelve characters, where
/// those bytes end on a character boundary.
pub open spec fn manual_id_tail(code: Seq<char>) -> Option<Seq<char>> {
    let padded = padded_to_twelve(manual_suffix(code));
    match chars_in_bytes(padded, 12) {
        Some(k) => Some(padded.take(k)),
        None => None,
    }
}

fn manual_suffix_of(code: &str) -> (suffix: Vec<char>)
    ensures
        suffix@ == manual_suffix(code@),
{
    let chars = chars_of(code);
    let mut kept: Vec<char> = Vec::new();
    let mut i: usize = 0;
    while i < chars.len()
        invariant
            chars@ == code@,
            i <= chars@.len(),
            kept@ == without_dashes(chars@.take(i as int)),
        decreases chars@.len() - i,
    {
        let c = chars[i];
        assert(chars@.take(i as int + 1).drop_last() =~= chars@.take(i as int));
        assert(chars@.take(i as int + 1).last() == c);
        if c != '-' {
            kept.push(c);
        }
        i += 1;
    }
    assert(chars@.take(chars@.len() as int) =~= chars@);
    let joined = text_of(kept.as_slice());
    let lower = lowercase_text(joined.as_str());
    let normalized = chars_of(lower.as_str());
    if normalized.len() == 0 {
        proof {
            reveal_strlit("manual");
        }
        let word = chars_of("manual");
        return word;
    }
    normalized
}

fn padded_to_twelve_of(s: Vec<char>) -> (out: Vec<char>)
    ensures
        out@ == padded_to_twelve(s@),
{
    if s.len() >= 12 {
        return s;
    }
    let pad = 12 - s.len();
    let mut out: Vec<char> = Vec::new();
    let mut i: usize = 0;
    while i < pad
        invariant
            pad == 12 - s@.len(),
            i <= pad,
            out@ == Seq::new(i as nat, |j: int| '0'),
        decreases pad - i,
    {
        out.push('0');
        i += 1;
        assert(out@ =~= Seq::new(i as nat, |j: int| '0'));
    }
    let mut j: usize = 0;
    while j < s.len()
        invariant
            pad == 12 - s@.len(),
            j <= s@.len(),
            out@ == Seq::new(pad as nat, |k: int| '0') + s@.take(j as int),
        decreases s@.len() - j,
    {
        assert(s@.take(j as int + 1) =~= s@.take(j as int).push(s@[j as int]));
        out.push(s[j]);
        j += 1;
        assert(out@ =~= Seq::new(pad as nat, |k: int| '0') + s@.take(j as int));
    }
    assert(s@.take(s@.len() as int) =~= s@);
    out
}

fn utf8_width_of(c: char) -> (w: usize)
    ensures
        w == utf8_width(c),
{
    let code: u32 = c as u32;
    if code < 0x80 {
        1
    } else if code < 0x800 {
        2
    } else if code < 0x10000 {
        3
    } else {
        4
    }
}

proof fn lemma_chars_in_bytes_bound(s: Seq<char>, n: int)
    ensures
        chars_in_bytes(s, n) matches Some(k) ==> 0 <= k <= s.len(),
    decreases s.len(),
{
    if n != 0 && !(n < 0 || s.len() == 0) {
        lemma_chars_in_bytes_bound(s.drop_first(), n - utf8_width(s[0]));
    }
}

proof fn lemma_chars_in_bytes_step(s: Seq<char>, i: int, n: int)
    requires
        0 <= i < s.len(),
        n > 0,
    ensures
        chars_in_bytes(s.skip(i), n) == match chars_in_bytes(s.skip(i + 1), n - utf8_width(s[i])) {
            Some(k) => Some(k + 1),
            None => None::<int>,
        },
{
    assert(s.skip(i).drop_first() =~= s.skip(i + 1));
    assert(s.skip(i)[0] == s[i]);
}

/// The number of leading characters of `s` that take exactly `n` bytes.
fn chars_in_bytes_of(s: &Vec<char>, n: usize) -> (r: Option<usize>)
    ensures
        match r {
            Some(k) => chars_in_bytes(s@, n as int) == Some(k as int),
            None => chars_in_bytes(s@, n as int) is None,
        },
{
    let mut i: usize = 0;
    let mut used: usize = 0;
    assert(s@.skip(0) =~= s@);
    while i < s.len() && used < n
        invariant
            i <= s@.len(),
            used <= n,
            chars_in_bytes(s@, n as int) == match chars_in_bytes(s@.skip(i as int), n - used) {
                Some(k) => Some(k + i),
                None => None::<int>,
            },
        decreases s@.len() - i,
    {
        proof {
            lemma_chars_in_bytes_step(s@, i as int, n - used);
        }
        let w = utf8_width_of(s[i]);
        if w > n - used {
            proof {
                assert(chars_in_bytes(s@.skip(i as int + 1), n - used - w) is None);
            }
            return None;
        }
        used = used + w;
        i = i + 1;
    }
    if used == n {
        Some(i)
    } else {
        assert(s@.skip(i as int).len() == 0);
        None
    }
}

/// The last part of the identifier a manual pairing code gives a peer,
/// where its twelve bytes end on a character boundary.
pub fn manual_id_tail_of(pairing_code: &str) -> (tail: Option<String>)
    ensures
        match manual_id_tail(pairing_code@) {
            Some(t) => tail matches Some(s) && s@ == t,
            None => tail is None,
        },
{
    let padded = padded_to_twelve_of(manual_suffix_of(pairing_code));
    match chars_in_bytes_of(&padded, 12) {
        Some(k) => {
            proof {
                lemma_chars_in_bytes_bound(padded@, 12);
            }
            let piece = vstd::slice::slice_subrange(padded.as_slice(), 0, k);
            assert(piece@ =~= padded@.take(k as int));
            Some(text_of(piece))
        },
        None => None,
    }
}

/// The descriptor under which a controller entered by hand is known before
/// it answers: its identifier ends in the pairing code, its certificate
/// and fingerprint are placeholders naming the endpoint and the code.
pub fn build_manual_peer_descriptor(host: &str, port: u16, pairing_code: &str) -> (d: DeviceDescriptor)
    requires
        manual_id_tail(pairing_code@) is Some,
    ensures
        ({
            let suffix = manual_suffix(pairing_code@);
            &&& d.device_id@ == "00000000-0000-0000-0000-"@ + manual_id_tail(pairing_code@).unwrap()
            &&& d.display_name@ == "Remote-"@ + host@
            &&& d.platform@ == "remote"@
            &&& d.address@ == host@
            &&& d.port == port
            &&& d.fingerprint_sha256@ == "manual-"@ + suffix
            &&& d.certificate_pem@ == "-----BEGIN CERTIFICATE-----\nmanual-"@ + host@ + "-"@
                + decimal_text(port as nat) + "-"@ + suffix + "\n-----END CERTIFICATE-----"@
        }),
{
    let suffix_chars = manual_suffix_of(pairing_code);
    let suffix = text_of(suffix_chars.as_slice());
    let id_tail = match manual_id_tail_of(pairing_code) {
        Some(t) => t,
        None => String::new(),
    };
    let mut device_id = String::from_str("00000000-0000-0000-0000-");
    device_id.append(id_tail.as_str());
    let mut display_name = String::from_str("Remote-");
    display_name.append(host);
    let mut fingerprint = String::from_str("manual-");
    fingerprint.append(suffix.as_str());
    let port_text = decimal_string(port as u128);
    let mut pem = String::from_str("-----BEGIN CERTIFICATE-----\nmanual-");
    pem.append(host);
    pem.append("-");
    pem.append(port_text.as_str());
    pem.append("-");
    pem.append(suffix.as_str());
    pem.append("\n-----END CERTIFICATE-----");
    DeviceDescriptor {
        device_id,
        display_name,
        platform: String::from_str("remote"),
        address: host.to_owned(),
        port,
        fingerprint_sha256: fingerprint,
        certificate_pem: pem,
    }
}

/// The descriptor for a controller entered by hand, or `None` where the
/// pairing code's twelve bytes would end inside a character.
pub fn manual_peer_descriptor(host: &str, port: u16, pairing_code: &str) -> (d: Option<
    DeviceDescriptor,
>)
    ensures
        manual_id_tail(pairing_code@) is None <==> d is None,
        d matches Some(x) ==> {
            let suffix = manual_suffix(pairing_code@);
            &&& x.device_id@ == "00000000-0000-0000-0000-"@ + manual_id_tail(pairing_code@).unwrap()
            &&& x.display_name@ == "Remote-"@ + host@
            &&& x.platform@ == "remote"@
            &&& x.address@ == host@
            &&& x.port == port
            &&& x.fingerprint_sha256@ == "manual-"@ + suffix
            &&& x.certificate_pem@ == "-----BEGIN CERTIFICATE-----\nmanual-"@ + host@ + "-"@
                + decimal_text(port as nat) + "-"@ + suffix + "\n-----END CERTIFICATE-----"@
        },
{
    match manual_id_tail_of(pairing_code) {
        None => None,
        Some(_) => Some(build_manual_peer_descriptor(host, port, pairing_code)),
    }
}

/// Whether an entered host is this machine: the loopback names, or the
/// machine's own address, compared without surrounding space and case.
pub open spec fn is_local_host(host: Seq<char>, local_ip: Seq<char>) -> bool {
    let n = ascii_lower_text(trimmed(host));
    n == "127.0.0.1"@ || n == "localhost"@ || n == "::1"@ || n == ascii_lower_text(local_ip)
}

pub fn is_local_endpoint_host(host: &str, local_ip: &str) -> (local: bool)
    ensures
        local == is_local_host(host@, local_ip@),
{
    let trimmed_host = trim_text(host);
    let normalized = to_ascii_lowercase(trimmed_host.as_str());
    if normalized == String::from_str("127.0.0.1") || normalized == String::from_str("localhost")
        || normalized == String::from_str("::1") {
        return true;
    }
    normalized == to_ascii_lowercase(local_ip)
}

/// The six decimal digits of `n` modulo one million, with leading zeros.
pub open spec fn six_digits(n: nat) -> Seq<char> {
    seq![
        hex_char(((n / 100000) % 10) as int),
        hex_char(((n / 10000) % 10) as int),
        hex_char(((n / 1000) % 10) as int),
        hex_char(((n / 100) % 10) as int),
        hex_char(((n / 10) % 10) as int),
        hex_char((n % 10) as int),
    ]
}

fn digit_char(d: u128) -> (c: char)
    requires
        d < 10,
    ensures
        c == hex_char(d as int),
{
    let b: u8 = d as u8;
    (b + 48) as char
}

/// A pairing code made from the clock: the last six decimal digits of the
/// time in milliseconds.
pub fn generate_pairing_code(now_unix_ms: u128) -> (code: String)
    ensures
        code@ == six_digits(now_unix_ms as nat),
{
    let mut code = String::new();
    push_char(&mut code, digit_char((now_unix_ms / 100000) % 10));
    push_char(&mut code, digit_char((now_unix_ms / 10000) % 10));
    push_char(&mut code, digit_char((now_unix_ms / 1000) % 10));
    push_char(&mut code, digit_char((now_unix_ms / 100) % 10));
    push_char(&mut code, digit_char((now_unix_ms / 10) % 10));
    push_char(&mut code, digit_char(now_unix_ms % 10));
    assert(code@ =~= six_digits(now_unix_ms as nat));
    code
}

/// How many managed devices are offline.
pub open spec fn offline_count(devices: Seq<ManagedDevice>) -> nat
    decreases devices.len(),
{
    if devices.len() == 0 {
        0
    } else {
        offline_count(devices.drop_last()) + if devices.last().status
            == ManagedDeviceStatus::Offline {
            1nat
        } else {
            0nat
        }
    }
}

/// Counts the offline managed devices.
pub fn count_offline_devices(devices: &Vec<ManagedDevice>) -> (n: u64)
    ensures
        n == offline_count(devices@),
{
    let mut n: u64 = 0;
    let mut i: usize = 0;
    while i < devices.len()
        invariant
            i <= devices@.len(),
            n == offline_count(devices@.take(i as int)),
            n <= i,
        decreases devices@.len() - i,
    {
        assert(devices@.take(i as int + 1).drop_last() =~= devices@.take(i as int));
        if devices[i].status == ManagedDeviceStatus::Offline {
            n = n + 1;
        }
        i += 1;
    }
    assert(devices@.take(devices@.len() as int) =~= devices@);
    n
}

/// The metric of a count, marked passed.
fn count_metric(name: &str, value: u64) -> (m: DiagnosticMetric)
    ensures
        m.name@ == name@,
        m.value@ == decimal_text(value as nat),
        m.status@ == "passed"@,
{
    let text = decimal_string(value as u128);
    metric(name, text.as_str(), "passed")
}

/// The metrics exported with a diagnostic snapshot that describe the
/// service's state: versions and counts, each marked passed, and the tray's
/// status.
pub fn core_diagnostic_metrics(
    protocol_version: u32,
    topology_version: u64,
    topology_devices: u64,
    transfer_records: u64,
    managed_devices: &Vec<ManagedDevice>,
    tray_status: &str,
) -> (metrics: Vec<DiagnosticMetric>)
    ensures
        metrics@.len() == 7,
        metrics@[0].name@ == "protocol_version"@ && metrics@[0].value@ == decimal_text(
            protocol_version as nat,
        ),
        metrics@[1].name@ == "topology_version"@ && metrics@[1].value@ == decimal_text(
            topology_version as nat,
        ),
        metrics@[2].name@ == "topology_devices"@ && metrics@[2].value@ == decimal_text(
            topology_devices as nat,
        ),
        metrics@[3].name@ == "transfer_records"@ && metrics@[3].value@ == decimal_text(
            transfer_records as nat,
        ),
        metrics@[4].name@ == "managed_devices"@ && metrics@[4].value@ == decimal_text(
            managed_devices@.len(),
        ),
        metrics@[5].name@ == "offline_devices"@ && metrics@[5].value@ == decimal_text(
            offline_count(managed_devices@),
        ),
        metrics@[6].name@ == "tray_status"@ && metrics@[6].value@ == tray_status@,
        forall|i: int| 0 <= i < 7 ==> (#[trigger] metrics@[i]).status@ == "passed"@,
{
    let mut metrics: Vec<DiagnosticMetric> = Vec::new();
    metrics.push(count_metric("protocol_version", protocol_version as u64));
    metrics.push(count_metric("topology_version", topology_version));
    metrics.push(count_metric("topology_devices", topology_devices));
    metrics.push(count_metric("transfer_records", transfer_records));
    metrics.push(count_metric("managed_devices", managed_devices.len() as u64));
    metrics.push(count_metric("offline_devices", count_offline_devices(managed_devices)));
    metrics.push(metric("tray_status", tray_status, "passed"));
    metrics
}

} // verus!
