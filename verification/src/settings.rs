//! The connection settings of the desktop shell (the device's role, the
//! controller service, the pairing code and the active peer) and how each
//! request of the user changes them.

use vstd::prelude::*;
use crate::connection::{find_peer_position, peer_position, pairing_code_verdict, ConnectionError};
use crate::desktop::{generate_pairing_code, is_local_endpoint_host, is_local_host, six_digits};
use crate::foundation::DiscoveryPeer;
use crate::primitives::{decimal_string, decimal_text, trim_text, trimmed, uuid_string, uuid_text};
use crate::session::SESSION_PORT;
use crate::text::{ascii_lower_text, has_prefix, to_ascii_lowercase};
use crate::topology::{has_device, id_index, validation_of, TopologyDevice, TopologyLayout};
use crate::trust::DeviceIdentity;

verus! {

/// The part of the configuration that decides who connects to whom.
#[derive(Clone, Debug, PartialEq, Eq)]
pub struct ConnectionSettings {
    pub app_role: String,
    pub controller_service_enabled: bool,
    pub current_pairing_code: Option<String>,
    pub active_peer_device_id: Option<String>,
    pub last_pairing_error: Option<String>,
}

/// The settings as texts.
pub struct SettingsView {
    pub app_role: Seq<char>,
    pub service_enabled: bool,
    pub pairing_code: Option<Seq<char>>,
    pub active_peer: Option<Seq<char>>,
    pub last_error: Option<Seq<char>>,
}

pub open spec fn opt_text(o: Option<String>) -> Option<Seq<char>> {
    match o {
        Some(s) => Some(s@),
        None => None,
    }
}

impl View for ConnectionSettings {
    type V = SettingsView;

    open spec fn view(&self) -> SettingsView {
        SettingsView {
            app_role: self.app_role@,
            service_enabled: self.controller_service_enabled,
            pairing_code: opt_text(self.current_pairing_code),
            active_peer: opt_text(self.active_peer_device_id),
            last_error: opt_text(self.last_pairing_error),
        }
    }
}

/// Why the shell refuses a change of its settings.
#[derive(Clone, Copy, Debug, PartialEq, Eq, Structural)]
pub enum SettingsError {
    InvalidRole,
    ServiceRunning,
    EmptyHost,
    EmptyPairingCode,
    LocalEndpoint,
    PeerNotFound,
    SelfPairing,
    EmptyDisplayName,
}

/// The text `message` gives for each case.
pub open spec fn settings_error_text(e: SettingsError) -> Seq<char> {
    match e {
        SettingsError::InvalidRole => "invalid app role"@,
        SettingsError::ServiceRunning => "主控服务启用时不能切换为被控端"@,
        SettingsError::EmptyHost => "请输入主控端 IP 地址"@,
        SettingsError::EmptyPairingCode => "请输入配对码"@,
        SettingsError::LocalEndpoint => "不能连接当前设备自身"@,
        SettingsError::PeerNotFound => "未找到可发起请求的主控设备"@,
        SettingsError::SelfPairing => "不能和自己设备配对"@,
        SettingsError::EmptyDisplayName => "设备名称不能为空"@,
    }
}
impl SettingsError {
    pub fn message(&self) -> (text: String)
        ensures
            text@ == settings_error_text(*self),
    {
        match self {
            SettingsError::InvalidRole => String::from_str("invalid app role"),
            SettingsError::ServiceRunning => String::from_str(
                "主控服务启用时不能切换为被控端",
            ),
            SettingsError::EmptyHost => String::from_str("请输入主控端 IP 地址"),
            SettingsError::EmptyPairingCode => String::from_str("请输入配对码"),
            SettingsError::LocalEndpoint => String::from_str("不能连接当前设备自身"),
            SettingsError::PeerNotFound => String::from_str("未找到可发起请求的主控设备"),
            SettingsError::SelfPairing => String::from_str("不能和自己设备配对"),
            SettingsError::EmptyDisplayName => String::from_str("设备名称不能为空"),
        }
    }
}

/// The role a requested text names: trimmed and in lowercase.
pub open spec fn role_text(requested: Seq<char>) -> Seq<char> {
    ascii_lower_text(trimmed(requested))
}

/// The settings once the user picks a role: only `controller` and
/// `client` exist, a running controller service keeps the device a
/// controller, and leaving the client role forgets the last pairing error.
pub open spec fn after_role_choice(s: SettingsView, requested: Seq<char>) -> Result<
    SettingsView,
    SettingsError,
> {
    let role = role_text(requested);
    if role != "controller"@ && role != "client"@ {
        Err(SettingsError::InvalidRole)
    } else if s.service_enabled && role == "client"@ {
        Err(SettingsError::ServiceRunning)
    } else {
        Ok(
            SettingsView {
                app_role: role,
                last_error: if role == "client"@ {
                    s.last_error
                } else {
                    None
                },
                ..s
            },
        )
    }
}

/// Changes the role of the device; the settings stay as they were where
/// the request is refused.
pub fn choose_app_role(settings: &mut ConnectionSettings, requested: &str) -> (r: Result<
    (),
    SettingsError,
>)
    ensures
        match after_role_choice(old(settings)@, requested@) {
            Ok(v) => r is Ok && final(settings)@ == v,
            Err(e) => r == Err::<(), SettingsError>(e) && *final(settings) == *old(settings),
        },
{
    let trimmed_role = trim_text(requested);
    let role = to_ascii_lowercase(trimmed_role.as_str());
    let is_controller = role == String::from_str("controller");
    let is_client = role == String::from_str("client");
    if !is_controller && !is_client {
        return Err(SettingsError::InvalidRole);
    }
    if settings.controller_service_enabled && is_client {
        return Err(SettingsError::ServiceRunning);
    }
    settings.app_role = role;
    if !is_client {
        settings.last_pairing_error = None;
    }
    Ok(())
}

/// The settings once the controller service is switched on or off at
/// `now`: the device becomes the controller; switching on keeps the current
/// pairing code or makes one from the clock, switching off forgets the code
/// and the active peer; the last pairing error is forgotten either way.
pub open spec fn after_service_switch(s: SettingsView, enabled: bool, now: u128) -> SettingsView {
    SettingsView {
        app_role: "controller"@,
        service_enabled: enabled,
        pairing_code: if enabled {
            match s.pairing_code {
                Some(c) => Some(c),
                None => Some(six_digits(now as nat)),
            }
        } else {
            None
        },
        active_peer: if enabled {
            s.active_peer
        } else {
            None
        },
        last_error: None,
    }
}

/// Switches the controller service on or off.
pub fn set_controller_service_enabled(settings: &mut ConnectionSettings, enabled: bool, now: u128)
    ensures
        final(settings)@ == after_service_switch(old(settings)@, enabled, now),
{
    settings.app_role = String::from_str("controller");
    settings.controller_service_enabled = enabled;
    if enabled {
        if settings.current_pairing_code.is_none() {
            settings.current_pairing_code = Some(generate_pairing_code(now));
        }
    } else {
        settings.current_pairing_code = None;
        settings.active_peer_device_id = None;
    }
    settings.last_pairing_error = None;
    proof {
        reveal_strlit("controller");
    }
}

/// The settings once the user drops the active peer: a controller also
/// stops its service and forgets its pairing code.
pub open spec fn after_disconnect(s: SettingsView) -> SettingsView {
    if s.app_role == "controller"@ {
        SettingsView {
            service_enabled: false,
            pairing_code: None,
            active_peer: None,
            last_error: None,
            ..s
        }
    } else {
        SettingsView { active_peer: None, last_error: None, ..s }
    }
}

pub fn disconnect_active_peer(settings: &mut ConnectionSettings)
    ensures
        final(settings)@ == after_disconnect(old(settings)@),
{
    settings.active_peer_device_id = None;
    settings.last_pairing_error = None;
    if settings.app_role == String::from_str("controller") {
        settings.controller_service_enabled = false;
        settings.current_pairing_code = None;
    }
}

/// What a controller shows to a device that wants to pair by hand.
#[derive(Clone, Debug, PartialEq, Eq)]
pub struct PairingOffer {
    pub display_name: String,
    pub endpoint_host: String,
    pub session_port: u16,
    pub pairing_code: String,
}

/// The code an offer at `now` shows: the current one, or one made from
/// the clock where there is none.
pub open spec fn offered_code(s: SettingsView, now: u128) -> Seq<char> {
    match s.pairing_code {
        Some(c) => c,
        None => six_digits(now as nat),
    }
}

/// Offers pairing: the code shown becomes the current code.
pub fn create_pairing_offer(
    settings: &mut ConnectionSettings,
    display_name: String,
    endpoint_host: String,
    now: u128,
) -> (offer: PairingOffer)
    ensures
        offer.display_name == display_name,
        offer.endpoint_host == endpoint_host,
        offer.session_port == SESSION_PORT,
        offer.pairing_code@ == offered_code(old(settings)@, now),
        final(settings)@ == (SettingsView {
            pairing_code: Some(offered_code(old(settings)@, now)),
            ..old(settings)@
        }),
{
    let code = match &settings.current_pairing_code {
        Some(c) => c.clone(),
        None => generate_pairing_code(now),
    };
    settings.current_pairing_code = Some(code.clone());
    PairingOffer { display_name, endpoint_host, session_port: SESSION_PORT, pairing_code: code }
}

/// The settings once this device has asked a controller to pair: it is a
/// client, and the controller, where known, its active peer.
pub open spec fn after_joining(s: SettingsView, controller: Option<Seq<char>>) -> SettingsView {
    SettingsView {
        app_role: "client"@,
        active_peer: match controller {
            Some(id) => Some(id),
            None => s.active_peer,
        },
        last_error: None,
        ..s
    }
}

pub fn join_controller(settings: &mut ConnectionSettings, controller_device_id: Option<String>)
    ensures
        final(settings)@ == after_joining(old(settings)@, opt_text(controller_device_id)),
{
    settings.app_role = String::from_str("client");
    if controller_device_id.is_some() {
        settings.active_peer_device_id = controller_device_id;
    }
    settings.last_pairing_error = None;
    proof {
        reveal_strlit("client");
    }
}

/// The settings once the controller refused this device's request with
/// the explanation `text`: no active peer, and the explanation kept.
pub open spec fn after_refusal(s: SettingsView, text: Seq<char>) -> SettingsView {
    SettingsView { active_peer: None, last_error: Some(text), ..s }
}

pub fn record_pairing_refusal(settings: &mut ConnectionSettings, text: String)
    ensures
        final(settings)@ == after_refusal(old(settings)@, text@),
{
    settings.active_peer_device_id = None;
    settings.last_pairing_error = Some(text);
}

fn copy_peer(p: &DiscoveryPeer) -> (c: DiscoveryPeer)
    ensures
        c == *p,
{
    DiscoveryPeer {
        device_id: p.device_id.clone(),
        display_name: p.display_name.clone(),
        platform: p.platform.clone(),
        address: p.address.clone(),
        port: p.port,
        fingerprint_sha256: p.fingerprint_sha256.clone(),
        certificate_pem: p.certificate_pem.clone(),
        discovered_at_unix_ms: p.discovered_at_unix_ms,
    }
}

/// The discovered controller a pairing request goes to: it must have been
/// discovered, and must not be this device.
pub open spec fn discovery_pairing_target(
    peers: Seq<DiscoveryPeer>,
    device_id: Seq<char>,
    local_device_id: u128,
) -> Result<DiscoveryPeer, SettingsError> {
    match peer_position(peers, device_id, 0, false) {
        None => Err(SettingsError::PeerNotFound),
        Some(i) => if peers[i].device_id@ == uuid_text(local_device_id) {
            Err(SettingsError::SelfPairing)
        } else {
            Ok(peers[i])
        },
    }
}

/// The code of a pairing request raised from discovery at `now`.
pub open spec fn discovery_code(now: u128) -> Seq<char> {
    "auto:"@ + decimal_text(now as nat)
}

/// Prepares a pairing request to a discovered controller: the controller
/// to ask and the code to send.
pub fn submit_discovery_pairing_request(
    peers: &Vec<DiscoveryPeer>,
    device_id: &String,
    local_device_id: u128,
    now: u128,
) -> (r: Result<(DiscoveryPeer, String), SettingsError>)
    ensures
        match discovery_pairing_target(peers@, device_id@, local_device_id) {
            Ok(p) => r matches Ok((q, code)) && q == p && code@ == discovery_code(now),
            Err(e) => r == Err::<(DiscoveryPeer, String), SettingsError>(e),
        },
{
    let i = match find_peer_position(peers, device_id, 0, false) {
        Some(i) => i,
        None => {
            return Err(SettingsError::PeerNotFound);
        },
    };
    let peer = copy_peer(&peers[i]);
    if peer.device_id == uuid_string(local_device_id) {
        return Err(SettingsError::SelfPairing);
    }
    let mut code = String::from_str("auto:");
    let digits = decimal_string(now);
    code.append(digits.as_str());
    proof {
        reveal_strlit("auto:");
    }
    Ok((peer, code))
}

/// Position of the first discovered peer listening at `host` and `port`.
pub open spec fn endpoint_position(peers: Seq<DiscoveryPeer>, host: Seq<char>, port: u16) -> Option<
    int,
>
    decreases peers.len(),
{
    if peers.len() == 0 {
        None
    } else if peers[0].address@ == host && peers[0].port == port {
        Some(0)
    } else {
        match endpoint_position(peers.drop_first(), host, port) {
            Some(i) => Some(i + 1),
            None => None,
        }
    }
}

proof fn lemma_endpoint_position(peers: Seq<DiscoveryPeer>, host: Seq<char>, port: u16)
    ensures
        match endpoint_position(peers, host, port) {
            Some(i) => 0 <= i < peers.len() && peers[i].address@ == host && peers[i].port == port
                && forall|j: int|
                0 <= j < i ==> !((#[trigger] peers[j]).address@ == host && peers[j].port == port),
            None => forall|j: int|
                0 <= j < peers.len() ==> !((#[trigger] peers[j]).address@ == host && peers[j].port
                    == port),
        },
    decreases peers.len(),
{
    if peers.len() > 0 && !(peers[0].address@ == host && peers[0].port == port) {
        lemma_endpoint_position(peers.drop_first(), host, port);
        assert forall|j: int| 0 < j < peers.len() implies peers[j] == peers.drop_first()[j - 1] by {}
    }
}

fn find_endpoint(peers: &Vec<DiscoveryPeer>, host: &String, port: u16) -> (r: Option<usize>)
    ensures
        match r {
            Some(i) => i < peers@.len() && endpoint_position(peers@, host@, port) == Some(i as int),
            None => endpoint_position(peers@, host@, port) is None,
        },
{
    proof {
        lemma_endpoint_position(peers@, host@, port);
    }
    let mut i: usize = 0;
    while i < peers.len()
        invariant
            i <= peers@.len(),
            forall|j: int|
                0 <= j < i ==> !((#[trigger] peers@[j]).address@ == host@ && peers@[j].port == port),
            match endpoint_position(peers@, host@, port) {
                Some(k) => 0 <= k < peers@.len() && peers@[k].address@ == host@ && peers@[k].port
                    == port && forall|j: int|
                    0 <= j < k ==> !((#[trigger] peers@[j]).address@ == host@ && peers@[j].port
                        == port),
                None => forall|j: int|
                    0 <= j < peers@.len() ==> !((#[trigger] peers@[j]).address@ == host@
                        && peers@[j].port == port),
            },
        decreases peers@.len() - i,
    {
        if peers[i].address == *host && peers[i].port == port {
            proof {
                match endpoint_position(peers@, host@, port) {
                    Some(k) => {
                        if k < i {
                            assert(peers@[k].address@ == host@);
                        } else if k > i {
                            assert(peers@[i as int].address@ == host@);
                        }
                    },
                    None => {
                        assert(peers@[i as int].address@ == host@);
                    },
                }
            }
            return Some(i);
        }
        i += 1;
    }
    proof {
        if let Some(k) = endpoint_position(peers@, host@, port) {
            assert(peers@[k].address@ == host@);
        }
    }
    None
}

/// A connection to a controller entered by hand, once checked: the host
/// and code as entered without surrounding space, and the controller
/// already discovered at that endpoint, if any.
#[derive(Clone, Debug, PartialEq, Eq)]
pub struct ManualConnect {
    pub host: String,
    pub pairing_code: String,
    pub known_controller: Option<DiscoveryPeer>,
}

/// Whether a controller entered by hand can be asked: host and code must
/// be given, the host must not be this machine, and a controller already
/// discovered at that endpoint must not be this device.
pub open spec fn manual_connect_verdict(
    host: Seq<char>,
    code: Seq<char>,
    port: u16,
    local_ip: Seq<char>,
    local_device_id: u128,
    peers: Seq<DiscoveryPeer>,
) -> Result<Option<DiscoveryPeer>, SettingsError> {
    let h = trimmed(host);
    if h.len() == 0 {
        Err(SettingsError::EmptyHost)
    } else if trimmed(code).len() == 0 {
        Err(SettingsError::EmptyPairingCode)
    } else if is_local_host(h, local_ip) {
        Err(SettingsError::LocalEndpoint)
    } else {
        match endpoint_position(peers, h, port) {
            None => Ok(None),
            Some(i) => if peers[i].device_id@ == uuid_text(local_device_id) {
                Err(SettingsError::SelfPairing)
            } else {
                Ok(Some(peers[i]))
            },
        }
    }
}

/// Checks a connection request to a controller entered by hand.
pub fn check_manual_connect(
    host: &str,
    pairing_code: &str,
    port: u16,
    local_ip: &str,
    local_device_id: u128,
    peers: &Vec<DiscoveryPeer>,
) -> (r: Result<ManualConnect, SettingsError>)
    ensures
        match manual_connect_verdict(host@, pairing_code@, port, local_ip@, local_device_id, peers@) {
            Ok(known) => r matches Ok(c) && c.host@ == trimmed(host@) && c.pairing_code@ == trimmed(
                pairing_code@,
            ) && c.known_controller == known,
            Err(e) => r == Err::<ManualConnect, SettingsError>(e),
        },
{
    let h = trim_text(host);
    if h.as_str().is_empty() {
        return Err(SettingsError::EmptyHost);
    }
    let code = trim_text(pairing_code);
    if code.as_str().is_empty() {
        return Err(SettingsError::EmptyPairingCode);
    }
    if is_local_endpoint_host(h.as_str(), local_ip) {
        return Err(SettingsError::LocalEndpoint);
    }
    let known_controller = match find_endpoint(peers, &h, port) {
        None => None,
        Some(i) => {
            let peer = copy_peer(&peers[i]);
            if peer.device_id == uuid_string(local_device_id) {
                return Err(SettingsError::SelfPairing);
            }
            Some(peer)
        },
    };
    Ok(ManualConnect { host: h, pairing_code: code, known_controller })
}

/// The settings once the device `device_id` is revoked: where it was the
/// active peer, there is no active peer and no pairing error any more.
pub open spec fn after_revoking(s: SettingsView, device_id: Seq<char>) -> SettingsView {
    if s.active_peer == Some(device_id) {
        SettingsView { active_peer: None, last_error: None, ..s }
    } else {
        s
    }
}

pub fn forget_revoked_peer(settings: &mut ConnectionSettings, device_id: &String)
    ensures
        final(settings)@ == after_revoking(old(settings)@, device_id@),
{
    let is_active = match &settings.active_peer_device_id {
        Some(active) => *active == *device_id,
        None => false,
    };
    if is_active {
        settings.active_peer_device_id = None;
        settings.last_pairing_error = None;
    }
}

/// Gives this device a new name, trimmed of surrounding space, in its
/// identity and in the layout where the layout holds it; true where the
/// layout was changed too.
pub fn update_device_profile(
    identity: &mut DeviceIdentity,
    layout: &mut TopologyLayout,
    display_name: &str,
) -> (r: Result<bool, SettingsError>)
    ensures
        trimmed(display_name@).len() == 0 ==> r == Err::<bool, SettingsError>(
            SettingsError::EmptyDisplayName,
        ) && *final(identity) == *old(identity) && *final(layout) == *old(layout),
        trimmed(display_name@).len() > 0 ==> {
            &&& r == Ok::<bool, SettingsError>(
                has_device(old(layout).devices@, old(identity).device_id),
            )
            &&& final(identity).display_name@ == trimmed(display_name@)
            &&& final(identity).device_id == old(identity).device_id
            &&& final(identity).platform == old(identity).platform
            &&& final(identity).created_at_unix_ms == old(identity).created_at_unix_ms
            &&& final(layout).version == old(layout).version
            &&& final(layout).grid_width == old(layout).grid_width
            &&& final(layout).grid_height == old(layout).grid_height
            &&& final(layout).controller_device_id == old(layout).controller_device_id
            &&& if has_device(old(layout).devices@, old(identity).device_id) {
                final(layout).devices@ == old(layout).devices@.update(
                    id_index(old(layout).devices@, old(identity).device_id),
                    TopologyDevice {
                        display_name: final(identity).display_name,
                        ..old(layout).devices@[id_index(old(layout).devices@, old(identity).device_id)]
                    },
                )
            } else {
                final(layout).devices@ == old(layout).devices@
            }
        },
{
    let name = trim_text(display_name);
    if name.as_str().is_empty() {
        return Err(SettingsError::EmptyDisplayName);
    }
    identity.display_name = name.clone();
    let renamed = layout.rename_device(identity.device_id, name);
    Ok(renamed)
}

/// Once the controller service runs, the pairing code it offers is the
/// code it checks requests against, however often it is offered.
pub proof fn lemma_running_service_offers_its_code(s: SettingsView, switched_at: u128, offered_at: u128)
    ensures
        after_service_switch(s, true, switched_at).pairing_code is Some,
        after_service_switch(s, true, switched_at).pairing_code == Some(
            offered_code(after_service_switch(s, true, switched_at), offered_at),
        ),
        pairing_code_verdict(
            offered_code(after_service_switch(s, true, switched_at), offered_at),
            after_service_switch(s, true, switched_at).pairing_code,
        ) == Ok::<(), ConnectionError>(()),
{
}

/// Offering pairing twice shows the same code.
pub proof fn lemma_offer_is_stable(s: SettingsView, first: u128, second: u128)
    ensures
        offered_code(SettingsView { pairing_code: Some(offered_code(s, first)), ..s }, second)
            == offered_code(s, first),
{
}

/// A request raised from discovery carries a code that the controller
/// accepts whatever its own code is.
pub proof fn lemma_discovery_code_needs_no_offer(now: u128, current: Option<Seq<char>>)
    ensures
        pairing_code_verdict(discovery_code(now), current) == Ok::<(), ConnectionError>(()),
{
    reveal_strlit("auto:");
    let code = discovery_code(now);
    assert(code.subrange(0, 5) =~= "auto:"@);
    assert(has_prefix(code, "auto:"@));
}

/// A code made from the clock is checked against the controller's code:
/// any other code is refused.
pub proof fn lemma_clock_code_must_match(now: u128, expected: Seq<char>)
    requires
        six_digits(now as nat) != expected,
    ensures
        pairing_code_verdict(six_digits(now as nat), Some(expected)) == Err::<(), ConnectionError>(
            ConnectionError::PairingCodeMismatch,
        ),
{
    reveal_strlit("auto:");
    let code = six_digits(now as nat);
    assert(code[0] != 'a');
    assert(code.subrange(0, 5)[0] == code[0]);
    assert(!has_prefix(code, "auto:"@));
}

/// While the controller service runs, the device cannot become a client.
pub proof fn lemma_serving_controller_stays_controller(s: SettingsView, now: u128, requested: Seq<char>)
    ensures
        after_role_choice(after_service_switch(s, true, now), requested) matches Ok(v)
            ==> v.app_role == "controller"@,
{
}

/// Switching the controller service off forgets the pairing code and the
/// active peer.
pub proof fn lemma_switching_off_forgets_peer(s: SettingsView, now: u128)
    ensures
        !after_service_switch(s, false, now).service_enabled,
        after_service_switch(s, false, now).pairing_code is None,
        after_service_switch(s, false, now).active_peer is None,
{
}

/// Renaming a device leaves the layout exactly as valid as it was.
pub proof fn lemma_renaming_keeps_validation(layout: TopologyLayout, device_id: u128, name: String)
    requires
        has_device(layout.devices@, device_id),
    ensures
        validation_of(
            layout.grid_width,
            layout.grid_height,
            layout.controller_device_id,
            layout.devices@.update(
                id_index(layout.devices@, device_id),
                TopologyDevice {
                    display_name: name,
                    ..layout.devices@[id_index(layout.devices@, device_id)]
                },
            ),
        ) == validation_of(
            layout.grid_width,
            layout.grid_height,
            layout.controller_device_id,
            layout.devices@,
        ),
{
    crate::topology::lemma_id_index(layout.devices@, device_id);
    let k = id_index(layout.devices@, device_id);
    let renamed = layout.devices@.update(
        k,
        TopologyDevice { display_name: name, ..layout.devices@[k] },
    );
    crate::topology::lemma_validation_ignores_status(
        layout.grid_width,
        layout.grid_height,
        layout.controller_device_id,
        renamed,
        layout.devices@,
    );
}

} // verus!
