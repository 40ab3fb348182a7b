use deskflow_plus::connection::{
    active_peer_display_name, check_pairing_code, repair_managed_devices, ConnectionError,
};
use deskflow_plus::desktop::pending_request_descriptor;
use deskflow_plus::discovery::discovery_config_of;
use deskflow_plus::foundation::{
    remove_cached_peer_descriptor, CachedPeerDescriptor, DiscoveryPeer, PendingPairingRequest,
};
use deskflow_plus::listing::list_discovered_peers;
use deskflow_plus::placement::remove_device_from_topology;
use deskflow_plus::session::{
    DeviceRepairAction, ManagedDevice, ManagedDeviceStatus, DEFAULT_RECONNECT_BACKOFF_MS, SESSION_PORT,
};
use deskflow_plus::settings::{
    check_manual_connect, choose_app_role, create_pairing_offer, disconnect_active_peer,
    forget_revoked_peer, join_controller, record_pairing_refusal, set_controller_service_enabled,
    submit_discovery_pairing_request, update_device_profile, ConnectionSettings, SettingsError,
};
use deskflow_plus::topology::TopologyLayout;
use deskflow_plus::trust::DeviceIdentity;

fn text_id(id: u128) -> String {
    uuid::Uuid::from_u128(id).to_string()
}

fn settings(role: &str, enabled: bool) -> ConnectionSettings {
    ConnectionSettings {
        app_role: role.into(),
        controller_service_enabled: enabled,
        current_pairing_code: None,
        active_peer_device_id: Some("peer".into()),
        last_pairing_error: Some("refused".into()),
    }
}

fn peer(id: &str, address: &str, port: u16) -> DiscoveryPeer {
    DiscoveryPeer {
        device_id: id.into(),
        display_name: "controller".into(),
        platform: "windows".into(),
        address: address.into(),
        port,
        fingerprint_sha256: "f".into(),
        certificate_pem: "c".into(),
        discovered_at_unix_ms: 5,
    }
}

#[test]
fn app_role_is_trimmed_and_lowercased() {
    let mut s = settings("client", false);
    assert_eq!(choose_app_role(&mut s, "  Controller "), Ok(()));
    assert_eq!(s.app_role, "controller");
    assert_eq!(s.last_pairing_error, None);

    let mut s = settings("controller", false);
    assert_eq!(choose_app_role(&mut s, "CLIENT"), Ok(()));
    assert_eq!(s.app_role, "client");
    assert_eq!(s.last_pairing_error, Some("refused".to_string()));
}

#[test]
fn unknown_app_role_is_refused() {
    let mut s = settings("client", false);
    let before = s.clone();
    assert_eq!(choose_app_role(&mut s, "admin"), Err(SettingsError::InvalidRole));
    assert_eq!(s, before);
}

#[test]
fn running_controller_cannot_become_client() {
    let mut s = settings("controller", true);
    let before = s.clone();
    assert_eq!(choose_app_role(&mut s, "client"), Err(SettingsError::ServiceRunning));
    assert_eq!(s, before);
    assert_eq!(choose_app_role(&mut s, "controller"), Ok(()));
}

#[test]
fn enabling_service_issues_clock_code_once() {
    let mut s = settings("client", false);
    set_controller_service_enabled(&mut s, true, 1_700_001_234_567);
    assert_eq!(s.app_role, "controller");
    assert!(s.controller_service_enabled);
    assert_eq!(s.current_pairing_code, Some("234567".to_string()));
    assert_eq!(s.active_peer_device_id, Some("peer".to_string()));
    assert_eq!(s.last_pairing_error, None);

    set_controller_service_enabled(&mut s, true, 999);
    assert_eq!(s.current_pairing_code, Some("234567".to_string()));
}

#[test]
fn disabling_service_forgets_code_and_peer() {
    let mut s = settings("controller", true);
    s.current_pairing_code = Some("111111".into());
    set_controller_service_enabled(&mut s, false, 5);
    assert!(!s.controller_service_enabled);
    assert_eq!(s.current_pairing_code, None);
    assert_eq!(s.active_peer_device_id, None);
    assert_eq!(s.last_pairing_error, None);
}

#[test]
fn disconnecting_stops_a_controller_service_only() {
    let mut controller = settings("controller", true);
    controller.current_pairing_code = Some("111111".into());
    disconnect_active_peer(&mut controller);
    assert!(!controller.controller_service_enabled);
    assert_eq!(controller.current_pairing_code, None);
    assert_eq!(controller.active_peer_device_id, None);

    let mut client = settings("client", true);
    client.current_pairing_code = Some("222222".into());
    disconnect_active_peer(&mut client);
    assert!(client.controller_service_enabled);
    assert_eq!(client.current_pairing_code, Some("222222".to_string()));
    assert_eq!(client.active_peer_device_id, None);
    assert_eq!(client.last_pairing_error, None);
}

#[test]
fn pairing_offer_keeps_and_stores_its_code() {
    let mut s = settings("controller", true);
    let offer = create_pairing_offer(&mut s, "desk".into(), "10.0.0.2".into(), 42);
    assert_eq!(offer.pairing_code, "000042");
    assert_eq!(offer.session_port, SESSION_PORT);
    assert_eq!(offer.display_name, "desk");
    assert_eq!(offer.endpoint_host, "10.0.0.2");
    assert_eq!(s.current_pairing_code, Some("000042".to_string()));

    let again = create_pairing_offer(&mut s, "desk".into(), "10.0.0.2".into(), 77);
    assert_eq!(again.pairing_code, "000042");
    assert_eq!(check_pairing_code(&again.pairing_code, &s.current_pairing_code), Ok(()));
}

#[test]
fn discovery_pairing_request_targets_a_known_other_device() {
    let local: u128 = 7;
    let other = text_id(9);
    let peers = vec![peer(&text_id(local), "10.0.0.1", 24801), peer(&other, "10.0.0.9", 24801)];

    let (target, code) =
        submit_discovery_pairing_request(&peers, &other, local, 1_700_000_000_000).expect("target");
    assert_eq!(target, peers[1]);
    assert_eq!(code, "auto:1700000000000");
    assert_eq!(check_pairing_code(&code, &None), Ok(()));
    assert_eq!(check_pairing_code(&code, &Some("123456".into())), Ok(()));

    assert_eq!(
        submit_discovery_pairing_request(&peers, &text_id(3), local, 1),
        Err(SettingsError::PeerNotFound)
    );
    assert_eq!(
        submit_discovery_pairing_request(&peers, &text_id(local), local, 1),
        Err(SettingsError::SelfPairing)
    );
}

#[test]
fn clock_code_must_match_the_offer() {
    assert_eq!(
        check_pairing_code(&"000042".to_string(), &Some("000043".into())),
        Err(ConnectionError::PairingCodeMismatch)
    );
}

#[test]
fn manual_connection_is_checked_before_sending() {
    let local: u128 = 7;
    let peers = vec![
        peer(&text_id(5), "10.0.0.5", 24801),
        peer(&text_id(local), "10.0.0.7", 24801),
    ];
    assert_eq!(
        check_manual_connect("   ", "123456", 24801, "10.0.0.3", local, &peers),
        Err(SettingsError::EmptyHost)
    );
    assert_eq!(
        check_manual_connect("\u{3000}\t\u{a0}", "123456", 24801, "10.0.0.3", local, &peers),
        Err(SettingsError::EmptyHost)
    );
    assert_eq!(
        check_manual_connect("10.0.0.5", " ", 24801, "10.0.0.3", local, &peers),
        Err(SettingsError::EmptyPairingCode)
    );
    assert_eq!(
        check_manual_connect(" LocalHost ", "123456", 24801, "10.0.0.3", local, &peers),
        Err(SettingsError::LocalEndpoint)
    );
    assert_eq!(
        check_manual_connect("10.0.0.3", "123456", 24801, "10.0.0.3", local, &peers),
        Err(SettingsError::LocalEndpoint)
    );
    assert_eq!(
        check_manual_connect("10.0.0.7", "123456", 24801, "10.0.0.3", local, &peers),
        Err(SettingsError::SelfPairing)
    );

    let known = check_manual_connect(" 10.0.0.5 ", " 123456 ", 24801, "10.0.0.3", local, &peers)
        .expect("known controller");
    assert_eq!(known.host, "10.0.0.5");
    assert_eq!(known.pairing_code, "123456");
    assert_eq!(known.known_controller, Some(peers[0].clone()));

    let unknown = check_manual_connect("10.0.0.5", "123456", 25000, "10.0.0.3", local, &peers)
        .expect("unknown controller");
    assert_eq!(unknown.known_controller, None);
}

#[test]
fn joining_a_controller_makes_a_client() {
    let mut s = settings("controller", false);
    join_controller(&mut s, Some("controller-id".into()));
    assert_eq!(s.app_role, "client");
    assert_eq!(s.active_peer_device_id, Some("controller-id".to_string()));
    assert_eq!(s.last_pairing_error, None);

    let mut s = settings("controller", false);
    join_controller(&mut s, None);
    assert_eq!(s.app_role, "client");
    assert_eq!(s.active_peer_device_id, Some("peer".to_string()));
}

#[test]
fn device_profile_renames_identity_and_layout() {
    let mut identity = DeviceIdentity {
        device_id: 11,
        display_name: "old".into(),
        platform: "linux".into(),
        created_at_unix_ms: 1,
    };
    let mut layout = TopologyLayout::new(11, "old".into());
    assert_eq!(update_device_profile(&mut identity, &mut layout, "  "), Err(SettingsError::EmptyDisplayName));
    assert_eq!(identity.display_name, "old");

    assert_eq!(update_device_profile(&mut identity, &mut layout, " New Desk "), Ok(true));
    assert_eq!(identity.display_name, "New Desk");
    assert_eq!(layout.device(11).expect("controller").display_name, "New Desk");
    assert!(layout.validate().is_ok());

    let mut other = TopologyLayout::new(12, "other".into());
    let before = other.clone();
    assert_eq!(update_device_profile(&mut identity, &mut other, "Third"), Ok(false));
    assert_eq!(other, before);
}

fn managed_device(id: u128, attempt: u32) -> ManagedDevice {
    ManagedDevice {
        device_id: id,
        display_name: "peer".into(),
        platform: "p".into(),
        status: ManagedDeviceStatus::Offline,
        last_seen_unix_ms: None,
        reconnect_attempt: attempt,
        next_retry_after_ms: 0,
    }
}

#[test]
fn repair_actions_update_the_device_list() {

    let mut list = vec![managed_device(1, 2), managed_device(2, 0), managed_device(1, 5)];
    assert!(repair_managed_devices(&mut list, 1, DeviceRepairAction::RetryNow, 50));
    assert_eq!(list[0].status, ManagedDeviceStatus::Reconnecting);
    assert_eq!(list[0].reconnect_attempt, 3);
    assert_eq!(list[0].next_retry_after_ms, DEFAULT_RECONNECT_BACKOFF_MS * 3);
    assert_eq!(list[2].reconnect_attempt, 5);

    assert!(repair_managed_devices(&mut list, 2, DeviceRepairAction::MarkOnline, 70));
    assert_eq!(list[1].status, ManagedDeviceStatus::Online);
    assert_eq!(list[1].last_seen_unix_ms, Some(70));

    let before = list.clone();
    assert!(!repair_managed_devices(&mut list, 9, DeviceRepairAction::MarkOnline, 70));
    assert_eq!(list, before);

    assert!(repair_managed_devices(&mut list, 1, DeviceRepairAction::Revoke, 80));
    assert_eq!(list.len(), 1);
    assert_eq!(list[0].device_id, 2);
}

#[test]
fn revoking_the_active_peer_forgets_it() {
    let mut s = settings("client", false);
    forget_revoked_peer(&mut s, &"other".to_string());
    assert_eq!(s.active_peer_device_id, Some("peer".to_string()));
    forget_revoked_peer(&mut s, &"peer".to_string());
    assert_eq!(s.active_peer_device_id, None);
    assert_eq!(s.last_pairing_error, None);
}

#[test]
fn cached_descriptors_of_a_device_are_forgotten() {
    let cached = |id: &str, at: u128| CachedPeerDescriptor {
        device_id: id.into(),
        display_name: "n".into(),
        platform: "p".into(),
        address: "a".into(),
        port: 1,
        fingerprint_sha256: "f".into(),
        certificate_pem: "c".into(),
        updated_at_unix_ms: at,
    };
    let mut peers = vec![cached("a", 1), cached("b", 2), cached("a", 3)];
    remove_cached_peer_descriptor(&mut peers, &"a".to_string());
    assert_eq!(peers, vec![cached("b", 2)]);
}

#[test]
fn removed_device_leaves_the_layout() {
    let mut layout = TopologyLayout::new(1, "controller".into());
    layout.add_pending_device(2, "a".into()).expect("pending");
    layout.add_pending_device(3, "b".into()).expect("pending");
    remove_device_from_topology(&mut layout, 2);
    assert!(layout.device(2).is_none());
    assert!(layout.device(3).is_some());
    assert!(layout.device(1).is_some());
    assert_eq!(layout.version, 1);
}

#[test]
fn discovery_reads_role_and_service_from_the_configuration() {
    let serving = discovery_config_of("controller", true, true);
    assert!(serving.serving_as_controller && !serving.is_client && serving.auto_discovery_enabled);
    let idle = discovery_config_of("controller", false, false);
    assert!(!idle.serving_as_controller && !idle.is_client && !idle.auto_discovery_enabled);
    let client = discovery_config_of("client", true, true);
    assert!(!client.serving_as_controller && client.is_client);
}

#[test]
fn refusal_is_kept_and_clears_the_active_peer() {
    let mut s = settings("client", false);
    record_pairing_refusal(&mut s, "refused: busy".into());
    assert_eq!(s.active_peer_device_id, None);
    assert_eq!(s.last_pairing_error, Some("refused: busy".to_string()));
    assert_eq!(s.app_role, "client");
}

#[test]
fn discovered_peers_are_listed_newest_first_then_by_name() {
    let at = |id: &str, name: &str, time: u128| DiscoveryPeer {
        device_id: id.into(),
        display_name: name.into(),
        platform: "p".into(),
        address: "a".into(),
        port: 1,
        fingerprint_sha256: "f".into(),
        certificate_pem: "c".into(),
        discovered_at_unix_ms: time,
    };
    let peers = vec![
        at("1", "beta", 5_000),
        at("2", "alpha", 7_000),
        at("3", "stale", 100),
        at("4", "alpha", 5_000),
        at("5", "beta", 5_000),
        at("6", "Zeta", 7_000),
    ];
    let listed = list_discovered_peers(peers, 9_000);
    let ids: Vec<&str> = listed.iter().map(|p| p.device_id.as_str()).collect();
    assert_eq!(ids, vec!["6", "2", "4", "1", "5"]);
}

#[test]
fn active_peer_is_named_from_managed_devices_first() {
    let managed = vec![managed_device(9, 0)];
    let peers = vec![peer(&text_id(9), "10.0.0.9", 1), peer("other", "10.0.0.8", 1)];
    assert_eq!(active_peer_display_name(&Some(text_id(9)), &managed, &peers), Some("peer".to_string()));
    assert_eq!(
        active_peer_display_name(&Some("other".into()), &managed, &peers),
        Some("controller".to_string())
    );
    assert_eq!(active_peer_display_name(&Some("none".into()), &managed, &peers), None);
    assert_eq!(active_peer_display_name(&None, &managed, &peers), None);
}

#[test]
fn pending_request_describes_its_device() {
    let request = PendingPairingRequest {
        device_id: "d".into(),
        display_name: "n".into(),
        platform: "p".into(),
        address: "10.0.0.4".into(),
        port: 9,
        fingerprint_sha256: "f".into(),
        certificate_pem: "c".into(),
        pairing_code: "123456".into(),
        received_at_unix_ms: 4,
    };
    let d = pending_request_descriptor(&request);
    assert_eq!(d.device_id, "d");
    assert_eq!(d.address, "10.0.0.4");
    assert_eq!(d.port, 9);
    assert_eq!(d.fingerprint_sha256, "f");
    assert_eq!(d.certificate_pem, "c");
}
