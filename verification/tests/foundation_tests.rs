use deskflow_plus::desktop::metric;
use deskflow_plus::foundation::{
    default_app_role, diagnostic_snapshot, prune_discovery_peers, record_pairing_request,
    recent_log_lines, remove_discovery_peer, upsert_cached_peer_descriptor,
    upsert_discovery_peer, AppPaths, CachedPeerDescriptor, DiscoveryPeer, PendingPairingRequest,
};
use std::path::Path;

fn file_name(path: &str) -> String {
    Path::new(path)
        .file_name()
        .expect("file name")
        .to_string_lossy()
        .into_owned()
}

#[test]
fn foundation_layout_includes_security_store_paths() {
    let paths = AppPaths::from_root("/tmp/deskflow-plus-core-tests/security-layout");

    assert!(paths.security_dir().ends_with("security"));
    assert_eq!(file_name(&paths.device_identity_file()), "device-identity.json");
    assert_eq!(file_name(&paths.device_certificate_file()), "device-certificate.json");
    assert_eq!(file_name(&paths.trust_store_file()), "trust-store.json");
    assert_eq!(file_name(&paths.topology_file()), "topology.json");
}

#[test]
fn security_and_topology_files_lie_in_their_directories() {
    let root = "/tmp/deskflow-plus-core-tests/security-layout";
    let paths = AppPaths::from_root(root);
    let security = Path::new(root).join("security");
    let topology = Path::new(root).join("topology");

    assert_eq!(Path::new(&paths.security_dir()), security.as_path());
    assert_eq!(Path::new(&paths.topology_dir()), topology.as_path());
    assert_eq!(
        Path::new(&paths.device_identity_file()),
        security.join("device-identity.json").as_path()
    );
    assert_eq!(
        Path::new(&paths.device_certificate_file()),
        security.join("device-certificate.json").as_path()
    );
    assert_eq!(
        Path::new(&paths.trust_store_file()),
        security.join("trust-store.json").as_path()
    );
    assert_eq!(Path::new(&paths.topology_file()), topology.join("topology.json").as_path());
    let security_dir = paths.security_dir();
    for file in [
        paths.device_identity_file(),
        paths.device_certificate_file(),
        paths.trust_store_file(),
    ] {
        assert_eq!(Path::new(&file).parent(), Some(Path::new(&security_dir)));
    }
    assert_eq!(
        Path::new(&paths.topology_file()).parent(),
        Some(Path::new(&paths.topology_dir()))
    );
}

#[test]
fn extended_diagnostic_includes_recent_logs_and_metrics() {
    let lines = vec!["line-1".to_string(), "line-2".to_string(), "line-3".to_string()];
    let recent = recent_log_lines(lines, 2);
    let metrics = vec![metric("latency", "2ms", "passed")];

    assert_eq!(recent, vec!["line-2", "line-3"]);
    assert_eq!(metrics[0].name, "latency");
}

#[test]
fn app_paths_lay_out_the_data_directory() {
    let paths = AppPaths::from_root("/data");
    assert_eq!(paths.root(), "/data");
    assert_eq!(paths.config_file(), "/data/config/config.json");
    assert_eq!(paths.log_file(), "/data/logs/core-service.log");
    assert_eq!(paths.diagnostic_file(), "/data/diagnostic/diagnostic.json");
    assert_eq!(paths.discovery_file(), "/data/discovery/discovery.json");
    assert_eq!(paths.pairing_requests_file(), "/data/discovery/pairing-requests.json");
    assert_eq!(paths.transfers_dir(), "/data/transfers");
    assert_eq!(paths.topology_dir(), "/data/topology");
    assert_eq!(paths.config_dir(), "/data/config");
    assert_eq!(paths.logs_dir(), "/data/logs");
    assert_eq!(paths.diagnostic_dir(), "/data/diagnostic");
    assert_eq!(paths.discovery_dir(), "/data/discovery");
    assert_eq!(AppPaths::from_root("/data/").config_dir(), "/data/config");
}

#[test]
fn diagnostic_snapshot_points_at_config_and_log() {
    let paths = AppPaths::from_root("/d");
    let snapshot = diagnostic_snapshot(&paths, "info", true, false);
    assert_eq!(snapshot.config_path, "/d/config/config.json");
    assert_eq!(snapshot.log_path, "/d/logs/core-service.log");
    assert_eq!(snapshot.log_level, "info");
    assert!(snapshot.auto_discovery_enabled);
    assert!(!snapshot.clipboard_enabled);
    assert_eq!(default_app_role(), "controller");
}

#[test]
fn recent_lines_keep_everything_under_the_limit_and_nothing_for_zero() {
    let lines = vec!["a".to_string(), "b".to_string()];
    assert_eq!(recent_log_lines(lines.clone(), 5), lines);
    assert!(recent_log_lines(lines, 0).is_empty());
}

fn peer(id: &str, at: u128) -> DiscoveryPeer {
    DiscoveryPeer {
        device_id: id.into(),
        display_name: "n".into(),
        platform: "p".into(),
        address: "10.0.0.1".into(),
        port: 24801,
        fingerprint_sha256: "f".into(),
        certificate_pem: "c".into(),
        discovered_at_unix_ms: at,
    }
}

#[test]
fn discovered_peers_are_replaced_withdrawn_and_expire() {
    let mut peers = Vec::new();
    upsert_discovery_peer(&mut peers, peer("a", 1));
    upsert_discovery_peer(&mut peers, peer("b", 2));
    upsert_discovery_peer(&mut peers, peer("a", 3));
    assert_eq!(peers.len(), 2);
    assert_eq!(peers[0].discovered_at_unix_ms, 3);
    remove_discovery_peer(&mut peers, &"b".to_string());
    assert_eq!(peers.len(), 1);
    let kept = prune_discovery_peers(vec![peer("x", 1000), peer("y", 9000)], 10_000, 8_000);
    assert_eq!(kept.len(), 1);
    assert_eq!(kept[0].device_id, "y");
}

fn request(id: &str, code: &str) -> PendingPairingRequest {
    PendingPairingRequest {
        device_id: id.into(),
        display_name: "n".into(),
        platform: "p".into(),
        address: "10.0.0.1".into(),
        port: 1,
        fingerprint_sha256: "f".into(),
        certificate_pem: "c".into(),
        pairing_code: code.into(),
        received_at_unix_ms: 1,
    }
}

#[test]
fn a_new_pairing_request_replaces_the_older_one_of_its_device() {
    let requests = vec![request("a", "1"), request("b", "2"), request("a", "3")];
    let updated = record_pairing_request(requests, request("a", "4"));
    assert_eq!(updated.len(), 2);
    assert_eq!(updated[0].device_id, "b");
    assert_eq!(updated[1].pairing_code, "4");
}

#[test]
fn cached_peers_are_replaced_by_identifier() {
    let cached = |id: &str, at: u128| CachedPeerDescriptor {
        device_id: id.into(),
        display_name: "n".into(),
        platform: "p".into(),
        address: "a".into(),
        port: 1,
        fingerprint_sha256: "f".into(),
        certificate_pem: "c".into(),
        updated_at_unix_ms: at,
    };
    let mut peers = vec![cached("a", 1)];
    upsert_cached_peer_descriptor(&mut peers, cached("b", 2));
    upsert_cached_peer_descriptor(&mut peers, cached("a", 3));
    assert_eq!(peers.len(), 2);
    assert_eq!(peers[0].updated_at_unix_ms, 3);
}
