use deskflow_plus::connection::{
    active_peer_state, check_pairing_code, resolve_transfer_target, select_pending_pairing,
    ConnectionError, PeerConnectionState,
};
use deskflow_plus::desktop::{
    build_manual_peer_descriptor, cached_peer_to_descriptor, manual_id_tail_of,
    manual_peer_descriptor, descriptor_to_cached_peer,
    deterministic_bgra_image, discovery_peer_to_descriptor, generate_pairing_code,
    is_local_endpoint_host, parse_device_repair_action, DesktopError,
};
use deskflow_plus::discovery::{
    on_discovery_message, on_discovery_tick, DiscoveryAction, DiscoveryConfig,
};
use deskflow_plus::foundation::{CachedPeerDescriptor, DiscoveryPeer, PendingPairingRequest};
use deskflow_plus::protocol::{DeviceDescriptor, PairingCode, ProtocolMessage};
use deskflow_plus::session::{DeviceRepairAction, ManagedDevice, ManagedDeviceStatus};
use deskflow_plus::stream::{
    accept_stream_chunk, check_chunk_file, chunk_header_length, delivered_progress, delivery_outcome,
    outbound_chunk_header,
    outbound_progress, session_header_length, InboundTally, StreamError, TransferDeliveryAck,
};
use deskflow_plus::transfer::{
    plan_transfer_with_id, TransferFileDescriptor, TransferProgress, TransferStatus,
};
use deskflow_plus::trust::{TrustStore, TrustedDevice};

fn text_id(id: u128) -> String {
    uuid::Uuid::from_u128(id).to_string()
}

#[test]
fn test_image_follows_its_byte_pattern() {
    let bytes = deterministic_bgra_image(2, 2).expect("image");
    assert_eq!(bytes.len(), 16);
    assert_eq!(&bytes[0..4], &[0, 0, 0, 255]);
    assert_eq!(&bytes[4..8], &[1, 3, 7, 255]);
    assert_eq!(&bytes[12..16], &[3, 9, 21, 255]);
    let big = deterministic_bgra_image(300, 1).expect("image");
    assert_eq!(big[4 * 251], 0);
    assert_eq!(big[4 * 100 + 2], (700 % 251) as u8);
    assert_eq!(deterministic_bgra_image(0, 5), Err(DesktopError::ZeroImageDimensions));
}

#[test]
fn repair_actions_are_read_by_name() {
    assert_eq!(parse_device_repair_action("mark_online"), Ok(DeviceRepairAction::MarkOnline));
    assert_eq!(parse_device_repair_action("retry_now"), Ok(DeviceRepairAction::RetryNow));
    assert_eq!(parse_device_repair_action("revoke"), Ok(DeviceRepairAction::Revoke));
    assert_eq!(
        parse_device_repair_action("reboot"),
        Err("unknown repair action: reboot".to_string())
    );
}

#[test]
fn manual_peer_descriptor_carries_the_pairing_code() {
    let d = build_manual_peer_descriptor("10.0.0.9", 24801, "AB-12");
    assert_eq!(d.device_id, "00000000-0000-0000-0000-00000000ab12");
    assert_eq!(d.display_name, "Remote-10.0.0.9");
    assert_eq!(d.platform, "remote");
    assert_eq!(d.fingerprint_sha256, "manual-ab12");
    assert_eq!(
        d.certificate_pem,
        "-----BEGIN CERTIFICATE-----\nmanual-10.0.0.9-24801-ab12\n-----END CERTIFICATE-----"
    );
    let empty = build_manual_peer_descriptor("h", 1, "--");
    assert_eq!(empty.device_id, "00000000-0000-0000-0000-000000manual");
    let long = build_manual_peer_descriptor("h", 1, "1234567890abcdef");
    assert_eq!(long.device_id, "00000000-0000-0000-0000-1234567890ab");
}

#[test]
fn manual_code_identifier_takes_twelve_bytes() {
    assert_eq!(manual_id_tail_of("ÉÉ"), Some("0000000000é".to_string()));
    let d = build_manual_peer_descriptor("h", 2, "ÉÉ");
    assert_eq!(d.device_id, "00000000-0000-0000-0000-0000000000é");
    assert_eq!(d.fingerprint_sha256, "manual-éé");
    assert_eq!(manual_id_tail_of("é"), None);
    assert_eq!(manual_peer_descriptor("h", 2, "é"), None);
    assert_eq!(
        manual_peer_descriptor("h", 2, "AB-12").map(|x| x.device_id),
        Some("00000000-0000-0000-0000-00000000ab12".to_string())
    );
}

#[test]
fn local_hosts_are_recognised() {
    assert!(is_local_endpoint_host(" LocalHost ", "192.168.1.5"));
    assert!(is_local_endpoint_host("127.0.0.1", "192.168.1.5"));
    assert!(is_local_endpoint_host("::1", "192.168.1.5"));
    assert!(is_local_endpoint_host("192.168.1.5", "192.168.1.5"));
    assert!(!is_local_endpoint_host("192.168.1.6", "192.168.1.5"));
}

#[test]
fn pairing_codes_are_six_digits_of_the_clock() {
    assert_eq!(generate_pairing_code(1_234_567_890), "567890");
    assert_eq!(generate_pairing_code(42), "000042");
}

#[test]
fn peer_records_convert_to_descriptors() {
    let peer = DiscoveryPeer {
        device_id: "d".into(),
        display_name: "n".into(),
        platform: "p".into(),
        address: "a".into(),
        port: 7,
        fingerprint_sha256: "f".into(),
        certificate_pem: "c".into(),
        discovered_at_unix_ms: 1,
    };
    let descriptor = discovery_peer_to_descriptor(&peer);
    assert_eq!(descriptor.port, 7);
    let cached = descriptor_to_cached_peer(&descriptor, 99);
    assert_eq!(cached.updated_at_unix_ms, 99);
    assert_eq!(cached_peer_to_descriptor(&cached), descriptor);
}

fn trusted(id: u128) -> TrustedDevice {
    TrustedDevice {
        device_id: id,
        display_name: "peer".into(),
        platform: "p".into(),
        certificate_fingerprint_sha256: "f".into(),
        paired_at_unix_ms: 1,
        last_seen_unix_ms: Some(1),
        revoked_at_unix_ms: None,
    }
}

fn managed(id: u128, status: ManagedDeviceStatus) -> ManagedDevice {
    ManagedDevice {
        device_id: id,
        display_name: "peer".into(),
        platform: "p".into(),
        status,
        last_seen_unix_ms: None,
        reconnect_attempt: 0,
        next_retry_after_ms: 0,
    }
}

fn discovered(id: u128, at: u128) -> DiscoveryPeer {
    DiscoveryPeer {
        device_id: text_id(id),
        display_name: "peer".into(),
        platform: "p".into(),
        address: "10.0.0.7".into(),
        port: 24801,
        fingerprint_sha256: "f".into(),
        certificate_pem: "c".into(),
        discovered_at_unix_ms: at,
    }
}

#[test]
fn connection_state_follows_role_trust_and_presence() {
    let id = 77u128;
    let store = TrustStore { devices: vec![trusted(id)] };
    let peers = vec![discovered(id, 1_000)];
    let managed_online = vec![managed(id, ManagedDeviceStatus::Online)];
    let active = Some(text_id(id));
    assert_eq!(
        active_peer_state("client", false, &active, &store, &managed_online, &peers, 5_000),
        Ok(PeerConnectionState::Connected)
    );
    assert_eq!(
        active_peer_state("client", false, &active, &store, &managed_online, &peers, 20_000),
        Ok(PeerConnectionState::Disconnected)
    );
    assert_eq!(
        active_peer_state("client", false, &active, &TrustStore::default(), &managed_online, &peers, 5_000),
        Ok(PeerConnectionState::Pending)
    );
    assert_eq!(
        active_peer_state("controller", true, &active, &store, &managed_online, &peers, 5_000),
        Ok(PeerConnectionState::Connected)
    );
    assert_eq!(
        active_peer_state("controller", false, &active, &store, &managed_online, &peers, 5_000),
        Ok(PeerConnectionState::Disconnected)
    );
    assert_eq!(
        active_peer_state("client", false, &None, &store, &managed_online, &peers, 5_000),
        Ok(PeerConnectionState::Disconnected)
    );
    assert_eq!(
        active_peer_state("client", false, &Some("bad".into()), &store, &managed_online, &peers, 5_000),
        Err(ConnectionError::InvalidDeviceId)
    );
    assert_eq!(PeerConnectionState::Pending.as_text(), "pending");
}

fn pending(id: &str, code: &str) -> PendingPairingRequest {
    PendingPairingRequest {
        device_id: id.into(),
        display_name: "n".into(),
        platform: "p".into(),
        address: "10.0.0.1".into(),
        port: 1,
        fingerprint_sha256: "f".into(),
        certificate_pem: "c".into(),
        pairing_code: code.into(),
        received_at_unix_ms: 1,
    }
}

#[test]
fn pending_pairing_answers_are_checked() {
    let local = 5u128;
    let requests = vec![pending("a", "1"), pending("b", "2"), pending("a", "3")];
    let (target, rest) =
        select_pending_pairing("controller", true, local, requests.clone(), &"a".to_string())
            .expect("select");
    assert_eq!(target.pairing_code, "1");
    assert_eq!(rest.len(), 1);
    assert_eq!(rest[0].device_id, "b");
    assert_eq!(
        select_pending_pairing("client", true, local, requests.clone(), &"a".into()).err(),
        Some(ConnectionError::NotController)
    );
    assert_eq!(
        select_pending_pairing("controller", false, local, requests.clone(), &"a".into()).err(),
        Some(ConnectionError::ServiceDisabled)
    );
    assert_eq!(
        select_pending_pairing("controller", true, local, requests, &"z".into()).err(),
        Some(ConnectionError::RequestNotFound)
    );
    let own = vec![pending(&text_id(local), "1")];
    assert_eq!(
        select_pending_pairing("controller", true, local, own, &text_id(local)).err(),
        Some(ConnectionError::SelfPairing)
    );
    assert_eq!(check_pairing_code(&"auto:accepted:5".into(), &None), Ok(()));
    assert_eq!(check_pairing_code(&"123456".into(), &None), Err(ConnectionError::NoPairingCode));
    assert_eq!(
        check_pairing_code(&"123456".into(), &Some("654321".into())),
        Err(ConnectionError::PairingCodeMismatch)
    );
    assert_eq!(check_pairing_code(&"123456".into(), &Some("123456".into())), Ok(()));
    assert_eq!(
        check_pairing_code(&"123456".into(), &Some("654321".into()))
            .unwrap_err()
            .message(),
        "配对码校验失败，请刷新主控端配对码后重试"
    );
    assert_eq!(
        ConnectionError::NoPairingCode.message(),
        "主控端当前没有可用配对码"
    );
}

#[test]
fn transfer_targets_must_be_trusted_online_and_reachable() {
    let id = 88u128;
    let store = TrustStore { devices: vec![trusted(id)] };
    let online = vec![managed(id, ManagedDeviceStatus::Online)];
    let peers = vec![discovered(id, 1_000)];
    let (target, descriptor) =
        resolve_transfer_target(&text_id(id), &store, &online, &peers, &Vec::new(), 2_000)
            .expect("target");
    assert_eq!(target, id);
    assert_eq!(descriptor.address, "10.0.0.7");
    let cached = vec![CachedPeerDescriptor {
        device_id: text_id(id),
        display_name: "c".into(),
        platform: "p".into(),
        address: "10.0.0.8".into(),
        port: 1,
        fingerprint_sha256: "f".into(),
        certificate_pem: "c".into(),
        updated_at_unix_ms: 1,
    }];
    let (_, fallback) =
        resolve_transfer_target(&text_id(id), &store, &online, &peers, &cached, 50_000)
            .expect("cached target");
    assert_eq!(fallback.address, "10.0.0.8");
    assert_eq!(
        resolve_transfer_target(&text_id(id), &store, &online, &peers, &Vec::new(), 50_000).err(),
        Some(ConnectionError::TargetUnreachable)
    );
    let offline = vec![managed(id, ManagedDeviceStatus::Offline)];
    assert_eq!(
        resolve_transfer_target(&text_id(id), &store, &offline, &peers, &cached, 2_000).err(),
        Some(ConnectionError::TargetOffline)
    );
    assert_eq!(
        resolve_transfer_target(&text_id(9), &store, &online, &peers, &cached, 2_000).err(),
        Some(ConnectionError::TargetNotTrusted)
    );
    assert_eq!(
        resolve_transfer_target(&"x".to_string(), &store, &online, &peers, &cached, 2_000).err(),
        Some(ConnectionError::InvalidDeviceId)
    );
}

fn descriptor(id: &str) -> DeviceDescriptor {
    DeviceDescriptor {
        device_id: id.into(),
        display_name: "peer".into(),
        platform: "p".into(),
        address: "ignored".into(),
        port: 24801,
        fingerprint_sha256: "f".into(),
        certificate_pem: "c".into(),
    }
}

#[test]
fn discovery_service_reacts_to_ticks_and_messages() {
    let config = DiscoveryConfig {
        auto_discovery_enabled: true,
        serving_as_controller: true,
        is_client: false,
    };
    let (kept, actions) = on_discovery_tick(vec![discovered(1, 100), discovered(2, 9_000)], config, 10_000);
    assert_eq!(kept.len(), 1);
    assert_eq!(
        actions,
        vec![DiscoveryAction::SavePeers, DiscoveryAction::BroadcastProbe, DiscoveryAction::BroadcastAnnounce]
    );
    let local = "self".to_string();
    let mut peers = Vec::new();
    let remote_id = text_id(3);
    let own = on_discovery_message(&mut peers, &local, config, ProtocolMessage::DiscoverAnnounce(descriptor("self")), "10.0.0.1", 1);
    assert!(own.is_empty());
    let actions = on_discovery_message(
        &mut peers,
        &local,
        config,
        ProtocolMessage::DiscoverAnnounce(descriptor(&remote_id)),
        "10.0.0.3",
        5,
    );
    assert_eq!(actions, vec![DiscoveryAction::MarkSeen(3), DiscoveryAction::SavePeers]);
    assert_eq!(peers.len(), 1);
    assert_eq!(peers[0].address, "10.0.0.3");
    let probe = on_discovery_message(&mut peers, &local, config, ProtocolMessage::DiscoverProbe(descriptor("odd")), "10.0.0.4", 6);
    assert_eq!(probe, vec![DiscoveryAction::AnnounceToSender]);
    let withdraw = on_discovery_message(
        &mut peers,
        &local,
        config,
        ProtocolMessage::DiscoverWithdraw { device_id: remote_id.clone() },
        "10.0.0.3",
        7,
    );
    assert_eq!(withdraw, vec![DiscoveryAction::SavePeers]);
    assert!(peers.is_empty());
    let request = on_discovery_message(
        &mut peers,
        &local,
        config,
        ProtocolMessage::PairRequest { device: descriptor("r"), pairing_code: PairingCode { value: "9".into() } },
        "10.0.0.9",
        8,
    );
    match &request[..] {
        [DiscoveryAction::StorePairingRequest(stored)] => {
            assert_eq!(stored.address, "10.0.0.9");
            assert_eq!(stored.pairing_code, "9");
            assert_eq!(stored.received_at_unix_ms, 8);
        }
        other => panic!("unexpected actions {other:?}"),
    }
    let client = DiscoveryConfig { auto_discovery_enabled: false, serving_as_controller: false, is_client: true };
    let refused = on_discovery_message(
        &mut peers,
        &local,
        client,
        ProtocolMessage::PairReject { device_id: "c".into(), reason: "busy".into() },
        "10.0.0.9",
        9,
    );
    assert_eq!(refused, vec![DiscoveryAction::RecordPairingError("主控端已拒绝连接请求：busy".into())]);
    let accepted = on_discovery_message(
        &mut peers,
        &local,
        client,
        ProtocolMessage::PairAccept { device_id: "c".into() },
        "10.0.0.9",
        9,
    );
    assert_eq!(accepted, vec![DiscoveryAction::CompletePairingWith("c".into())]);
}

#[test]
fn transfer_stream_frames_are_checked_and_counted() {
    assert_eq!(session_header_length(0), Err(StreamError::InvalidSessionHeaderLength(0)));
    assert_eq!(session_header_length(10), Ok(10));
    assert_eq!(chunk_header_length(0), Ok(None));
    assert_eq!(chunk_header_length(70_000), Err(StreamError::InvalidChunkHeaderLength(70_000)));
    let file = TransferFileDescriptor { file_id: 4, name: "a.bin".into(), size_bytes: 6 };
    let plan = plan_transfer_with_id(1, 2, 3, vec![file.clone()], None).expect("plan");
    let bytes = [1u8, 2, 3, 4, 5, 6];
    let header = outbound_chunk_header(&plan, &file, 0, 0, &bytes);
    assert!(header.is_last_chunk);
    let tally = accept_stream_chunk(&plan, InboundTally { transferred_bytes: 0, verified_files: 0 }, &header, &bytes)
        .expect("accept");
    assert_eq!(tally, InboundTally { transferred_bytes: 6, verified_files: 1 });
    let mut renamed = header.clone();
    renamed.file_name = "b.bin".into();
    assert_eq!(
        accept_stream_chunk(&plan, tally, &renamed, &bytes),
        Err(StreamError::FileNameMismatch(4))
    );
    assert_eq!(
        accept_stream_chunk(&plan, tally, &header, &[9u8]),
        Err(StreamError::ChecksumMismatch(4))
    );
    let progress = TransferProgress {
        transfer_id: 1,
        transferred_bytes: 0,
        total_bytes: 6,
        chunk_index: 0,
        total_chunks: 1,
        status: TransferStatus::InProgress,
    };
    let sent = outbound_progress(progress.clone(), 6, 0);
    assert_eq!(sent.status, TransferStatus::Completed);
    let ack = TransferDeliveryAck {
        ok: true,
        receiver_device_id: "r".into(),
        receiver_display_name: "n".into(),
        confirmed_at_unix_ms: 1,
        verified_files: 1,
        total_bytes: 6,
        message: "ok".into(),
    };
    let delivered = delivered_progress(progress, &ack);
    assert_eq!(delivered.transferred_bytes, 6);
    assert_eq!(delivered.chunk_index, 0);
}

#[test]
fn delivery_outcome_follows_the_acknowledgement() {
    let progress = TransferProgress {
        transfer_id: 9,
        transferred_bytes: 40,
        total_bytes: 50,
        chunk_index: 3,
        total_chunks: 5,
        status: TransferStatus::InProgress,
    };
    let ack = TransferDeliveryAck {
        ok: true,
        receiver_device_id: "receiver".into(),
        receiver_display_name: "Receiver".into(),
        confirmed_at_unix_ms: 77,
        verified_files: 2,
        total_bytes: 50,
        message: "received".into(),
    };
    let delivered = delivery_outcome(progress.clone(), ack.clone());
    assert_eq!(delivered.delivery_state, "delivered");
    assert_eq!(delivered.progress.transferred_bytes, 50);
    assert_eq!(delivered.progress.chunk_index, 4);
    assert_eq!(delivered.progress.status, TransferStatus::Completed);
    assert_eq!(delivered.error, None);
    let receipt = delivered.receipt.expect("receipt");
    assert_eq!(receipt.receiver_device_id, "receiver");
    assert_eq!(receipt.confirmed_at_unix_ms, 77);
    assert_eq!(receipt.verified_files, 2);

    let refused = delivery_outcome(
        progress.clone(),
        TransferDeliveryAck { ok: false, message: "disk full".into(), ..ack },
    );
    assert_eq!(refused.delivery_state, "failed");
    assert_eq!(refused.progress, progress);
    assert_eq!(refused.delivery_message, "disk full");
    assert_eq!(refused.error, Some("disk full".to_string()));
    assert_eq!(refused.receipt, None);
}

#[test]
fn stream_error_messages_name_lengths_and_files() {
    assert_eq!(
        StreamError::InvalidChunkHeaderLength(70_000).message(),
        "invalid transfer chunk header length: 70000"
    );
    assert_eq!(StreamError::InvalidAckLength(0).message(), "invalid transfer ack length: 0");
    assert_eq!(
        StreamError::UnknownFile(4).message(),
        "unknown transfer file 00000000-0000-0000-0000-000000000004"
    );
    assert_eq!(
        StreamError::FileNameMismatch(4).message(),
        "transfer file name mismatch for 00000000-0000-0000-0000-000000000004"
    );
    let file = TransferFileDescriptor { file_id: 4, name: "a.bin".into(), size_bytes: 6 };
    let plan = plan_transfer_with_id(1, 2, 3, vec![file.clone()], None).expect("plan");
    let mut header = outbound_chunk_header(&plan, &file, 0, 0, &[1u8, 2, 3, 4, 5, 6]);
    assert_eq!(check_chunk_file(&plan, &header), Ok(()));
    header.file_id = 9;
    assert_eq!(check_chunk_file(&plan, &header), Err(StreamError::UnknownFile(9)));
}
