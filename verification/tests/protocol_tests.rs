use deskflow_plus::ipc::{
    command_message, command_reply, core_service_addr, handshake_reply, read_response,
    CoreToUiEvent, IpcError, UiToCoreCommand,
};
use deskflow_plus::protocol::{
    drain_priority_order, line_payload, negotiate_protocol, terminate_line, ChannelKind,
    FileTransferFileDescriptor, FileTransferManifest, FileTransferProgressPayload,
    MessagePriority, ProtocolError, ProtocolFrame, ProtocolMessage, VersionNegotiation,
    CURRENT_PROTOCOL_VERSION,
};

fn random_uuid() -> u128 {
    uuid::Uuid::new_v4().as_u128()
}

#[test]
fn protocol_negotiation_succeeds_for_matching_versions() {
    let agreed = negotiate_protocol(VersionNegotiation::default(), VersionNegotiation::default())
        .expect("negotiate protocol");
    assert_eq!(agreed, CURRENT_PROTOCOL_VERSION);
}

#[test]
fn priority_order_prefers_higher_priority_first() {
    let frames = vec![
        ProtocolFrame::new(ProtocolMessage::Diagnostic {
            message: "diag".into(),
        }),
        ProtocolFrame {
            version: CURRENT_PROTOCOL_VERSION,
            channel: ChannelKind::Input,
            priority: MessagePriority::Input,
            message: ProtocolMessage::Pong,
        },
        ProtocolFrame::new(ProtocolMessage::Ping),
    ];

    let ordered = drain_priority_order(frames);
    assert_eq!(ordered[0].priority, MessagePriority::Input);
    assert_eq!(ordered[1].priority, MessagePriority::Control);
    assert_eq!(ordered[2].priority, MessagePriority::Diagnostic);
}

#[test]
fn file_transfer_messages_use_file_transfer_channel() {
    let transfer_id = random_uuid();
    let file_id = random_uuid();
    let message = ProtocolMessage::FileTransferOffer(FileTransferManifest {
        transfer_id,
        source_device_id: random_uuid(),
        target_device_id: random_uuid(),
        files: vec![FileTransferFileDescriptor {
            file_id,
            name: "archive.zip".into(),
            size_bytes: 4096,
        }],
        total_bytes: 4096,
        chunk_size_bytes: 1024,
        total_chunks: 4,
    });

    let frame = ProtocolFrame::new(message);
    assert_eq!(frame.channel, ChannelKind::FileTransfer);
    assert_eq!(frame.priority, MessagePriority::FileTransfer);
}

#[test]
fn priority_order_keeps_input_ahead_of_file_transfer() {
    let frames = vec![
        ProtocolFrame::new(ProtocolMessage::FileTransferProgress(
            FileTransferProgressPayload {
                transfer_id: random_uuid(),
                transferred_bytes: 128,
                total_bytes: 1024,
                chunk_index: 0,
                total_chunks: 8,
                status: "InProgress".into(),
            },
        )),
        ProtocolFrame {
            version: CURRENT_PROTOCOL_VERSION,
            channel: ChannelKind::Input,
            priority: MessagePriority::Input,
            message: ProtocolMessage::Pong,
        },
        ProtocolFrame::new(ProtocolMessage::Ping),
    ];

    let ordered = drain_priority_order(frames);
    assert_eq!(ordered[0].priority, MessagePriority::Input);
    assert_eq!(ordered[1].priority, MessagePriority::Control);
    assert_eq!(ordered[2].priority, MessagePriority::FileTransfer);
}

#[test]
fn negotiation_picks_the_lower_version_and_refuses_gaps() {
    let old = VersionNegotiation { current: 2, min_supported: 1 };
    let new = VersionNegotiation { current: 4, min_supported: 2 };
    assert_eq!(negotiate_protocol(old, new), Ok(2));
    assert_eq!(negotiate_protocol(new, old), Ok(2));
    let newest = VersionNegotiation { current: 9, min_supported: 5 };
    assert_eq!(negotiate_protocol(old, newest), Err(ProtocolError::NegotiationFailed));
}

#[test]
fn equal_priorities_keep_their_queue_order() {
    let frames = vec![
        ProtocolFrame::new(ProtocolMessage::Diagnostic { message: "a".into() }),
        ProtocolFrame::new(ProtocolMessage::Ping),
        ProtocolFrame::new(ProtocolMessage::Diagnostic { message: "b".into() }),
        ProtocolFrame::new(ProtocolMessage::Shutdown),
    ];
    let ordered = drain_priority_order(frames);
    assert_eq!(ordered.len(), 4);
    assert_eq!(ordered[0].message, ProtocolMessage::Ping);
    assert_eq!(ordered[1].message, ProtocolMessage::Shutdown);
    assert_eq!(ordered[2].message, ProtocolMessage::Diagnostic { message: "a".into() });
    assert_eq!(ordered[3].message, ProtocolMessage::Diagnostic { message: "b".into() });
}

#[test]
fn line_framing_roundtrips() {
    let line = terminate_line(b"{\"a\":1}".to_vec());
    assert_eq!(line, b"{\"a\":1}\n".to_vec());
    assert_eq!(line_payload(&line), b"{\"a\":1}".to_vec());
    assert_eq!(line_payload(b"abc"), b"abc".to_vec());
}

#[test]
fn local_channel_exchange_reaches_ready() {
    assert_eq!(core_service_addr(), "127.0.0.1:45821");
    assert_eq!(command_message(UiToCoreCommand::Ping), ProtocolMessage::Ping);
    let hello = ProtocolMessage::VersionHello(VersionNegotiation::default());
    let ack = handshake_reply(VersionNegotiation::default(), &hello).expect("handshake");
    assert_eq!(ack, VersionNegotiation { current: 1, min_supported: 1 });
    let (reply, shutdown) = command_reply(&ProtocolMessage::Ping, 42).expect("reply");
    assert!(!shutdown);
    let event = read_response(&ProtocolMessage::VersionHello(ack), &reply).expect("event");
    assert_eq!(event, CoreToUiEvent::Ready { protocol_version: 1, pid: 42 });
    let (echo, stop) = command_reply(&ProtocolMessage::Shutdown, 42).expect("shutdown");
    assert!(stop);
    assert_eq!(
        read_response(&ProtocolMessage::VersionHello(ack), &echo),
        Ok(CoreToUiEvent::ShuttingDown)
    );
}

#[test]
fn local_channel_refuses_out_of_turn_frames() {
    assert_eq!(
        handshake_reply(VersionNegotiation::default(), &ProtocolMessage::Ping),
        Err(IpcError::MissingVersionHello)
    );
    assert_eq!(
        command_reply(&ProtocolMessage::Pong, 1),
        Err(IpcError::UnexpectedMessage)
    );
    let future = ProtocolMessage::VersionHello(VersionNegotiation { current: 7, min_supported: 7 });
    assert_eq!(
        handshake_reply(VersionNegotiation::default(), &future),
        Err(IpcError::NegotiationFailed)
    );
}
