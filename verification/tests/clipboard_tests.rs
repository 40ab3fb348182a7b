use deskflow_plus::clipboard::{
    clipboard_pipeline_latency, normalize_clipboard_content, normalize_image_payload, normalize_text,
    ClipboardApplyAction, ClipboardContent, ClipboardContentUpdate, ClipboardDispatchKind,
    ClipboardError, ClipboardPayload, ClipboardSyncEngine, ClipboardUpdate, ImageClipboardFormat,
};
use std::time::Duration;

fn random_uuid() -> u128 {
    uuid::Uuid::new_v4().as_u128()
}

#[test]
fn local_update_emits_normalized_payload_once() {
    let local = random_uuid();
    let mut engine = ClipboardSyncEngine::new(local);

    let update = engine
        .create_local_update("hello\r\nworld".to_string())
        .expect("clipboard update");

    assert_eq!(update.update.payload.text, "hello\nworld");
    assert!(engine.create_local_update("hello\nworld".to_string()).is_none());
}

#[test]
fn disabled_sync_suppresses_local_and_remote_updates() {
    let local = random_uuid();
    let remote = random_uuid();
    let mut engine = ClipboardSyncEngine::new(local);
    engine.set_enabled(false);

    assert!(engine.create_local_update("blocked".to_string()).is_none());
    let decision = engine.apply_remote_update(&ClipboardUpdate {
        source_device_id: remote,
        sequence: 1,
        payload: ClipboardPayload {
            text: "remote".into(),
        },
    });
    assert_eq!(decision.action, ClipboardApplyAction::IgnoreDisabled);
}

#[test]
fn remote_updates_apply_once_and_suppress_replays() {
    let local = random_uuid();
    let remote = random_uuid();
    let mut engine = ClipboardSyncEngine::new(local);
    let update = ClipboardUpdate {
        source_device_id: remote,
        sequence: 7,
        payload: ClipboardPayload {
            text: "fresh".into(),
        },
    };

    let first = engine.apply_remote_update(&update);
    let second = engine.apply_remote_update(&update);

    assert_eq!(first.action, ClipboardApplyAction::ApplyRemote);
    assert_eq!(first.text.as_deref(), Some("fresh"));
    assert_eq!(second.action, ClipboardApplyAction::IgnoreLoop);
}

#[test]
fn local_origin_remote_update_is_treated_as_loop() {
    let local = random_uuid();
    let mut engine = ClipboardSyncEngine::new(local);

    let decision = engine.apply_remote_update(&ClipboardUpdate {
        source_device_id: local,
        sequence: 2,
        payload: ClipboardPayload {
            text: "echo".into(),
        },
    });

    assert_eq!(decision.action, ClipboardApplyAction::IgnoreLoop);
}

#[test]
fn clipboard_pipeline_completes_under_reasonable_bound() {
    let local = random_uuid();
    let mut engine = ClipboardSyncEngine::new(local);

    let (update, elapsed) = clipboard_pipeline_latency(|| {
        engine
            .create_local_update("perf".to_string())
            .ok_or(ClipboardError::EmptyImage)
    })
    .expect("pipeline latency");

    println!("clipboard sync elapsed: {elapsed:?}");
    assert_eq!(update.update.payload.text, "perf");
    assert!(elapsed < Duration::from_millis(20), "clipboard sync took {elapsed:?}");
}

#[test]
fn image_clipboard_payload_normalizes_and_checksums_bgra() {
    let image = normalize_image_payload(
        ImageClipboardFormat::Bgra8,
        2,
        2,
        vec![0, 0, 0, 255, 10, 20, 30, 255, 40, 50, 60, 255, 70, 80, 90, 255],
    )
    .expect("normalize image payload");

    assert_eq!(image.bytes.len(), 16);
    assert_eq!(image.checksum_sha256.len(), 64);
}

#[test]
fn image_clipboard_rejects_invalid_bgra_size() {
    let error = normalize_image_payload(ImageClipboardFormat::Bgra8, 2, 2, vec![1, 2, 3])
        .expect_err("invalid image should fail");
    assert!(error.message().contains("size mismatch"));
}

#[test]
fn local_image_update_suppresses_duplicate_checksum() {
    let local = random_uuid();
    let mut engine = ClipboardSyncEngine::new(local);
    let bytes = vec![8_u8; 16];

    let first = engine
        .create_local_image_update(ImageClipboardFormat::Bgra8, 2, 2, bytes.clone())
        .expect("create image update");
    let second = engine
        .create_local_image_update(ImageClipboardFormat::Bgra8, 2, 2, bytes)
        .expect("create duplicate image update");

    assert!(first.is_some());
    assert!(second.is_none());
}

#[test]
fn remote_image_content_applies_once_and_suppresses_replay() {
    let local = random_uuid();
    let remote = random_uuid();
    let mut engine = ClipboardSyncEngine::new(local);
    let update = ClipboardContentUpdate {
        source_device_id: remote,
        sequence: 11,
        content: ClipboardContent::Image(
            normalize_image_payload(ImageClipboardFormat::Bgra8, 1, 1, vec![1, 2, 3, 4])
                .expect("normalize image"),
        ),
    };

    let first = engine
        .apply_remote_content_update(&update)
        .expect("apply image update");
    let second = engine
        .apply_remote_content_update(&update)
        .expect("replay image update");

    assert_eq!(first.action, ClipboardApplyAction::ApplyRemote);
    assert!(matches!(first.content, Some(ClipboardContent::Image(_))));
    assert_eq!(second.action, ClipboardApplyAction::IgnoreLoop);
}

#[test]
fn normalize_text_turns_crlf_into_lf_only() {
    assert_eq!(normalize_text("a\r\nb\rc\n".to_string()), "a\nb\rc\n");
    assert_eq!(normalize_text("\r\r\n".to_string()), "\r\n");
    assert_eq!(normalize_text(String::new()), "");
}

#[test]
fn image_errors_name_each_refusal() {
    assert_eq!(
        normalize_image_payload(ImageClipboardFormat::Bgra8, 0, 2, vec![1, 2, 3, 4]),
        Err(ClipboardError::ZeroDimensions)
    );
    assert_eq!(
        normalize_image_payload(ImageClipboardFormat::Bgra8, 1, 1, Vec::new()),
        Err(ClipboardError::EmptyImage)
    );
    assert_eq!(
        normalize_image_payload(ImageClipboardFormat::Bgra8, 1, 2, vec![1, 2, 3, 4]),
        Err(ClipboardError::SizeMismatch(8, 4))
    );
    assert_eq!(
        ClipboardError::SizeMismatch(8, 4).message(),
        "BGRA clipboard payload size mismatch: expected 8, actual 4"
    );
}

#[test]
fn image_checksum_is_the_sha256_of_the_pixels() {
    let image = normalize_image_payload(ImageClipboardFormat::Bgra8, 1, 1, vec![0, 0, 0, 0])
        .expect("normalize image");
    assert_eq!(
        image.checksum_sha256,
        "df3f619804a92fdb4057192dc43dd748ea778adc52bc498ce80524c014b81119"
    );
}

#[test]
fn normalized_text_content_is_crlf_free() {
    let content = normalize_clipboard_content(ClipboardContent::Text(ClipboardPayload {
        text: "x\r\ny".into(),
    }))
    .expect("text content");
    assert_eq!(
        content,
        ClipboardContent::Text(ClipboardPayload { text: "x\ny".into() })
    );
}

#[test]
fn local_updates_are_numbered_and_broadcast() {
    let local = random_uuid();
    let mut engine = ClipboardSyncEngine::new(local);
    let first = engine.create_local_update("one".into()).expect("first");
    let second = engine.create_local_update("two".into()).expect("second");
    assert_eq!(first.dispatch, ClipboardDispatchKind::Broadcast);
    assert_eq!(first.update.source_device_id, local);
    assert_eq!(first.update.sequence, 1);
    assert_eq!(second.update.sequence, 2);
}

#[test]
fn older_remote_sequence_is_ignored_after_newer_one() {
    let local = random_uuid();
    let remote = random_uuid();
    let mut engine = ClipboardSyncEngine::new(local);
    let newer = ClipboardUpdate {
        source_device_id: remote,
        sequence: 9,
        payload: ClipboardPayload { text: "new".into() },
    };
    let older = ClipboardUpdate {
        source_device_id: remote,
        sequence: 3,
        payload: ClipboardPayload { text: "old".into() },
    };
    assert_eq!(engine.apply_remote_update(&newer).action, ClipboardApplyAction::ApplyRemote);
    assert_eq!(engine.apply_remote_update(&older).action, ClipboardApplyAction::IgnoreLoop);
}

#[test]
fn applied_remote_text_is_not_sent_back() {
    let local = random_uuid();
    let remote = random_uuid();
    let mut engine = ClipboardSyncEngine::new(local);
    let update = ClipboardUpdate {
        source_device_id: remote,
        sequence: 1,
        payload: ClipboardPayload { text: "shared".into() },
    };
    assert_eq!(engine.apply_remote_update(&update).action, ClipboardApplyAction::ApplyRemote);
    assert!(engine.create_local_update("shared".into()).is_none());
}

#[test]
fn history_of_calls_numbers_sends_and_tracks_applied_updates() {
    let local = 1u128;
    let remote = 2u128;
    let mut engine = ClipboardSyncEngine::new(local);
    let text_update = |sequence: u64, text: &str| ClipboardUpdate {
        source_device_id: remote,
        sequence,
        payload: ClipboardPayload { text: text.into() },
    };

    assert_eq!(engine.create_local_update("a".into()).expect("first").update.sequence, 1);
    let applied = engine.apply_remote_update(&text_update(5, "b"));
    assert_eq!(applied.action, ClipboardApplyAction::ApplyRemote);
    assert!(engine.create_local_update("b".into()).is_none());
    assert_eq!(engine.create_local_update("a".into()).expect("second").update.sequence, 2);
    assert_eq!(
        engine.apply_remote_update(&text_update(5, "c")).action,
        ClipboardApplyAction::IgnoreLoop
    );
    assert_eq!(
        engine.apply_remote_update(&text_update(4, "c")).action,
        ClipboardApplyAction::IgnoreLoop
    );
    engine.set_enabled(false);
    assert!(engine.create_local_update("d".into()).is_none());
    assert_eq!(
        engine.apply_remote_update(&text_update(6, "d")).action,
        ClipboardApplyAction::IgnoreDisabled
    );
    engine.set_enabled(true);
    assert_eq!(
        engine.apply_remote_update(&text_update(6, "d")).action,
        ClipboardApplyAction::ApplyRemote
    );
    assert_eq!(engine.create_local_update("e".into()).expect("third").update.sequence, 3);
}
