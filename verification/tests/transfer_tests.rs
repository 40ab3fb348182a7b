use deskflow_plus::transfer::{
    approve_transfer, cancel_transfer, checksum_sha256, chunk_bytes, chunk_manifest_files,
    plan_transfer, plan_transfer_with_id, progress_for_chunk, transfer_pipeline_latency,
    validate_chunk_checksum, TransferError, TransferFileDescriptor, TransferReceiver,
    TransferStatus,
};
use std::collections::HashMap;
use std::time::Duration;

fn random_uuid() -> u128 {
    uuid::Uuid::new_v4().as_u128()
}

fn sample_files() -> Vec<TransferFileDescriptor> {
    vec![
        TransferFileDescriptor {
            file_id: random_uuid(),
            name: "report.pdf".into(),
            size_bytes: 512 * 1024,
        },
        TransferFileDescriptor {
            file_id: random_uuid(),
            name: "capture.png".into(),
            size_bytes: 100 * 1024,
        },
    ]
}

#[test]
fn transfer_plan_aggregates_manifest_and_chunks() {
    let plan = plan_transfer(random_uuid(), random_uuid(), sample_files(), None)
        .expect("plan transfer");

    assert_eq!(plan.manifest.files.len(), 2);
    assert_eq!(plan.manifest.total_bytes, 612 * 1024);
    assert_eq!(plan.total_chunks, 3);
    assert_eq!(plan.status, TransferStatus::PendingApproval);
}

#[test]
fn approved_plan_tracks_progress_until_completion() {
    let approved = approve_transfer(
        plan_transfer(random_uuid(), random_uuid(), sample_files(), Some(256 * 1024))
            .expect("plan transfer"),
    );
    let progress = progress_for_chunk(&approved, 2).expect("progress");

    assert_eq!(progress.transferred_bytes, approved.manifest.total_bytes);
    assert_eq!(progress.status, TransferStatus::Completed);
}

#[test]
fn empty_transfer_is_rejected() {
    let error = plan_transfer(random_uuid(), random_uuid(), Vec::new(), None)
        .expect_err("empty transfer should fail");
    assert!(error.message().contains("at least one file"));
}

#[test]
fn transfer_pipeline_stays_within_reasonable_bound() {
    let (plan, elapsed) = transfer_pipeline_latency(|| {
        plan_transfer(random_uuid(), random_uuid(), sample_files(), None)
    })
    .expect("transfer latency");

    println!("file transfer planning elapsed: {elapsed:?}");
    assert_eq!(plan.status, TransferStatus::PendingApproval);
    assert!(elapsed < Duration::from_millis(20), "transfer planning took {elapsed:?}");
}

#[test]
fn single_file_chunks_roundtrip_through_receiver() {
    let source = random_uuid();
    let target = random_uuid();
    let file = TransferFileDescriptor {
        file_id: random_uuid(),
        name: "clip.mov".into(),
        size_bytes: 300 * 1024,
    };
    let data = vec![7_u8; file.size_bytes as usize];
    let plan = approve_transfer(
        plan_transfer(source, target, vec![file.clone()], Some(128 * 1024)).expect("plan transfer"),
    );
    let chunks = chunk_bytes(&plan, &file, &data).expect("chunk file");
    let mut receiver = TransferReceiver::new(plan).expect("create receiver");

    for chunk in chunks {
        receiver.accept_chunk(chunk).expect("accept chunk");
    }

    let completed = receiver.complete().expect("complete transfer");
    assert_eq!(completed.files[0].descriptor, file);
    assert_eq!(completed.files[0].bytes, data);
}

#[test]
fn multi_file_chunks_can_arrive_out_of_order() {
    let files = sample_files();
    let plan = approve_transfer(
        plan_transfer(random_uuid(), random_uuid(), files.clone(), Some(128 * 1024))
            .expect("plan transfer"),
    );
    let mut file_bytes = HashMap::new();
    file_bytes.insert(files[0].file_id, vec![1_u8; files[0].size_bytes as usize]);
    file_bytes.insert(files[1].file_id, vec![2_u8; files[1].size_bytes as usize]);
    let mut chunks = chunk_manifest_files(&plan, &file_bytes).expect("chunk manifest");
    chunks.reverse();
    let mut receiver = TransferReceiver::new(plan).expect("create receiver");

    for chunk in chunks {
        receiver.accept_chunk(chunk).expect("accept chunk");
    }

    let completed = receiver.complete().expect("complete transfer");
    assert_eq!(completed.files.len(), 2);
    assert_eq!(completed.files[0].bytes, file_bytes[&files[0].file_id]);
    assert_eq!(completed.files[1].bytes, file_bytes[&files[1].file_id]);
}

#[test]
fn checksum_mismatch_is_rejected() {
    let file = TransferFileDescriptor {
        file_id: random_uuid(),
        name: "tampered.bin".into(),
        size_bytes: 1024,
    };
    let plan = approve_transfer(
        plan_transfer(random_uuid(), random_uuid(), vec![file.clone()], None)
            .expect("plan transfer"),
    );
    let data = vec![9_u8; file.size_bytes as usize];
    let mut chunks = chunk_bytes(&plan, &file, &data).expect("chunk file");
    chunks[0].bytes[0] = 10;
    let mut receiver = TransferReceiver::new(plan).expect("create receiver");

    let error = receiver
        .accept_chunk(chunks.remove(0))
        .expect_err("tampered chunk should fail");
    assert!(error.message().contains("checksum mismatch"));
}

#[test]
fn duplicate_chunk_is_idempotent() {
    let file = TransferFileDescriptor {
        file_id: random_uuid(),
        name: "repeat.txt".into(),
        size_bytes: 32 * 1024,
    };
    let plan = approve_transfer(
        plan_transfer(random_uuid(), random_uuid(), vec![file.clone()], None)
            .expect("plan transfer"),
    );
    let data = vec![3_u8; file.size_bytes as usize];
    let chunk = chunk_bytes(&plan, &file, &data)
        .expect("chunk file")
        .remove(0);
    let mut receiver = TransferReceiver::new(plan).expect("create receiver");

    let first = receiver.accept_chunk(chunk.clone()).expect("first chunk");
    let second = receiver.accept_chunk(chunk).expect("duplicate chunk");

    assert_eq!(first.transferred_bytes, file.size_bytes);
    assert_eq!(second.transferred_bytes, file.size_bytes);
    assert_eq!(receiver.status(), TransferStatus::Completed);
}

#[test]
fn cancellation_blocks_future_chunks() {
    let file = TransferFileDescriptor {
        file_id: random_uuid(),
        name: "cancelled.dat".into(),
        size_bytes: 64 * 1024,
    };
    let plan = approve_transfer(
        plan_transfer(random_uuid(), random_uuid(), vec![file.clone()], None)
            .expect("plan transfer"),
    );
    let chunk = chunk_bytes(&plan, &file, &vec![4_u8; file.size_bytes as usize])
        .expect("chunk file")
        .remove(0);
    let mut receiver = TransferReceiver::new(plan).expect("create receiver");

    receiver.cancel();
    let error = receiver
        .accept_chunk(chunk)
        .expect_err("cancelled transfer should reject chunks");
    assert!(error.message().contains("cancelled"));
}

#[test]
fn several_mb_roundtrip_stays_within_reasonable_bound() {
    let file = TransferFileDescriptor {
        file_id: random_uuid(),
        name: "archive.zip".into(),
        size_bytes: 5 * 1024 * 1024,
    };
    let data = (0..file.size_bytes)
        .map(|index| (index % 251) as u8)
        .collect::<Vec<_>>();
    let plan = approve_transfer(
        plan_transfer(random_uuid(), random_uuid(), vec![file.clone()], Some(256 * 1024))
            .expect("plan transfer"),
    );

    let (completed, elapsed) = transfer_pipeline_latency(|| {
        let chunks = chunk_bytes(&plan, &file, &data)?;
        let mut receiver = TransferReceiver::new(plan.clone())?;
        for chunk in chunks {
            receiver.accept_chunk(chunk)?;
        }
        receiver.complete()
    })
    .expect("roundtrip transfer");

    println!("file transfer 5MB memory roundtrip elapsed: {elapsed:?}");
    assert_eq!(completed.files[0].bytes, data);
    assert!(
        elapsed < Duration::from_millis(750),
        "5MB transfer pipeline took {elapsed:?}"
    );
}

#[test]
fn chunk_size_is_clamped_and_chunks_counted() {
    let file = TransferFileDescriptor { file_id: 1, name: "a".into(), size_bytes: 100 };
    let small = plan_transfer_with_id(9, 1, 2, vec![file.clone()], Some(1)).expect("plan");
    assert_eq!(small.chunk_size_bytes, 64 * 1024);
    assert_eq!(small.total_chunks, 1);
    assert_eq!(small.manifest.transfer_id, 9);
    let large = plan_transfer_with_id(9, 1, 2, vec![file], Some(u64::MAX)).expect("plan");
    assert_eq!(large.chunk_size_bytes, 8 * 1024 * 1024);
    let empty_file = TransferFileDescriptor { file_id: 3, name: "e".into(), size_bytes: 0 };
    let zero = plan_transfer_with_id(9, 1, 2, vec![empty_file], None).expect("plan");
    assert_eq!(zero.total_chunks, 0);
    assert_eq!(zero.chunk_size_bytes, 256 * 1024);
}

#[test]
fn progress_past_the_last_chunk_is_refused() {
    let plan = approve_transfer(
        plan_transfer(random_uuid(), random_uuid(), sample_files(), Some(256 * 1024)).expect("plan"),
    );
    assert_eq!(progress_for_chunk(&plan, 3), Err(TransferError::ChunkOutOfBounds(3)));
    assert_eq!(
        TransferError::ChunkOutOfBounds(3).message(),
        "chunk index 3 is out of bounds"
    );
    let first = progress_for_chunk(&plan, 0).expect("first");
    assert_eq!(first.transferred_bytes, 256 * 1024);
    assert_eq!(first.status, TransferStatus::InProgress);
}

#[test]
fn chunks_cover_the_file_with_offsets_and_checksums() {
    let file = TransferFileDescriptor { file_id: 5, name: "f".into(), size_bytes: 150_000 };
    let plan = plan_transfer_with_id(1, 2, 3, vec![file.clone()], Some(65_536)).expect("plan");
    let data: Vec<u8> = (0..150_000u32).map(|i| (i % 7) as u8).collect();
    let chunks = chunk_bytes(&plan, &file, &data).expect("chunks");
    assert_eq!(chunks.len(), 3);
    assert_eq!(chunks[1].offset, 65_536);
    assert_eq!(chunks[2].bytes.len(), 150_000 - 2 * 65_536);
    let joined: Vec<u8> = chunks.iter().flat_map(|c| c.bytes.clone()).collect();
    assert_eq!(joined, data);
    for chunk in &chunks {
        assert_eq!(chunk.checksum_sha256, checksum_sha256(&chunk.bytes));
        assert!(validate_chunk_checksum(chunk).is_ok());
    }
}

#[test]
fn chunking_errors_are_reported() {
    let file = TransferFileDescriptor { file_id: 5, name: "f".into(), size_bytes: 4 };
    let other = TransferFileDescriptor { file_id: 6, name: "g".into(), size_bytes: 4 };
    let plan = plan_transfer_with_id(1, 2, 3, vec![file.clone()], None).expect("plan");
    assert_eq!(chunk_bytes(&plan, &other, &[1, 2, 3, 4]), Err(TransferError::NotInTransfer(6, 1)));
    assert_eq!(chunk_bytes(&plan, &file, &[1, 2, 3]), Err(TransferError::SizeMismatch(5, 4, 3)));
    let cancelled = cancel_transfer(plan.clone());
    assert_eq!(chunk_bytes(&cancelled, &file, &[1, 2, 3, 4]), Err(TransferError::ChunkingCancelled));
    assert_eq!(chunk_manifest_files(&plan, &HashMap::new()), Err(TransferError::MissingBytes(5)));
    assert_eq!(chunk_bytes(&plan, &file, &[]).map(|c| c.len()), Err(TransferError::SizeMismatch(5, 4, 0)));
}

#[test]
fn checksum_is_lowercase_sha256_hex() {
    assert_eq!(
        checksum_sha256(b""),
        "e3b0c44298fc1c149afbf4c8996fb92427ae41e4649b934ca495991b7852b855"
    );
}

#[test]
fn receiver_refusals_name_their_cause() {
    let file = TransferFileDescriptor { file_id: 5, name: "f".into(), size_bytes: 8 };
    let plan = plan_transfer_with_id(1, 2, 3, vec![file.clone()], None).expect("plan");
    assert_eq!(TransferReceiver::new(plan.clone()).err(), Some(TransferError::NotApproved));
    let approved = approve_transfer(plan);
    let data = vec![1u8; 8];
    let chunk = chunk_bytes(&approved, &file, &data).expect("chunks").remove(0);
    let mut receiver = TransferReceiver::new(approved.clone()).expect("receiver");
    let mut foreign = chunk.clone();
    foreign.transfer_id = 77;
    assert_eq!(receiver.accept_chunk(foreign), Err(TransferError::WrongTransfer));
    let mut unknown = chunk.clone();
    unknown.file_id = 99;
    assert_eq!(receiver.accept_chunk(unknown), Err(TransferError::UnknownFile(99)));
    let mut outside = chunk.clone();
    outside.offset = 4;
    assert_eq!(receiver.accept_chunk(outside), Err(TransferError::RangeExceedsFile));
    let receiver2 = TransferReceiver::new(approved).expect("receiver");
    assert_eq!(receiver2.complete().err(), Some(TransferError::NotComplete));
    let progress = receiver.accept_chunk(chunk).expect("accept");
    assert_eq!(progress.transferred_bytes, 8);
    assert_eq!(progress.status, TransferStatus::Completed);
}

#[test]
fn transfer_error_messages_name_files_and_transfers() {
    let transfer = 0x550e8400e29b41d4a716446655440000u128;
    let file = 1u128;
    let file_text = "00000000-0000-0000-0000-000000000001";
    let transfer_text = "550e8400-e29b-41d4-a716-446655440000";
    assert_eq!(
        TransferError::ChunkingCancelled.message(),
        "cannot chunk a cancelled transfer"
    );
    assert_eq!(
        TransferError::Cancelled(transfer).message(),
        format!("transfer {transfer_text} is cancelled")
    );
    assert_eq!(
        TransferError::NotInTransfer(file, transfer).message(),
        format!("file {file_text} is not part of transfer {transfer_text}")
    );
    assert_eq!(TransferError::UnknownFile(file).message(), format!("unknown file id {file_text}"));
    assert_eq!(
        TransferError::SizeMismatch(file, 4, 3).message(),
        format!("file {file_text} size mismatch: descriptor=4 actual=3")
    );
    assert_eq!(
        TransferError::ChecksumMismatch(transfer, file, 7).message(),
        format!("checksum mismatch for transfer {transfer_text} file {file_text} chunk 7")
    );
    assert_eq!(
        TransferError::MissingBytes(file).message(),
        format!("missing bytes for file {file_text}")
    );
    assert_eq!(
        TransferError::FileTooLarge(file).message(),
        format!("file {file_text} exceeds platform capacity")
    );
    assert_eq!(
        TransferError::MissingFile(file).message(),
        format!("missing assembled file {file_text}")
    );
    assert_eq!(TransferError::Incomplete(file).message(), format!("file {file_text} is incomplete"));
}
