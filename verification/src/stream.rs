//! The framing of a file transfer over a session: length-prefixed headers,
//! one header per chunk, an end marker, and the receiver's acknowledgement.
//! The sender describes each chunk it reads; the receiver checks each chunk
//! against the plan and tallies what arrived.

use vstd::prelude::*;
use crate::primitives::{decimal_string, decimal_text, uuid_string, uuid_text};
use crate::text::sha256_hex_text;
use crate::transfer::{
    checksum_sha256, TransferFileDescriptor, TransferPlan, TransferProgress, TransferStatus,
};

verus! {

pub const MAX_TRANSFER_SESSION_HEADER_BYTES: u64 = 524288;

pub const MAX_TRANSFER_CHUNK_HEADER_BYTES: u64 = 65536;

pub const MAX_TRANSFER_ACK_BYTES: u64 = 65536;

/// Why a transfer stream is broken off, with the length or file its
/// message names.
#[derive(Clone, Copy, Debug, PartialEq, Eq, Structural)]
pub enum StreamError {
    /// The announced length.
    InvalidSessionHeaderLength(u64),
    /// The announced length.
    InvalidChunkHeaderLength(u64),
    /// The announced length.
    InvalidAckLength(u64),
    /// The file the chunk names.
    UnknownFile(u128),
    /// The file the chunk names.
    FileNameMismatch(u128),
    /// The file the chunk names.
    ChecksumMismatch(u128),
}

/// The text `message` gives for each case.
pub open spec fn stream_error_text(e: StreamError) -> Seq<char> {
    match e {
        StreamError::InvalidSessionHeaderLength(n) => "invalid transfer session header length: "@
            + decimal_text(n as nat),
        StreamError::InvalidChunkHeaderLength(n) => "invalid transfer chunk header length: "@
            + decimal_text(n as nat),
        StreamError::InvalidAckLength(n) => "invalid transfer ack length: "@ + decimal_text(n as nat),
        StreamError::UnknownFile(f) => "unknown transfer file "@ + uuid_text(f),
        StreamError::FileNameMismatch(f) => "transfer file name mismatch for "@ + uuid_text(f),
        StreamError::ChecksumMismatch(f) => "transfer chunk checksum mismatch for "@ + uuid_text(f),
    }
}

/// `head`, then the text of `tail`.
fn followed_by(head: &str, tail: String) -> (text: String)
    ensures
        text@ == head@ + tail@,
{
    let mut text = head.to_owned();
    text.append(tail.as_str());
    text
}

impl StreamError {
    pub fn message(&self) -> (text: String)
        ensures
            text@ == stream_error_text(*self),
    {
        match self {
            StreamError::InvalidSessionHeaderLength(n) => followed_by(
                "invalid transfer session header length: ",
                decimal_string(*n as u128),
            ),
            StreamError::InvalidChunkHeaderLength(n) => followed_by(
                "invalid transfer chunk header length: ",
                decimal_string(*n as u128),
            ),
            StreamError::InvalidAckLength(n) => followed_by(
                "invalid transfer ack length: ",
                decimal_string(*n as u128),
            ),
            StreamError::UnknownFile(f) => followed_by("unknown transfer file ", uuid_string(*f)),
            StreamError::FileNameMismatch(f) => followed_by(
                "transfer file name mismatch for ",
                uuid_string(*f),
            ),
            StreamError::ChecksumMismatch(f) => followed_by(
                "transfer chunk checksum mismatch for ",
                uuid_string(*f),
            ),
        }
    }
}

/// What precedes a chunk's bytes on the stream.
#[derive(Clone, Debug, PartialEq, Eq)]
pub struct TransferChunkHeader {
    pub transfer_id: u128,
    pub file_id: u128,
    pub file_name: String,
    pub chunk_index: u64,
    pub offset: u64,
    pub size_bytes: u64,
    pub checksum_sha256: String,
    pub is_last_chunk: bool,
}

/// What a receiver tells the sender once the stream ended.
#[derive(Clone, Debug, PartialEq, Eq)]
pub struct TransferDeliveryAck {
    pub ok: bool,
    pub receiver_device_id: String,
    pub receiver_display_name: String,
    pub confirmed_at_unix_ms: u128,
    pub verified_files: u64,
    pub total_bytes: u64,
    pub message: String,
}

/// What a receiver has counted so far.
#[derive(Clone, Copy, Debug, PartialEq, Eq, Structural)]
pub struct InboundTally {
    pub transferred_bytes: u64,
    pub verified_files: u64,
}

/// Checks the announced length of a session header.
pub fn session_header_length(len: u64) -> (r: Result<u64, StreamError>)
    ensures
        r == if len == 0 || len > MAX_TRANSFER_SESSION_HEADER_BYTES {
            Err::<u64, StreamError>(StreamError::InvalidSessionHeaderLength(len))
        } else {
            Ok::<u64, StreamError>(len)
        },
{
    if len == 0 || len > MAX_TRANSFER_SESSION_HEADER_BYTES {
        Err(StreamError::InvalidSessionHeaderLength(len))
    } else {
        Ok(len)
    }
}

/// Checks the announced length of a chunk header: zero marks the end of
/// the stream.
pub fn chunk_header_length(len: u64) -> (r: Result<Option<u64>, StreamError>)
    ensures
        r == if len == 0 {
            Ok::<Option<u64>, StreamError>(None)
        } else if len > MAX_TRANSFER_CHUNK_HEADER_BYTES {
            Err::<Option<u64>, StreamError>(StreamError::InvalidChunkHeaderLength(len))
        } else {
            Ok::<Option<u64>, StreamError>(Some(len))
        },
{
    if len == 0 {
        Ok(None)
    } else if len > MAX_TRANSFER_CHUNK_HEADER_BYTES {
        Err(StreamError::InvalidChunkHeaderLength(len))
    } else {
        Ok(Some(len))
    }
}

/// Checks the announced length of an acknowledgement.
pub fn ack_length(len: u64) -> (r: Result<u64, StreamError>)
    ensures
        r == if len == 0 || len > MAX_TRANSFER_ACK_BYTES {
            Err::<u64, StreamError>(StreamError::InvalidAckLength(len))
        } else {
            Ok::<u64, StreamError>(len)
        },
{
    if len == 0 || len > MAX_TRANSFER_ACK_BYTES {
        Err(StreamError::InvalidAckLength(len))
    } else {
        Ok(len)
    }
}

/// Position of the first file of the manifest with this identifier.
pub open spec fn file_position(files: Seq<TransferFileDescriptor>, file_id: u128) -> Option<int>
    decreases files.len(),
{
    if files.len() == 0 {
        None
    } else if files[0].file_id == file_id {
        Some(0)
    } else {
        match file_position(files.drop_first(), file_id) {
            Some(i) => Some(i + 1),
            None => None,
        }
    }
}

proof fn lemma_file_position(files: Seq<TransferFileDescriptor>, file_id: u128)
    ensures
        match file_position(files, file_id) {
            Some(i) => 0 <= i < files.len() && files[i].file_id == file_id && forall|j: int|
                0 <= j < i ==> (#[trigger] files[j]).file_id != file_id,
            None => forall|j: int| 0 <= j < files.len() ==> (#[trigger] files[j]).file_id != file_id,
        },
    decreases files.len(),
{
    if files.len() > 0 && files[0].file_id != file_id {
        lemma_file_position(files.drop_first(), file_id);
        assert forall|j: int| 0 < j < files.len() implies files[j] == files.drop_first()[j - 1] by {}
    }
}

/// What a receiver makes of a chunk: the file must be in the plan under the
/// same name and the bytes must match their checksum; the byte count is
/// capped at the transfer's total, and a file's last chunk counts it as
/// verified.
pub open spec fn inbound_step(
    plan: TransferPlan,
    tally: InboundTally,
    header: TransferChunkHeader,
    bytes: Seq<u8>,
) -> Result<InboundTally, StreamError> {
    match file_position(plan.manifest.files@, header.file_id) {
        None => Err(StreamError::UnknownFile(header.file_id)),
        Some(i) => if plan.manifest.files@[i].name@ != header.file_name@ {
            Err(StreamError::FileNameMismatch(header.file_id))
        } else if sha256_hex_text(bytes) != header.checksum_sha256@ {
            Err(StreamError::ChecksumMismatch(header.file_id))
        } else {
            let sum = tally.transferred_bytes + header.size_bytes;
            let total = plan.manifest.total_bytes;
            Ok(
                InboundTally {
                    transferred_bytes: if sum < total {
                        sum as u64
                    } else {
                        total
                    },
                    verified_files: if header.is_last_chunk {
                        (tally.verified_files + 1) as u64
                    } else {
                        tally.verified_files
                    },
                },
            )
        },
    }
}

fn find_file(files: &Vec<TransferFileDescriptor>, file_id: u128) -> (r: Option<usize>)
    ensures
        match r {
            Some(i) => i < files@.len() && file_position(files@, file_id) == Some(i as int),
            None => file_position(files@, file_id) is None,
        },
{
    proof {
        lemma_file_position(files@, file_id);
    }
    let mut i: usize = 0;
    while i < files.len()
        invariant
            i <= files@.len(),
            forall|j: int| 0 <= j < i ==> (#[trigger] files@[j]).file_id != file_id,
            match file_position(files@, file_id) {
                Some(k) => 0 <= k < files@.len() && files@[k].file_id == file_id && forall|j: int|
                    0 <= j < k ==> (#[trigger] files@[j]).file_id != file_id,
                None => forall|j: int| 0 <= j < files@.len() ==> (#[trigger] files@[j]).file_id != file_id,
            },
        decreases files@.len() - i,
    {
        if files[i].file_id == file_id {
            proof {
                match file_position(files@, file_id) {
                    Some(k) => {
                        if k < i {
                            assert(files@[k].file_id == file_id);
                        } else if k > i {
                            assert(files@[i as int].file_id != file_id);
                        }
                    },
                    None => {
                        assert(files@[i as int].file_id != file_id);
                    },
                }
            }
            return Some(i);
        }
        i += 1;
    }
    proof {
        if let Some(k) = file_position(files@, file_id) {
            assert(files@[k].file_id == file_id);
        }
    }
    None
}

/// Checks a received chunk and counts it.
/// What a chunk header is refused for before its bytes are read: a file
/// the plan does not hold, or a name other than the plan's for that file.
pub open spec fn chunk_file_error(plan: TransferPlan, header: TransferChunkHeader) -> Option<
    StreamError,
> {
    match file_position(plan.manifest.files@, header.file_id) {
        None => Some(StreamError::UnknownFile(header.file_id)),
        Some(i) => if plan.manifest.files@[i].name@ != header.file_name@ {
            Some(StreamError::FileNameMismatch(header.file_id))
        } else {
            None
        },
    }
}

/// Checks the file a chunk header names against the plan, before the
/// chunk's bytes are read; `accept_stream_chunk` refuses the same headers
/// with the same errors.
pub fn check_chunk_file(plan: &TransferPlan, header: &TransferChunkHeader) -> (r: Result<
    (),
    StreamError,
>)
    ensures
        r == match chunk_file_error(*plan, *header) {
            Some(e) => Err::<(), StreamError>(e),
            None => Ok::<(), StreamError>(()),
        },
        forall|t: InboundTally, bytes: Seq<u8>|
            #![trigger inbound_step(*plan, t, *header, bytes)]
            r matches Err(e) ==> inbound_step(*plan, t, *header, bytes) == Err::<
                InboundTally,
                StreamError,
            >(e),
{
    let i = match find_file(&plan.manifest.files, header.file_id) {
        Some(i) => i,
        None => {
            return Err(StreamError::UnknownFile(header.file_id));
        },
    };
    if plan.manifest.files[i].name != header.file_name {
        return Err(StreamError::FileNameMismatch(header.file_id));
    }
    Ok(())
}

pub fn accept_stream_chunk(
    plan: &TransferPlan,
    tally: InboundTally,
    header: &TransferChunkHeader,
    bytes: &[u8],
) -> (r: Result<InboundTally, StreamError>)
    requires
        tally.transferred_bytes + header.size_bytes <= u64::MAX,
        tally.verified_files < u64::MAX,
    ensures
        r == inbound_step(*plan, tally, *header, bytes@),
{
    let i = match find_file(&plan.manifest.files, header.file_id) {
        Some(i) => i,
        None => {
            return Err(StreamError::UnknownFile(header.file_id));
        },
    };
    if plan.manifest.files[i].name != header.file_name {
        return Err(StreamError::FileNameMismatch(header.file_id));
    }
    let actual = checksum_sha256(bytes);
    if actual != header.checksum_sha256 {
        return Err(StreamError::ChecksumMismatch(header.file_id));
    }
    let sum = tally.transferred_bytes + header.size_bytes;
    let total = plan.manifest.total_bytes;
    Ok(
        InboundTally {
            transferred_bytes: if sum < total {
                sum
            } else {
                total
            },
            verified_files: if header.is_last_chunk {
                tally.verified_files + 1
            } else {
                tally.verified_files
            },
        },
    )
}

/// The header a sender writes before the `chunk_index`-th chunk of a
/// file, read at `offset`.
pub fn outbound_chunk_header(
    plan: &TransferPlan,
    descriptor: &TransferFileDescriptor,
    chunk_index: u64,
    offset: u64,
    bytes: &[u8],
) -> (h: TransferChunkHeader)
    requires
        offset + bytes@.len() <= u64::MAX,
    ensures
        h.transfer_id == plan.manifest.transfer_id,
        h.file_id == descriptor.file_id,
        h.file_name == descriptor.name,
        h.chunk_index == chunk_index,
        h.offset == offset,
        h.size_bytes == bytes@.len(),
        h.checksum_sha256@ == sha256_hex_text(bytes@),
        h.is_last_chunk == (offset + bytes@.len() >= descriptor.size_bytes),
{
    let n = bytes.len() as u64;
    TransferChunkHeader {
        transfer_id: plan.manifest.transfer_id,
        file_id: descriptor.file_id,
        file_name: descriptor.name.clone(),
        chunk_index,
        offset,
        size_bytes: n,
        checksum_sha256: checksum_sha256(bytes),
        is_last_chunk: offset + n >= descriptor.size_bytes,
    }
}

/// The sender's progress once `bytes_read` more bytes went out as chunk
/// `chunk_index`.
pub fn outbound_progress(progress: TransferProgress, bytes_read: u64, chunk_index: u64) -> (p:
    TransferProgress)
    requires
        progress.transferred_bytes + bytes_read <= u64::MAX,
    ensures
        ({
            let sum = progress.transferred_bytes + bytes_read;
            let sent = if sum < progress.total_bytes {
                sum
            } else {
                progress.total_bytes as int
            };
            p == (TransferProgress {
                transferred_bytes: sent as u64,
                chunk_index,
                status: if sent >= progress.total_bytes {
                    TransferStatus::Completed
                } else {
                    TransferStatus::InProgress
                },
                ..progress
            })
        }),
{
    let sum = progress.transferred_bytes + bytes_read;
    let sent = if sum < progress.total_bytes {
        sum
    } else {
        progress.total_bytes
    };
    TransferProgress {
        transfer_id: progress.transfer_id,
        transferred_bytes: sent,
        total_bytes: progress.total_bytes,
        chunk_index,
        total_chunks: progress.total_chunks,
        status: if sent >= progress.total_bytes {
            TransferStatus::Completed
        } else {
            TransferStatus::InProgress
        },
    }
}

/// The sender's progress once the receiver acknowledged delivery: all
/// acknowledged bytes, the last chunk, completed.
pub fn delivered_progress(progress: TransferProgress, ack: &TransferDeliveryAck) -> (p:
    TransferProgress)
    ensures
        p == (TransferProgress {
            transferred_bytes: ack.total_bytes,
            total_bytes: ack.total_bytes,
            chunk_index: if progress.total_chunks > 0 {
                (progress.total_chunks - 1) as u64
            } else {
                0
            },
            status: TransferStatus::Completed,
            ..progress
        }),
{
    TransferProgress {
        transfer_id: progress.transfer_id,
        transferred_bytes: ack.total_bytes,
        total_bytes: ack.total_bytes,
        chunk_index: progress.total_chunks.saturating_sub(1),
        total_chunks: progress.total_chunks,
        status: TransferStatus::Completed,
    }
}

/// Who confirmed a delivered transfer, as the receiver's acknowledgement
/// tells it.
#[derive(Clone, Debug, PartialEq, Eq)]
pub struct DeliveryReceipt {
    pub receiver_device_id: String,
    pub receiver_display_name: String,
    pub confirmed_at_unix_ms: u128,
    pub verified_files: u64,
}

/// How a sent transfer ends once the receiver's acknowledgement is read.
#[derive(Clone, Debug, PartialEq, Eq)]
pub struct DeliveryOutcome {
    pub delivery_state: String,
    pub progress: TransferProgress,
    pub delivery_message: String,
    pub error: Option<String>,
    pub receipt: Option<DeliveryReceipt>,
}

/// The end of a sent transfer: where the receiver confirms it, the
/// transfer is `delivered`, its progress completed and the receiver's
/// receipt kept; where the receiver refuses it, the transfer is `failed`,
/// its progress as sent and the receiver's message its error.
pub fn delivery_outcome(progress: TransferProgress, ack: TransferDeliveryAck) -> (o: DeliveryOutcome)
    ensures
        o.delivery_message == ack.message,
        ack.ok ==> {
            &&& o.delivery_state@ == "delivered"@
            &&& o.progress == (TransferProgress {
                transferred_bytes: ack.total_bytes,
                total_bytes: ack.total_bytes,
                chunk_index: if progress.total_chunks > 0 {
                    (progress.total_chunks - 1) as u64
                } else {
                    0
                },
                status: TransferStatus::Completed,
                ..progress
            })
            &&& o.error is None
            &&& o.receipt == Some(
                DeliveryReceipt {
                    receiver_device_id: ack.receiver_device_id,
                    receiver_display_name: ack.receiver_display_name,
                    confirmed_at_unix_ms: ack.confirmed_at_unix_ms,
                    verified_files: ack.verified_files,
                },
            )
        },
        !ack.ok ==> {
            &&& o.delivery_state@ == "failed"@
            &&& o.progress == progress
            &&& o.error == Some(ack.message)
            &&& o.receipt is None
        },
{
    if !ack.ok {
        let message = ack.message;
        return DeliveryOutcome {
            delivery_state: String::from_str("failed"),
            progress,
            delivery_message: message.clone(),
            error: Some(message),
            receipt: None,
        };
    }
    let completed = delivered_progress(progress, &ack);
    DeliveryOutcome {
        delivery_state: String::from_str("delivered"),
        progress: completed,
        delivery_message: ack.message,
        error: None,
        receipt: Some(
            DeliveryReceipt {
                receiver_device_id: ack.receiver_device_id,
                receiver_display_name: ack.receiver_display_name,
                confirmed_at_unix_ms: ack.confirmed_at_unix_ms,
                verified_files: ack.verified_files,
            },
        ),
    }
}

/// A chunk framed by the sender from a file of the plan passes the
/// receiver's checks, provided no earlier file of the plan has the same
/// identifier.
pub proof fn lemma_framed_chunk_is_accepted(
    plan: TransferPlan,
    k: int,
    tally: InboundTally,
    header: TransferChunkHeader,
    bytes: Seq<u8>,
)
    requires
        0 <= k < plan.manifest.files@.len(),
        forall|j: int|
            0 <= j < k ==> (#[trigger] plan.manifest.files@[j]).file_id
                != plan.manifest.files@[k].file_id,
        header.file_id == plan.manifest.files@[k].file_id,
        header.file_name == plan.manifest.files@[k].name,
        header.checksum_sha256@ == sha256_hex_text(bytes),
    ensures
        inbound_step(plan, tally, header, bytes) is Ok,
{
    lemma_file_position(plan.manifest.files@, header.file_id);
    match file_position(plan.manifest.files@, header.file_id) {
        Some(i) => {
            if i < k {
                assert(plan.manifest.files@[i].file_id == header.file_id);
            } else if i > k {
                assert(plan.manifest.files@[k].file_id == header.file_id);
            }
        },
        None => {
            assert(plan.manifest.files@[k].file_id == header.file_id);
        },
    }
}


/// Receiving a chunk counts a file as verified only on the file's last
/// chunk: an accepted chunk that is not the last of its file leaves the
/// count of verified files as it was, and the last one adds exactly one;
/// the bytes counted grow by the chunk's size, up to the transfer's total,
/// and a chunk refused leaves nothing counted.
pub proof fn lemma_chunk_counts(
    plan: TransferPlan,
    tally: InboundTally,
    header: TransferChunkHeader,
    bytes: Seq<u8>,
)
    requires
        tally.verified_files < u64::MAX,
        tally.transferred_bytes + header.size_bytes <= u64::MAX,
    ensures
        inbound_step(plan, tally, header, bytes) matches Ok(t) ==> {
            &&& !header.is_last_chunk ==> t.verified_files == tally.verified_files
            &&& header.is_last_chunk ==> t.verified_files == tally.verified_files + 1
            &&& t.transferred_bytes == if tally.transferred_bytes + header.size_bytes
                < plan.manifest.total_bytes {
                tally.transferred_bytes + header.size_bytes
            } else {
                plan.manifest.total_bytes as int
            }
        },
        inbound_step(plan, tally, header, bytes) is Ok ==> sha256_hex_text(bytes)
            == header.checksum_sha256@,
{
}

/// Streaming chunks one after another: the count of verified files is the
/// number of last chunks among those accepted.
pub open spec fn stream_tally(plan: TransferPlan, tally: InboundTally, chunks: Seq<(TransferChunkHeader, Seq<u8>)>) -> Result<InboundTally, StreamError>
    decreases chunks.len(),
{
    if chunks.len() == 0 {
        Ok(tally)
    } else {
        match stream_tally(plan, tally, chunks.drop_last()) {
            Ok(t) => inbound_step(plan, t, chunks.last().0, chunks.last().1),
            Err(e) => Err(e),
        }
    }
}

/// How many of the headers mark the last chunk of their file.
pub open spec fn last_chunk_count(chunks: Seq<(TransferChunkHeader, Seq<u8>)>) -> nat
    decreases chunks.len(),
{
    if chunks.len() == 0 {
        0
    } else {
        last_chunk_count(chunks.drop_last()) + if chunks.last().0.is_last_chunk {
            1nat
        } else {
            0nat
        }
    }
}

/// Over a whole stream that is accepted, the verified files counted are
/// the ones the stream started with plus one per last chunk: streaming
/// every chunk of `n` files from a zero tally counts exactly `n`.
pub proof fn lemma_stream_counts_last_chunks(
    plan: TransferPlan,
    tally: InboundTally,
    chunks: Seq<(TransferChunkHeader, Seq<u8>)>,
)
    requires
        tally.verified_files + chunks.len() < u64::MAX,
    ensures
        stream_tally(plan, tally, chunks) matches Ok(t) ==> t.verified_files
            == tally.verified_files + last_chunk_count(chunks),
    decreases chunks.len(),
{
    if chunks.len() > 0 {
        lemma_stream_counts_last_chunks(plan, tally, chunks.drop_last());
        if let Ok(t) = stream_tally(plan, tally, chunks.drop_last()) {
            let h = chunks.last().0;
            let b = chunks.last().1;
            lemma_last_chunk_count_bound(chunks.drop_last());
            assert(t.verified_files + 1 < u64::MAX);
            if let Ok(t2) = inbound_step(plan, t, h, b) {
                assert(t2.verified_files == t.verified_files + if h.is_last_chunk {
                    1int
                } else {
                    0int
                });
            }
        }
    }
}

proof fn lemma_last_chunk_count_bound(chunks: Seq<(TransferChunkHeader, Seq<u8>)>)
    ensures
        last_chunk_count(chunks) <= chunks.len(),
    decreases chunks.len(),
{
    if chunks.len() > 0 {
        lemma_last_chunk_count_bound(chunks.drop_last());
    }
}

} // verus!
