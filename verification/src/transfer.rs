//! File transfer: planning a transfer, cutting files into checksummed
//! chunks, tracking progress, and reassembling received chunks.

use vstd::prelude::*;
use std::collections::HashMap;
use crate::primitives::{decimal_string, decimal_text, random_uuid, uuid_string, uuid_text};
use crate::text::{sha256_hex, sha256_hex_text};

verus! {

broadcast use vstd::std_specs::hash::group_hash_axioms;

pub const DEFAULT_CHUNK_SIZE_BYTES: u64 = 262144;

pub const MIN_CHUNK_SIZE_BYTES: u64 = 65536;

pub const MAX_CHUNK_SIZE_BYTES: u64 = 8388608;

#[derive(Clone, Debug, PartialEq, Eq)]
pub struct TransferFileDescriptor {
    pub file_id: u128,
    pub name: String,
    pub size_bytes: u64,
}

#[derive(Clone, Debug, PartialEq, Eq)]
pub struct TransferManifest {
    pub transfer_id: u128,
    pub source_device_id: u128,
    pub target_device_id: u128,
    pub files: Vec<TransferFileDescriptor>,
    pub total_bytes: u64,
}

#[derive(Clone, Copy, Debug, PartialEq, Eq, Structural)]
pub enum TransferStatus {
    PendingApproval,
    Approved,
    InProgress,
    Completed,
    Cancelled,
}

#[derive(Clone, Debug, PartialEq, Eq)]
pub struct TransferPlan {
    pub manifest: TransferManifest,
    pub chunk_size_bytes: u64,
    pub total_chunks: u64,
    pub status: TransferStatus,
}

#[derive(Clone, Debug, PartialEq, Eq)]
pub struct TransferProgress {
    pub transfer_id: u128,
    pub transferred_bytes: u64,
    pub total_bytes: u64,
    pub chunk_index: u64,
    pub total_chunks: u64,
    pub status: TransferStatus,
}

#[derive(Clone, Debug, PartialEq, Eq)]
pub struct TransferChunk {
    pub transfer_id: u128,
    pub file_id: u128,
    pub chunk_index: u64,
    pub offset: u64,
    pub bytes: Vec<u8>,
    pub checksum_sha256: String,
}

#[derive(Clone, Debug, PartialEq, Eq)]
pub struct ReceivedFile {
    pub descriptor: TransferFileDescriptor,
    pub bytes: Vec<u8>,
}

#[derive(Clone, Debug, PartialEq, Eq)]
pub struct CompletedTransfer {
    pub manifest: TransferManifest,
    pub files: Vec<ReceivedFile>,
}

/// Why a transfer step is refused, with the identifiers and numbers its
/// message names.
#[derive(Clone, Copy, Debug, PartialEq, Eq, Structural)]
pub enum TransferError {
    EmptyTransfer,
    /// The chunk index asked for.
    ChunkOutOfBounds(u64),
    ChunkingCancelled,
    /// The transfer.
    Cancelled(u128),
    /// The file and the transfer it is not part of.
    NotInTransfer(u128, u128),
    /// The file a chunk names.
    UnknownFile(u128),
    /// The file, the size its descriptor gives and the bytes at hand.
    SizeMismatch(u128, u64, usize),
    ChunkSizeTooLarge,
    ZeroChunkSize,
    /// The file.
    MissingBytes(u128),
    /// The transfer, file and chunk index of the chunk.
    ChecksumMismatch(u128, u128, u64),
    NotApproved,
    /// The file.
    FileTooLarge(u128),
    WrongTransfer,
    OffsetTooLarge,
    RangeOverflow,
    RangeExceedsFile,
    NotComplete,
    /// The file.
    MissingFile(u128),
    /// The file.
    Incomplete(u128),
}

/// The text `message` gives for each case.
pub open spec fn transfer_error_text(e: TransferError) -> Seq<char> {
    match e {
        TransferError::EmptyTransfer => "transfer requires at least one file"@,
        TransferError::ChunkOutOfBounds(i) => "chunk index "@ + decimal_text(i as nat)
            + " is out of bounds"@,
        TransferError::ChunkingCancelled => "cannot chunk a cancelled transfer"@,
        TransferError::Cancelled(t) => "transfer "@ + uuid_text(t) + " is cancelled"@,
        TransferError::NotInTransfer(f, t) => "file "@ + uuid_text(f) + " is not part of transfer "@
            + uuid_text(t),
        TransferError::UnknownFile(f) => "unknown file id "@ + uuid_text(f),
        TransferError::SizeMismatch(f, d, a) => "file "@ + uuid_text(f) + " size mismatch: descriptor="@
            + decimal_text(d as nat) + " actual="@ + decimal_text(a as nat),
        TransferError::ChunkSizeTooLarge => "chunk size exceeds platform capacity"@,
        TransferError::ZeroChunkSize => "chunk size must be positive"@,
        TransferError::MissingBytes(f) => "missing bytes for file "@ + uuid_text(f),
        TransferError::ChecksumMismatch(t, f, c) => "checksum mismatch for transfer "@ + uuid_text(t)
            + " file "@ + uuid_text(f) + " chunk "@ + decimal_text(c as nat),
        TransferError::NotApproved => "receiver requires an approved transfer plan"@,
        TransferError::FileTooLarge(f) => "file "@ + uuid_text(f) + " exceeds platform capacity"@,
        TransferError::WrongTransfer => "chunk belongs to a different transfer"@,
        TransferError::OffsetTooLarge => "chunk offset exceeds platform capacity"@,
        TransferError::RangeOverflow => "chunk range overflows"@,
        TransferError::RangeExceedsFile => "chunk range exceeds file size"@,
        TransferError::NotComplete => "transfer is not complete"@,
        TransferError::MissingFile(f) => "missing assembled file "@ + uuid_text(f),
        TransferError::Incomplete(f) => "file "@ + uuid_text(f) + " is incomplete"@,
    }
}

/// `head`, then the text of `middle`, then `tail`.
fn framed(head: &str, middle: String, tail: &str) -> (text: String)
    ensures
        text@ == head@ + middle@ + tail@,
{
    let mut text = head.to_owned();
    text.append(middle.as_str());
    text.append(tail);
    text
}

/// `head`, then the text of `tail`.
fn followed_by(head: &str, tail: String) -> (text: String)
    ensures
        text@ == head@ + tail@,
{
    let mut text = head.to_owned();
    text.append(tail.as_str());
    text
}

impl TransferError {
    pub fn message(&self) -> (text: String)
        ensures
            text@ == transfer_error_text(*self),
    {
        match self {
            TransferError::EmptyTransfer => String::from_str("transfer requires at least one file"),
            TransferError::ChunkOutOfBounds(i) => framed(
                "chunk index ",
                decimal_string(*i as u128),
                " is out of bounds",
            ),
            TransferError::ChunkingCancelled => String::from_str("cannot chunk a cancelled transfer"),
            TransferError::Cancelled(t) => framed("transfer ", uuid_string(*t), " is cancelled"),
            TransferError::NotInTransfer(f, t) => {
                let head = framed("file ", uuid_string(*f), " is not part of transfer ");
                followed_by(head.as_str(), uuid_string(*t))
            },
            TransferError::UnknownFile(f) => followed_by("unknown file id ", uuid_string(*f)),
            TransferError::SizeMismatch(f, d, a) => {
                let head = framed("file ", uuid_string(*f), " size mismatch: descriptor=");
                let head = framed(head.as_str(), decimal_string(*d as u128), " actual=");
                followed_by(head.as_str(), decimal_string(*a as u128))
            },
            TransferError::ChunkSizeTooLarge => String::from_str(
                "chunk size exceeds platform capacity",
            ),
            TransferError::ZeroChunkSize => String::from_str("chunk size must be positive"),
            TransferError::MissingBytes(f) => followed_by("missing bytes for file ", uuid_string(*f)),
            TransferError::ChecksumMismatch(t, f, c) => {
                let head = framed("checksum mismatch for transfer ", uuid_string(*t), " file ");
                let head = framed(head.as_str(), uuid_string(*f), " chunk ");
                followed_by(head.as_str(), decimal_string(*c as u128))
            },
            TransferError::NotApproved => String::from_str(
                "receiver requires an approved transfer plan",
            ),
            TransferError::FileTooLarge(f) => framed(
                "file ",
                uuid_string(*f),
                " exceeds platform capacity",
            ),
            TransferError::WrongTransfer => String::from_str(
                "chunk belongs to a different transfer",
            ),
            TransferError::OffsetTooLarge => String::from_str(
                "chunk offset exceeds platform capacity",
            ),
            TransferError::RangeOverflow => String::from_str("chunk range overflows"),
            TransferError::RangeExceedsFile => String::from_str("chunk range exceeds file size"),
            TransferError::NotComplete => String::from_str("transfer is not complete"),
            TransferError::MissingFile(f) => followed_by("missing assembled file ", uuid_string(*f)),
            TransferError::Incomplete(f) => framed("file ", uuid_string(*f), " is incomplete"),
        }
    }
}

/// The sum of the file sizes.
pub open spec fn total_size(files: Seq<TransferFileDescriptor>) -> nat
    decreases files.len(),
{
    if files.len() == 0 {
        0
    } else {
        total_size(files.drop_last()) + files.last().size_bytes as nat
    }
}

/// The chunk size a plan uses: the one asked for, or the default, kept
/// between the minimum and the maximum.
pub open spec fn effective_chunk_size(requested: Option<u64>) -> u64 {
    let wanted = match requested {
        Some(size) => size,
        None => DEFAULT_CHUNK_SIZE_BYTES,
    };
    if wanted < MIN_CHUNK_SIZE_BYTES {
        MIN_CHUNK_SIZE_BYTES
    } else if wanted > MAX_CHUNK_SIZE_BYTES {
        MAX_CHUNK_SIZE_BYTES
    } else {
        wanted
    }
}

/// Number of chunks of size `size` that cover `total` bytes.
pub open spec fn chunk_count(total: nat, size: nat) -> nat
    recommends
        size > 0,
{
    ((total + size - 1) / (size as int)) as nat
}

/// Plans a transfer of `files` with the given transfer identifier. The
/// plan waits for approval.
pub fn plan_transfer_with_id(
    transfer_id: u128,
    source_device_id: u128,
    target_device_id: u128,
    files: Vec<TransferFileDescriptor>,
    chunk_size_bytes: Option<u64>,
) -> (r: Result<TransferPlan, TransferError>)
    requires
        total_size(files@) <= u64::MAX,
    ensures
        files@.len() == 0 ==> r == Err::<TransferPlan, TransferError>(TransferError::EmptyTransfer),
        files@.len() > 0 ==> (r matches Ok(plan) && plan.manifest.transfer_id == transfer_id
            && plan.manifest.source_device_id == source_device_id
            && plan.manifest.target_device_id == target_device_id && plan.manifest.files@
            == files@ && plan.manifest.total_bytes == total_size(files@)
            && plan.chunk_size_bytes == effective_chunk_size(chunk_size_bytes)
            && plan.total_chunks == chunk_count(total_size(files@), plan.chunk_size_bytes as nat)
            && plan.status == TransferStatus::PendingApproval),
{
    if files.len() == 0 {
        return Err(TransferError::EmptyTransfer);
    }
    let wanted = match chunk_size_bytes {
        Some(size) => size,
        None => DEFAULT_CHUNK_SIZE_BYTES,
    };
    let chunk = if wanted < MIN_CHUNK_SIZE_BYTES {
        MIN_CHUNK_SIZE_BYTES
    } else if wanted > MAX_CHUNK_SIZE_BYTES {
        MAX_CHUNK_SIZE_BYTES
    } else {
        wanted
    };
    let mut total: u64 = 0;
    let mut i: usize = 0;
    while i < files.len()
        invariant
            i <= files@.len(),
            total == total_size(files@.take(i as int)),
            total_size(files@) <= u64::MAX,
        decreases files@.len() - i,
    {
        assert(files@.take(i as int + 1).drop_last() =~= files@.take(i as int));
        proof {
            lemma_total_size_prefix(files@, i as int + 1);
        }
        total = total + files[i].size_bytes;
        i += 1;
    }
    assert(files@.take(i as int) =~= files@);
    assert(total / chunk < u64::MAX) by (nonlinear_arith)
        requires
            chunk >= 2,
    ;
    let total_chunks = total / chunk + if total % chunk == 0 {
        0
    } else {
        1
    };
    proof {
        lemma_chunk_count(total as nat, chunk as nat);
    }
    Ok(
        TransferPlan {
            manifest: TransferManifest {
                transfer_id,
                source_device_id,
                target_device_id,
                files,
                total_bytes: total,
            },
            chunk_size_bytes: chunk,
            total_chunks,
            status: TransferStatus::PendingApproval,
        },
    )
}

pub proof fn lemma_total_size_prefix(files: Seq<TransferFileDescriptor>, n: int)
    requires
        0 <= n <= files.len(),
    ensures
        total_size(files.take(n)) <= total_size(files),
    decreases files.len() - n,
{
    if n < files.len() {
        assert(files.take(n + 1).drop_last() =~= files.take(n));
        lemma_total_size_prefix(files, n + 1);
    } else {
        assert(files.take(n) =~= files);
    }
}

proof fn lemma_chunk_count(total: nat, size: nat)
    requires
        size > 0,
    ensures
        chunk_count(total, size) == total / size + if total % size == 0 {
            0nat
        } else {
            1nat
        },
{
    let q = total / size;
    let r = total % size;
    assert(total == q * size + r) by (nonlinear_arith)
        requires
            size > 0,
            q == total / size,
            r == total % size,
    ;
    if r == 0 {
        assert((total + size - 1) / (size as int) == q) by (nonlinear_arith)
            requires
                size > 0,
                total == q * size,
        ;
    } else {
        assert((total + size - 1) / (size as int) == q + 1) by (nonlinear_arith)
            requires
                size > 0,
                total == q * size + r,
                0 < r < size,
        ;
    }
}

/// Plans a transfer under a fresh random identifier (see
/// `plan_transfer_with_id`, which holds for whatever identifier was drawn).
pub fn plan_transfer(
    source_device_id: u128,
    target_device_id: u128,
    files: Vec<TransferFileDescriptor>,
    chunk_size_bytes: Option<u64>,
) -> (r: Result<TransferPlan, TransferError>)
    requires
        total_size(files@) <= u64::MAX,
    ensures
        files@.len() == 0 ==> r == Err::<TransferPlan, TransferError>(TransferError::EmptyTransfer),
        files@.len() > 0 ==> (r matches Ok(plan) && plan.manifest.source_device_id
            == source_device_id && plan.manifest.target_device_id == target_device_id
            && plan.manifest.files@ == files@ && plan.manifest.total_bytes == total_size(files@)
            && plan.chunk_size_bytes == effective_chunk_size(chunk_size_bytes)
            && plan.total_chunks == chunk_count(total_size(files@), plan.chunk_size_bytes as nat)
            && plan.status == TransferStatus::PendingApproval),
{
    if files.len() == 0 {
        return Err(TransferError::EmptyTransfer);
    }
    let transfer_id = random_uuid();
    plan_transfer_with_id(transfer_id, source_device_id, target_device_id, files, chunk_size_bytes)
}

/// Marks a plan approved.
pub fn approve_transfer(plan: TransferPlan) -> (r: TransferPlan)
    ensures
        r == (TransferPlan { status: TransferStatus::Approved, ..plan }),
{
    let mut plan = plan;
    plan.status = TransferStatus::Approved;
    plan
}

/// Marks a plan cancelled.
pub fn cancel_transfer(plan: TransferPlan) -> (r: TransferPlan)
    ensures
        r == (TransferPlan { status: TransferStatus::Cancelled, ..plan }),
{
    let mut plan = plan;
    plan.status = TransferStatus::Cancelled;
    plan
}

/// The progress reported once chunk `chunk_index` of a plan has been sent:
/// the bytes of all chunks up to it, at most the whole transfer; refused
/// past the last chunk (an empty transfer still has chunk 0).
pub open spec fn chunk_progress(plan: TransferPlan, chunk_index: u64) -> Result<
    TransferProgress,
    TransferError,
> {
    let bound = if plan.total_chunks > 1 {
        plan.total_chunks
    } else {
        1
    };
    let sent = (chunk_index + 1) * plan.chunk_size_bytes;
    let total = plan.manifest.total_bytes;
    let transferred = if sent < total {
        sent
    } else {
        total as int
    };
    if chunk_index >= bound {
        Err(TransferError::ChunkOutOfBounds(chunk_index))
    } else {
        Ok(
            TransferProgress {
                transfer_id: plan.manifest.transfer_id,
                transferred_bytes: transferred as u64,
                total_bytes: total,
                chunk_index,
                total_chunks: plan.total_chunks,
                status: if transferred >= total {
                    TransferStatus::Completed
                } else {
                    TransferStatus::InProgress
                },
            },
        )
    }
}

/// Progress once chunk `chunk_index` has been sent.
pub fn progress_for_chunk(plan: &TransferPlan, chunk_index: u64) -> (r: Result<
    TransferProgress,
    TransferError,
>)
    requires
        chunk_index < (if plan.total_chunks > 1 {
            plan.total_chunks
        } else {
            1
        }) ==> (chunk_index + 1) * plan.chunk_size_bytes <= u64::MAX,
    ensures
        r == chunk_progress(*plan, chunk_index),
{
    let bound = if plan.total_chunks > 1 {
        plan.total_chunks
    } else {
        1
    };
    if chunk_index >= bound {
        return Err(TransferError::ChunkOutOfBounds(chunk_index));
    }
    let sent = (chunk_index + 1) * plan.chunk_size_bytes;
    let total = plan.manifest.total_bytes;
    let transferred = if sent < total {
        sent
    } else {
        total
    };
    let status = if transferred >= total {
        TransferStatus::Completed
    } else {
        TransferStatus::InProgress
    };
    Ok(
        TransferProgress {
            transfer_id: plan.manifest.transfer_id,
            transferred_bytes: transferred,
            total_bytes: total,
            chunk_index,
            total_chunks: plan.total_chunks,
            status,
        },
    )
}

/// The lowercase hexadecimal SHA-256 checksum of a chunk's bytes.
pub fn checksum_sha256(bytes: &[u8]) -> (text: String)
    ensures
        text@ == sha256_hex_text(bytes@),
        text@.len() == 64,
{
    sha256_hex(bytes)
}

/// Fails unless the chunk's checksum is that of its bytes.
pub fn validate_chunk_checksum(chunk: &TransferChunk) -> (r: Result<(), TransferError>)
    ensures
        r is Ok <==> chunk.checksum_sha256@ == sha256_hex_text(chunk.bytes@),
        r is Err ==> r == Err::<(), TransferError>(
            TransferError::ChecksumMismatch(chunk.transfer_id, chunk.file_id, chunk.chunk_index),
        ),
{
    let actual = checksum_sha256(chunk.bytes.as_slice());
    if actual != chunk.checksum_sha256 {
        return Err(TransferError::ChecksumMismatch(chunk.transfer_id, chunk.file_id, chunk.chunk_index));
    }
    Ok(())
}

/// Whether a file with this identifier is listed in the transfer.
pub open spec fn lists_file(files: Seq<TransferFileDescriptor>, file_id: u128) -> bool {
    exists|i: int| 0 <= i < files.len() && #[trigger] files[i].file_id == file_id
}

/// Why `chunk_bytes` refuses to cut a file of `len` bytes, if it does.
pub open spec fn chunk_error(plan: TransferPlan, file: TransferFileDescriptor, len: nat) -> Option<
    TransferError,
> {
    if plan.status == TransferStatus::Cancelled {
        Some(TransferError::ChunkingCancelled)
    } else if !lists_file(plan.manifest.files@, file.file_id) {
        Some(TransferError::NotInTransfer(file.file_id, plan.manifest.transfer_id))
    } else if file.size_bytes != len {
        Some(TransferError::SizeMismatch(file.file_id, file.size_bytes, len as usize))
    } else if plan.chunk_size_bytes > usize::MAX {
        Some(TransferError::ChunkSizeTooLarge)
    } else if plan.chunk_size_bytes == 0 {
        Some(TransferError::ZeroChunkSize)
    } else {
        None
    }
}

/// Where chunk `k` of a file cut into pieces of `size` bytes ends.
pub open spec fn chunk_end(k: int, size: nat, len: nat) -> int {
    if (k + 1) * size < len {
        (k + 1) * size
    } else {
        len as int
    }
}

/// `c` is chunk `k` of the file `data` in the given transfer: the bytes from
/// `k * size` up to the next boundary or the end, with their checksum.
pub open spec fn is_chunk_of(
    c: TransferChunk,
    transfer_id: u128,
    file_id: u128,
    data: Seq<u8>,
    size: nat,
    k: int,
) -> bool {
    &&& c.transfer_id == transfer_id
    &&& c.file_id == file_id
    &&& c.chunk_index == k
    &&& c.offset == k * size
    &&& c.bytes@ == data.subrange(k * size, chunk_end(k, size, data.len()))
    &&& c.checksum_sha256@ == sha256_hex_text(c.bytes@)
}

/// Cuts a file of the transfer into chunks of the plan's chunk size, each
/// with its index, offset and checksum. An empty file gives no chunk.
pub fn chunk_bytes(plan: &TransferPlan, file: &TransferFileDescriptor, file_bytes: &[u8]) -> (r:
    Result<Vec<TransferChunk>, TransferError>)
    ensures
        match chunk_error(*plan, *file, file_bytes@.len()) {
            Some(e) => r == Err::<Vec<TransferChunk>, TransferError>(e),
            None => r matches Ok(chunks) && chunks@.len() == chunk_count(
                file_bytes@.len(),
                plan.chunk_size_bytes as nat,
            ) && forall|k: int|
                0 <= k < chunks@.len() ==> is_chunk_of(
                    #[trigger] chunks@[k],
                    plan.manifest.transfer_id,
                    file.file_id,
                    file_bytes@,
                    plan.chunk_size_bytes as nat,
                    k,
                ),
        },
{
    if plan.status == TransferStatus::Cancelled {
        return Err(TransferError::ChunkingCancelled);
    }
    let mut listed = false;
    let mut i: usize = 0;
    while i < plan.manifest.files.len()
        invariant
            i <= plan.manifest.files@.len(),
            listed <==> exists|j: int|
                0 <= j < i && #[trigger] plan.manifest.files@[j].file_id == file.file_id,
        decreases plan.manifest.files@.len() - i,
    {
        if plan.manifest.files[i].file_id == file.file_id {
            listed = true;
        }
        i += 1;
    }
    if !listed {
        return Err(TransferError::NotInTransfer(file.file_id, plan.manifest.transfer_id));
    }
    if file.size_bytes != file_bytes.len() as u64 {
        return Err(TransferError::SizeMismatch(file.file_id, file.size_bytes, file_bytes.len()));
    }
    if plan.chunk_size_bytes > usize::MAX as u64 {
        return Err(TransferError::ChunkSizeTooLarge);
    }
    let size = plan.chunk_size_bytes as usize;
    if size == 0 {
        return Err(TransferError::ZeroChunkSize);
    }
    let len = file_bytes.len();
    let ghost data = file_bytes@;
    let mut chunks: Vec<TransferChunk> = Vec::new();
    let mut start: usize = 0;
    let mut index: usize = 0;
    proof {
        if len > 0 {
            lemma_div_at_least((len + size - 1) as nat, size as nat, 1);
        } else {
            lemma_div_below((size - 1) as nat, size as nat, 1);
        }
    }
    while start < len
        invariant
            len == data.len(),
            data == file_bytes@,
            size == plan.chunk_size_bytes,
            size > 0,
            start < len ==> start == index * size,
            start <= len,
            start < len ==> index < chunk_count(len as nat, size as nat),
            start >= len ==> index == chunk_count(len as nat, size as nat),
            chunks@.len() == index,
            forall|k: int|
                0 <= k < index ==> is_chunk_of(
                    #[trigger] chunks@[k],
                    plan.manifest.transfer_id,
                    file.file_id,
                    data,
                    size as nat,
                    k,
                ),
        decreases len - start,
    {
        assert(index <= start) by (nonlinear_arith)
            requires
                start == index * size,
                size >= 1,
        ;
        let remaining = len - start;
        let take = if remaining < size {
            remaining
        } else {
            size
        };
        let end = start + take;
        let piece = vstd::slice::slice_to_vec(vstd::slice::slice_subrange(file_bytes, start, end));
        let checksum = checksum_sha256(piece.as_slice());
        proof {
            lemma_chunk_step(len as nat, size as nat, index as nat);
        }
        chunks.push(
            TransferChunk {
                transfer_id: plan.manifest.transfer_id,
                file_id: file.file_id,
                chunk_index: index as u64,
                offset: start as u64,
                bytes: piece,
                checksum_sha256: checksum,
            },
        );
        start = end;
        index = index + 1;
    }
    Ok(chunks)
}

/// Stepping through the chunks of a `len`-byte file: chunk `k` starts
/// inside the file exactly when `k` is below the chunk count.
proof fn lemma_chunk_step(len: nat, size: nat, k: nat)
    requires
        size > 0,
        k * size < len,
    ensures
        k < chunk_count(len, size),
        (k + 1) * size < len ==> k + 1 < chunk_count(len, size),
        (k + 1) * size >= len ==> k + 1 == chunk_count(len, size),
        chunk_end(k as int, size, len) == if len - k * size < size {
            len as int
        } else {
            (k * size + size) as int
        },
{
    let n = chunk_count(len, size);
    assert((k + 1) * size == k * size + size) by (nonlinear_arith);
    assert(n == (len + size - 1) / (size as int));
    if (k + 1) * size < len {
        assert((k + 2) * size <= len + size - 1) by (nonlinear_arith)
            requires
                (k + 1) * size < len,
                size > 0,
        ;
        assert((k + 2) * size == (k + 2) * size);
        lemma_div_at_least((len + size - 1) as nat, size, k + 2);
    } else {
        lemma_div_at_least((len + size - 1) as nat, size, k + 1);
        assert((len + size - 1) < (k + 2) * size) by (nonlinear_arith)
            requires
                (k + 1) * size >= len,
                size > 0,
        ;
        lemma_div_below((len + size - 1) as nat, size, k + 2);
    }
}

proof fn lemma_div_at_least(a: nat, d: nat, q: nat)
    requires
        d > 0,
        q * d <= a,
    ensures
        q <= a / d,
{
    assert(q <= a / d) by (nonlinear_arith)
        requires
            d > 0,
            q * d <= a,
    ;
}

proof fn lemma_div_below(a: nat, d: nat, q: nat)
    requires
        d > 0,
        a < q * d,
    ensures
        a / d < q,
{
    assert(a / d < q) by (nonlinear_arith)
        requires
            d > 0,
            a < q * d,
    ;
}

/// Why cutting every file of the manifest fails, if it does: the first file,
/// in manifest order, whose bytes are missing or which cannot be cut.
pub open spec fn manifest_chunk_error(
    plan: TransferPlan,
    files: Seq<TransferFileDescriptor>,
    data: Map<u128, Vec<u8>>,
) -> Option<TransferError>
    decreases files.len(),
{
    if files.len() == 0 {
        None
    } else if !data.contains_key(files[0].file_id) {
        Some(TransferError::MissingBytes(files[0].file_id))
    } else {
        match chunk_error(plan, files[0], data[files[0].file_id]@.len()) {
            Some(e) => Some(e),
            None => manifest_chunk_error(plan, files.drop_first(), data),
        }
    }
}

/// How many chunks the first `i` files of the manifest are cut into.
pub open spec fn chunks_before(
    files: Seq<TransferFileDescriptor>,
    data: Map<u128, Vec<u8>>,
    size: nat,
    i: int,
) -> nat
    decreases i,
{
    if i <= 0 {
        0
    } else {
        chunks_before(files, data, size, i - 1) + chunk_count(
            data[files[i - 1].file_id]@.len(),
            size,
        )
    }
}

/// Chunk `k` of the `i`-th file of the manifest, in the sequence of all
/// chunks of the manifest.
pub open spec fn manifest_chunk(
    chunks: Seq<TransferChunk>,
    files: Seq<TransferFileDescriptor>,
    data: Map<u128, Vec<u8>>,
    size: nat,
    i: int,
    k: int,
) -> TransferChunk {
    chunks[chunks_before(files, data, size, i) + k]
}

/// Cuts every file of the manifest into chunks, file after file in manifest
/// order, taking each file's bytes from `files` by its identifier.
pub fn chunk_manifest_files(plan: &TransferPlan, files: &HashMap<u128, Vec<u8>>) -> (r: Result<
    Vec<TransferChunk>,
    TransferError,
>)
    ensures
        ({
            let ds = plan.manifest.files@;
            let size = plan.chunk_size_bytes as nat;
            match manifest_chunk_error(*plan, ds, files@) {
                Some(e) => r == Err::<Vec<TransferChunk>, TransferError>(e),
                None => r matches Ok(chunks) && chunks@.len() == chunks_before(
                    ds,
                    files@,
                    size,
                    ds.len() as int,
                ) && forall|i: int, k: int|
                    0 <= i < ds.len() && 0 <= k < chunk_count(files@[ds[i].file_id]@.len(), size)
                        ==> is_chunk_of(
                        #[trigger] manifest_chunk(chunks@, ds, files@, size, i, k),
                        plan.manifest.transfer_id,
                        ds[i].file_id,
                        files@[ds[i].file_id]@,
                        size,
                        k,
                    ),
            }
        }),
{
    let ghost ds = plan.manifest.files@;
    let ghost size = plan.chunk_size_bytes as nat;
    let mut chunks: Vec<TransferChunk> = Vec::new();
    let mut i: usize = 0;
    assert(ds.skip(0) =~= ds);
    while i < plan.manifest.files.len()
        invariant
            ds == plan.manifest.files@,
            size == plan.chunk_size_bytes as nat,
            i <= ds.len(),
            manifest_chunk_error(*plan, ds, files@) == manifest_chunk_error(
                *plan,
                ds.skip(i as int),
                files@,
            ),
            forall|j: int| 0 <= j < i ==> files@.contains_key(#[trigger] ds[j].file_id),
            chunks@.len() == chunks_before(ds, files@, size, i as int),
            forall|j: int, k: int|
                0 <= j < i && 0 <= k < chunk_count(files@[ds[j].file_id]@.len(), size)
                    ==> is_chunk_of(
                    #[trigger] manifest_chunk(chunks@, ds, files@, size, j, k),
                    plan.manifest.transfer_id,
                    ds[j].file_id,
                    files@[ds[j].file_id]@,
                    size,
                    k,
                ),
        decreases ds.len() - i,
    {
        let descriptor = &plan.manifest.files[i];
        assert(ds.skip(i as int)[0] == ds[i as int]);
        assert(ds.skip(i as int).drop_first() =~= ds.skip(i as int + 1));
        let file_bytes = match files.get(&descriptor.file_id) {
            Some(bytes) => bytes,
            None => {
                return Err(TransferError::MissingBytes(descriptor.file_id));
            },
        };
        let part = match chunk_bytes(plan, descriptor, file_bytes.as_slice()) {
            Ok(part) => part,
            Err(e) => {
                return Err(e);
            },
        };
        let ghost before = chunks@;
        let mut part = part;
        chunks.append(&mut part);
        proof {
            let base = chunks_before(ds, files@, size, i as int);
            assert(chunks_before(ds, files@, size, i as int + 1) == base + chunk_count(
                files@[ds[i as int].file_id]@.len(),
                size,
            ));
            assert forall|j: int, k: int|
                0 <= j < i + 1 && 0 <= k < chunk_count(files@[ds[j].file_id]@.len(), size)
                    implies is_chunk_of(
                    #[trigger] manifest_chunk(chunks@, ds, files@, size, j, k),
                    plan.manifest.transfer_id,
                    ds[j].file_id,
                    files@[ds[j].file_id]@,
                    size,
                    k,
                ) by {
                if j < i {
                    lemma_chunks_before_grows(ds, files@, size, j + 1, i as int);
                    assert(manifest_chunk(chunks@, ds, files@, size, j, k) == manifest_chunk(
                        before,
                        ds,
                        files@,
                        size,
                        j,
                        k,
                    ));
                } else {
                    assert(manifest_chunk(chunks@, ds, files@, size, j, k) == chunks@[base + k]);
                }
            }
        }
        i += 1;
    }
    proof {
        assert(ds.skip(ds.len() as int) =~= Seq::<TransferFileDescriptor>::empty());
    }
    Ok(chunks)
}

proof fn lemma_chunks_before_grows(
    files: Seq<TransferFileDescriptor>,
    data: Map<u128, Vec<u8>>,
    size: nat,
    i: int,
    j: int,
)
    requires
        0 <= i <= j,
    ensures
        chunks_before(files, data, size, i) <= chunks_before(files, data, size, j),
    decreases j - i,
{
    if i < j {
        lemma_chunks_before_grows(files, data, size, i, j - 1);
    }
}

/// What the receiver knows of one file of the transfer.
pub ghost struct AssemblyState {
    pub descriptor: TransferFileDescriptor,
    /// The file's bytes as assembled so far (zero where nothing arrived).
    pub bytes: Seq<u8>,
    /// The `(offset, length)` ranges written so far.
    pub ranges: Set<(u64, u64)>,
    /// Bytes written so far, counted once per distinct range.
    pub received: nat,
}

/// What a receiver knows of a transfer.
pub ghost struct ReceiverState {
    pub plan: TransferPlan,
    /// The files being assembled, by identifier.
    pub files: Map<u128, AssemblyState>,
    /// The `(file, offset, index)` keys of the chunks accepted so far.
    pub accepted: Set<(u128, u64, u64)>,
    pub status: TransferStatus,
    /// Bytes written so far over all files.
    pub transferred: nat,
}

#[derive(Debug, Clone, PartialEq, Eq)]
struct FileAssembly {
    descriptor: TransferFileDescriptor,
    bytes: Vec<u8>,
    received_ranges: Vec<(u64, u64)>,
    received_bytes: u64,
}

impl FileAssembly {
    closed spec fn state(self) -> AssemblyState {
        AssemblyState {
            descriptor: self.descriptor,
            bytes: self.bytes@,
            ranges: self.received_ranges@.to_set(),
            received: self.received_bytes as nat,
        }
    }
}

/// Reassembles a transfer from its chunks, in whatever order they arrive;
/// a chunk seen before changes nothing.
#[derive(Debug, Clone, PartialEq, Eq)]
pub struct TransferReceiver {
    plan: TransferPlan,
    files: HashMap<u128, FileAssembly>,
    accepted_chunks: Vec<(u128, u64, u64)>,
    status: TransferStatus,
    transferred_bytes: u64,
}

impl View for TransferReceiver {
    type V = ReceiverState;

    closed spec fn view(&self) -> ReceiverState {
        ReceiverState {
            plan: self.plan,
            files: self.files@.map_values(|a: FileAssembly| a.state()),
            accepted: self.accepted_chunks@.to_set(),
            status: self.status,
            transferred: self.transferred_bytes as nat,
        }
    }
}

/// What holds of every receiver: the byte counts fit in 64 bits, no file
/// has received more bytes than the whole transfer, and the files are those
/// of the manifest: one per identifier listed, each with the descriptor the
/// manifest lists last under it and as many bytes as that descriptor says.
pub open spec fn receiver_inv(s: ReceiverState) -> bool {
    let listed = initial_assemblies(s.plan.manifest.files@);
    &&& s.transferred <= u64::MAX
    &&& forall|k: u128| #[trigger] s.files.contains_key(k) ==> s.files[k].received <= s.transferred
    &&& s.files.dom() == listed.dom()
    &&& forall|k: u128| #[trigger]
        s.files.contains_key(k) ==> s.files[k].descriptor == listed[k].descriptor
            && s.files[k].bytes.len() == listed[k].descriptor.size_bytes
}

/// Each file of a new receiver is a zeroed file of the descriptor kept for
/// its identifier, and every identifier kept is one the manifest lists.
pub proof fn lemma_initial_assemblies_fresh(files: Seq<TransferFileDescriptor>)
    ensures
        forall|k: u128| #[trigger]
            initial_assemblies(files).contains_key(k) ==> initial_assemblies(files)[k]
                == fresh_assembly(initial_assemblies(files)[k].descriptor),
        forall|k: u128| #[trigger]
            initial_assemblies(files).contains_key(k) <==> exists|i: int|
                0 <= i < files.len() && files[i].file_id == k,
    decreases files.len(),
{
    if files.len() > 0 {
        let rest = files.drop_last();
        lemma_initial_assemblies_fresh(rest);
        assert forall|k: u128| #[trigger]
            initial_assemblies(files).contains_key(k) implies exists|i: int|
                0 <= i < files.len() && files[i].file_id == k by {
            if k == files.last().file_id {
                assert(files[files.len() - 1].file_id == k);
            } else {
                assert(initial_assemblies(rest).contains_key(k));
                let i = choose|i: int| 0 <= i < rest.len() && rest[i].file_id == k;
                assert(files[i] == rest[i]);
            }
        }
        assert forall|k: u128|
            (exists|i: int| 0 <= i < files.len() && files[i].file_id == k) implies #[trigger]
            initial_assemblies(files).contains_key(k) by {
            let i = choose|i: int| 0 <= i < files.len() && files[i].file_id == k;
            if i < files.len() - 1 {
                assert(rest[i] == files[i]);
            }
        }
    }
}

/// A file before any chunk of it arrived.
pub open spec fn fresh_assembly(d: TransferFileDescriptor) -> AssemblyState {
    AssemblyState {
        descriptor: d,
        bytes: Seq::new(d.size_bytes as nat, |i: int| 0u8),
        ranges: Set::empty(),
        received: 0,
    }
}

/// The files of a new receiver: one per identifier of the manifest, the
/// last descriptor listed under an identifier winning.
pub open spec fn initial_assemblies(files: Seq<TransferFileDescriptor>) -> Map<
    u128,
    AssemblyState,
>
    decreases files.len(),
{
    if files.len() == 0 {
        Map::empty()
    } else {
        initial_assemblies(files.drop_last()).insert(
            files.last().file_id,
            fresh_assembly(files.last()),
        )
    }
}

/// Why no receiver can be made for a plan, if none can.
pub open spec fn receiver_error(plan: TransferPlan) -> Option<TransferError> {
    if plan.status != TransferStatus::Approved && plan.status != TransferStatus::InProgress {
        Some(TransferError::NotApproved)
    } else {
        match first_too_large(plan.manifest.files@) {
            Some(f) => Some(TransferError::FileTooLarge(f)),
            None => None,
        }
    }
}

/// Where every file fits in memory, none is too large.
pub proof fn lemma_first_too_large_none(files: Seq<TransferFileDescriptor>)
    requires
        forall|i: int| 0 <= i < files.len() ==> #[trigger] files[i].size_bytes <= usize::MAX,
    ensures
        first_too_large(files) is None,
    decreases files.len(),
{
    if files.len() > 0 {
        assert(files[0].size_bytes <= usize::MAX);
        assert forall|i: int| 0 <= i < files.drop_first().len() implies #[trigger] files.drop_first()[i].size_bytes
            <= usize::MAX by {
            assert(files.drop_first()[i] == files[i + 1]);
        }
        lemma_first_too_large_none(files.drop_first());
    }
}

/// The first file, in order, larger than the platform can hold in memory.
pub open spec fn first_too_large(files: Seq<TransferFileDescriptor>) -> Option<u128>
    decreases files.len(),
{
    if files.len() == 0 {
        None
    } else if files[0].size_bytes > usize::MAX {
        Some(files[0].file_id)
    } else {
        first_too_large(files.drop_first())
    }
}

/// `bytes` with `piece` written over it from `offset` on.
pub open spec fn splice(bytes: Seq<u8>, offset: int, piece: Seq<u8>) -> Seq<u8> {
    bytes.subrange(0, offset) + piece + bytes.subrange(offset + piece.len(), bytes.len() as int)
}

/// The receiver once a chunk that passed every check is taken in: a chunk
/// not seen before whose range is new is written and counted; the status
/// follows the count.
pub open spec fn accepted_state(s: ReceiverState, c: TransferChunk) -> ReceiverState {
    let key = (c.file_id, c.offset, c.chunk_index);
    let range = (c.offset, c.bytes@.len() as u64);
    let a = s.files[c.file_id];
    let fresh = !s.accepted.contains(key) && !a.ranges.contains(range);
    let len = c.bytes@.len();
    let transferred = if fresh {
        s.transferred + len
    } else {
        s.transferred
    };
    ReceiverState {
        plan: s.plan,
        files: if fresh {
            s.files.insert(
                c.file_id,
                AssemblyState {
                    descriptor: a.descriptor,
                    bytes: splice(a.bytes, c.offset as int, c.bytes@),
                    ranges: a.ranges.insert(range),
                    received: a.received + len,
                },
            )
        } else {
            s.files
        },
        accepted: s.accepted.insert(key),
        status: if transferred >= s.plan.manifest.total_bytes {
            TransferStatus::Completed
        } else {
            TransferStatus::InProgress
        },
        transferred,
    }
}

/// What taking in a chunk does: the first check it fails, or the new state.
pub open spec fn accept_outcome(s: ReceiverState, c: TransferChunk) -> Result<
    ReceiverState,
    TransferError,
> {
    if s.status == TransferStatus::Cancelled {
        Err(TransferError::Cancelled(s.plan.manifest.transfer_id))
    } else if c.transfer_id != s.plan.manifest.transfer_id {
        Err(TransferError::WrongTransfer)
    } else if c.checksum_sha256@ != sha256_hex_text(c.bytes@) {
        Err(TransferError::ChecksumMismatch(c.transfer_id, c.file_id, c.chunk_index))
    } else if !s.files.contains_key(c.file_id) {
        Err(TransferError::UnknownFile(c.file_id))
    } else if c.offset > usize::MAX {
        Err(TransferError::OffsetTooLarge)
    } else if c.offset + c.bytes@.len() > usize::MAX {
        Err(TransferError::RangeOverflow)
    } else if c.offset + c.bytes@.len() > s.files[c.file_id].bytes.len() {
        Err(TransferError::RangeExceedsFile)
    } else {
        Ok(accepted_state(s, c))
    }
}

/// The progress report of a receiver, for the chunk with this index.
pub open spec fn progress_of(s: ReceiverState, chunk_index: u64) -> TransferProgress {
    TransferProgress {
        transfer_id: s.plan.manifest.transfer_id,
        transferred_bytes: s.transferred as u64,
        total_bytes: s.plan.manifest.total_bytes,
        chunk_index,
        total_chunks: s.plan.total_chunks,
        status: s.status,
    }
}

/// The first file of `ds`, in order, that is missing or not fully received.
pub open spec fn assembly_error(
    files: Map<u128, AssemblyState>,
    ds: Seq<TransferFileDescriptor>,
) -> Option<TransferError>
    decreases ds.len(),
{
    if ds.len() == 0 {
        None
    } else if !files.contains_key(ds[0].file_id) {
        Some(TransferError::MissingFile(ds[0].file_id))
    } else if files[ds[0].file_id].received != ds[0].size_bytes {
        Some(TransferError::Incomplete(ds[0].file_id))
    } else {
        assembly_error(files, ds.drop_first())
    }
}

/// Why a receiver cannot hand out the completed transfer, if it cannot.
pub open spec fn completion_error(s: ReceiverState) -> Option<TransferError> {
    if s.status != TransferStatus::Completed {
        Some(TransferError::NotComplete)
    } else {
        assembly_error(s.files, s.plan.manifest.files@)
    }
}

fn has_range(ranges: &Vec<(u64, u64)>, range: (u64, u64)) -> (b: bool)
    ensures
        b == ranges@.contains(range),
{
    let mut i: usize = 0;
    while i < ranges.len()
        invariant
            i <= ranges@.len(),
            forall|j: int| 0 <= j < i ==> ranges@[j] != range,
        decreases ranges@.len() - i,
    {
        if ranges[i].0 == range.0 && ranges[i].1 == range.1 {
            assert(ranges@[i as int] == range);
            return true;
        }
        i += 1;
    }
    false
}

fn has_chunk_key(keys: &Vec<(u128, u64, u64)>, key: (u128, u64, u64)) -> (b: bool)
    ensures
        b == keys@.contains(key),
{
    let mut i: usize = 0;
    while i < keys.len()
        invariant
            i <= keys@.len(),
            forall|j: int| 0 <= j < i ==> keys@[j] != key,
        decreases keys@.len() - i,
    {
        if keys[i].0 == key.0 && keys[i].1 == key.1 && keys[i].2 == key.2 {
            assert(keys@[i as int] == key);
            return true;
        }
        i += 1;
    }
    false
}

proof fn lemma_push_to_set<A>(s: Seq<A>, x: A)
    ensures
        s.push(x).to_set() == s.to_set().insert(x),
{
    assert forall|y: A| s.push(x).to_set().contains(y) <==> s.to_set().insert(x).contains(y) by {
        if s.contains(y) {
            let j = choose|j: int| 0 <= j < s.len() && s[j] == y;
            assert(s.push(x)[j] == y);
        }
        if y == x {
            assert(s.push(x)[s.len() as int] == y);
        }
        if s.push(x).contains(y) {
            let j = choose|j: int| 0 <= j < s.len() + 1 && s.push(x)[j] == y;
            if j < s.len() {
                assert(s[j] == y);
            }
        }
    }
    assert(s.push(x).to_set() =~= s.to_set().insert(x));
}

impl TransferReceiver {
    /// A receiver for an approved plan, with every file of the manifest
    /// zeroed and nothing received.
    pub fn new(plan: TransferPlan) -> (r: Result<Self, TransferError>)
        ensures
            match receiver_error(plan) {
                Some(e) => r == Err::<Self, TransferError>(e),
                None => r matches Ok(rc) && rc@ == (ReceiverState {
                    plan,
                    files: initial_assemblies(plan.manifest.files@),
                    accepted: Set::empty(),
                    status: TransferStatus::Approved,
                    transferred: 0,
                }) && receiver_inv(rc@),
            },
    {
        if plan.status != TransferStatus::Approved && plan.status != TransferStatus::InProgress {
            return Err(TransferError::NotApproved);
        }
        let ghost ds = plan.manifest.files@;
        assert(ds.skip(0) =~= ds);
        let mut files: HashMap<u128, FileAssembly> = HashMap::new();
        let mut i: usize = 0;
        while i < plan.manifest.files.len()
            invariant
                ds == plan.manifest.files@,
                plan.status == TransferStatus::Approved || plan.status
                    == TransferStatus::InProgress,
                i <= ds.len(),
                forall|j: int| 0 <= j < i ==> #[trigger] ds[j].size_bytes <= usize::MAX,
                first_too_large(ds) == first_too_large(ds.skip(i as int)),
                files@.map_values(|a: FileAssembly| a.state()) == initial_assemblies(
                    ds.take(i as int),
                ),
                forall|k: u128| #[trigger]
                    files@.contains_key(k) ==> files@[k].received_bytes == 0,
            decreases ds.len() - i,
        {
            let descriptor = &plan.manifest.files[i];
            assert(ds.skip(i as int)[0] == ds[i as int]);
            assert(ds.skip(i as int).drop_first() =~= ds.skip(i as int + 1));
            if descriptor.size_bytes > usize::MAX as u64 {
                return Err(TransferError::FileTooLarge(descriptor.file_id));
            }
            let size = descriptor.size_bytes as usize;
            let copy = TransferFileDescriptor {
                file_id: descriptor.file_id,
                name: descriptor.name.clone(),
                size_bytes: descriptor.size_bytes,
            };
            let mut bytes: Vec<u8> = Vec::new();
            let mut n: usize = 0;
            while n < size
                invariant
                    n <= size,
                    bytes@ == Seq::new(n as nat, |j: int| 0u8),
                decreases size - n,
            {
                bytes.push(0u8);
                n += 1;
                assert(bytes@ =~= Seq::new(n as nat, |j: int| 0u8));
            }
            let assembly = FileAssembly {
                descriptor: copy,
                bytes,
                received_ranges: Vec::new(),
                received_bytes: 0,
            };
            let ghost before = files@;
            files.insert(descriptor.file_id, assembly);
            proof {
                assert(ds.take(i as int + 1).drop_last() =~= ds.take(i as int));
                assert(ds.take(i as int + 1).last() == ds[i as int]);
                assert(assembly.state() == fresh_assembly(ds[i as int])) by {
                    assert(assembly.received_ranges@.to_set() =~= Set::<(u64, u64)>::empty());
                }
                assert(files@.map_values(|a: FileAssembly| a.state()) =~= before.map_values(
                    |a: FileAssembly| a.state(),
                ).insert(descriptor.file_id, assembly.state()));
            }
            i += 1;
        }
        assert(ds.take(ds.len() as int) =~= ds);
        assert(ds.skip(ds.len() as int) =~= Seq::<TransferFileDescriptor>::empty());
        let rc = TransferReceiver {
            plan,
            files,
            accepted_chunks: Vec::new(),
            status: TransferStatus::Approved,
            transferred_bytes: 0,
        };
        assert(rc.accepted_chunks@.to_set() =~= Set::<(u128, u64, u64)>::empty());
        proof {
            lemma_initial_assemblies_fresh(ds);
        }
        Ok(rc)
    }

    pub fn status(&self) -> (status: TransferStatus)
        ensures
            status == self@.status,
    {
        self.status
    }

    /// Cancels the transfer: every later chunk is refused.
    pub fn cancel(&mut self)
        ensures
            final(self)@ == (ReceiverState { status: TransferStatus::Cancelled, ..old(self)@ }),
    {
        self.status = TransferStatus::Cancelled;
    }

    /// The receiver's progress, reported for the chunk with this index.
    pub fn progress(&self, chunk_index: u64) -> (p: TransferProgress)
        ensures
            p == progress_of(self@, chunk_index),
    {
        TransferProgress {
            transfer_id: self.plan.manifest.transfer_id,
            transferred_bytes: self.transferred_bytes,
            total_bytes: self.plan.manifest.total_bytes,
            chunk_index,
            total_chunks: self.plan.total_chunks,
            status: self.status,
        }
    }

    /// Takes in a chunk: refused once cancelled, for another transfer, with a
    /// wrong checksum, for an unknown file or outside the file; otherwise
    /// written unless seen before, and the progress reported.
    pub fn accept_chunk(&mut self, chunk: TransferChunk) -> (r: Result<TransferProgress, TransferError>)
        requires
            receiver_inv(old(self)@),
            old(self)@.transferred + chunk.bytes@.len() <= u64::MAX,
        ensures
            receiver_inv(final(self)@),
            match accept_outcome(old(self)@, chunk) {
                Ok(s) => final(self)@ == s && r == Ok::<TransferProgress, TransferError>(
                    progress_of(s, chunk.chunk_index),
                ),
                Err(e) => final(self)@ == old(self)@ && r == Err::<TransferProgress, TransferError>(
                    e,
                ),
            },
    {
        let ghost s0 = self@;
        if self.status == TransferStatus::Cancelled {
            return Err(TransferError::Cancelled(self.plan.manifest.transfer_id));
        }
        if chunk.transfer_id != self.plan.manifest.transfer_id {
            return Err(TransferError::WrongTransfer);
        }
        if validate_chunk_checksum(&chunk).is_err() {
            return Err(TransferError::ChecksumMismatch(chunk.transfer_id, chunk.file_id, chunk.chunk_index));
        }
        let file_len = match self.files.get(&chunk.file_id) {
            Some(a) => a.bytes.len(),
            None => {
                return Err(TransferError::UnknownFile(chunk.file_id));
            },
        };
        if chunk.offset > usize::MAX as u64 {
            return Err(TransferError::OffsetTooLarge);
        }
        let start = chunk.offset as usize;
        let len = chunk.bytes.len();
        if start > usize::MAX - len {
            return Err(TransferError::RangeOverflow);
        }
        let end = start + len;
        if end > file_len {
            return Err(TransferError::RangeExceedsFile);
        }
        let range = (chunk.offset, len as u64);
        let key = (chunk.file_id, chunk.offset, chunk.chunk_index);
        if !has_chunk_key(&self.accepted_chunks, key) {
            let mut assembly = match self.files.remove(&chunk.file_id) {
                Some(a) => a,
                None => {
                    return Err(TransferError::UnknownFile(chunk.file_id));
                },
            };
            let ghost a0 = assembly;
            proof {
                assert(s0.files.contains_key(chunk.file_id));
                assert(s0.files[chunk.file_id] == a0.state());
                assert(a0.received_bytes <= s0.transferred);
            }
            if !has_range(&assembly.received_ranges, range) {
                assembly.received_ranges.push(range);
                let mut j: usize = 0;
                while j < len
                    invariant
                        j <= len,
                        len == chunk.bytes@.len(),
                        end == start + len,
                        start + len <= a0.bytes@.len(),
                        assembly.descriptor == a0.descriptor,
                        assembly.received_bytes == a0.received_bytes,
                        assembly.received_ranges@ == a0.received_ranges@.push(range),
                        assembly.bytes@.len() == a0.bytes@.len(),
                        forall|x: int|
                            0 <= x < assembly.bytes@.len() ==> #[trigger] assembly.bytes@[x] == if start
                                <= x < start + j {
                                chunk.bytes@[x - start]
                            } else {
                                a0.bytes@[x]
                            },
                    decreases len - j,
                {
                    assembly.bytes.set(start + j, chunk.bytes[j]);
                    j += 1;
                }
                assert(assembly.bytes@ =~= splice(a0.bytes@, start as int, chunk.bytes@));
                proof {
                    lemma_push_to_set(a0.received_ranges@, range);
                }
                assembly.received_bytes = assembly.received_bytes + len as u64;
                self.transferred_bytes = self.transferred_bytes + len as u64;
            }
            let ghost a1 = assembly;
            self.files.insert(chunk.file_id, assembly);
            proof {
                lemma_push_to_set(self.accepted_chunks@, key);
                assert(self.files@.map_values(|a: FileAssembly| a.state()) =~= s0.files.insert(
                    chunk.file_id,
                    a1.state(),
                ));
            }
            self.accepted_chunks.push(key);
        }
        self.status = if self.transferred_bytes >= self.plan.manifest.total_bytes {
            TransferStatus::Completed
        } else {
            TransferStatus::InProgress
        };
        proof {
            let s1 = accepted_state(s0, chunk);
            if s0.accepted.contains(key) {
                assert(s0.accepted.insert(key) =~= s0.accepted);
                assert(self@.files =~= s1.files);
            } else if s0.files[chunk.file_id].ranges.contains(range) {
                assert(s0.files.insert(chunk.file_id, s0.files[chunk.file_id]) =~= s0.files);
                assert(self@.files =~= s1.files);
            } else {
                assert(self@.files =~= s1.files);
            }
            assert(self@.accepted =~= s1.accepted);
        }
        Ok(self.progress(chunk.chunk_index))
    }

    /// Hands out the assembled files, in manifest order, once the transfer is
    /// complete and every file has been fully received.
    pub fn complete(self) -> (r: Result<CompletedTransfer, TransferError>)
        ensures
            match completion_error(self@) {
                Some(e) => r == Err::<CompletedTransfer, TransferError>(e),
                None => r matches Ok(c) && c.manifest == self@.plan.manifest && c.files@.len()
                    == self@.plan.manifest.files@.len() && forall|i: int|
                    0 <= i < c.files@.len() ==> {
                        let d = self@.plan.manifest.files@[i];
                        &&& (#[trigger] c.files@[i]).descriptor == d
                        &&& c.files@[i].bytes@ == self@.files[d.file_id].bytes
                    },
            },
    {
        if self.status != TransferStatus::Completed {
            return Err(TransferError::NotComplete);
        }
        let ghost s = self@;
        let ghost ds = self.plan.manifest.files@;
        let mut files: Vec<ReceivedFile> = Vec::new();
        let mut i: usize = 0;
        assert(ds.skip(0) =~= ds);
        while i < self.plan.manifest.files.len()
            invariant
                s == self@,
                ds == self.plan.manifest.files@,
                i <= ds.len(),
                completion_error(s) == assembly_error(s.files, ds.skip(i as int)),
                files@.len() == i,
                forall|j: int|
                    0 <= j < i ==> {
                        let d = ds[j];
                        &&& (#[trigger] files@[j]).descriptor == d
                        &&& files@[j].bytes@ == s.files[d.file_id].bytes
                    },
            decreases ds.len() - i,
        {
            let descriptor = &self.plan.manifest.files[i];
            assert(ds.skip(i as int)[0] == ds[i as int]);
            assert(ds.skip(i as int).drop_first() =~= ds.skip(i as int + 1));
            let assembly = match self.files.get(&descriptor.file_id) {
                Some(a) => a,
                None => {
                    return Err(TransferError::MissingFile(descriptor.file_id));
                },
            };
            if assembly.received_bytes != descriptor.size_bytes {
                return Err(TransferError::Incomplete(descriptor.file_id));
            }
            let copy = TransferFileDescriptor {
                file_id: descriptor.file_id,
                name: descriptor.name.clone(),
                size_bytes: descriptor.size_bytes,
            };
            let bytes = vstd::slice::slice_to_vec(assembly.bytes.as_slice());
            files.push(ReceivedFile { descriptor: copy, bytes });
            i += 1;
        }
        assert(ds.skip(ds.len() as int) =~= Seq::<TransferFileDescriptor>::empty());
        Ok(CompletedTransfer { manifest: self.plan.manifest, files })
    }
}

/// The last chunk of a plan (chunk 0 of an empty one) reports the whole
/// transfer sent and completed.
pub proof fn lemma_last_chunk_completes(plan: TransferPlan)
    requires
        plan.chunk_size_bytes > 0,
        plan.total_chunks == chunk_count(
            plan.manifest.total_bytes as nat,
            plan.chunk_size_bytes as nat,
        ),
    ensures
        ({
            let last = if plan.total_chunks > 0 {
                plan.total_chunks - 1
            } else {
                0
            };
            chunk_progress(plan, last as u64) matches Ok(p) && p.transferred_bytes
                == plan.manifest.total_bytes && p.status == TransferStatus::Completed
        }),
{
    let t = plan.manifest.total_bytes as nat;
    let c = plan.chunk_size_bytes as nat;
    let q = plan.total_chunks as nat;
    assert(q * c >= t) by (nonlinear_arith)
        requires
            c > 0,
            q == (t + c - 1) / (c as int),
    ;
    if q == 0 {
        assert(q * c == 0) by (nonlinear_arith)
            requires
                q == 0,
        ;
    }
}

/// Taking in a chunk a second time changes nothing and reports the same
/// progress.
pub proof fn lemma_duplicate_chunk_is_idempotent(s: ReceiverState, c: TransferChunk)
    requires
        accept_outcome(s, c) is Ok,
    ensures
        accept_outcome(accept_outcome(s, c)->Ok_0, c) == accept_outcome(s, c),
{
    let s1 = accept_outcome(s, c)->Ok_0;
    let key = (c.file_id, c.offset, c.chunk_index);
    let range = (c.offset, c.bytes@.len() as u64);
    let a = s.files[c.file_id];
    if !s.accepted.contains(key) && !a.ranges.contains(range) {
        assert(splice(a.bytes, c.offset as int, c.bytes@).len() == a.bytes.len());
    }
    assert(s1.files.contains_key(c.file_id));
    assert(s1.files[c.file_id].bytes.len() == s.files[c.file_id].bytes.len());
    assert(s1.accepted.contains(key));
    assert(s1.accepted.insert(key) =~= s1.accepted);
    assert(accepted_state(s1, c) == s1);
}

/// A cancelled receiver refuses every chunk.
pub proof fn lemma_cancelled_receiver_refuses(s: ReceiverState, c: TransferChunk)
    requires
        s.status == TransferStatus::Cancelled,
    ensures
        accept_outcome(s, c) == Err::<ReceiverState, TransferError>(
            TransferError::Cancelled(s.plan.manifest.transfer_id),
        ),
{
}

/// Runs `operation` and measures how long it took; its error is passed on.
pub fn transfer_pipeline_latency<F, T>(operation: F) -> (r: Result<(T, std::time::Duration), TransferError>) where
    F: FnOnce() -> Result<T, TransferError>,

    requires
        operation.requires(()),
    ensures
        exists|out: Result<T, TransferError>|
            operation.ensures((), out) && match out {
                Ok(v) => r matches Ok((w, _)) && w == v,
                Err(e) => r == Err::<(T, std::time::Duration), TransferError>(e),
            },
{
    let started = crate::primitives::instant_now();
    let result = operation();
    match result {
        Ok(value) => Ok((value, crate::primitives::elapsed_since(&started))),
        Err(e) => Err(e),
    }
}

} // verus!
