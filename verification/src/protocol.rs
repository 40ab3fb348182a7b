//! The versioned frame protocol shared by the desktop shell, the core
//! service and peers: message kinds, their channels and send priorities,
//! version negotiation and line framing.

use vstd::prelude::*;

verus! {

pub const CURRENT_PROTOCOL_VERSION: u32 = 1;

pub const MIN_SUPPORTED_PROTOCOL_VERSION: u32 = 1;

#[derive(Clone, Copy, Debug, PartialEq, Eq, Structural)]
pub enum ChannelKind {
    Control,
    Input,
    Clipboard,
    Diagnostic,
    FileTransfer,
}

/// Send priority; a later variant goes out first.
#[derive(Clone, Copy, Debug, PartialEq, Eq, PartialOrd, Ord, Structural)]
pub enum MessagePriority {
    FileTransfer,
    Diagnostic,
    Clipboard,
    Control,
    Input,
}

/// The numeric rank of a priority: `FileTransfer` is 1, `Input` is 5.
pub open spec fn rank(p: MessagePriority) -> int {
    match p {
        MessagePriority::FileTransfer => 1,
        MessagePriority::Diagnostic => 2,
        MessagePriority::Clipboard => 3,
        MessagePriority::Control => 4,
        MessagePriority::Input => 5,
    }
}

pub open spec fn priority_of_channel(channel: ChannelKind) -> MessagePriority {
    match channel {
        ChannelKind::Control => MessagePriority::Control,
        ChannelKind::Input => MessagePriority::Input,
        ChannelKind::Clipboard => MessagePriority::Clipboard,
        ChannelKind::Diagnostic => MessagePriority::Diagnostic,
        ChannelKind::FileTransfer => MessagePriority::FileTransfer,
    }
}

impl MessagePriority {
    /// The priority that messages of a channel are sent with.
    pub fn for_channel(channel: ChannelKind) -> (p: Self)
        ensures
            p == priority_of_channel(channel),
    {
        match channel {
            ChannelKind::Control => MessagePriority::Control,
            ChannelKind::Input => MessagePriority::Input,
            ChannelKind::Clipboard => MessagePriority::Clipboard,
            ChannelKind::Diagnostic => MessagePriority::Diagnostic,
            ChannelKind::FileTransfer => MessagePriority::FileTransfer,
        }
    }

    /// The numeric rank of the priority (see `rank`).
    pub fn rank(&self) -> (r: u8)
        ensures
            r == rank(*self),
    {
        match self {
            MessagePriority::FileTransfer => 1,
            MessagePriority::Diagnostic => 2,
            MessagePriority::Clipboard => 3,
            MessagePriority::Control => 4,
            MessagePriority::Input => 5,
        }
    }
}

#[derive(Clone, Copy, Debug, PartialEq, Eq, Structural)]
pub struct VersionNegotiation {
    pub current: u32,
    pub min_supported: u32,
}

impl Default for VersionNegotiation {
    fn default() -> (v: Self)
        ensures
            v.current == CURRENT_PROTOCOL_VERSION,
            v.min_supported == MIN_SUPPORTED_PROTOCOL_VERSION,
    {
        VersionNegotiation {
            current: CURRENT_PROTOCOL_VERSION,
            min_supported: MIN_SUPPORTED_PROTOCOL_VERSION,
        }
    }
}

#[derive(Clone, Debug, PartialEq, Eq)]
pub struct DeviceDescriptor {
    pub device_id: String,
    pub display_name: String,
    pub platform: String,
    pub address: String,
    pub port: u16,
    pub fingerprint_sha256: String,
    pub certificate_pem: String,
}

#[derive(Clone, Debug, PartialEq, Eq)]
pub struct PairingCode {
    pub value: String,
}

#[derive(Clone, Debug, PartialEq, Eq)]
pub struct FileTransferFileDescriptor {
    pub file_id: u128,
    pub name: String,
    pub size_bytes: u64,
}

#[derive(Clone, Debug, PartialEq, Eq)]
pub struct FileTransferManifest {
    pub transfer_id: u128,
    pub source_device_id: u128,
    pub target_device_id: u128,
    pub files: Vec<FileTransferFileDescriptor>,
    pub total_bytes: u64,
    pub chunk_size_bytes: u64,
    pub total_chunks: u64,
}

#[derive(Clone, Debug, PartialEq, Eq)]
pub struct FileTransferChunkPayload {
    pub transfer_id: u128,
    pub file_id: u128,
    pub chunk_index: u64,
    pub offset: u64,
    pub bytes: Vec<u8>,
    pub checksum_sha256: String,
}

#[derive(Clone, Debug, PartialEq, Eq)]
pub struct FileTransferProgressPayload {
    pub transfer_id: u128,
    pub transferred_bytes: u64,
    pub total_bytes: u64,
    pub chunk_index: u64,
    pub total_chunks: u64,
    pub status: String,
}

#[derive(Clone, Debug, PartialEq, Eq)]
pub enum ProtocolMessage {
    VersionHello(VersionNegotiation),
    Ping,
    Pong,
    Shutdown,
    Ready { pid: u32 },
    DiscoverProbe(DeviceDescriptor),
    DiscoverAnnounce(DeviceDescriptor),
    DiscoverWithdraw { device_id: String },
    PairRequest { device: DeviceDescriptor, pairing_code: PairingCode },
    PairAccept { device_id: String },
    PairReject { device_id: String, reason: String },
    SessionHeartbeat { device_id: String, sequence: u64 },
    SessionResume { device_id: String, session_id: String },
    FileTransferOffer(FileTransferManifest),
    FileTransferAccept { transfer_id: u128, target_device_id: u128 },
    FileTransferReject { transfer_id: u128, reason: String },
    FileTransferChunk(FileTransferChunkPayload),
    FileTransferProgress(FileTransferProgressPayload),
    FileTransferCancel { transfer_id: u128, reason: String },
    Diagnostic { message: String },
}

/// The channel a message travels on: file transfer messages on their own
/// channel, diagnostics on theirs, everything else on the control channel.
pub open spec fn channel_of(message: ProtocolMessage) -> ChannelKind {
    match message {
        ProtocolMessage::FileTransferOffer(_) => ChannelKind::FileTransfer,
        ProtocolMessage::FileTransferAccept { .. } => ChannelKind::FileTransfer,
        ProtocolMessage::FileTransferReject { .. } => ChannelKind::FileTransfer,
        ProtocolMessage::FileTransferChunk(_) => ChannelKind::FileTransfer,
        ProtocolMessage::FileTransferProgress(_) => ChannelKind::FileTransfer,
        ProtocolMessage::FileTransferCancel { .. } => ChannelKind::FileTransfer,
        ProtocolMessage::Diagnostic { .. } => ChannelKind::Diagnostic,
        _ => ChannelKind::Control,
    }
}

impl ProtocolMessage {
    pub fn channel(&self) -> (c: ChannelKind)
        ensures
            c == channel_of(*self),
    {
        match self {
            ProtocolMessage::VersionHello(_) => ChannelKind::Control,
            ProtocolMessage::Ping => ChannelKind::Control,
            ProtocolMessage::Pong => ChannelKind::Control,
            ProtocolMessage::Shutdown => ChannelKind::Control,
            ProtocolMessage::Ready { .. } => ChannelKind::Control,
            ProtocolMessage::DiscoverProbe(_) => ChannelKind::Control,
            ProtocolMessage::DiscoverAnnounce(_) => ChannelKind::Control,
            ProtocolMessage::DiscoverWithdraw { .. } => ChannelKind::Control,
            ProtocolMessage::PairRequest { .. } => ChannelKind::Control,
            ProtocolMessage::PairAccept { .. } => ChannelKind::Control,
            ProtocolMessage::PairReject { .. } => ChannelKind::Control,
            ProtocolMessage::SessionHeartbeat { .. } => ChannelKind::Control,
            ProtocolMessage::SessionResume { .. } => ChannelKind::Control,
            ProtocolMessage::FileTransferOffer(_) => ChannelKind::FileTransfer,
            ProtocolMessage::FileTransferAccept { .. } => ChannelKind::FileTransfer,
            ProtocolMessage::FileTransferReject { .. } => ChannelKind::FileTransfer,
            ProtocolMessage::FileTransferChunk(_) => ChannelKind::FileTransfer,
            ProtocolMessage::FileTransferProgress(_) => ChannelKind::FileTransfer,
            ProtocolMessage::FileTransferCancel { .. } => ChannelKind::FileTransfer,
            ProtocolMessage::Diagnostic { .. } => ChannelKind::Diagnostic,
        }
    }

    pub fn priority(&self) -> (p: MessagePriority)
        ensures
            p == priority_of_channel(channel_of(*self)),
    {
        MessagePriority::for_channel(self.channel())
    }
}

#[derive(Clone, Debug, PartialEq, Eq)]
pub struct ProtocolFrame {
    pub version: u32,
    pub channel: ChannelKind,
    pub priority: MessagePriority,
    pub message: ProtocolMessage,
}

impl ProtocolFrame {
    /// A frame of the current version, on the message's channel and with
    /// that channel's priority.
    pub fn new(message: ProtocolMessage) -> (frame: Self)
        ensures
            frame.version == CURRENT_PROTOCOL_VERSION,
            frame.channel == channel_of(message),
            frame.priority == priority_of_channel(channel_of(message)),
            frame.message == message,
    {
        let channel = message.channel();
        let priority = message.priority();
        ProtocolFrame { version: CURRENT_PROTOCOL_VERSION, channel, priority, message }
    }
}

#[derive(Clone, Copy, Debug, PartialEq, Eq, Structural)]
pub enum ProtocolError {
    /// Neither side supports the version the other speaks.
    NegotiationFailed,
}

/// The text `message` gives for each case.
pub open spec fn protocol_error_text(e: ProtocolError) -> Seq<char> {
    match e {
        ProtocolError::NegotiationFailed => "protocol negotiation failed"@,
    }
}
impl ProtocolError {
    pub fn message(&self) -> (text: String)
        ensures
            text@ == protocol_error_text(*self),
    {
        match self {
            ProtocolError::NegotiationFailed => String::from_str("protocol negotiation failed"),
        }
    }
}

/// Two sides agree when each one's current version is at least the other's
/// minimum; they then speak the lower of the two current versions.
pub open spec fn negotiation_result(local: VersionNegotiation, remote: VersionNegotiation) -> Result<
    u32,
    ProtocolError,
> {
    if local.current < remote.min_supported || remote.current < local.min_supported {
        Err(ProtocolError::NegotiationFailed)
    } else if local.current <= remote.current {
        Ok(local.current)
    } else {
        Ok(remote.current)
    }
}

pub fn negotiate_protocol(local: VersionNegotiation, remote: VersionNegotiation) -> (r: Result<
    u32,
    ProtocolError,
>)
    ensures
        r == negotiation_result(local, remote),
{
    if local.current < remote.min_supported || remote.current < local.min_supported {
        return Err(ProtocolError::NegotiationFailed);
    }
    if local.current <= remote.current {
        Ok(local.current)
    } else {
        Ok(remote.current)
    }
}

/// A frame waiting to be sent, with the order in which it was queued.
#[derive(Clone, Debug, PartialEq, Eq)]
pub struct QueuedFrame {
    pub sequence: u64,
    pub frame: ProtocolFrame,
}

/// `a` goes out before `b`: a higher priority first, and among frames of
/// one priority the one queued first.
pub open spec fn goes_before(a: QueuedFrame, b: QueuedFrame) -> bool {
    rank(a.frame.priority) > rank(b.frame.priority) || (rank(a.frame.priority) == rank(
        b.frame.priority,
    ) && a.sequence < b.sequence)
}

impl QueuedFrame {
    /// Whether this frame goes out before `other` (see `goes_before`).
    pub fn goes_before(&self, other: &QueuedFrame) -> (r: bool)
        ensures
            r == goes_before(*self, *other),
    {
        let mine = self.frame.priority.rank();
        let theirs = other.frame.priority.rank();
        mine > theirs || (mine == theirs && self.sequence < other.sequence)
    }
}

/// The frames of one priority rank, in their original order.
pub open spec fn frames_of_rank(frames: Seq<ProtocolFrame>, r: int) -> Seq<ProtocolFrame> {
    frames.filter(|f: ProtocolFrame| rank(f.priority) == r)
}

/// The order frames are sent in: all frames of the highest priority first,
/// each priority's frames in the order they were queued.
pub open spec fn priority_order(frames: Seq<ProtocolFrame>) -> Seq<ProtocolFrame> {
    frames_of_rank(frames, 5) + frames_of_rank(frames, 4) + frames_of_rank(frames, 3)
        + frames_of_rank(frames, 2) + frames_of_rank(frames, 1)
}

/// Puts frames in sending order (see `priority_order`).
pub fn drain_priority_order(frames: Vec<ProtocolFrame>) -> (ordered: Vec<ProtocolFrame>)
    ensures
        ordered@ == priority_order(frames@),
{
    let ghost all = frames@;
    let mut b5: Vec<ProtocolFrame> = Vec::new();
    let mut b4: Vec<ProtocolFrame> = Vec::new();
    let mut b3: Vec<ProtocolFrame> = Vec::new();
    let mut b2: Vec<ProtocolFrame> = Vec::new();
    let mut b1: Vec<ProtocolFrame> = Vec::new();
    for frame in it: frames
        invariant
            it.seq() == all,
            b5@ == frames_of_rank(all.take(it.index() as int), 5),
            b4@ == frames_of_rank(all.take(it.index() as int), 4),
            b3@ == frames_of_rank(all.take(it.index() as int), 3),
            b2@ == frames_of_rank(all.take(it.index() as int), 2),
            b1@ == frames_of_rank(all.take(it.index() as int), 1),
    {
        proof {
            reveal_with_fuel(Seq::<_>::filter, 1);
            assert(all.take(it.index() as int + 1).drop_last() =~= all.take(it.index() as int));
        }
        match frame.priority.rank() {
            5 => b5.push(frame),
            4 => b4.push(frame),
            3 => b3.push(frame),
            2 => b2.push(frame),
            _ => b1.push(frame),
        }
    }
    proof {
        assert(all.take(all.len() as int) =~= all);
    }
    let mut ordered = b5;
    ordered.append(&mut b4);
    ordered.append(&mut b3);
    ordered.append(&mut b2);
    ordered.append(&mut b1);
    ordered
}

} // verus!

verus! {

proof fn lemma_rank_range(p: MessagePriority)
    ensures
        1 <= rank(p) <= 5,
{
}

proof fn lemma_frames_of_rank_members(s: Seq<ProtocolFrame>, r: int)
    ensures
        forall|i: int|
            0 <= i < frames_of_rank(s, r).len() ==> rank(
                (#[trigger] frames_of_rank(s, r)[i]).priority,
            ) == r,
{
    let pred = |f: ProtocolFrame| rank(f.priority) == r;
    assert forall|i: int| 0 <= i < frames_of_rank(s, r).len() implies rank(
        (#[trigger] frames_of_rank(s, r)[i]).priority,
    ) == r by {
        s.lemma_filter_pred(pred, i);
    }
}

proof fn lemma_frames_of_rank_twice(s: Seq<ProtocolFrame>, r: int, q: int)
    ensures
        frames_of_rank(frames_of_rank(s, r), q) == (if r == q {
            frames_of_rank(s, r)
        } else {
            Seq::<ProtocolFrame>::empty()
        }),
    decreases s.len(),
{
    reveal_with_fuel(Seq::<_>::filter, 1);
    if s.len() > 0 {
        lemma_frames_of_rank_twice(s.drop_last(), r, q);
        let pr = |f: ProtocolFrame| rank(f.priority) == r;
        let pq = |f: ProtocolFrame| rank(f.priority) == q;
        let inner = s.drop_last().filter(pr);
        if pr(s.last()) {
            assert(s.filter(pr) == inner.push(s.last()));
            assert(inner.push(s.last()).drop_last() =~= inner);
        }
    }
}

proof fn lemma_ranks_cover(s: Seq<ProtocolFrame>)
    ensures
        s.len() == frames_of_rank(s, 5).len() + frames_of_rank(s, 4).len() + frames_of_rank(
            s,
            3,
        ).len() + frames_of_rank(s, 2).len() + frames_of_rank(s, 1).len(),
    decreases s.len(),
{
    reveal_with_fuel(Seq::<_>::filter, 1);
    if s.len() > 0 {
        lemma_ranks_cover(s.drop_last());
        lemma_rank_range(s.last().priority);
    }
}

/// The rank found at each position of the sending order: the frames of
/// rank 5 first, then those of rank 4, and so on.
pub open spec fn rank_at(frames: Seq<ProtocolFrame>, i: int) -> int {
    let l5 = frames_of_rank(frames, 5).len() as int;
    let l4 = frames_of_rank(frames, 4).len() as int;
    let l3 = frames_of_rank(frames, 3).len() as int;
    let l2 = frames_of_rank(frames, 2).len() as int;
    if i < l5 {
        5
    } else if i < l5 + l4 {
        4
    } else if i < l5 + l4 + l3 {
        3
    } else if i < l5 + l4 + l3 + l2 {
        2
    } else {
        1
    }
}

proof fn lemma_priority_order_ranks(frames: Seq<ProtocolFrame>)
    ensures
        priority_order(frames).len() == frames.len(),
        forall|i: int|
            0 <= i < frames.len() ==> rank((#[trigger] priority_order(frames)[i]).priority)
                == rank_at(frames, i),
{
    let s5 = frames_of_rank(frames, 5);
    let s4 = frames_of_rank(frames, 4);
    let s3 = frames_of_rank(frames, 3);
    let s2 = frames_of_rank(frames, 2);
    let s1 = frames_of_rank(frames, 1);
    let out = priority_order(frames);
    lemma_ranks_cover(frames);
    lemma_frames_of_rank_members(frames, 5);
    lemma_frames_of_rank_members(frames, 4);
    lemma_frames_of_rank_members(frames, 3);
    lemma_frames_of_rank_members(frames, 2);
    lemma_frames_of_rank_members(frames, 1);
    let l5 = s5.len() as int;
    let l4 = s4.len() as int;
    let l3 = s3.len() as int;
    let l2 = s2.len() as int;
    assert forall|i: int| 0 <= i < out.len() implies rank((#[trigger] out[i]).priority)
        == rank_at(frames, i) by {
        if i < l5 {
            assert(out[i] == s5[i]);
        } else if i < l5 + l4 {
            assert(out[i] == s4[i - l5]);
        } else if i < l5 + l4 + l3 {
            assert(out[i] == s3[i - l5 - l4]);
        } else if i < l5 + l4 + l3 + l2 {
            assert(out[i] == s2[i - l5 - l4 - l3]);
        } else {
            assert(out[i] == s1[i - l5 - l4 - l3 - l2]);
        }
    }
}

proof fn lemma_priority_order_keeps_rank(frames: Seq<ProtocolFrame>, r: int)
    ensures
        frames_of_rank(priority_order(frames), r) == frames_of_rank(frames, r),
{
    let s5 = frames_of_rank(frames, 5);
    let s4 = frames_of_rank(frames, 4);
    let s3 = frames_of_rank(frames, 3);
    let s2 = frames_of_rank(frames, 2);
    let s1 = frames_of_rank(frames, 1);
    let out = priority_order(frames);
    let pred = |f: ProtocolFrame| rank(f.priority) == r;
    Seq::filter_distributes_over_add(s5 + s4 + s3 + s2, s1, pred);
    Seq::filter_distributes_over_add(s5 + s4 + s3, s2, pred);
    Seq::filter_distributes_over_add(s5 + s4, s3, pred);
    Seq::filter_distributes_over_add(s5, s4, pred);
    lemma_frames_of_rank_twice(frames, 5, r);
    lemma_frames_of_rank_twice(frames, 4, r);
    lemma_frames_of_rank_twice(frames, 3, r);
    lemma_frames_of_rank_twice(frames, 2, r);
    lemma_frames_of_rank_twice(frames, 1, r);
    if 1 <= r <= 5 {
        assert(frames_of_rank(out, r) =~= frames_of_rank(frames, r));
    } else {
        lemma_no_rank(frames, r);
        assert(frames_of_rank(out, r) =~= Seq::<ProtocolFrame>::empty());
    }
}

proof fn lemma_frames_of_rank_push(s: Seq<ProtocolFrame>, x: ProtocolFrame, r: int)
    ensures
        frames_of_rank(s.push(x), r) == if rank(x.priority) == r {
            frames_of_rank(s, r).push(x)
        } else {
            frames_of_rank(s, r)
        },
{
    reveal_with_fuel(Seq::<_>::filter, 1);
    assert(s.push(x).drop_last() =~= s);
}

/// The frames of all five ranks, taken together.
spec fn rank_multisets(s: Seq<ProtocolFrame>) -> vstd::multiset::Multiset<ProtocolFrame> {
    frames_of_rank(s, 5).to_multiset().add(frames_of_rank(s, 4).to_multiset()).add(
        frames_of_rank(s, 3).to_multiset(),
    ).add(frames_of_rank(s, 2).to_multiset()).add(frames_of_rank(s, 1).to_multiset())
}

proof fn lemma_rank_multisets(s: Seq<ProtocolFrame>)
    ensures
        rank_multisets(s) == s.to_multiset(),
    decreases s.len(),
{
    broadcast use vstd::seq_lib::group_to_multiset_ensures;
    broadcast use vstd::multiset::group_multiset_axioms;

    if s.len() == 0 {
        reveal_with_fuel(Seq::<_>::filter, 1);
        assert(rank_multisets(s) =~= s.to_multiset());
    } else {
        let t = s.drop_last();
        let x = s.last();
        assert(s =~= t.push(x));
        lemma_rank_multisets(t);
        lemma_frames_of_rank_push(t, x, 5);
        lemma_frames_of_rank_push(t, x, 4);
        lemma_frames_of_rank_push(t, x, 3);
        lemma_frames_of_rank_push(t, x, 2);
        lemma_frames_of_rank_push(t, x, 1);
        lemma_rank_range(x.priority);
        assert(rank_multisets(s) =~= rank_multisets(t).insert(x));
    }
}

/// Sending order is a rearrangement that only sorts: it sends every frame
/// once (the same frames, as many times each), never sends a lower priority
/// before a higher one, and keeps the queued order of the frames of each
/// priority.
pub proof fn lemma_priority_order_sorts(frames: Seq<ProtocolFrame>)
    ensures
        priority_order(frames).to_multiset() == frames.to_multiset(),
        priority_order(frames).len() == frames.len(),
        forall|i: int, j: int|
            0 <= i < j < frames.len() ==> rank((#[trigger] priority_order(frames)[i]).priority)
                >= rank((#[trigger] priority_order(frames)[j]).priority),
        forall|r: int| #[trigger]
            frames_of_rank(priority_order(frames), r) == frames_of_rank(frames, r),
{
    broadcast use vstd::seq_lib::lemma_multiset_commutative;

    lemma_rank_multisets(frames);
    lemma_priority_order_ranks(frames);
    assert forall|r: int| #[trigger]
        frames_of_rank(priority_order(frames), r) == frames_of_rank(frames, r) by {
        lemma_priority_order_keeps_rank(frames, r);
    }
}

proof fn lemma_no_rank(s: Seq<ProtocolFrame>, r: int)
    requires
        !(1 <= r <= 5),
    ensures
        frames_of_rank(s, r) == Seq::<ProtocolFrame>::empty(),
    decreases s.len(),
{
    reveal_with_fuel(Seq::<_>::filter, 1);
    if s.len() > 0 {
        lemma_no_rank(s.drop_last(), r);
        lemma_rank_range(s.last().priority);
    }
}

/// A frame body followed by the line terminator.
pub open spec fn json_line(body: Seq<u8>) -> Seq<u8> {
    body.push(10u8)
}

/// The payload of a received line: the input without its final line
/// terminator, where there is one.
pub open spec fn line_payload_of(input: Seq<u8>) -> Seq<u8> {
    if input.len() > 0 && input.last() == 10u8 {
        input.drop_last()
    } else {
        input
    }
}

/// Appends the line terminator to an encoded frame.
pub fn terminate_line(body: Vec<u8>) -> (line: Vec<u8>)
    ensures
        line@ == json_line(body@),
{
    let mut line = body;
    line.push(10u8);
    line
}

/// The encoded frame carried by a received line.
pub fn line_payload(input: &[u8]) -> (payload: Vec<u8>)
    ensures
        payload@ == line_payload_of(input@),
{
    let n = if input.len() > 0 && input[input.len() - 1] == 10u8 {
        input.len() - 1
    } else {
        input.len()
    };
    let mut payload: Vec<u8> = Vec::new();
    let mut i: usize = 0;
    while i < n
        invariant
            i <= n,
            n <= input@.len(),
            payload@ == input@.take(i as int),
        decreases n - i,
    {
        payload.push(input[i]);
        assert(input@.take(i as int + 1) =~= input@.take(i as int).push(input@[i as int]));
        i += 1;
    }
    assert(input@.drop_last() =~= input@.take(input@.len() - 1));
    assert(input@.take(input@.len() as int) =~= input@);
    payload
}

/// Reading a line gives back the frame body that was written into it.
pub proof fn lemma_line_roundtrip(body: Seq<u8>)
    ensures
        line_payload_of(json_line(body)) == body,
{
    assert(json_line(body).drop_last() =~= body);
}


/// The messages of a file transfer: its offer, acceptance, refusal, chunks,
/// progress and cancellation.
pub open spec fn is_file_transfer_message(m: ProtocolMessage) -> bool {
    ||| m is FileTransferOffer
    ||| m is FileTransferAccept
    ||| m is FileTransferReject
    ||| m is FileTransferChunk
    ||| m is FileTransferProgress
    ||| m is FileTransferCancel
}

/// Every message of a file transfer, and only those, travels on the file
/// transfer channel, whose priority ranks below every other: a frame of a
/// file transfer is sent after any other frame waiting with it.
/// Diagnostics travel on their own channel, and every other message on the
/// control channel.
pub proof fn lemma_file_transfer_messages_go_last(m: ProtocolMessage, other: MessagePriority)
    ensures
        is_file_transfer_message(m) <==> channel_of(m) == ChannelKind::FileTransfer,
        is_file_transfer_message(m) ==> rank(priority_of_channel(channel_of(m))) == 1,
        other != MessagePriority::FileTransfer ==> rank(other) > rank(MessagePriority::FileTransfer),
        m is Diagnostic <==> channel_of(m) == ChannelKind::Diagnostic,
        !is_file_transfer_message(m) && !(m is Diagnostic) ==> channel_of(m) == ChannelKind::Control,
{
}

} // verus!
