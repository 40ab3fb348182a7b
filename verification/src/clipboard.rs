//! Clipboard synchronisation between devices: text and image payloads,
//! their normalisation, and the engine that decides which updates to send
//! and which received updates to apply.

use vstd::prelude::*;
use std::collections::HashMap;
use crate::primitives::{decimal_string, decimal_text, push_char};
use crate::text::{sha256_hex, sha256_hex_text};

verus! {

broadcast use vstd::std_specs::hash::group_hash_axioms;

#[derive(Clone, Debug, PartialEq, Eq)]
pub struct ClipboardPayload {
    pub text: String,
}

#[derive(Clone, Copy, Debug, PartialEq, Eq, Structural)]
pub enum ImageClipboardFormat {
    Png,
    Bgra8,
}

#[derive(Clone, Debug, PartialEq, Eq)]
pub struct ImageClipboardPayload {
    pub format: ImageClipboardFormat,
    pub width: u32,
    pub height: u32,
    pub bytes: Vec<u8>,
    pub checksum_sha256: String,
}

#[derive(Clone, Debug, PartialEq, Eq)]
pub enum ClipboardContent {
    Text(ClipboardPayload),
    Image(ImageClipboardPayload),
}

#[derive(Clone, Debug, PartialEq, Eq)]
pub struct ClipboardUpdate {
    pub source_device_id: u128,
    pub sequence: u64,
    pub payload: ClipboardPayload,
}

#[derive(Clone, Debug, PartialEq, Eq)]
pub struct ClipboardContentUpdate {
    pub source_device_id: u128,
    pub sequence: u64,
    pub content: ClipboardContent,
}

#[derive(Clone, Copy, Debug, PartialEq, Eq, Structural)]
pub enum ClipboardDispatchKind {
    Broadcast,
    Targeted(u128),
}

#[derive(Clone, Debug, PartialEq, Eq)]
pub struct ClipboardDispatch {
    pub dispatch: ClipboardDispatchKind,
    pub update: ClipboardUpdate,
}

#[derive(Clone, Copy, Debug, PartialEq, Eq, Structural)]
pub enum ClipboardApplyAction {
    IgnoreDisabled,
    IgnoreLoop,
    ApplyRemote,
}

#[derive(Clone, Debug, PartialEq, Eq)]
pub struct ClipboardApplyDecision {
    pub action: ClipboardApplyAction,
    pub text: Option<String>,
}

#[derive(Clone, Debug, PartialEq, Eq)]
pub struct ClipboardApplyContentDecision {
    pub action: ClipboardApplyAction,
    pub content: Option<ClipboardContent>,
}

/// Why an image payload is refused.
#[derive(Clone, Copy, Debug, PartialEq, Eq, Structural)]
pub enum ClipboardError {
    ZeroDimensions,
    EmptyImage,
    /// The byte count four bytes per pixel give, and the bytes at hand.
    SizeMismatch(u128, usize),
}

/// The text `message` gives for each case.
pub open spec fn clipboard_error_text(e: ClipboardError) -> Seq<char> {
    match e {
        ClipboardError::ZeroDimensions => "image clipboard payload requires non-zero dimensions"@,
        ClipboardError::EmptyImage => "image clipboard payload requires bytes"@,
        ClipboardError::SizeMismatch(expected, actual) => "BGRA clipboard payload size mismatch: expected "@
            + decimal_text(expected as nat) + ", actual "@ + decimal_text(actual as nat),
    }
}
impl ClipboardError {
    pub fn message(&self) -> (text: String)
        ensures
            text@ == clipboard_error_text(*self),
    {
        match self {
            ClipboardError::ZeroDimensions => String::from_str(
                "image clipboard payload requires non-zero dimensions",
            ),
            ClipboardError::EmptyImage => String::from_str(
                "image clipboard payload requires bytes",
            ),
            ClipboardError::SizeMismatch(expected, actual) => {
                let mut text = String::from_str("BGRA clipboard payload size mismatch: expected ");
                text.append(decimal_string(*expected).as_str());
                text.append(", actual ");
                text.append(decimal_string(*actual as u128).as_str());
                text
            },
        }
    }
}

/// Text with every `\r\n` pair turned into a single `\n`.
pub open spec fn crlf_to_lf(s: Seq<char>) -> Seq<char>
    decreases s.len(),
{
    if s.len() == 0 {
        s
    } else if s.len() >= 2 && s[s.len() - 2] == '\r' && s.last() == '\n' {
        crlf_to_lf(s.take(s.len() - 2)).push('\n')
    } else {
        crlf_to_lf(s.drop_last()).push(s.last())
    }
}

/// Why an image of this shape and size is refused, if it is.
pub open spec fn image_error(format: ImageClipboardFormat, width: u32, height: u32, len: nat) -> Option<
    ClipboardError,
> {
    if width == 0 || height == 0 {
        Some(ClipboardError::ZeroDimensions)
    } else if len == 0 {
        Some(ClipboardError::EmptyImage)
    } else if format == ImageClipboardFormat::Bgra8 && len != width * height * 4 {
        Some(ClipboardError::SizeMismatch((width * height * 4) as u128, len as usize))
    } else {
        None
    }
}

/// `out` is the accepted image: the same shape and bytes, with the bytes'
/// SHA-256 checksum in lowercase hexadecimal.
pub open spec fn image_normalized(
    format: ImageClipboardFormat,
    width: u32,
    height: u32,
    bytes: Seq<u8>,
    out: ImageClipboardPayload,
) -> bool {
    &&& out.format == format
    &&& out.width == width
    &&& out.height == height
    &&& out.bytes@ == bytes
    &&& out.checksum_sha256@ == sha256_hex_text(bytes)
}

pub open spec fn content_error(content: ClipboardContent) -> Option<ClipboardError> {
    match content {
        ClipboardContent::Text(_) => None,
        ClipboardContent::Image(image) => image_error(
            image.format,
            image.width,
            image.height,
            image.bytes@.len(),
        ),
    }
}

/// `out` is `input` normalised: text with `\r\n` turned into `\n`, an
/// image with its checksum recomputed.
pub open spec fn content_normalized(input: ClipboardContent, out: ClipboardContent) -> bool {
    match (input, out) {
        (ClipboardContent::Text(a), ClipboardContent::Text(b)) => b.text@ == crlf_to_lf(a.text@),
        (ClipboardContent::Image(a), ClipboardContent::Image(b)) => image_normalized(
            a.format,
            a.width,
            a.height,
            a.bytes@,
            b,
        ),
        _ => false,
    }
}

/// Turns every `\r\n` pair into `\n`.
pub fn normalize_text(text: String) -> (out: String)
    ensures
        out@ == crlf_to_lf(text@),
{
    normalize_text_ref(&text)
}

fn normalize_text_ref(text: &String) -> (out: String)
    ensures
        out@ == crlf_to_lf(text@),
{
    let mut out = String::new();
    let mut pending_cr = false;
    for c in it: text.as_str().chars()
        invariant
            it.seq() == text@,
            pending_cr <==> (it.index() > 0 && it.seq()[it.index() - 1] == '\r'),
            pending_cr ==> out@ == crlf_to_lf(it.seq().take(it.index() - 1)),
            !pending_cr ==> out@ == crlf_to_lf(it.seq().take(it.index() as int)),
    {
        let ghost n = it.index() as int;
        let ghost s = it.seq();
        assert(s.take(n + 1).drop_last() =~= s.take(n));
        assert(s.take(n + 1).last() == c);
        if pending_cr {
            assert(s.take(n) =~= s.take(n - 1).push('\r'));
            assert(s.take(n).drop_last() =~= s.take(n - 1));
            assert(crlf_to_lf(s.take(n)) == crlf_to_lf(s.take(n - 1)).push('\r'));
            if c == '\n' {
                assert(s.take(n + 1).take(n - 1) =~= s.take(n - 1));
                assert(crlf_to_lf(s.take(n + 1)) == crlf_to_lf(s.take(n - 1)).push('\n'));
                push_char(&mut out, '\n');
                pending_cr = false;
            } else {
                push_char(&mut out, '\r');
                if c == '\r' {
                    pending_cr = true;
                } else {
                    assert(crlf_to_lf(s.take(n + 1)) == crlf_to_lf(s.take(n)).push(c));
                    push_char(&mut out, c);
                    pending_cr = false;
                }
            }
        } else {
            if c == '\r' {
                assert(s.take(n + 1).take(n) =~= s.take(n));
                pending_cr = true;
            } else {
                assert(crlf_to_lf(s.take(n + 1)) == crlf_to_lf(s.take(n)).push(c));
                push_char(&mut out, c);
            }
        }
    }
    if pending_cr {
        let ghost s = text@;
        assert(s.take(s.len() as int).drop_last() =~= s.take(s.len() - 1));
        push_char(&mut out, '\r');
    }
    proof {
        assert(text@.take(text@.len() as int) =~= text@);
    }
    out
}

/// Accepts an image payload and computes its checksum. An image needs both
/// dimensions non-zero and at least one byte; a BGRA image needs exactly
/// four bytes per pixel.
pub fn normalize_image_payload(
    format: ImageClipboardFormat,
    width: u32,
    height: u32,
    bytes: Vec<u8>,
) -> (r: Result<ImageClipboardPayload, ClipboardError>)
    ensures
        match r {
            Ok(image) => image_error(format, width, height, bytes@.len()) is None
                && image_normalized(format, width, height, bytes@, image),
            Err(e) => image_error(format, width, height, bytes@.len()) == Some(e),
        },
{
    if width == 0 || height == 0 {
        return Err(ClipboardError::ZeroDimensions);
    }
    if bytes.len() == 0 {
        return Err(ClipboardError::EmptyImage);
    }
    if format == ImageClipboardFormat::Bgra8 {
        let w = width as u128;
        let h = height as u128;
        assert(w * h <= 0xffff_ffff * 0xffff_ffff) by (nonlinear_arith)
            requires
                w <= 0xffff_ffff,
                h <= 0xffff_ffff,
        ;
        let expected: u128 = w * h * 4;
        if bytes.len() as u128 != expected {
            return Err(ClipboardError::SizeMismatch(expected, bytes.len()));
        }
    }
    let checksum_sha256 = sha256_hex(bytes.as_slice());
    Ok(ImageClipboardPayload { format, width, height, checksum_sha256, bytes })
}

/// Normalises clipboard content (see `content_normalized`).
pub fn normalize_clipboard_content(content: ClipboardContent) -> (r: Result<
    ClipboardContent,
    ClipboardError,
>)
    ensures
        match r {
            Ok(out) => content_error(content) is None && content_normalized(content, out),
            Err(e) => content_error(content) == Some(e),
        },
{
    match content {
        ClipboardContent::Text(payload) => Ok(
            ClipboardContent::Text(ClipboardPayload { text: normalize_text(payload.text) }),
        ),
        ClipboardContent::Image(payload) => {
            match normalize_image_payload(
                payload.format,
                payload.width,
                payload.height,
                payload.bytes,
            ) {
                Ok(image) => Ok(ClipboardContent::Image(image)),
                Err(e) => Err(e),
            }
        },
    }
}

fn normalize_content_ref(content: &ClipboardContent) -> (r: Result<
    ClipboardContent,
    ClipboardError,
>)
    ensures
        match r {
            Ok(out) => content_error(*content) is None && content_normalized(*content, out),
            Err(e) => content_error(*content) == Some(e),
        },
{
    match content {
        ClipboardContent::Text(payload) => Ok(
            ClipboardContent::Text(ClipboardPayload { text: normalize_text_ref(&payload.text) }),
        ),
        ClipboardContent::Image(payload) => {
            let bytes = vstd::slice::slice_to_vec(payload.bytes.as_slice());
            match normalize_image_payload(payload.format, payload.width, payload.height, bytes) {
                Ok(image) => Ok(ClipboardContent::Image(image)),
                Err(e) => Err(e),
            }
        },
    }
}

} // verus!

verus! {

/// What the engine remembers.
pub ghost struct ClipboardEngineState {
    pub local_device_id: u128,
    pub enabled: bool,
    pub next_sequence: u64,
    /// The highest sequence applied from each remote device.
    pub seen: Map<u128, u64>,
    pub last_text: Option<Seq<char>>,
    pub last_image_checksum: Option<Seq<char>>,
}

pub open spec fn text_view(t: Option<String>) -> Option<Seq<char>> {
    match t {
        Some(s) => Some(s@),
        None => None,
    }
}

/// Decides which local clipboard changes are sent and which received ones
/// are applied: nothing while disabled, no echo of the local device's own
/// updates, no replay of an update already applied, no repeated send of
/// what the clipboard already holds.
#[derive(Debug)]
pub struct ClipboardSyncEngine {
    local_device_id: u128,
    enabled: bool,
    next_sequence: u64,
    recent_remote_sequences: HashMap<u128, u64>,
    last_local_text: Option<String>,
    last_local_image_checksum: Option<String>,
}

impl View for ClipboardSyncEngine {
    type V = ClipboardEngineState;

    closed spec fn view(&self) -> ClipboardEngineState {
        ClipboardEngineState {
            local_device_id: self.local_device_id,
            enabled: self.enabled,
            next_sequence: self.next_sequence,
            seen: self.recent_remote_sequences@,
            last_text: text_view(self.last_local_text),
            last_image_checksum: text_view(self.last_local_image_checksum),
        }
    }
}

/// The last sequence applied from a device, zero where none was.
pub open spec fn last_seen(state: ClipboardEngineState, source: u128) -> u64 {
    if state.seen.contains_key(source) {
        state.seen[source]
    } else {
        0
    }
}

/// Whether a received update with this source and sequence is applied, and
/// the action taken otherwise.
pub open spec fn remote_action(state: ClipboardEngineState, source: u128, sequence: u64) -> ClipboardApplyAction {
    if !state.enabled {
        ClipboardApplyAction::IgnoreDisabled
    } else if source == state.local_device_id {
        ClipboardApplyAction::IgnoreLoop
    } else if sequence <= last_seen(state, source) {
        ClipboardApplyAction::IgnoreLoop
    } else {
        ClipboardApplyAction::ApplyRemote
    }
}

/// The remembered sequences after a received update from another device
/// has been looked at: the device is recorded, with the update's sequence
/// where it is applied.
pub open spec fn seen_after(state: ClipboardEngineState, source: u128, sequence: u64) -> Map<u128, u64> {
    if remote_action(state, source, sequence) == ClipboardApplyAction::ApplyRemote {
        state.seen.insert(source, sequence)
    } else {
        state.seen.insert(source, last_seen(state, source))
    }
}

impl ClipboardSyncEngine {
    /// A new engine, enabled, that numbers its first update 1.
    pub fn new(local_device_id: u128) -> (engine: Self)
        ensures
            engine@ == (ClipboardEngineState {
                local_device_id,
                enabled: true,
                next_sequence: 1,
                seen: Map::empty(),
                last_text: None,
                last_image_checksum: None,
            }),
    {
        ClipboardSyncEngine {
            local_device_id,
            enabled: true,
            next_sequence: 1,
            recent_remote_sequences: HashMap::new(),
            last_local_text: None,
            last_local_image_checksum: None,
        }
    }

    pub fn local_device_id(&self) -> (id: u128)
        ensures
            id == self@.local_device_id,
    {
        self.local_device_id
    }

    /// The sequence the next update sent from here will carry.
    pub fn next_sequence(&self) -> (sequence: u64)
        ensures
            sequence == self@.next_sequence,
    {
        self.next_sequence
    }

    pub fn enabled(&self) -> (enabled: bool)
        ensures
            enabled == self@.enabled,
    {
        self.enabled
    }

    pub fn set_enabled(&mut self, enabled: bool)
        ensures
            final(self)@ == (ClipboardEngineState { enabled, ..old(self)@ }),
            final(self)@ == step(old(self)@, ClipboardEvent::SetEnabled(enabled)),
    {
        self.enabled = enabled;
    }

    /// Turns a local clipboard change into an update for all peers: nothing
    /// while disabled, for empty text, or for the text last sent or applied.
    pub fn create_local_update(&mut self, text: String) -> (r: Option<ClipboardDispatch>)
        requires
            old(self)@.next_sequence < u64::MAX,
        ensures
            final(self)@ == step(old(self)@, ClipboardEvent::LocalText(text@)),
            r is Some <==> sends(old(self)@, ClipboardEvent::LocalText(text@)),
            ({
                let t = crlf_to_lf(text@);
                let s = old(self)@;
                if !s.enabled || t.len() == 0 || s.last_text == Some(t) {
                    r is None && final(self)@ == s
                } else {
                    &&& r matches Some(d) && d.dispatch == ClipboardDispatchKind::Broadcast
                        && d.update.source_device_id == s.local_device_id && d.update.sequence
                        == s.next_sequence && d.update.payload.text@ == t
                    &&& final(self)@ == (ClipboardEngineState {
                        next_sequence: (s.next_sequence + 1) as u64,
                        last_text: Some(t),
                        ..s
                    })
                }
            }),
    {
        if !self.enabled {
            return None;
        }
        let text = normalize_text(text);
        if text.as_str().is_empty() {
            return None;
        }
        let same = match &self.last_local_text {
            Some(last) => *last == text,
            None => false,
        };
        if same {
            return None;
        }
        let sequence = self.next_sequence;
        self.next_sequence = self.next_sequence + 1;
        let payload_text = text.clone();
        self.last_local_text = Some(text);
        Some(
            ClipboardDispatch {
                dispatch: ClipboardDispatchKind::Broadcast,
                update: ClipboardUpdate {
                    source_device_id: self.local_device_id,
                    sequence,
                    payload: ClipboardPayload { text: payload_text },
                },
            },
        )
    }

    fn check_remote(&mut self, source: u128, sequence: u64) -> (action: ClipboardApplyAction)
        ensures
            action == remote_action(old(self)@, source, sequence),
            action == ClipboardApplyAction::IgnoreDisabled || source == old(self)@.local_device_id
                ==> final(self)@ == old(self)@,
            action != ClipboardApplyAction::IgnoreDisabled && source != old(self)@.local_device_id
                ==> final(self)@ == (ClipboardEngineState {
                seen: seen_after(old(self)@, source, sequence),
                ..old(self)@
            }),
    {
        if !self.enabled {
            return ClipboardApplyAction::IgnoreDisabled;
        }
        if source == self.local_device_id {
            return ClipboardApplyAction::IgnoreLoop;
        }
        let last = match self.recent_remote_sequences.get(&source) {
            Some(v) => *v,
            None => 0,
        };
        if sequence <= last {
            self.recent_remote_sequences.insert(source, last);
            return ClipboardApplyAction::IgnoreLoop;
        }
        self.recent_remote_sequences.insert(source, sequence);
        ClipboardApplyAction::ApplyRemote
    }

    /// Applies a received text update unless it is disabled, an echo of the
    /// local device's own update, or not newer than the last one applied
    /// from its device.
    pub fn apply_remote_update(&mut self, update: &ClipboardUpdate) -> (d: ClipboardApplyDecision)
        ensures
            final(self)@ == step(
                old(self)@,
                ClipboardEvent::RemoteText(
                    update.source_device_id,
                    update.sequence,
                    update.payload.text@,
                ),
            ),
            ({
                let s = old(self)@;
                let action = remote_action(s, update.source_device_id, update.sequence);
                &&& d.action == action
                &&& action == ClipboardApplyAction::ApplyRemote ==> (d.text matches Some(t) && t@
                    == crlf_to_lf(update.payload.text@)) && final(self)@ == (ClipboardEngineState {
                    seen: s.seen.insert(update.source_device_id, update.sequence),
                    last_text: Some(crlf_to_lf(update.payload.text@)),
                    ..s
                })
                &&& action == ClipboardApplyAction::IgnoreLoop ==> d.text is None
                    && (update.source_device_id == s.local_device_id ==> final(self)@ == s)
                    && (update.source_device_id != s.local_device_id ==> final(self)@ == (
                ClipboardEngineState {
                    seen: s.seen.insert(update.source_device_id, last_seen(s, update.source_device_id)),
                    ..s
                }))
                &&& action == ClipboardApplyAction::IgnoreDisabled ==> d.text is None
                    && final(self)@ == s
            }),
    {
        let action = self.check_remote(update.source_device_id, update.sequence);
        match action {
            ClipboardApplyAction::ApplyRemote => {
                let text = normalize_text_ref(&update.payload.text);
                let returned = text.clone();
                self.last_local_text = Some(text);
                ClipboardApplyDecision { action, text: Some(returned) }
            },
            _ => ClipboardApplyDecision { action, text: None },
        }
    }

    /// Turns a local image into an update for all peers: nothing while
    /// disabled or for the image last sent or applied; an error for an image
    /// that `normalize_image_payload` refuses.
    pub fn create_local_image_update(
        &mut self,
        format: ImageClipboardFormat,
        width: u32,
        height: u32,
        bytes: Vec<u8>,
    ) -> (r: Result<Option<ClipboardContentUpdate>, ClipboardError>)
        requires
            old(self)@.next_sequence < u64::MAX,
        ensures
            final(self)@ == step(old(self)@, ClipboardEvent::LocalImage(format, width, height, bytes@)),
            r matches Ok(Some(_)) <==> sends(
                old(self)@,
                ClipboardEvent::LocalImage(format, width, height, bytes@),
            ),
            ({
                let s = old(self)@;
                let checksum = sha256_hex_text(bytes@);
                if !s.enabled {
                    r == Ok::<Option<ClipboardContentUpdate>, ClipboardError>(None) && final(self)@
                        == s
                } else if image_error(format, width, height, bytes@.len()) is Some {
                    r == Err::<Option<ClipboardContentUpdate>, ClipboardError>(
                        image_error(format, width, height, bytes@.len()).unwrap(),
                    ) && final(self)@ == s
                } else if s.last_image_checksum == Some(checksum) {
                    r == Ok::<Option<ClipboardContentUpdate>, ClipboardError>(None) && final(self)@
                        == s
                } else {
                    &&& r matches Ok(Some(u)) && u.source_device_id == s.local_device_id
                        && u.sequence == s.next_sequence && (u.content matches ClipboardContent::Image(
                        image,
                    ) && image_normalized(format, width, height, bytes@, image))
                    &&& final(self)@ == (ClipboardEngineState {
                        next_sequence: (s.next_sequence + 1) as u64,
                        last_image_checksum: Some(checksum),
                        ..s
                    })
                }
            }),
    {
        if !self.enabled {
            return Ok(None);
        }
        let image = match normalize_image_payload(format, width, height, bytes) {
            Ok(image) => image,
            Err(e) => return Err(e),
        };
        let same = match &self.last_local_image_checksum {
            Some(last) => *last == image.checksum_sha256,
            None => false,
        };
        if same {
            return Ok(None);
        }
        let sequence = self.next_sequence;
        self.next_sequence = self.next_sequence + 1;
        self.last_local_image_checksum = Some(image.checksum_sha256.clone());
        Ok(
            Some(
                ClipboardContentUpdate {
                    source_device_id: self.local_device_id,
                    sequence,
                    content: ClipboardContent::Image(image),
                },
            ),
        )
    }

    /// Applies received content under the rules of `apply_remote_update`.
    /// The update's sequence is recorded before the content is checked, so
    /// refused content is not offered again under the same sequence.
    pub fn apply_remote_content_update(&mut self, update: &ClipboardContentUpdate) -> (r: Result<
        ClipboardApplyContentDecision,
        ClipboardError,
    >)
        ensures
            final(self)@ == step(
                old(self)@,
                ClipboardEvent::RemoteContent(
                    update.source_device_id,
                    update.sequence,
                    update.content,
                ),
            ),
            ({
                let s = old(self)@;
                let action = remote_action(s, update.source_device_id, update.sequence);
                let recorded = ClipboardEngineState {
                    seen: seen_after(s, update.source_device_id, update.sequence),
                    ..s
                };
                if action == ClipboardApplyAction::IgnoreDisabled || update.source_device_id
                    == s.local_device_id {
                    r matches Ok(d) && d.action == action && d.content is None && final(self)@ == s
                } else if action == ClipboardApplyAction::IgnoreLoop {
                    r matches Ok(d) && d.action == action && d.content is None && final(self)@
                        == recorded
                } else if content_error(update.content) is Some {
                    r == Err::<ClipboardApplyContentDecision, ClipboardError>(
                        content_error(update.content).unwrap(),
                    ) && final(self)@ == recorded
                } else {
                    &&& r matches Ok(d) && d.action == action && (d.content matches Some(c)
                        && content_normalized(update.content, c))
                    &&& final(self)@ == match update.content {
                        ClipboardContent::Text(t) => ClipboardEngineState {
                            last_text: Some(crlf_to_lf(t.text@)),
                            ..recorded
                        },
                        ClipboardContent::Image(i) => ClipboardEngineState {
                            last_image_checksum: Some(sha256_hex_text(i.bytes@)),
                            ..recorded
                        },
                    }
                }
            }),
    {
        let action = self.check_remote(update.source_device_id, update.sequence);
        match action {
            ClipboardApplyAction::ApplyRemote => {},
            _ => {
                return Ok(ClipboardApplyContentDecision { action, content: None });
            },
        }
        let content = match normalize_content_ref(&update.content) {
            Ok(c) => c,
            Err(e) => return Err(e),
        };
        match &content {
            ClipboardContent::Text(payload) => {
                self.last_local_text = Some(payload.text.clone());
            },
            ClipboardContent::Image(payload) => {
                self.last_local_image_checksum = Some(payload.checksum_sha256.clone());
            },
        }
        Ok(ClipboardApplyContentDecision { action, content: Some(content) })
    }
}

} // verus!

verus! {

/// Whether a local text change is sent: the engine is enabled, the text is
/// not empty and differs from what the clipboard last held.
pub open spec fn sends_text(s: ClipboardEngineState, text: Seq<char>) -> bool {
    let t = crlf_to_lf(text);
    s.enabled && t.len() > 0 && s.last_text != Some(t)
}

/// The same text is never sent twice in a row: once a local change has been
/// sent, or a received text applied, sending the same text again is
/// suppressed.
pub proof fn lemma_text_sent_once(s: ClipboardEngineState, text: Seq<char>, again: Seq<char>)
    requires
        crlf_to_lf(again) == crlf_to_lf(text),
    ensures
        !sends_text(ClipboardEngineState { last_text: Some(crlf_to_lf(text)), ..s }, again),
{
}

/// A received update is applied at most once: after it has been looked at,
/// it and every older update from the same device are ignored as replays.
pub proof fn lemma_remote_update_applied_once(
    s: ClipboardEngineState,
    source: u128,
    sequence: u64,
    later: ClipboardEngineState,
    replay: u64,
)
    requires
        source != s.local_device_id,
        s.enabled,
        later.enabled,
        later.local_device_id == s.local_device_id,
        later.seen == seen_after(s, source, sequence),
        remote_action(s, source, sequence) == ClipboardApplyAction::ApplyRemote,
        replay <= sequence,
    ensures
        remote_action(later, source, replay) == ClipboardApplyAction::IgnoreLoop,
{
}

/// Updates that carry the local device's own identifier are never applied.
pub proof fn lemma_own_updates_never_applied(s: ClipboardEngineState, sequence: u64)
    ensures
        remote_action(s, s.local_device_id, sequence) != ClipboardApplyAction::ApplyRemote,
{
}

/// While synchronisation is disabled, nothing is sent and nothing applied.
pub proof fn lemma_disabled_engine_is_silent(
    s: ClipboardEngineState,
    text: Seq<char>,
    source: u128,
    sequence: u64,
)
    requires
        !s.enabled,
    ensures
        !sends_text(s, text),
        remote_action(s, source, sequence) == ClipboardApplyAction::IgnoreDisabled,
{
}

/// A call on the engine, with what it was given: `set_enabled`,
/// `create_local_update`, `create_local_image_update`,
/// `apply_remote_update` and `apply_remote_content_update`.
pub ghost enum ClipboardEvent {
    SetEnabled(bool),
    LocalText(Seq<char>),
    LocalImage(ImageClipboardFormat, u32, u32, Seq<u8>),
    RemoteText(u128, u64, Seq<char>),
    RemoteContent(u128, u64, ClipboardContent),
}

/// Whether a local image is sent: the engine is enabled, the image is
/// well formed and differs from the image last sent or applied.
pub open spec fn sends_image(
    s: ClipboardEngineState,
    format: ImageClipboardFormat,
    width: u32,
    height: u32,
    bytes: Seq<u8>,
) -> bool {
    s.enabled && image_error(format, width, height, bytes.len()) is None && s.last_image_checksum
        != Some(sha256_hex_text(bytes))
}

/// Whether a call sends an update to the peers.
pub open spec fn sends(s: ClipboardEngineState, e: ClipboardEvent) -> bool {
    match e {
        ClipboardEvent::LocalText(text) => sends_text(s, text),
        ClipboardEvent::LocalImage(format, width, height, bytes) => sends_image(
            s,
            format,
            width,
            height,
            bytes,
        ),
        _ => false,
    }
}

/// Whether a call applies a received update: it is newer than the last one
/// applied from its device, which is not this one, while enabled.
pub open spec fn applies(s: ClipboardEngineState, e: ClipboardEvent) -> bool {
    match e {
        ClipboardEvent::RemoteText(source, sequence, _) => remote_action(s, source, sequence)
            == ClipboardApplyAction::ApplyRemote,
        ClipboardEvent::RemoteContent(source, sequence, _) => remote_action(s, source, sequence)
            == ClipboardApplyAction::ApplyRemote,
        _ => false,
    }
}

/// The engine after a call, as the contract of each method states it.
pub open spec fn step(s: ClipboardEngineState, e: ClipboardEvent) -> ClipboardEngineState {
    match e {
        ClipboardEvent::SetEnabled(enabled) => ClipboardEngineState { enabled, ..s },
        ClipboardEvent::LocalText(text) => if sends_text(s, text) {
            ClipboardEngineState {
                next_sequence: (s.next_sequence + 1) as u64,
                last_text: Some(crlf_to_lf(text)),
                ..s
            }
        } else {
            s
        },
        ClipboardEvent::LocalImage(format, width, height, bytes) => if sends_image(
            s,
            format,
            width,
            height,
            bytes,
        ) {
            ClipboardEngineState {
                next_sequence: (s.next_sequence + 1) as u64,
                last_image_checksum: Some(sha256_hex_text(bytes)),
                ..s
            }
        } else {
            s
        },
        ClipboardEvent::RemoteText(source, sequence, text) => {
            let action = remote_action(s, source, sequence);
            if action == ClipboardApplyAction::IgnoreDisabled || source == s.local_device_id {
                s
            } else if action == ClipboardApplyAction::ApplyRemote {
                ClipboardEngineState {
                    seen: seen_after(s, source, sequence),
                    last_text: Some(crlf_to_lf(text)),
                    ..s
                }
            } else {
                ClipboardEngineState { seen: seen_after(s, source, sequence), ..s }
            }
        },
        ClipboardEvent::RemoteContent(source, sequence, content) => {
            let action = remote_action(s, source, sequence);
            let recorded = ClipboardEngineState { seen: seen_after(s, source, sequence), ..s };
            if action == ClipboardApplyAction::IgnoreDisabled || source == s.local_device_id {
                s
            } else if action == ClipboardApplyAction::IgnoreLoop || content_error(content) is Some {
                recorded
            } else {
                match content {
                    ClipboardContent::Text(t) => ClipboardEngineState {
                        last_text: Some(crlf_to_lf(t.text@)),
                        ..recorded
                    },
                    ClipboardContent::Image(i) => ClipboardEngineState {
                        last_image_checksum: Some(sha256_hex_text(i.bytes@)),
                        ..recorded
                    },
                }
            }
        },
    }
}

/// The engine after a run of calls.
pub open spec fn run(s: ClipboardEngineState, h: Seq<ClipboardEvent>) -> ClipboardEngineState
    decreases h.len(),
{
    if h.len() == 0 {
        s
    } else {
        step(run(s, h.drop_last()), h.last())
    }
}

/// How many calls of a run sent an update.
pub open spec fn sent_count(s: ClipboardEngineState, h: Seq<ClipboardEvent>) -> nat
    decreases h.len(),
{
    if h.len() == 0 {
        0
    } else {
        sent_count(s, h.drop_last()) + if sends(run(s, h.drop_last()), h.last()) {
            1nat
        } else {
            0nat
        }
    }
}

/// The text most recently sent or applied in a run, or what the engine
/// held before the run.
pub open spec fn last_text_of(s: ClipboardEngineState, h: Seq<ClipboardEvent>) -> Option<Seq<char>>
    decreases h.len(),
{
    if h.len() == 0 {
        s.last_text
    } else {
        let before = run(s, h.drop_last());
        match h.last() {
            ClipboardEvent::LocalText(text) => if sends_text(before, text) {
                Some(crlf_to_lf(text))
            } else {
                last_text_of(s, h.drop_last())
            },
            ClipboardEvent::RemoteText(source, sequence, text) => if applies(before, h.last()) {
                Some(crlf_to_lf(text))
            } else {
                last_text_of(s, h.drop_last())
            },
            ClipboardEvent::RemoteContent(source, sequence, content) => if applies(before, h.last())
                && content_error(content) is None && content is Text {
                Some(crlf_to_lf(content->Text_0.text@))
            } else {
                last_text_of(s, h.drop_last())
            },
            _ => last_text_of(s, h.drop_last()),
        }
    }
}

/// Whether the engine is enabled after a run: as the last `set_enabled`
/// of the run left it, or as before the run.
pub open spec fn enabled_after(s: ClipboardEngineState, h: Seq<ClipboardEvent>) -> bool
    decreases h.len(),
{
    if h.len() == 0 {
        s.enabled
    } else {
        match h.last() {
            ClipboardEvent::SetEnabled(enabled) => enabled,
            _ => enabled_after(s, h.drop_last()),
        }
    }
}

/// The sequence of the update from `source` most recently applied in a
/// run, or what the engine had seen from it before the run.
pub open spec fn last_applied(s: ClipboardEngineState, h: Seq<ClipboardEvent>, source: u128) -> u64
    decreases h.len(),
{
    if h.len() == 0 {
        last_seen(s, source)
    } else {
        let before = run(s, h.drop_last());
        match h.last() {
            ClipboardEvent::RemoteText(from, sequence, _) => if from == source && applies(
                before,
                h.last(),
            ) {
                sequence
            } else {
                last_applied(s, h.drop_last(), source)
            },
            ClipboardEvent::RemoteContent(from, sequence, _) => if from == source && applies(
                before,
                h.last(),
            ) {
                sequence
            } else {
                last_applied(s, h.drop_last(), source)
            },
            _ => last_applied(s, h.drop_last(), source),
        }
    }
}

/// Over any run of calls, local changes are numbered and suppressed as
/// the history says: the engine numbers its next update one past the
/// updates sent so far, a local text is sent exactly where the engine is
/// enabled (as the last `set_enabled` left it), the text is not empty and
/// differs from the text most recently sent or applied, and such a text
/// is sent under the next number.
pub proof fn lemma_local_updates_over_history(
    s: ClipboardEngineState,
    h: Seq<ClipboardEvent>,
    text: Seq<char>,
)
    requires
        s.next_sequence + sent_count(s, h) < u64::MAX,
    ensures
        run(s, h).next_sequence == s.next_sequence + sent_count(s, h),
        run(s, h).last_text == last_text_of(s, h),
        run(s, h).enabled == enabled_after(s, h),
        run(s, h).local_device_id == s.local_device_id,
        sends_text(run(s, h), text) <==> (enabled_after(s, h) && crlf_to_lf(text).len() > 0
            && last_text_of(s, h) != Some(crlf_to_lf(text))),
        sends_text(run(s, h), text) ==> run(s, h.push(ClipboardEvent::LocalText(text))).next_sequence
            == s.next_sequence + sent_count(s, h) + 1,
    decreases h.len(),
{
    if h.len() > 0 {
        lemma_local_updates_over_history(s, h.drop_last(), text);
    }
    let hp = h.push(ClipboardEvent::LocalText(text));
    assert(hp.drop_last() =~= h);
}

/// Over any run of calls, received updates are applied as the history
/// says: what the engine has seen from a device is the sequence of the
/// update most recently applied from it, so a received update is ignored
/// while disabled, ignored as a loop where it comes from this device or is
/// not newer than that sequence, and applied otherwise.
pub proof fn lemma_remote_updates_over_history(
    s: ClipboardEngineState,
    h: Seq<ClipboardEvent>,
    source: u128,
    sequence: u64,
)
    ensures
        last_seen(run(s, h), source) == last_applied(s, h, source),
        run(s, h).local_device_id == s.local_device_id,
        run(s, h).enabled == enabled_after(s, h),
        remote_action(run(s, h), source, sequence) == if !enabled_after(s, h) {
            ClipboardApplyAction::IgnoreDisabled
        } else if source == s.local_device_id || sequence <= last_applied(s, h, source) {
            ClipboardApplyAction::IgnoreLoop
        } else {
            ClipboardApplyAction::ApplyRemote
        },
    decreases h.len(),
{
    if h.len() > 0 {
        lemma_remote_updates_over_history(s, h.drop_last(), source, sequence);
        let before = run(s, h.drop_last());
        match h.last() {
            ClipboardEvent::RemoteText(from, seq, _) => {
                if from != source {
                    assert(seen_after(before, from, seq).contains_key(source) == before.seen.contains_key(source));
                }
            },
            ClipboardEvent::RemoteContent(from, seq, _) => {
                if from != source {
                    assert(seen_after(before, from, seq).contains_key(source) == before.seen.contains_key(source));
                }
            },
            _ => {},
        }
    }
}

/// The state of an engine that `new` made for `local_device_id`.
pub open spec fn new_engine_state(local_device_id: u128) -> ClipboardEngineState {
    ClipboardEngineState {
        local_device_id,
        enabled: true,
        next_sequence: 1,
        seen: Map::empty(),
        last_text: None,
        last_image_checksum: None,
    }
}

/// The sequence a received update carries, zero for any other call.
pub open spec fn event_sequence(e: ClipboardEvent) -> u64 {
    match e {
        ClipboardEvent::RemoteText(_, sequence, _) => sequence,
        ClipboardEvent::RemoteContent(_, sequence, _) => sequence,
        _ => 0,
    }
}

/// The `k`-th call of a run applied an update from `source`.
pub open spec fn applied_from(
    s: ClipboardEngineState,
    h: Seq<ClipboardEvent>,
    k: int,
    source: u128,
) -> bool {
    &&& applies(run(s, h.take(k)), h[k])
    &&& match h[k] {
        ClipboardEvent::RemoteText(from, _, _) => from == source,
        ClipboardEvent::RemoteContent(from, _, _) => from == source,
        _ => false,
    }
}

/// The update most recently applied from a device is also the highest
/// applied from it: its sequence is no lower than what the engine had seen
/// before the run nor than any update of the run applied from that device,
/// and it is one of these.
pub proof fn lemma_last_applied_is_highest(
    s: ClipboardEngineState,
    h: Seq<ClipboardEvent>,
    source: u128,
)
    ensures
        last_seen(s, source) <= last_applied(s, h, source),
        forall|k: int|
            0 <= k < h.len() && #[trigger] applied_from(s, h, k, source) ==> event_sequence(h[k])
                <= last_applied(s, h, source),
        last_applied(s, h, source) == last_seen(s, source) || exists|k: int|
            0 <= k < h.len() && #[trigger] applied_from(s, h, k, source) && event_sequence(h[k])
                == last_applied(s, h, source),
    decreases h.len(),
{
    if h.len() > 0 {
        let t = h.drop_last();
        let n = h.len() - 1;
        lemma_last_applied_is_highest(s, t, source);
        lemma_remote_updates_over_history(s, t, source, 0);
        assert(h.take(n) =~= t);
        assert forall|k: int| 0 <= k < n implies h.take(k) == t.take(k) && h[k] == t[k] by {
            assert(h.take(k) =~= t.take(k));
        }
        assert forall|k: int| 0 <= k < n implies #[trigger] applied_from(s, h, k, source)
            == applied_from(s, t, k, source) by {
            assert(h.take(k) =~= t.take(k));
        }
        if applied_from(s, h, n, source) {
            assert(last_applied(s, h, source) == event_sequence(h[n]));
        } else {
            assert(last_applied(s, h, source) == last_applied(s, t, source));
            if last_applied(s, t, source) != last_seen(s, source) {
                let k = choose|k: int|
                    0 <= k < t.len() && #[trigger] applied_from(s, t, k, source) && event_sequence(
                        t[k],
                    ) == last_applied(s, t, source);
                assert(applied_from(s, h, k, source));
            }
        }
    }
}

/// On an engine made by `new` and then given the calls `h`: the next local
/// change is sent exactly where the engine is enabled (true unless the last
/// `set_enabled` of `h` turned it off), its normalized text is not empty
/// and differs from the text most recently sent or applied; it is then sent
/// under one more than the number of updates sent so far, and otherwise
/// the engine is left as it is.
pub proof fn lemma_new_engine_local_updates(id: u128, h: Seq<ClipboardEvent>, text: Seq<char>)
    requires
        sent_count(new_engine_state(id), h) + 1 < u64::MAX,
    ensures
        run(new_engine_state(id), h).next_sequence == sent_count(new_engine_state(id), h) + 1,
        sends(run(new_engine_state(id), h), ClipboardEvent::LocalText(text)) <==> (enabled_after(
            new_engine_state(id),
            h,
        ) && crlf_to_lf(text).len() > 0 && last_text_of(new_engine_state(id), h) != Some(
            crlf_to_lf(text),
        )),
        !sends(run(new_engine_state(id), h), ClipboardEvent::LocalText(text)) ==> step(
            run(new_engine_state(id), h),
            ClipboardEvent::LocalText(text),
        ) == run(new_engine_state(id), h),
{
    lemma_local_updates_over_history(new_engine_state(id), h, text);
}

/// On an engine made by `new` and then given the calls `h`: a received
/// update is ignored while disabled; it is ignored as a loop where it comes
/// from this device or its sequence is not above the highest applied from
/// its device in `h` (zero where none was); otherwise it is applied, after
/// which the engine holds its text, so sending that text is suppressed.
pub proof fn lemma_new_engine_remote_updates(
    id: u128,
    h: Seq<ClipboardEvent>,
    source: u128,
    sequence: u64,
    text: Seq<char>,
)
    ensures
        forall|k: int|
            0 <= k < h.len() && #[trigger] applied_from(new_engine_state(id), h, k, source)
                ==> event_sequence(h[k]) <= last_applied(new_engine_state(id), h, source),
        last_applied(new_engine_state(id), h, source) == 0 || exists|k: int|
            0 <= k < h.len() && #[trigger] applied_from(new_engine_state(id), h, k, source)
                && event_sequence(h[k]) == last_applied(new_engine_state(id), h, source),
        remote_action(run(new_engine_state(id), h), source, sequence) == if !enabled_after(
            new_engine_state(id),
            h,
        ) {
            ClipboardApplyAction::IgnoreDisabled
        } else if source == id || sequence <= last_applied(new_engine_state(id), h, source) {
            ClipboardApplyAction::IgnoreLoop
        } else {
            ClipboardApplyAction::ApplyRemote
        },
        remote_action(run(new_engine_state(id), h), source, sequence)
            == ClipboardApplyAction::ApplyRemote ==> !sends(
            step(
                run(new_engine_state(id), h),
                ClipboardEvent::RemoteText(source, sequence, text),
            ),
            ClipboardEvent::LocalText(text),
        ),
{
    lemma_last_applied_is_highest(new_engine_state(id), h, source);
    lemma_remote_updates_over_history(new_engine_state(id), h, source, sequence);
}

/// Runs `operation` and measures how long it took; its error is passed on.
pub fn clipboard_pipeline_latency<F, T>(operation: F) -> (r: Result<(T, std::time::Duration), ClipboardError>) where
    F: FnOnce() -> Result<T, ClipboardError>,

    requires
        operation.requires(()),
    ensures
        exists|out: Result<T, ClipboardError>|
            operation.ensures((), out) && match out {
                Ok(v) => r matches Ok((w, _)) && w == v,
                Err(e) => r == Err::<(T, std::time::Duration), ClipboardError>(e),
            },
{
    let started = crate::primitives::instant_now();
    let result = operation();
    match result {
        Ok(value) => Ok((value, crate::primitives::elapsed_since(&started))),
        Err(e) => Err(e),
    }
}

} // verus!
