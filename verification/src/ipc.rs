//! The local channel between the desktop shell and the core service: which
//! frame a command is sent as, how the service answers, and how the shell
//! reads the answer.

use vstd::prelude::*;
use crate::primitives::{joined_path, join_path};
use crate::protocol::{negotiation_result, negotiate_protocol, ProtocolMessage, VersionNegotiation};

verus! {

pub const DEFAULT_ADDR: &'static str = "127.0.0.1:45821";

#[derive(Clone, Copy, Debug, PartialEq, Eq, Structural)]
pub enum UiToCoreCommand {
    Ping,
    Shutdown,
}

#[derive(Clone, Copy, Debug, PartialEq, Eq, Structural)]
pub enum CoreToUiEvent {
    Pong,
    Ready { protocol_version: u32, pid: u32 },
    ShuttingDown,
}

/// Why an exchange on the local channel fails.
#[derive(Clone, Copy, Debug, PartialEq, Eq, Structural)]
pub enum IpcError {
    /// The first frame of a connection was not a version hello.
    MissingVersionHello,
    /// The two sides share no protocol version.
    NegotiationFailed,
    /// A frame that the exchange does not allow at this point.
    UnexpectedMessage,
}

/// The text `message` gives for each case.
pub open spec fn ipc_error_text(e: IpcError) -> Seq<char> {
    match e {
        IpcError::MissingVersionHello => "first frame must be version hello"@,
        IpcError::NegotiationFailed => "protocol negotiation failed"@,
        IpcError::UnexpectedMessage => "unexpected protocol message"@,
    }
}
impl IpcError {
    pub fn message(&self) -> (text: String)
        ensures
            text@ == ipc_error_text(*self),
    {
        match self {
            IpcError::MissingVersionHello => String::from_str("first frame must be version hello"),
            IpcError::NegotiationFailed => String::from_str("protocol negotiation failed"),
            IpcError::UnexpectedMessage => String::from_str("unexpected protocol message"),
        }
    }
}

/// The address the core service listens on.
pub fn core_service_addr() -> (addr: String)
    ensures
        addr@ == DEFAULT_ADDR@,
{
    String::from_str(DEFAULT_ADDR)
}

/// The separator paths are joined with on Windows or elsewhere.
pub open spec fn platform_separator(windows: bool) -> char {
    if windows {
        '\\'
    } else {
        '/'
    }
}

/// Where the service's debug build lies: `debug/core-service` (with `.exe`
/// on Windows) below the build directory, which is `target_dir` where set
/// and `target` below the project root otherwise.
pub open spec fn service_bin_path(root: Seq<char>, target_dir: Option<Seq<char>>, windows: bool) -> Seq<
    char,
> {
    let sep = platform_separator(windows);
    let build = match target_dir {
        Some(t) => t,
        None => joined_path(root, "target"@, sep),
    };
    let exe = joined_path(joined_path(build, "debug"@, sep), "core-service"@, sep);
    if windows {
        exe + ".exe"@
    } else {
        exe
    }
}

/// The path of the service's debug build.
pub fn core_service_bin(root: &str, target_dir: Option<&str>, windows: bool) -> (path: String)
    ensures
        path@ == service_bin_path(
            root@,
            match target_dir {
                Some(t) => Some(t@),
                None => None,
            },
            windows,
        ),
{
    proof {
        reveal_strlit("target");
        reveal_strlit("debug");
        reveal_strlit("core-service");
        assert("target"@.len() == 6);
        assert("debug"@.len() == 5);
    }
    let sep = if windows {
        '\\'
    } else {
        '/'
    };
    let build = match target_dir {
        Some(t) => t.to_owned(),
        None => join_path(root, "target", sep),
    };
    let debug = join_path(build.as_str(), "debug", sep);
    let mut path = join_path(debug.as_str(), "core-service", sep);
    if windows {
        path.append(".exe");
    }
    path
}

/// The frame a command is sent as.
pub open spec fn command_message_of(command: UiToCoreCommand) -> ProtocolMessage {
    match command {
        UiToCoreCommand::Ping => ProtocolMessage::Ping,
        UiToCoreCommand::Shutdown => ProtocolMessage::Shutdown,
    }
}

pub fn command_message(command: UiToCoreCommand) -> (m: ProtocolMessage)
    ensures
        m == command_message_of(command),
{
    match command {
        UiToCoreCommand::Ping => ProtocolMessage::Ping,
        UiToCoreCommand::Shutdown => ProtocolMessage::Shutdown,
    }
}

/// The service's side of the handshake: the first frame must be a version
/// hello; the answer is a hello with the agreed version as both current and
/// minimum.
pub fn handshake_reply(local: VersionNegotiation, first: &ProtocolMessage) -> (r: Result<
    VersionNegotiation,
    IpcError,
>)
    ensures
        match *first {
            ProtocolMessage::VersionHello(remote) => match negotiation_result(local, remote) {
                Ok(v) => r == Ok::<VersionNegotiation, IpcError>(
                    VersionNegotiation { current: v, min_supported: v },
                ),
                Err(_) => r == Err::<VersionNegotiation, IpcError>(IpcError::NegotiationFailed),
            },
            _ => r == Err::<VersionNegotiation, IpcError>(IpcError::MissingVersionHello),
        },
{
    match first {
        ProtocolMessage::VersionHello(remote) => match negotiate_protocol(local, *remote) {
            Ok(v) => Ok(VersionNegotiation { current: v, min_supported: v }),
            Err(_) => Err(IpcError::NegotiationFailed),
        },
        _ => Err(IpcError::MissingVersionHello),
    }
}

/// The service's answer to a command frame, and whether it must shut down:
/// a ping is answered `Ready` with the service's process id, a shutdown
/// request is echoed and shuts the service down.
pub fn command_reply(message: &ProtocolMessage, pid: u32) -> (r: Result<
    (ProtocolMessage, bool),
    IpcError,
>)
    ensures
        match *message {
            ProtocolMessage::Ping => r == Ok::<(ProtocolMessage, bool), IpcError>(
                (ProtocolMessage::Ready { pid }, false),
            ),
            ProtocolMessage::Shutdown => r == Ok::<(ProtocolMessage, bool), IpcError>(
                (ProtocolMessage::Shutdown, true),
            ),
            _ => r == Err::<(ProtocolMessage, bool), IpcError>(IpcError::UnexpectedMessage),
        },
{
    match message {
        ProtocolMessage::Ping => Ok((ProtocolMessage::Ready { pid }, false)),
        ProtocolMessage::Shutdown => Ok((ProtocolMessage::Shutdown, true)),
        _ => Err(IpcError::UnexpectedMessage),
    }
}

/// The shell's reading of the service's two frames: the handshake
/// acknowledgement and the answer to the command.
pub open spec fn response_event(ack: ProtocolMessage, response: ProtocolMessage) -> Result<
    CoreToUiEvent,
    IpcError,
> {
    match ack {
        ProtocolMessage::VersionHello(negotiated) => match response {
            ProtocolMessage::Pong => Ok(CoreToUiEvent::Pong),
            ProtocolMessage::Ready { pid } => Ok(
                CoreToUiEvent::Ready { protocol_version: negotiated.current, pid },
            ),
            ProtocolMessage::Shutdown => Ok(CoreToUiEvent::ShuttingDown),
            _ => Err(IpcError::UnexpectedMessage),
        },
        _ => Err(IpcError::UnexpectedMessage),
    }
}

pub fn read_response(ack: &ProtocolMessage, response: &ProtocolMessage) -> (r: Result<
    CoreToUiEvent,
    IpcError,
>)
    ensures
        r == response_event(*ack, *response),
{
    match ack {
        ProtocolMessage::VersionHello(negotiated) => match response {
            ProtocolMessage::Pong => Ok(CoreToUiEvent::Pong),
            ProtocolMessage::Ready { pid } => Ok(
                CoreToUiEvent::Ready { protocol_version: negotiated.current, pid: *pid },
            ),
            ProtocolMessage::Shutdown => Ok(CoreToUiEvent::ShuttingDown),
            _ => Err(IpcError::UnexpectedMessage),
        },
        _ => Err(IpcError::UnexpectedMessage),
    }
}

/// A ping sent by a shell speaking the service's own version comes back as
/// `Ready` with the service's process id and that version.
pub proof fn lemma_ping_reaches_ready(local: VersionNegotiation, pid: u32)
    requires
        local.min_supported <= local.current,
    ensures
        negotiation_result(local, local) == Ok::<u32, crate::protocol::ProtocolError>(
            local.current,
        ),
        response_event(
            ProtocolMessage::VersionHello(
                VersionNegotiation { current: local.current, min_supported: local.current },
            ),
            ProtocolMessage::Ready { pid },
        ) == Ok::<CoreToUiEvent, IpcError>(
            CoreToUiEvent::Ready { protocol_version: local.current, pid },
        ),
{
}

} // verus!
