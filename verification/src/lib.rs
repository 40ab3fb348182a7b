//! Deskflow-Plus core logic: protocol framing and priorities, clipboard
//! synchronisation, file transfer planning and reassembly, screen topology,
//! device trust and session bookkeeping.

pub mod primitives;
pub mod text;
pub mod topology;
pub mod protocol;
pub mod clipboard;
pub mod transfer;
pub mod trust;
pub mod session;
pub mod foundation;
pub mod ipc;
pub mod input;
pub mod desktop;
pub mod connection;
pub mod stream;
pub mod discovery;
pub mod placement;
pub mod reassembly;
pub mod settings;
pub mod pem;
pub mod certificate;
pub mod listing;
