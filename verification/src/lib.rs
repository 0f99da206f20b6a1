//! A desktop peer for the KDE Connect device-pairing protocol.
//!
//! The crate holds the protocol engine: the newline-delimited JSON packet
//! codec, the payload cache, the device-manager state machine, the plugin
//! capability routing, and the small decision procedures that the network
//! loops are driven by. Network and platform I/O live outside the library
//! and hand plain values in.

use vstd::prelude::*;

pub mod audio;
pub mod base64;
pub mod bytes;
pub mod cache;
pub mod config;
pub mod conn;
pub mod discovery;
pub mod event;
pub mod identity;
pub mod json;
pub mod manager;
pub mod net;
pub mod packet;
pub mod payload;
pub mod plugin;
pub mod toast;
pub mod tray;
pub mod utils;

verus! {

/// The fixed UDP discovery port and the first port probed by the TCP listener.
pub const DISCOVERY_PORT: u16 = 1716;

/// The last port probed by the main TCP listener.
pub const MAX_MAIN_PORT: u16 = 1764;

/// The first port probed when an ephemeral payload server is opened.
pub const MIN_PAYLOAD_PORT: u16 = 1765;

/// The protocol version this peer advertises.
pub const PROTOCOL_VERSION: u8 = 7;

} // verus!
