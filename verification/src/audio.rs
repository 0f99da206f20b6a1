//! Values exchanged with the host audio manager.
//!
//! The platform audio stack reports sinks and volume changes through these
//! plain values; the system-volume plugin turns them into packets.

use vstd::prelude::*;

verus! {

/// One audio output as the host reports it.
#[derive(Debug)]
pub struct AudioSinkInfo {
    pub name: Vec<u8>,
    pub description: Vec<u8>,
    pub is_active: bool,
    pub is_muted: bool,
    /// Volume in percent, `0..=100`.
    pub volume: u8,
}

/// A change notification from the host audio stack.
#[derive(Debug)]
pub enum AudioNotification {
    SinkListUpdated,
    VolumeUpdated { id: Vec<u8>, name: Vec<u8>, volume: u8, muted: bool },
}

} // verus!
