//! System events fanned in from platform hooks.
//!
//! Platform listeners (clipboard, power, media sessions, hotkeys, tray
//! menu) push these values into a bounded channel whose single consumer
//! forwards each one to the device manager, which broadcasts it to every
//! device's plugins. Events are plain values and cheap to clone.

use vstd::prelude::*;

verus! {

/// Identifier of one tray-menu item.
#[derive(Debug, Clone, Copy, PartialEq, Eq, Structural)]
pub struct MenuId(pub u16);

/// One event from a platform hook.
#[derive(Debug, Clone, Copy, PartialEq, Eq, Structural)]
pub enum SystemEvent {
    ClipboardUpdated,
    PowerStatusUpdated,
    HotkeyPressed,
    MediaSessionsChanged,
    TrayMenuClicked(MenuId),
}

/// The events the older event funnel carried; kept as an alias of the same
/// value set for callers that speak of connect-time events.
pub type KdeConnectEvent = SystemEvent;

impl SystemEvent {
    /// Whether this event is a click on the given menu item.
    pub fn is_menu_clicked(&self, id: MenuId) -> (r: bool)
        ensures
            r == (*self == SystemEvent::TrayMenuClicked(id)),
    {
        match self {
            SystemEvent::TrayMenuClicked(clicked) => clicked.0 == id.0,
            _ => false,
        }
    }
}

/// One step of the debouncer that platform hooks sit behind: a repeat of
/// the pending event is swallowed; a different event releases the pending
/// one and takes its place.
pub fn debounce_step(pending: Option<SystemEvent>, current: SystemEvent)
    -> (r: (Option<SystemEvent>, Option<SystemEvent>))
    ensures
        ({
            let (emit, keep) = r;
            if pending == Some(current) {
                emit is None && keep == pending
            } else {
                emit == pending && keep == Some(current)
            }
        }),
{
    match pending {
        Some(p) => {
            if p == current {
                (None, Some(p))
            } else {
                (Some(p), Some(current))
            }
        },
        None => (None, Some(current)),
    }
}

} // verus!
