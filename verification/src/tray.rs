//! The tray surface as data.
//!
//! The host event loop owns the real tray; the library decides what it
//! shows: one disabled line when no device is connected, otherwise one
//! labelled line per device followed by that device's plugin entries, and
//! the icon variant follows the device count.

use vstd::prelude::*;
use vstd::string::StringSliceAdditionalSpecFns;

use crate::bytes::clone_bytes;
use crate::manager::DeviceManager;

verus! {

/// One line of the tray menu.
#[derive(Debug)]
pub enum TrayMenuEntry {
    /// A greyed, informational line.
    Disabled(Vec<u8>),
    /// A line for one connected device: its name and address.
    Device { name: Vec<u8>, remote_ip: Vec<u8> },
    Separator,
    Quit,
}

/// The "present" icon is shown exactly while some device is connected.
pub fn tray_icon_present(active_device_count: usize) -> (r: bool)
    ensures
        r == (active_device_count > 0),
{
    active_device_count > 0
}

/// The menu skeleton: an idle notice when no device is connected,
/// otherwise one device line and separator per device in table order, and
/// the quit line last.
pub fn tray_menu_model(m: &DeviceManager) -> (r: Vec<TrayMenuEntry>)
    requires
        m.wf(),
    ensures
        m.entries().len() == 0 ==> r@.len() == 3
            && (r@[0] matches TrayMenuEntry::Disabled(t)
                && t@ == ("No device connected").spec_bytes())
            && r@[1] is Separator,
        m.entries().len() > 0 ==> r@.len() == 2 * m.entries().len() + 1,
        r@.len() >= 1,
        r@.last() is Quit,
        forall|k: int|
            0 <= k < m.entries().len() ==> ((#[trigger] r@[2 * k]) matches
                TrayMenuEntry::Device { name, remote_ip }
                && name@ == m.entries()[k].1.name && remote_ip@ == m.entries()[k].1.remote_ip),
        forall|k: int| 0 <= k < m.entries().len() ==> (#[trigger] r@[2 * k + 1]) is Separator,
{
    let mut r: Vec<TrayMenuEntry> = Vec::new();
    let n: usize = m.len();
    if n == 0 {
        r.push(TrayMenuEntry::Disabled(crate::bytes::ascii_bytes("No device connected")));
        r.push(TrayMenuEntry::Separator);
    } else {
        let mut i: usize = 0;
        while i < n
            invariant
                n == m.entries().len(),
                0 <= i <= n,
                m.wf(),
                r@.len() == 2 * i,
                forall|k: int|
                    0 <= k < i ==> ((#[trigger] r@[2 * k]) matches
                        TrayMenuEntry::Device { name, remote_ip }
                        && name@ == m.entries()[k].1.name
                        && remote_ip@ == m.entries()[k].1.remote_ip),
                forall|k: int| 0 <= k < i ==> (#[trigger] r@[2 * k + 1]) is Separator,
            decreases n - i,
        {
            let (_, device) = m.device_at(i);
            r.push(TrayMenuEntry::Device {
                name: clone_bytes(device.name.as_slice()),
                remote_ip: clone_bytes(device.remote_ip.as_slice()),
            });
            r.push(TrayMenuEntry::Separator);
            i = i + 1;
        }
    }
    r.push(TrayMenuEntry::Quit);
    r
}

} // verus!
