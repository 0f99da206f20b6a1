//! Listener port selection.
//!
//! The main TCP listener binds the first free port of `1716..=1764`; an
//! ephemeral payload server binds the first free port from `1765` upward.
//! The bind attempts themselves are network I/O and happen outside the
//! library; the caller probes ports in order and records which bind
//! succeeded, and these functions carry the selection contract.

use vstd::prelude::*;

verus! {

/// Number of ports in the main listener range `1716..=1764`.
pub const MAIN_PORT_RANGE_LEN: usize = 49;

/// The main listener port chosen from a record of bind outcomes:
/// `bind_ok[i]` says whether port `1716 + i` could be bound. The first free
/// port of the range wins; when every port is busy the startup fails.
pub fn select_main_port(bind_ok: &Vec<bool>) -> (r: Option<u16>)
    requires
        bind_ok@.len() == 49,
    ensures
        match r {
            Some(p) => 1716 <= p <= 1764 && bind_ok@[p - 1716]
                && forall|q: int| 0 <= q < p - 1716 ==> !bind_ok@[q],
            None => forall|q: int| 0 <= q < 49 ==> !bind_ok@[q],
        },
{
    let mut i: usize = 0;
    while i < 49
        invariant
            bind_ok@.len() == 49,
            0 <= i <= 49,
            forall|q: int| 0 <= q < i ==> !bind_ok@[q],
        decreases 49 - i,
    {
        if bind_ok[i] {
            return Some(1716 + (i as u16));
        }
        i = i + 1;
    }
    None
}

/// The payload server port chosen from bind outcomes for the ports
/// `1765 + i`. The range is open-ended upward; the caller hands in as many
/// outcomes as it probed.
pub fn select_payload_port(bind_ok: &Vec<bool>) -> (r: Option<u16>)
    requires
        bind_ok@.len() <= 0x10000 - 1765,
    ensures
        match r {
            Some(p) => 1765 <= p && (p - 1765) < bind_ok@.len() && bind_ok@[p - 1765]
                && forall|q: int| 0 <= q < p - 1765 ==> !bind_ok@[q],
            None => forall|q: int| 0 <= q < bind_ok@.len() ==> !bind_ok@[q],
        },
{
    let n: usize = bind_ok.len();
    let mut i: usize = 0;
    while i < n
        invariant
            n == bind_ok@.len(),
            n <= 0x10000 - 1765,
            0 <= i <= n,
            forall|q: int| 0 <= q < i ==> !bind_ok@[q],
        decreases n - i,
    {
        if bind_ok[i] {
            return Some(1765 + (i as u16));
        }
        i = i + 1;
    }
    None
}

/// TCP keepalive tuning applied to every accepted connection: seconds until
/// the first probe, and seconds between probes.
pub fn keepalive_params() -> (r: (u64, u64))
    ensures
        r.0 == 10,
        r.1 == 5,
{
    (10, 5)
}

} // verus!
