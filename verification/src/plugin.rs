//! The per-device plugin repository and capability routing.
//!
//! Each device owns one repository: a list of plugins, each with the set of
//! packet types it consumes, together with the union capability sets the
//! identity packet advertises. An inbound packet goes to the first plugin
//! whose inbound set holds its type; a packet no plugin can consume is a
//! routing error, logged and dropped, never fatal.

use vstd::prelude::*;
use vstd::string::StringSliceAdditionalSpecFns;

pub mod battery;
pub mod clipboard;
pub mod mpris;
pub mod notification;
pub mod system_volume;
pub mod ping;
pub mod share;

use crate::bytes::{ascii_bytes, clone_bytes, contains_bytes};
use crate::identity::caps_view;

verus! {

/// The built-in features a repository can hold.
#[derive(Debug, Clone, Copy, PartialEq, Eq, Structural)]
pub enum PluginId {
    Battery,
    Ping,
    Clipboard,
    Mpris,
    NotificationReceive,
    InputReceive,
    Share,
    RunCommand,
    ConnectivityReport,
}

/// One registered plugin and the packet types it consumes.
#[derive(Debug)]
pub struct PluginEntry {
    pub plugin: PluginId,
    pub incoming_caps: Vec<Vec<u8>>,
}

/// A device's plugins and the union capability sets.
#[derive(Debug)]
pub struct PluginRepository {
    pub plugins: Vec<PluginEntry>,
    /// Union of the registered inbound sets; advertised in the identity.
    pub incoming_caps: Vec<Vec<u8>>,
    /// Union of the registered outbound sets; advertised in the identity.
    pub outgoing_caps: Vec<Vec<u8>>,
}

/// Whether a capability set holds the packet type `t`.
pub open spec fn caps_contain(caps: Seq<Seq<u8>>, t: Seq<u8>) -> bool {
    exists|i: int| 0 <= i < caps.len() && caps[i] == t
}

/// The routing decision: the first plugin whose inbound set holds `t`.
pub open spec fn spec_route(entries: Seq<Seq<Seq<u8>>>, t: Seq<u8>) -> Option<int>
    decreases entries.len(),
{
    if entries.len() == 0 {
        None
    } else if caps_contain(entries[0], t) {
        Some(0)
    } else {
        match spec_route(entries.drop_first(), t) {
            Some(i) => Some(i + 1),
            None => None,
        }
    }
}

/// A routed packet always lands on a plugin whose inbound capability set
/// holds the packet's type: no plugin ever observes a type it did not
/// declare.
pub proof fn lemma_routing_respects_capabilities(entries: Seq<Seq<Seq<u8>>>, t: Seq<u8>)
    ensures
        match spec_route(entries, t) {
            Some(i) => 0 <= i < entries.len() && caps_contain(entries[i], t)
                && forall|j: int| 0 <= j < i ==> !caps_contain(entries[j], t),
            None => forall|j: int| 0 <= j < entries.len() ==> !caps_contain(entries[j], t),
        },
    decreases entries.len(),
{
    if entries.len() > 0 {
        lemma_routing_respects_capabilities(entries.drop_first(), t);
        if !caps_contain(entries[0], t) {
            match spec_route(entries.drop_first(), t) {
                Some(i) => {
                    assert forall|j: int| 0 <= j < i + 1 implies !caps_contain(entries[j], t) by {
                        if j > 0 {
                            assert(entries.drop_first()[j - 1] == entries[j]);
                        }
                    }
                },
                None => {
                    assert forall|j: int| 0 <= j < entries.len()
                        implies !caps_contain(entries[j], t) by {
                        if j > 0 {
                            assert(entries.drop_first()[j - 1] == entries[j]);
                        }
                    }
                },
            }
        }
    }
}

impl PluginRepository {
    /// The registered inbound sets, in registration order.
    pub open spec fn entry_caps(&self) -> Seq<Seq<Seq<u8>>> {
        Seq::new(self.plugins@.len(), |i: int| caps_view(self.plugins@[i].incoming_caps@))
    }

    /// An empty repository.
    pub fn empty() -> (r: Self)
        ensures
            r.plugins@.len() == 0,
            r.incoming_caps@.len() == 0,
            r.outgoing_caps@.len() == 0,
    {
        PluginRepository { plugins: Vec::new(), incoming_caps: Vec::new(), outgoing_caps: Vec::new() }
    }

    /// Register a plugin with its capability sets; the inbound set joins
    /// the routing table and both sets join the advertised unions.
    pub fn register(&mut self, plugin: PluginId, in_caps: Vec<Vec<u8>>, out_caps: Vec<Vec<u8>>)
        ensures
            final(self).plugins@.len() == old(self).plugins@.len() + 1,
            final(self).entry_caps() =~= old(self).entry_caps().push(caps_view(in_caps@)),
            final(self).plugins@.last().plugin == plugin,
            forall|k: int|
                0 <= k < old(self).plugins@.len() ==> (#[trigger] final(self).plugins@[k]).plugin
                    == old(self).plugins@[k].plugin,
            caps_view(final(self).incoming_caps@) =~= caps_view(old(self).incoming_caps@)
                + caps_view(in_caps@),
            caps_view(final(self).outgoing_caps@) =~= caps_view(old(self).outgoing_caps@)
                + caps_view(out_caps@),
    {
        let n_in: usize = in_caps.len();
        let mut i: usize = 0;
        while i < n_in
            invariant
                n_in == in_caps@.len(),
                0 <= i <= n_in,
                caps_view(self.incoming_caps@) =~= caps_view(old(self).incoming_caps@)
                    + caps_view(in_caps@).take(i as int),
                self.plugins@ == old(self).plugins@,
                self.outgoing_caps@ == old(self).outgoing_caps@,
            decreases n_in - i,
        {
            let ghost before = self.incoming_caps@;
            self.incoming_caps.push(clone_bytes(in_caps[i].as_slice()));
            proof {
                assert(caps_view(self.incoming_caps@) =~= caps_view(before).push(in_caps@[
                    i as int
                ]@));
                assert(caps_view(in_caps@).take(i + 1) =~= caps_view(in_caps@).take(i as int).push(
                    in_caps@[i as int]@,
                ));
                assert(caps_view(self.incoming_caps@) =~= caps_view(old(self).incoming_caps@)
                    + caps_view(in_caps@).take(i + 1));
            }
            i = i + 1;
        }
        proof {
            assert(caps_view(in_caps@).take(n_in as int) =~= caps_view(in_caps@));
        }
        let n_out: usize = out_caps.len();
        let mut j: usize = 0;
        while j < n_out
            invariant
                n_out == out_caps@.len(),
                0 <= j <= n_out,
                caps_view(self.outgoing_caps@) =~= caps_view(old(self).outgoing_caps@)
                    + caps_view(out_caps@).take(j as int),
                self.plugins@ == old(self).plugins@,
                caps_view(self.incoming_caps@) =~= caps_view(old(self).incoming_caps@)
                    + caps_view(in_caps@),
            decreases n_out - j,
        {
            let ghost before = self.outgoing_caps@;
            self.outgoing_caps.push(clone_bytes(out_caps[j].as_slice()));
            proof {
                assert(caps_view(self.outgoing_caps@) =~= caps_view(before).push(out_caps@[
                    j as int
                ]@));
                assert(caps_view(out_caps@).take(j + 1) =~= caps_view(out_caps@).take(j as int)
                    .push(out_caps@[j as int]@));
                assert(caps_view(self.outgoing_caps@) =~= caps_view(old(self).outgoing_caps@)
                    + caps_view(out_caps@).take(j + 1));
            }
            j = j + 1;
        }
        proof {
            assert(caps_view(out_caps@).take(n_out as int) =~= caps_view(out_caps@));
        }
        self.plugins.push(PluginEntry { plugin, incoming_caps: in_caps });
        proof {
            assert(final(self).entry_caps() =~= old(self).entry_caps().push(caps_view(in_caps@)));
        }
    }

    /// Route an inbound packet type to the first plugin whose inbound set
    /// holds it; a type nobody consumes is a routing error.
    pub fn handle_packet(&self, typ: &[u8]) -> (r: Result<usize, ()>)
        ensures
            match r {
                Ok(i) => spec_route(self.entry_caps(), typ@) == Some(i as int)
                    && i < self.plugins@.len()
                    && caps_contain(self.entry_caps()[i as int], typ@),
                Err(e) => spec_route(self.entry_caps(), typ@) is None,
            },
    {
        let ghost entries = self.entry_caps();
        let n: usize = self.plugins.len();
        let mut i: usize = 0;
        while i < n
            invariant
                n == self.plugins@.len(),
                0 <= i <= n,
                entries == self.entry_caps(),
                entries.len() == n,
                forall|j: int| 0 <= j < i ==> !caps_contain(entries[j], typ@),
            decreases n - i,
        {
            if contains_bytes(&self.plugins[i].incoming_caps, typ) {
                proof {
                    let caps = self.plugins@[i as int].incoming_caps@;
                    let k = choose|k: int| 0 <= k < caps.len() && caps[k]@ == typ@;
                    assert(entries[i as int][k] == typ@);
                    assert(caps_contain(entries[i as int], typ@));
                    lemma_route_at(entries, typ@, i as int);
                }
                return Ok(i);
            }
            proof {
                assert(entries[i as int] == caps_view(self.plugins@[i as int].incoming_caps@));
                assert forall|k: int| 0 <= k < entries[i as int].len()
                    implies entries[i as int][k] != typ@ by {
                    assert(entries[i as int][k] == self.plugins@[i as int].incoming_caps@[k]@);
                }
                assert(!caps_contain(entries[i as int], typ@));
            }
            i = i + 1;
        }
        proof {
            lemma_route_none(entries, typ@);
        }
        Err(())
    }

    /// The registered plugin at a routed index.
    pub fn plugin_at(&self, i: usize) -> (r: PluginId)
        requires
            i < self.plugins@.len(),
        ensures
            r == self.plugins@[i as int].plugin,
    {
        self.plugins[i].plugin
    }
}

/// The first matching index is the route.
proof fn lemma_route_at(entries: Seq<Seq<Seq<u8>>>, t: Seq<u8>, i: int)
    requires
        0 <= i < entries.len(),
        caps_contain(entries[i], t),
        forall|j: int| 0 <= j < i ==> !caps_contain(entries[j], t),
    ensures
        spec_route(entries, t) == Some(i),
    decreases i,
{
    if i > 0 {
        lemma_route_at(entries.drop_first(), t, i - 1);
    }
}

/// No matching set, no route.
proof fn lemma_route_none(entries: Seq<Seq<Seq<u8>>>, t: Seq<u8>)
    requires
        forall|j: int| 0 <= j < entries.len() ==> !caps_contain(entries[j], t),
    ensures
        spec_route(entries, t) is None,
    decreases entries.len(),
{
    if entries.len() > 0 {
        lemma_route_none(entries.drop_first(), t);
    }
}

/// The inbound packet types of each built-in, in registration order.
pub open spec fn battery_in_caps() -> Seq<Seq<u8>> {
    seq![("kdeconnect.battery").spec_bytes(), ("kdeconnect.battery.request").spec_bytes()]
}

pub open spec fn ping_in_caps() -> Seq<Seq<u8>> {
    seq![("kdeconnect.ping").spec_bytes()]
}

pub open spec fn clipboard_in_caps() -> Seq<Seq<u8>> {
    seq![("kdeconnect.clipboard").spec_bytes(), ("kdeconnect.clipboard.connect").spec_bytes()]
}

pub open spec fn mpris_in_caps() -> Seq<Seq<u8>> {
    seq![("kdeconnect.mpris").spec_bytes(), ("kdeconnect.mpris.request").spec_bytes()]
}

pub open spec fn notification_in_caps() -> Seq<Seq<u8>> {
    seq![("kdeconnect.notification").spec_bytes()]
}

pub open spec fn input_in_caps() -> Seq<Seq<u8>> {
    seq![("kdeconnect.mousepad.request").spec_bytes()]
}

pub open spec fn share_in_caps() -> Seq<Seq<u8>> {
    seq![("kdeconnect.share.request").spec_bytes(), ("kdeconnect.share.request.update").spec_bytes()]
}

pub open spec fn run_command_in_caps() -> Seq<Seq<u8>> {
    seq![("kdeconnect.runcommand").spec_bytes(), ("kdeconnect.runcommand.request").spec_bytes()]
}

/// The outbound packet types of each built-in; the notification plugin
/// answers with requests and replies, and the input plugin produces
/// nothing.
pub open spec fn notification_out_caps() -> Seq<Seq<u8>> {
    seq![
        ("kdeconnect.notification.request").spec_bytes(),
        ("kdeconnect.notification.reply").spec_bytes(),
    ]
}

/// The full inbound routing table of the standard registration.
pub open spec fn standard_in_caps() -> Seq<Seq<Seq<u8>>> {
    seq![
        battery_in_caps(),
        ping_in_caps(),
        clipboard_in_caps(),
        mpris_in_caps(),
        notification_in_caps(),
        input_in_caps(),
        share_in_caps(),
        run_command_in_caps(),
    ]
}

/// The standard registration set: every built-in plugin with its
/// capability strings, in the order the tray menu shows them. The
/// contract fixes each plugin's inbound set and both advertised unions
/// exactly, so routing and the advertised identity are pinned down.
pub fn standard_repository() -> (r: PluginRepository)
    ensures
        r.plugins@.len() == 8,
        r.plugins@[0].plugin == PluginId::Battery,
        r.plugins@[1].plugin == PluginId::Ping,
        r.plugins@[2].plugin == PluginId::Clipboard,
        r.plugins@[3].plugin == PluginId::Mpris,
        r.plugins@[4].plugin == PluginId::NotificationReceive,
        r.plugins@[5].plugin == PluginId::InputReceive,
        r.plugins@[6].plugin == PluginId::Share,
        r.plugins@[7].plugin == PluginId::RunCommand,
        r.entry_caps() =~= standard_in_caps(),
        caps_view(r.incoming_caps@) =~= battery_in_caps() + ping_in_caps() + clipboard_in_caps()
            + mpris_in_caps() + notification_in_caps() + input_in_caps() + share_in_caps()
            + run_command_in_caps(),
        caps_view(r.outgoing_caps@) =~= battery_in_caps() + ping_in_caps() + clipboard_in_caps()
            + mpris_in_caps() + notification_out_caps() + share_in_caps()
            + run_command_in_caps(),
{
    let mut repo = PluginRepository::empty();
    proof {
        assert(repo.entry_caps() =~= Seq::<Seq<Seq<u8>>>::empty());
        assert(caps_view(repo.incoming_caps@) =~= Seq::<Seq<u8>>::empty());
        assert(caps_view(repo.outgoing_caps@) =~= Seq::<Seq<u8>>::empty());
    }
    repo.register(
        PluginId::Battery,
        two_caps("kdeconnect.battery", "kdeconnect.battery.request"),
        two_caps("kdeconnect.battery", "kdeconnect.battery.request"),
    );
    proof {
        assert(repo.entry_caps() =~= seq![battery_in_caps()]);
        assert(caps_view(repo.incoming_caps@) =~= battery_in_caps());
        assert(caps_view(repo.outgoing_caps@) =~= battery_in_caps());
    }
    repo.register(PluginId::Ping, one_cap("kdeconnect.ping"), one_cap("kdeconnect.ping"));
    proof {
        assert(repo.entry_caps() =~= seq![battery_in_caps(), ping_in_caps()]);
        assert(caps_view(repo.incoming_caps@) =~= battery_in_caps() + ping_in_caps());
        assert(caps_view(repo.outgoing_caps@) =~= battery_in_caps() + ping_in_caps());
    }
    repo.register(
        PluginId::Clipboard,
        two_caps("kdeconnect.clipboard", "kdeconnect.clipboard.connect"),
        two_caps("kdeconnect.clipboard", "kdeconnect.clipboard.connect"),
    );
    proof {
        assert(repo.entry_caps() =~= seq![battery_in_caps(), ping_in_caps(), clipboard_in_caps()]);
        assert(caps_view(repo.incoming_caps@) =~= battery_in_caps() + ping_in_caps()
            + clipboard_in_caps());
        assert(caps_view(repo.outgoing_caps@) =~= battery_in_caps() + ping_in_caps()
            + clipboard_in_caps());
    }
    repo.register(
        PluginId::Mpris,
        two_caps("kdeconnect.mpris", "kdeconnect.mpris.request"),
        two_caps("kdeconnect.mpris", "kdeconnect.mpris.request"),
    );
    proof {
        assert(repo.entry_caps() =~= seq![
            battery_in_caps(), ping_in_caps(), clipboard_in_caps(), mpris_in_caps(),
        ]);
        assert(caps_view(repo.incoming_caps@) =~= battery_in_caps() + ping_in_caps()
            + clipboard_in_caps() + mpris_in_caps());
        assert(caps_view(repo.outgoing_caps@) =~= battery_in_caps() + ping_in_caps()
            + clipboard_in_caps() + mpris_in_caps());
    }
    repo.register(
        PluginId::NotificationReceive,
        one_cap("kdeconnect.notification"),
        two_caps("kdeconnect.notification.request", "kdeconnect.notification.reply"),
    );
    proof {
        assert(repo.entry_caps() =~= seq![
            battery_in_caps(), ping_in_caps(), clipboard_in_caps(), mpris_in_caps(),
            notification_in_caps(),
        ]);
        assert(caps_view(repo.incoming_caps@) =~= battery_in_caps() + ping_in_caps()
            + clipboard_in_caps() + mpris_in_caps() + notification_in_caps());
        assert(caps_view(repo.outgoing_caps@) =~= battery_in_caps() + ping_in_caps()
            + clipboard_in_caps() + mpris_in_caps() + notification_out_caps());
    }
    repo.register(PluginId::InputReceive, one_cap("kdeconnect.mousepad.request"), no_caps());
    proof {
        assert(repo.entry_caps() =~= seq![
            battery_in_caps(), ping_in_caps(), clipboard_in_caps(), mpris_in_caps(),
            notification_in_caps(), input_in_caps(),
        ]);
        assert(caps_view(repo.incoming_caps@) =~= battery_in_caps() + ping_in_caps()
            + clipboard_in_caps() + mpris_in_caps() + notification_in_caps() + input_in_caps());
        assert(caps_view(repo.outgoing_caps@) =~= battery_in_caps() + ping_in_caps()
            + clipboard_in_caps() + mpris_in_caps() + notification_out_caps());
    }
    repo.register(
        PluginId::Share,
        two_caps("kdeconnect.share.request", "kdeconnect.share.request.update"),
        two_caps("kdeconnect.share.request", "kdeconnect.share.request.update"),
    );
    proof {
        assert(repo.entry_caps() =~= seq![
            battery_in_caps(), ping_in_caps(), clipboard_in_caps(), mpris_in_caps(),
            notification_in_caps(), input_in_caps(), share_in_caps(),
        ]);
        assert(caps_view(repo.incoming_caps@) =~= battery_in_caps() + ping_in_caps()
            + clipboard_in_caps() + mpris_in_caps() + notification_in_caps() + input_in_caps()
            + share_in_caps());
        assert(caps_view(repo.outgoing_caps@) =~= battery_in_caps() + ping_in_caps()
            + clipboard_in_caps() + mpris_in_caps() + notification_out_caps() + share_in_caps());
    }
    repo.register(
        PluginId::RunCommand,
        two_caps("kdeconnect.runcommand", "kdeconnect.runcommand.request"),
        two_caps("kdeconnect.runcommand", "kdeconnect.runcommand.request"),
    );
    proof {
        assert(repo.entry_caps() =~= standard_in_caps());
        assert(caps_view(repo.incoming_caps@) =~= battery_in_caps() + ping_in_caps()
            + clipboard_in_caps() + mpris_in_caps() + notification_in_caps() + input_in_caps()
            + share_in_caps() + run_command_in_caps());
        assert(caps_view(repo.outgoing_caps@) =~= battery_in_caps() + ping_in_caps()
            + clipboard_in_caps() + mpris_in_caps() + notification_out_caps() + share_in_caps()
            + run_command_in_caps());
    }
        repo
}

/// A one-element capability list holding exactly the given type string.
pub fn one_cap(a: &str) -> (r: Vec<Vec<u8>>)
    ensures
        r@.len() == 1,
        r@[0]@ == a.spec_bytes(),
        caps_view(r@) =~= seq![a.spec_bytes()],
{
    let mut r: Vec<Vec<u8>> = Vec::new();
    r.push(ascii_bytes(a));
    proof {
        assert(caps_view(r@) =~= seq![a.spec_bytes()]);
    }
    r
}

/// An empty capability list.
pub fn no_caps() -> (r: Vec<Vec<u8>>)
    ensures
        r@.len() == 0,
        caps_view(r@) =~= Seq::<Seq<u8>>::empty(),
{
    let r: Vec<Vec<u8>> = Vec::new();
    proof {
        assert(caps_view(r@) =~= Seq::<Seq<u8>>::empty());
    }
    r
}

/// Static capability metadata every built-in plugin declares; the union
/// across plugins forms what the identity packet advertises.
pub trait KdeConnectPluginMetadata {
    fn incoming_capabilities() -> Vec<Vec<u8>>;

    fn outgoing_capabilities() -> Vec<Vec<u8>>;
}

/// The input-injection plugin: consumes mousepad requests and echoes them.
#[derive(Debug, Clone, Copy, PartialEq, Eq, Structural)]
pub struct ReceiveMousePlugin;

impl KdeConnectPluginMetadata for ReceiveMousePlugin {
    fn incoming_capabilities() -> (r: Vec<Vec<u8>>) {
        one_cap("kdeconnect.mousepad.request")
    }

    fn outgoing_capabilities() -> (r: Vec<Vec<u8>>) {
        no_caps()
    }
}

/// The connectivity-report plugin: reads the peer's signal strengths.
#[derive(Debug, Clone, Copy, PartialEq, Eq, Structural)]
pub struct ConnectivityReportPlugin;

impl KdeConnectPluginMetadata for ConnectivityReportPlugin {
    fn incoming_capabilities() -> (r: Vec<Vec<u8>>) {
        two_caps("kdeconnect.connectivity_report", "kdeconnect.connectivity_report.request")
    }

    fn outgoing_capabilities() -> (r: Vec<Vec<u8>>) {
        one_cap("kdeconnect.connectivity_report.request")
    }
}

/// A two-element capability list holding exactly the given type strings.
pub fn two_caps(a: &str, b: &str) -> (r: Vec<Vec<u8>>)
    ensures
        r@.len() == 2,
        r@[0]@ == a.spec_bytes(),
        r@[1]@ == b.spec_bytes(),
        caps_view(r@) =~= seq![a.spec_bytes(), b.spec_bytes()],
{
    let mut r: Vec<Vec<u8>> = Vec::new();
    r.push(ascii_bytes(a));
    r.push(ascii_bytes(b));
    proof {
        assert(caps_view(r@) =~= seq![a.spec_bytes(), b.spec_bytes()]);
    }
    r
}

} // verus!
