//! The device-manager state machine.
//!
//! A single actor task owns the map from device id to live device record.
//! Every mutation of that map is one of the operations below; the
//! surrounding runtime only forwards messages to it and performs the
//! returned delivery decisions. Connection ids are handed out by a
//! process-unique monotone counter and act as fence tokens: a removal
//! carrying a stale connection id is a no-op.

use vstd::prelude::*;

use crate::bytes::bytes_eq;

verus! {

/// A process-unique, monotonically increasing token tagging one accepted
/// TCP connection for a device.
#[derive(Debug, Clone, Copy, PartialEq, Eq, Structural)]
pub struct ConnectionId(pub u64);

/// One live device record, owned by the manager.
#[derive(Debug)]
pub struct Device {
    /// Human-readable name taken from the identity packet of the first
    /// connection for this id.
    pub name: Vec<u8>,
    /// Textual remote address of the current connection.
    pub remote_ip: Vec<u8>,
    /// Remote port of the current connection.
    pub remote_port: u16,
    /// Fence token of the current connection.
    pub conn_id: ConnectionId,
}

/// Mathematical image of one device record.
pub struct DeviceView {
    pub name: Seq<u8>,
    pub remote_ip: Seq<u8>,
    pub remote_port: u16,
    pub conn_id: u64,
}

impl Device {
    pub open spec fn view(&self) -> DeviceView {
        DeviceView {
            name: self.name@,
            remote_ip: self.remote_ip@,
            remote_port: self.remote_port,
            conn_id: self.conn_id.0,
        }
    }
}

/// Mathematical image of the whole manager: the device map, the counter the
/// next connection id is drawn from, and the published device count.
#[verifier::ext_equal]
pub struct ManagerView {
    pub devices: Map<Seq<u8>, DeviceView>,
    pub next_conn_id: u64,
    pub count: nat,
}

/// The transition performed by a successful `AddDevice` message: a record
/// for a new id is inserted, a record for a known id has its address and
/// fence token replaced in place (the name of the first registration is
/// kept), and the freshly drawn connection id is returned.
pub open spec fn spec_add_device(
    v: ManagerView,
    id: Seq<u8>,
    name: Seq<u8>,
    remote_ip: Seq<u8>,
    remote_port: u16,
) -> (ManagerView, u64) {
    let dv = DeviceView {
        name: if v.devices.dom().contains(id) {
            v.devices[id].name
        } else {
            name
        },
        remote_ip: remote_ip,
        remote_port: remote_port,
        conn_id: v.next_conn_id,
    };
    (
        ManagerView {
            devices: v.devices.insert(id, dv),
            next_conn_id: (v.next_conn_id + 1) as u64,
            count: if v.devices.dom().contains(id) {
                v.count
            } else {
                (v.count + 1) as nat
            },
        },
        v.next_conn_id,
    )
}

/// The transition performed by a `RemoveDevice` message: the record leaves
/// only when `cid` still is its current fence token; otherwise nothing
/// changes.
pub open spec fn spec_remove_device(v: ManagerView, id: Seq<u8>, cid: u64) -> ManagerView {
    if v.devices.dom().contains(id) && v.devices[id].conn_id == cid {
        ManagerView {
            devices: v.devices.remove(id),
            next_conn_id: v.next_conn_id,
            count: (v.count - 1) as nat,
        }
    } else {
        v
    }
}

/// One keyed entry of the device table.
pub struct DeviceEntry {
    pub id: Vec<u8>,
    pub device: Device,
}

/// The single-writer owner of the live-device map.
pub struct DeviceManager {
    pub devices: Vec<DeviceEntry>,
    pub next_conn_id: u64,
    pub active_device_count: usize,
}

/// First index holding `id`, or an arbitrary value when `id` is absent.
pub open spec fn index_of_key(devs: Seq<(Seq<u8>, DeviceView)>, id: Seq<u8>) -> int {
    choose|i: int| 0 <= i < devs.len() && devs[i].0 == id
}

/// Whether some entry of `devs` holds `id`.
pub open spec fn has_key(devs: Seq<(Seq<u8>, DeviceView)>, id: Seq<u8>) -> bool {
    exists|i: int| 0 <= i < devs.len() && devs[i].0 == id
}

/// The device map read off the entry sequence.
pub open spec fn devices_map(devs: Seq<(Seq<u8>, DeviceView)>) -> Map<Seq<u8>, DeviceView> {
    Map::new(|k: Seq<u8>| has_key(devs, k), |k: Seq<u8>| devs[index_of_key(devs, k)].1)
}

impl DeviceManager {
    /// The entry sequence as mathematical pairs.
    pub open spec fn entries(&self) -> Seq<(Seq<u8>, DeviceView)> {
        self.devices@.map(|i: int, e: DeviceEntry| (e.id@, e.device@))
    }

    pub open spec fn view(&self) -> ManagerView {
        ManagerView {
            devices: devices_map(self.entries()),
            next_conn_id: self.next_conn_id,
            count: self.devices@.len() as nat,
        }
    }

    /// Well-formedness: ids are unique, every stored connection id was drawn
    /// from the counter, and the published count matches the table.
    pub open spec fn wf(&self) -> bool {
        &&& forall|i: int, j: int|
            0 <= i < j < self.entries().len() ==> self.entries()[i].0 != self.entries()[j].0
        &&& forall|i: int|
            0 <= i < self.entries().len() ==> self.entries()[i].1.conn_id < self.next_conn_id
        &&& self.active_device_count == self.devices@.len()
    }

    /// An empty manager; no device is known and no connection id has been
    /// handed out yet.
    pub fn new() -> (r: Self)
        ensures
            r.wf(),
            r@.devices =~= Map::<Seq<u8>, DeviceView>::empty(),
            r@.next_conn_id == 0,
            r@.count == 0,
    {
        let r = DeviceManager { devices: Vec::new(), next_conn_id: 0, active_device_count: 0 };
        proof {
            assert(r.entries() =~= Seq::<(Seq<u8>, DeviceView)>::empty());
            assert(r@.devices =~= Map::<Seq<u8>, DeviceView>::empty());
        }
        r
    }

    /// First table index holding `id`, if any.
    fn find_index(&self, id: &[u8]) -> (r: Option<usize>)
        requires
            self.wf(),
        ensures
            match r {
                Some(i) => 0 <= i < self.entries().len() && self.entries()[i as int].0 == id@,
                None => !has_key(self.entries(), id@),
            },
    {
        let n: usize = self.devices.len();
        let mut i: usize = 0;
        while i < n
            invariant
                n == self.devices@.len(),
                0 <= i <= n,
                forall|j: int| 0 <= j < i ==> self.entries()[j].0 != id@,
            decreases n - i,
        {
            if bytes_eq(self.devices[i].id.as_slice(), id) {
                assert(self.entries()[i as int].0 == id@);
                return Some(i);
            }
            i = i + 1;
        }
        None
    }

    /// Whether a record for `id` is present.
    pub fn query_device(&self, id: &[u8]) -> (r: bool)
        requires
            self.wf(),
        ensures
            r == self@.devices.dom().contains(id@),
    {
        let r = self.find_index(id);
        proof {
            if has_key(self.entries(), id@) {
                assert(self@.devices.dom().contains(id@));
            }
        }
        r.is_some()
    }

    /// The published device count; equals the size of the device map.
    pub fn active_device_count(&self) -> (r: usize)
        requires
            self.wf(),
        ensures
            r == self@.count,
            r == self@.devices.dom().len(),
    {
        proof {
            self.lemma_count_is_map_len();
        }
        self.active_device_count
    }

    /// The device map has exactly as many records as the entry table.
    proof fn lemma_count_is_map_len(&self)
        requires
            self.wf(),
        ensures
            self@.devices.dom().len() == self@.count,
    {
        lemma_unique_entries_map_len(self.entries());
    }

    /// Register a connection for `id`: insert a record when the id is new,
    /// otherwise replace address and fence token in place, keeping the name
    /// of the first registration. Returns the freshly drawn connection id.
    pub fn add_device(&mut self, id: Vec<u8>, name: Vec<u8>, remote_ip: Vec<u8>, remote_port: u16)
        -> (cid: ConnectionId)
        requires
            old(self).wf(),
            old(self).next_conn_id < u64::MAX,
        ensures
            final(self).wf(),
            cid.0 == old(self)@.next_conn_id,
            final(self)@.next_conn_id == old(self)@.next_conn_id + 1,
            final(self)@.devices =~= old(self)@.devices.insert(
                id@,
                DeviceView {
                    name: if old(self)@.devices.dom().contains(id@) {
                        old(self)@.devices[id@].name
                    } else {
                        name@
                    },
                    remote_ip: remote_ip@,
                    remote_port: remote_port,
                    conn_id: cid.0,
                },
            ),
            final(self)@.count == if old(self)@.devices.dom().contains(id@) {
                old(self)@.count
            } else {
                old(self)@.count + 1
            },
            final(self)@ =~= spec_add_device(
                old(self)@, id@, name@, remote_ip@, remote_port,
            ).0,
            cid.0 == spec_add_device(old(self)@, id@, name@, remote_ip@, remote_port).1,
    {
        let cid = ConnectionId(self.next_conn_id);
        self.next_conn_id = self.next_conn_id + 1;
        let found = self.find_index(id.as_slice());
        match found {
            Some(i) => {
                proof {
                    assert(has_key(self.entries(), id@));
                    lemma_key_index_unique(self.entries(), id@, i as int);
                }
                let entry = self.devices.remove(i);
                let updated = DeviceEntry {
                    id,
                    device: Device {
                        name: entry.device.name,
                        remote_ip,
                        remote_port,
                        conn_id: cid,
                    },
                };
                self.devices.insert(i, updated);
                self.active_device_count = self.devices.len();
                proof {
                    assert(self.entries() =~= old(self).entries().update(
                        i as int,
                        (id@, self.entries()[i as int].1),
                    ));
                    lemma_map_after_update(old(self).entries(), i as int, self.entries()[i as int].1);
                    assert(self@.devices =~= devices_map(old(self).entries()).insert(
                        id@,
                        self.entries()[i as int].1,
                    ));
                    assert(old(self)@.devices[id@] == old(self).entries()[
                        index_of_key(old(self).entries(), id@)
                    ].1);
                    lemma_key_index_unique(old(self).entries(), id@, i as int);
                    lemma_unique_entries_map_len(self.entries());
                    lemma_unique_entries_map_len(old(self).entries());
                }
            }
            None => {
                let entry = DeviceEntry {
                    id,
                    device: Device { name, remote_ip, remote_port, conn_id: cid },
                };
                self.devices.push(entry);
                self.active_device_count = self.devices.len();
                proof {
                    assert(self.entries() =~= old(self).entries().push(
                        (id@, self.entries()[self.entries().len() - 1].1),
                    ));
                    lemma_map_after_push(
                        old(self).entries(),
                        id@,
                        self.entries()[self.entries().len() - 1].1,
                    );
                    lemma_unique_entries_map_len(self.entries());
                    lemma_unique_entries_map_len(old(self).entries());
                }
            }
        }
        cid
    }

    /// Remove the record for `id`, but only when `conn_id` still is the
    /// record's current fence token. A removal for an absent id or with a
    /// stale token leaves the manager unchanged.
    pub fn remove_device(&mut self, id: &[u8], conn_id: ConnectionId)
        requires
            old(self).wf(),
        ensures
            final(self).wf(),
            final(self)@.next_conn_id == old(self)@.next_conn_id,
            if old(self)@.devices.dom().contains(id@)
                && old(self)@.devices[id@].conn_id == conn_id.0 {
                final(self)@.devices =~= old(self)@.devices.remove(id@)
                    && final(self)@.count == old(self)@.count - 1
            } else {
                final(self)@.devices =~= old(self)@.devices
                    && final(self)@.count == old(self)@.count
            },
            final(self)@ =~= spec_remove_device(old(self)@, id@, conn_id.0),
    {
        let found = self.find_index(id);
        match found {
            Some(i) => {
                proof {
                    lemma_key_index_unique(self.entries(), id@, i as int);
                    assert(self@.devices[id@] == self.entries()[i as int].1);
                }
                if self.devices[i].device.conn_id.0 == conn_id.0 {
                    self.devices.remove(i);
                    self.active_device_count = self.devices.len();
                    proof {
                        assert(self.entries() =~= old(self).entries().remove(i as int));
                        lemma_map_after_remove(old(self).entries(), i as int);
                    }
                }
            }
            None => {
            }
        }
    }

    /// The delivery decision for a directed packet: the table index of the
    /// addressed device, or nothing when the id is unknown (the packet is
    /// then dropped).
    pub fn outbox_index(&self, id: &[u8]) -> (r: Option<usize>)
        requires
            self.wf(),
        ensures
            match r {
                Some(i) => 0 <= i < self.entries().len() && self.entries()[i as int].0 == id@
                    && self@.devices.dom().contains(id@)
                    && self@.devices[id@] == self.entries()[i as int].1,
                None => !self@.devices.dom().contains(id@),
            },
    {
        let r = self.find_index(id);
        proof {
            if let Some(i) = r {
                lemma_key_index_unique(self.entries(), id@, i as int);
            }
        }
        r
    }

    /// The number of table slots; broadcast delivery walks indices `0..len`.
    pub fn len(&self) -> (r: usize)
        ensures
            r == self.entries().len(),
    {
        self.devices.len()
    }

    /// Read access to one table slot.
    pub fn device_at(&self, i: usize) -> (r: (&Vec<u8>, &Device))
        requires
            i < self.entries().len(),
        ensures
            r.0@ == self.entries()[i as int].0,
            r.1@ == self.entries()[i as int].1,
    {
        (&self.devices[i].id, &self.devices[i].device)
    }

    /// The fetch decision for an inbound payload: the remote address the
    /// ephemeral client must connect to, or nothing when the device is
    /// unknown (the fetch then fails).
    pub fn fetch_payload_source(&self, id: &[u8]) -> (r: Option<Vec<u8>>)
        requires
            self.wf(),
        ensures
            match r {
                Some(ip) => self@.devices.dom().contains(id@)
                    && ip@ == self@.devices[id@].remote_ip,
                None => !self@.devices.dom().contains(id@),
            },
    {
        let found = self.outbox_index(id);
        match found {
            Some(i) => {
                let mut ip: Vec<u8> = Vec::new();
                let src = &self.devices[i].device.remote_ip;
                let n: usize = src.len();
                let mut k: usize = 0;
                while k < n
                    invariant
                        n == src@.len(),
                        0 <= k <= n,
                        ip@ =~= src@.subrange(0, k as int),
                    decreases n - k,
                {
                    ip.push(src[k]);
                    k = k + 1;
                }
                proof {
                    assert(ip@ =~= src@);
                }
                Some(ip)
            }
            None => None,
        }
    }
}

/// In a table with unique ids, the index found for a present key is the
/// unique one, so the map agrees with that entry.
proof fn lemma_key_index_unique(devs: Seq<(Seq<u8>, DeviceView)>, id: Seq<u8>, i: int)
    requires
        forall|p: int, q: int| 0 <= p < q < devs.len() ==> devs[p].0 != devs[q].0,
        0 <= i < devs.len(),
        devs[i].0 == id,
    ensures
        index_of_key(devs, id) == i,
        devices_map(devs)[id] == devs[i].1,
{
    assert(has_key(devs, id));
    let j = index_of_key(devs, id);
    assert(0 <= j < devs.len() && devs[j].0 == id);
    if i < j {
        assert(devs[i].0 != devs[j].0);
    } else if j < i {
        assert(devs[j].0 != devs[i].0);
    }
}

/// Updating one entry in place updates exactly that key of the map.
proof fn lemma_map_after_update(devs: Seq<(Seq<u8>, DeviceView)>, i: int, dv: DeviceView)
    requires
        forall|p: int, q: int| 0 <= p < q < devs.len() ==> devs[p].0 != devs[q].0,
        0 <= i < devs.len(),
    ensures
        devices_map(devs.update(i, (devs[i].0, dv))) =~= devices_map(devs).insert(devs[i].0, dv),
{
    let devs2 = devs.update(i, (devs[i].0, dv));
    assert forall|k: Seq<u8>| has_key(devs2, k) == devices_map(devs).insert(devs[i].0, dv)
        .dom().contains(k) by {
        if has_key(devs2, k) {
            let p = choose|p: int| 0 <= p < devs2.len() && devs2[p].0 == k;
            assert(devs[p].0 == k);
            assert(has_key(devs, k));
        }
        if devices_map(devs).insert(devs[i].0, dv).dom().contains(k) {
            if k == devs[i].0 {
                assert(devs2[i].0 == k);
                assert(has_key(devs2, k));
            } else {
                let p = choose|p: int| 0 <= p < devs.len() && devs[p].0 == k;
                assert(devs2[p].0 == k);
                assert(has_key(devs2, k));
            }
        }
    }
    assert forall|k: Seq<u8>| #[trigger] has_key(devs2, k)
        implies devices_map(devs2)[k] == devices_map(devs).insert(devs[i].0, dv)[k] by {
        let p = choose|p: int| 0 <= p < devs2.len() && devs2[p].0 == k;
        assert(forall|a: int, b: int| 0 <= a < b < devs2.len() ==> devs2[a].0 != devs2[b].0);
        lemma_key_index_unique(devs2, k, p);
        if p == i {
            assert(k == devs[i].0);
            assert(devices_map(devs2)[k] == dv);
        } else {
            assert(devs[p].0 == k);
            lemma_key_index_unique(devs, k, p);
            assert(k != devs[i].0);
        }
    }
}

/// Appending a fresh id adds exactly that key to the map.
proof fn lemma_map_after_push(devs: Seq<(Seq<u8>, DeviceView)>, id: Seq<u8>, dv: DeviceView)
    requires
        forall|p: int, q: int| 0 <= p < q < devs.len() ==> devs[p].0 != devs[q].0,
        !has_key(devs, id),
    ensures
        devices_map(devs.push((id, dv))) =~= devices_map(devs).insert(id, dv),
{
    let devs2 = devs.push((id, dv));
    assert(forall|a: int, b: int| 0 <= a < b < devs2.len() ==> devs2[a].0 != devs2[b].0);
    assert forall|k: Seq<u8>| has_key(devs2, k) == devices_map(devs).insert(id, dv)
        .dom().contains(k) by {
        if has_key(devs2, k) {
            let p = choose|p: int| 0 <= p < devs2.len() && devs2[p].0 == k;
            if p < devs.len() {
                assert(has_key(devs, k));
            } else {
                assert(k == id);
            }
        }
        if devices_map(devs).insert(id, dv).dom().contains(k) {
            if k == id {
                assert(devs2[devs.len() as int].0 == k);
                assert(has_key(devs2, k));
            } else {
                let p = choose|p: int| 0 <= p < devs.len() && devs[p].0 == k;
                assert(devs2[p].0 == k);
                assert(has_key(devs2, k));
            }
        }
    }
    assert forall|k: Seq<u8>| #[trigger] has_key(devs2, k)
        implies devices_map(devs2)[k] == devices_map(devs).insert(id, dv)[k] by {
        let p = choose|p: int| 0 <= p < devs2.len() && devs2[p].0 == k;
        lemma_key_index_unique(devs2, k, p);
        if p == devs.len() {
            assert(k == id);
        } else {
            assert(devs[p].0 == k);
            lemma_key_index_unique(devs, k, p);
            assert(k != id);
        }
    }
}

/// Removing one entry removes exactly that key from the map.
proof fn lemma_map_after_remove(devs: Seq<(Seq<u8>, DeviceView)>, i: int)
    requires
        forall|p: int, q: int| 0 <= p < q < devs.len() ==> devs[p].0 != devs[q].0,
        0 <= i < devs.len(),
    ensures
        devices_map(devs.remove(i)) =~= devices_map(devs).remove(devs[i].0),
{
    let devs2 = devs.remove(i);
    assert forall|a: int, b: int| 0 <= a < b < devs2.len() implies devs2[a].0 != devs2[b].0 by {
        let a0 = if a < i { a } else { a + 1 };
        let b0 = if b < i { b } else { b + 1 };
        assert(devs2[a].0 == devs[a0].0);
        assert(devs2[b].0 == devs[b0].0);
    }
    assert forall|k: Seq<u8>| has_key(devs2, k) == devices_map(devs).remove(devs[i].0)
        .dom().contains(k) by {
        if has_key(devs2, k) {
            let p = choose|p: int| 0 <= p < devs2.len() && devs2[p].0 == k;
            let p0 = if p < i { p } else { p + 1 };
            assert(devs[p0].0 == k);
            assert(has_key(devs, k));
            if k == devs[i].0 {
                lemma_key_index_unique(devs, k, p0);
                lemma_key_index_unique(devs, k, i);
            }
        }
        if devices_map(devs).remove(devs[i].0).dom().contains(k) {
            let p = choose|p: int| 0 <= p < devs.len() && devs[p].0 == k;
            assert(p != i);
            let p2 = if p < i { p } else { p - 1 };
            assert(devs2[p2].0 == k);
            assert(has_key(devs2, k));
        }
    }
    assert forall|k: Seq<u8>| #[trigger] has_key(devs2, k)
        implies devices_map(devs2)[k] == devices_map(devs).remove(devs[i].0)[k] by {
        let p = choose|p: int| 0 <= p < devs2.len() && devs2[p].0 == k;
        lemma_key_index_unique(devs2, k, p);
        let p0 = if p < i { p } else { p + 1 };
        assert(devs[p0].0 == k);
        lemma_key_index_unique(devs, k, p0);
    }
}

/// At any quiescent point the device map holds exactly one record per
/// table entry, so no device id is recorded twice, and the published
/// device count equals the size of the map.
pub proof fn lemma_one_record_per_device(m: &DeviceManager)
    requires
        m.wf(),
    ensures
        m@.devices.dom().finite(),
        m@.devices.dom().len() == m@.count,
        m.active_device_count == m@.devices.dom().len(),
        forall|i: int, j: int|
            0 <= i < j < m.entries().len() ==> m.entries()[i].0 != m.entries()[j].0,
{
    lemma_unique_entries_map_len(m.entries());
}

/// Registering a connection stores exactly the freshly drawn connection id
/// in the record for that id, and every later registration draws a larger
/// one: a record's fence token always names the most recent registration.
pub proof fn lemma_add_device_registers_latest(
    v: ManagerView,
    id: Seq<u8>,
    name: Seq<u8>,
    remote_ip: Seq<u8>,
    remote_port: u16,
)
    requires
        v.next_conn_id < u64::MAX,
    ensures
        ({
            let (v2, cid) = spec_add_device(v, id, name, remote_ip, remote_port);
            &&& v2.devices.dom().contains(id)
            &&& v2.devices[id].conn_id == cid
            &&& v2.next_conn_id > cid
            &&& forall|other: Seq<u8>|
                other != id ==> v2.devices.dom().contains(other)
                    == v.devices.dom().contains(other)
            &&& forall|other: Seq<u8>|
                other != id && v.devices.dom().contains(other)
                    ==> v2.devices[other] == v.devices[other]
        }),
{
}

/// A `RemoveDevice` whose connection id is not the current one for that
/// device leaves the device map unchanged.
pub proof fn lemma_stale_remove_is_noop(v: ManagerView, id: Seq<u8>, cid: u64)
    requires
        !(v.devices.dom().contains(id) && v.devices[id].conn_id == cid),
    ensures
        spec_remove_device(v, id, cid) == v,
{
}

/// Reconnect fencing: a second registration for the same id replaces the
/// record in place under a strictly larger connection id; removing with the
/// first id afterwards is a no-op, removing with the second id removes the
/// record.
pub proof fn lemma_reconnect_replaces_then_fences(
    v: ManagerView,
    id: Seq<u8>,
    name1: Seq<u8>,
    ip1: Seq<u8>,
    port1: u16,
    name2: Seq<u8>,
    ip2: Seq<u8>,
    port2: u16,
)
    requires
        v.next_conn_id + 1 < u64::MAX,
    ensures
        ({
            let (v1, c1) = spec_add_device(v, id, name1, ip1, port1);
            let (v2, c2) = spec_add_device(v1, id, name2, ip2, port2);
            &&& c2 > c1
            &&& v2.devices.dom() =~= v1.devices.dom()
            &&& v2.devices[id].conn_id == c2
            &&& spec_remove_device(v2, id, c1) == v2
            &&& spec_remove_device(v2, id, c2).devices =~= v2.devices.remove(id)
            &&& !spec_remove_device(v2, id, c2).devices.dom().contains(id)
        }),
{
    let (v1, c1) = spec_add_device(v, id, name1, ip1, port1);
    let (v2, c2) = spec_add_device(v1, id, name2, ip2, port2);
    assert(v1.devices.dom().contains(id));
    assert(v2.devices.dom() =~= v1.devices.dom());
}

/// A table with unique ids induces a map with one record per entry.
proof fn lemma_unique_entries_map_len(devs: Seq<(Seq<u8>, DeviceView)>)
    requires
        forall|p: int, q: int| 0 <= p < q < devs.len() ==> devs[p].0 != devs[q].0,
    ensures
        devices_map(devs).dom().len() == devs.len(),
        devices_map(devs).dom().finite(),
    decreases devs.len(),
{
    if devs.len() == 0 {
        assert(devices_map(devs).dom() =~= Set::<Seq<u8>>::empty());
    } else {
        let front = devs.drop_last();
        let last = devs.last();
        lemma_unique_entries_map_len(front);
        assert(!has_key(front, last.0)) by {
            if has_key(front, last.0) {
                let p = choose|p: int| 0 <= p < front.len() && front[p].0 == last.0;
                assert(devs[p].0 == devs[devs.len() - 1].0);
            }
        }
        lemma_map_after_push(front, last.0, last.1);
        assert(front.push(last) =~= devs);
        assert(devices_map(devs) =~= devices_map(front).insert(last.0, last.1));
        assert(devices_map(devs).dom() =~= devices_map(front).dom().insert(last.0));
        vstd::set::axiom_set_insert_len(devices_map(front).dom(), last.0);
    }
}

} // verus!
