//! The server's registry of connected clients, keyed by a peer number that
//! the caller derives from the peer's address.

use crate::server::CLIENT_TIMEOUT_MS;
use crate::text::bytes_eq;
use dashmap::DashMap;
use vstd::prelude::*;

verus! {

/// `dashmap::DashMap`, carried as an opaque value; what it holds goes by
/// the name [`registered`].
#[verifier::external_type_specification]
#[verifier::external_body]
#[verifier::reject_recursive_types(K)]
#[verifier::reject_recursive_types(V)]
#[verifier::reject_recursive_types(S)]
pub struct ExDashMap<K, V, S>(DashMap<K, V, S>);

/// One registered client.
#[derive(Clone, Debug)]
pub struct ClientInfo {
    /// The peer number the client is registered under.
    pub addr: u64,
    /// The session key the client was greeted with.
    pub key: Vec<u8>,
    /// When the client was last heard, in milliseconds.
    pub last_seen_ms: u64,
    /// A per-client datagram port; carried, never set by the protocol.
    pub udp_port: Option<u16>,
}

/// A registry entry as plain values.
pub struct ClientView {
    pub addr: u64,
    pub key: Seq<u8>,
    pub last_seen_ms: u64,
    pub udp_port: Option<u16>,
}

impl View for ClientInfo {
    type V = ClientView;

    open spec fn view(&self) -> ClientView {
        ClientView {
            addr: self.addr,
            key: self.key@,
            last_seen_ms: self.last_seen_ms,
            udp_port: self.udp_port,
        }
    }
}

/// The entries that a map holds, by peer number.
pub uninterp spec fn registered(held: DashMap<u64, ClientInfo>) -> Map<u64, ClientView>;

/// Calls `DashMap::new`. Trusted: the map holds nothing.
#[verifier::external_body]
fn map_new() -> (made: DashMap<u64, ClientInfo>)
    ensures
        registered(made) == (Map::<u64, ClientView>::empty()),
{
    DashMap::new()
}

/// Calls `DashMap::insert`. Trusted: the entry is set, replacing an
/// earlier one under the same number.
#[verifier::external_body]
fn map_insert(held: &mut DashMap<u64, ClientInfo>, id: u64, info: ClientInfo)
    ensures
        registered(*final(held)) == registered(*old(held)).insert(id, info@),
{
    held.insert(id, info);
}

/// Calls `DashMap::remove`. Trusted: the entry under `id`, if any, is gone
/// and the others stay.
#[verifier::external_body]
fn map_remove(held: &mut DashMap<u64, ClientInfo>, id: u64)
    ensures
        registered(*final(held)) == registered(*old(held)).remove(id),
{
    held.remove(&id);
}

/// Calls `DashMap::get` and copies the entry out. Trusted: the copy is the
/// entry under `id`, and `None` means there is none.
#[verifier::external_body]
fn map_get(held: &DashMap<u64, ClientInfo>, id: u64) -> (info: Option<ClientInfo>)
    ensures
        match info {
            Some(i) => registered(*held).contains_key(id) && registered(*held)[id] == i@,
            None => !registered(*held).contains_key(id),
        },
{
    held.get(&id).map(|entry| entry.value().clone())
}

/// Calls `DashMap::iter` and collects the keys. Trusted: every registered
/// number comes back once, in no particular order.
#[verifier::external_body]
fn map_ids(held: &DashMap<u64, ClientInfo>) -> (ids: Vec<u64>)
    ensures
        forall|id: u64| ids@.contains(id) <==> registered(*held).contains_key(id),
        forall|i: int, j: int| 0 <= i < j < ids@.len() ==> ids@[i] != ids@[j],
{
    held.iter().map(|entry| *entry.key()).collect()
}

/// Whether a client last heard at `last_seen_ms` has been silent for more
/// than five seconds at `now_ms`.
pub open spec fn spec_stale(last_seen_ms: u64, now_ms: u64) -> bool {
    now_ms - last_seen_ms > CLIENT_TIMEOUT_MS
}

/// The entries after a heartbeat with `key` from peer `id` at `now_ms`: a
/// registered peer with that key is marked as heard, anything else changes
/// nothing.
pub open spec fn spec_heartbeat(
    entries: Map<u64, ClientView>,
    id: u64,
    key: Seq<u8>,
    now_ms: u64,
) -> Map<u64, ClientView> {
    if entries.contains_key(id) && entries[id].key == key {
        entries.insert(id, ClientView { last_seen_ms: now_ms, ..entries[id] })
    } else {
        entries
    }
}

/// Whether a heartbeat with `key` from peer `id` is acknowledged.
pub open spec fn spec_heartbeat_ok(entries: Map<u64, ClientView>, id: u64, key: Seq<u8>) -> bool {
    entries.contains_key(id) && entries[id].key == key
}

/// The entries that are not stale at `now_ms`.
pub open spec fn spec_fresh(entries: Map<u64, ClientView>, now_ms: u64) -> Map<u64, ClientView> {
    Map::new(
        |id: u64| entries.contains_key(id) && !spec_stale(entries[id].last_seen_ms, now_ms),
        |id: u64| entries[id],
    )
}

/// The registry of connected clients.
pub struct ClientRegistry {
    map: DashMap<u64, ClientInfo>,
}

impl ClientRegistry {
    /// The registered clients, by peer number.
    pub closed spec fn entries(&self) -> Map<u64, ClientView> {
        registered(self.map)
    }

    /// Whether every entry is filed under its own peer number.
    pub closed spec fn wf(&self) -> bool {
        forall|id: u64| #[trigger]
            registered(self.map).contains_key(id) ==> registered(self.map)[id].addr == id
    }

    /// An empty registry.
    pub fn new() -> (registry: ClientRegistry)
        ensures
            registry.wf(),
            registry.entries() == (Map::<u64, ClientView>::empty()),
    {
        ClientRegistry { map: map_new() }
    }

    /// Registers the peer `id`, greeted with `key` at `now_ms`, replacing
    /// an earlier registration under the same number.
    pub fn register(&mut self, id: u64, key: Vec<u8>, now_ms: u64)
        requires
            old(self).wf(),
        ensures
            final(self).wf(),
            final(self).entries() == old(self).entries().insert(
                id,
                ClientView { addr: id, key: key@, last_seen_ms: now_ms, udp_port: None },
            ),
    {
        map_insert(&mut self.map, id, ClientInfo { addr: id, key, last_seen_ms: now_ms, udp_port: None });
    }

    /// Takes in a heartbeat from peer `id`. Returns whether it is
    /// acknowledged: the peer is registered and `key` is its key.
    pub fn heartbeat(&mut self, id: u64, key: &[u8], now_ms: u64) -> (ok: bool)
        requires
            old(self).wf(),
        ensures
            final(self).wf(),
            ok == spec_heartbeat_ok(old(self).entries(), id, key@),
            final(self).entries() == spec_heartbeat(old(self).entries(), id, key@, now_ms),
    {
        match map_get(&self.map, id) {
            Some(info) => {
                if bytes_eq(info.key.as_slice(), key) {
                    let heard = ClientInfo {
                        addr: info.addr,
                        key: info.key,
                        last_seen_ms: now_ms,
                        udp_port: info.udp_port,
                    };
                    map_insert(&mut self.map, id, heard);
                    true
                } else {
                    false
                }
            },
            None => false,
        }
    }

    /// Drops the peer `id`.
    pub fn remove(&mut self, id: u64)
        requires
            old(self).wf(),
        ensures
            final(self).wf(),
            final(self).entries() == old(self).entries().remove(id),
    {
        map_remove(&mut self.map, id);
    }

    /// Looks up the peer `id`.
    pub fn get(&self, id: u64) -> (info: Option<ClientInfo>)
        ensures
            match info {
                Some(i) => self.entries().contains_key(id) && self.entries()[id] == i@,
                None => !self.entries().contains_key(id),
            },
    {
        map_get(&self.map, id)
    }

    /// Drops every client that has been silent for more than five seconds.
    pub fn evict_stale(&mut self, now_ms: u64)
        requires
            old(self).wf(),
        ensures
            final(self).wf(),
            final(self).entries() == spec_fresh(old(self).entries(), now_ms),
    {
        let ids = map_ids(&self.map);
        let ghost before = self.entries();
        let mut i: usize = 0;
        while i < ids.len()
            invariant
                i <= ids@.len(),
                forall|id: u64| ids@.contains(id) <==> before.contains_key(id),
                forall|a: int, b: int| 0 <= a < b < ids@.len() ==> ids@[a] != ids@[b],
                forall|id: u64| #[trigger]
                    self.entries().contains_key(id) <==> before.contains_key(id) && !(exists|
                        j: int,
                    |
                        0 <= j < i && ids@[j] == id && spec_stale(before[id].last_seen_ms, now_ms)),
                forall|id: u64| #[trigger]
                    self.entries().contains_key(id) ==> self.entries()[id] == before[id],
            decreases ids@.len() - i,
        {
            let id: u64 = ids[i];
            assert(ids@.contains(id));
            let ghost held = self.entries();
            assert(held.contains_key(id)) by {
                assert forall|j: int| 0 <= j < i implies ids@[j] != id by {}
            }
            match map_get(&self.map, id) {
                Some(info) => {
                    if now_ms > info.last_seen_ms && now_ms - info.last_seen_ms > CLIENT_TIMEOUT_MS {
                        map_remove(&mut self.map, id);
                        assert forall|k: u64| #[trigger]
                            self.entries().contains_key(k) <==> before.contains_key(k) && !(exists|
                                j: int,
                            |
                                0 <= j < i + 1 && ids@[j] == k && spec_stale(
                                    before[k].last_seen_ms,
                                    now_ms,
                                )) by {
                            if k == id {
                                assert(ids@[i as int] == k);
                            } else if held.contains_key(k) {
                            }
                        }
                    } else {
                        assert forall|k: u64| #[trigger]
                            self.entries().contains_key(k) <==> before.contains_key(k) && !(exists|
                                j: int,
                            |
                                0 <= j < i + 1 && ids@[j] == k && spec_stale(
                                    before[k].last_seen_ms,
                                    now_ms,
                                )) by {}
                    }
                },
                None => {},
            }
            i += 1;
        }
        assert forall|id: u64| #[trigger]
            self.entries().contains_key(id) <==> spec_fresh(before, now_ms).contains_key(id) by {
            if before.contains_key(id) {
                assert(ids@.contains(id));
                let j = choose|j: int| 0 <= j < ids@.len() && ids@[j] == id;
                assert(ids@[j] == id);
            }
        }
        assert(self.entries() =~= spec_fresh(before, now_ms));
    }

    /// The registered clients, each once, in no particular order.
    pub fn clients(&self) -> (list: Vec<ClientInfo>)
        requires
            self.wf(),
        ensures
            forall|i: int|
                0 <= i < list@.len() ==> self.entries().contains_key((#[trigger] list@[i]).addr)
                    && self.entries()[list@[i].addr] == list@[i]@,
            forall|i: int, j: int| 0 <= i < j < list@.len() ==> list@[i].addr != list@[j].addr,
            forall|id: u64|
                self.entries().contains_key(id) ==> exists|i: int|
                    0 <= i < list@.len() && (#[trigger] list@[i]).addr == id,
    {
        let ids = map_ids(&self.map);
        let mut list: Vec<ClientInfo> = Vec::new();
        let mut i: usize = 0;
        while i < ids.len()
            invariant
                i <= ids@.len(),
                self.wf(),
                list@.len() == i,
                forall|id: u64| ids@.contains(id) <==> self.entries().contains_key(id),
                forall|a: int, b: int| 0 <= a < b < ids@.len() ==> ids@[a] != ids@[b],
                forall|k: int| 0 <= k < i ==> (#[trigger] list@[k]).addr == ids@[k],
                forall|k: int|
                    0 <= k < i ==> self.entries().contains_key((#[trigger] list@[k]).addr)
                        && self.entries()[list@[k].addr] == list@[k]@,
            decreases ids@.len() - i,
        {
            assert(ids@.contains(ids@[i as int]));
            match map_get(&self.map, ids[i]) {
                Some(info) => {
                    list.push(info);
                },
                None => {},
            }
            i += 1;
        }
        assert forall|id: u64| self.entries().contains_key(id) implies exists|k: int|
            0 <= k < list@.len() && (#[trigger] list@[k]).addr == id by {
            assert(ids@.contains(id));
            let k = choose|k: int| 0 <= k < ids@.len() && ids@[k] == id;
            assert(list@[k].addr == id);
        }
        list
    }
}

} // verus!
