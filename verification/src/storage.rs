//! The node's shared state: identity, peer registry, keyed broadcast
//! store with per-peer pending sets, grow-only counter and id generator.
//! The standing invariant ties them together: every pending key refers to
//! a stored value, stored values are distinct, and store keys never pass
//! the id generator.

use vstd::prelude::*;

use crate::commands::BroadcastCommand;
use crate::g_counter::{GCounter, PendingRequest, ReadWaiter};
use crate::neighbors::{
    online_nodes, offline_nodes, spec_update_status, sweep_statuses, update_statuses, NodeStatus,
};
use crate::snowflake::{Snowflake, CUSTOM_EPOCH, MAX_TIMESTAMP};
use crate::vecutil::{
    add_to_list, has_str_key, has_u64_key, in_list, lemma_str_key_at, lemma_u64_key_at,
    lemma_u64_push_frame, list_wf, remove_from_list, retain_named, seq_has_name, str_key_find,
    str_key_opt, str_key_val, str_keys_unique, u64_key_find, u64_key_opt, u64_key_val,
    u64_keys_unique,
};

verus! {

/// Whether some stored entry carries the broadcast value `v`.
pub open spec fn stores_value(values: Seq<(u64, (String, u64))>, v: u64) -> bool {
    exists|i: int| 0 <= i < values.len() && #[trigger] values[i].1.1 == v
}

/// Every key in every pending set refers to a stored entry.
pub open spec fn pending_ok(
    pending: Seq<(String, Vec<u64>)>,
    values: Seq<(u64, (String, u64))>,
) -> bool {
    forall|i: int, j: int|
        0 <= i < pending.len() && 0 <= j < pending[i].1@.len() ==> has_u64_key(
            values,
            #[trigger] pending[i].1@[j],
        )
}

/// The node's state.
pub struct Storage {
    pub node_id: Option<String>,
    pub workload: Option<String>,
    pub snowflake: Snowflake,
    pub node_status: Vec<(String, NodeStatus)>,
    pub values: Vec<(u64, (String, u64))>,
    pub peer_pending: Vec<(String, Vec<u64>)>,
    pub g_counter: GCounter,
}

impl Storage {
    /// The standing invariant over all components.
    pub open spec fn wf(self) -> bool {
        &&& self.snowflake.wf()
        &&& str_keys_unique(self.node_status@)
        &&& u64_keys_unique(self.values@)
        &&& list_wf(self.peer_pending@)
        &&& self.g_counter.wf()
        &&& (forall|i: int, j: int|
            0 <= i < j < self.values@.len() ==> self.values@[i].1.1 != self.values@[j].1.1)
        &&& pending_ok(self.peer_pending@, self.values@)
        &&& (self.values@.len() > 0 ==> self.snowflake.last_ts != 0)
        &&& (forall|i: int| 0 <= i < self.values@.len() ==> (#[trigger] self.values@[i].0 as int)
            <= self.snowflake.last_id())
    }

    /// A fresh node with no identity, no peers and nothing stored.
    pub fn new() -> (s: Storage)
        ensures
            s.wf(),
            s.node_id is None,
            s.workload is None,
            s.node_status@ == Seq::<(String, NodeStatus)>::empty(),
            s.values@ == Seq::<(u64, (String, u64))>::empty(),
            s.peer_pending@ == Seq::<(String, Vec<u64>)>::empty(),
            s.g_counter.data@ == Seq::<(String, u64)>::empty(),
            s.g_counter.pending@ == Seq::<(u64, PendingRequest)>::empty(),
            s.g_counter.watchers@ == Seq::<(u64, ReadWaiter)>::empty(),
            s.snowflake.last_ts == 0,
    {
        Storage {
            node_id: None,
            workload: None,
            snowflake: Snowflake::new(),
            node_status: Vec::new(),
            values: Vec::new(),
            peer_pending: Vec::new(),
            g_counter: GCounter::new(),
        }
    }

    /// Record the node's identity, assigned by the first `init`, and let
    /// the id generator adopt the identity bits hashed from the name.
    pub fn set_id(&mut self, id: &str)
        requires
            old(self).wf(),
        ensures
            final(self).wf(),
            *final(self) == (Storage {
                node_id: Option::Some(final(self).node_id->0),
                snowflake: final(self).snowflake,
                ..*old(self)
            }),
            final(self).node_id matches Option::Some(s) && s@ == id@,
            final(self).snowflake.last_ts == old(self).snowflake.last_ts,
            final(self).snowflake.sequence == old(self).snowflake.sequence,
            final(self).snowflake.node_id == (if old(self).snowflake.last_ts == 0 {
                crate::snowflake::node_bits_of(id@)
            } else {
                old(self).snowflake.node_id
            }),
    {
        self.node_id = Some(id.to_owned());
        self.snowflake.adopt_node_bits(id);
    }

    /// The node's identity; callers wait for `init` before using it.
    pub fn get_node_id(&self) -> (r: String)
        requires
            self.node_id is Some,
        ensures
            r@ == self.node_id->0@,
    {
        self.node_id.as_ref().unwrap().clone()
    }

    /// Emit a fresh id from the node's generator.
    pub fn next_id(&mut self, now: u64) -> (r: u64)
        requires
            old(self).wf(),
            CUSTOM_EPOCH <= now <= MAX_TIMESTAMP,
        ensures
            final(self).wf(),
            *final(self) == (Storage { snowflake: final(self).snowflake, ..*old(self) }),
            r as int == final(self).snowflake.last_id(),
            old(self).snowflake.last_ts != 0 && !old(self).snowflake.saturated()
                ==> r as int > old(self).snowflake.last_id(),
    {
        let r = self.snowflake.next_id(now);
        r
    }

    /// A snapshot of the stored broadcast values, in insertion order,
    /// each value exactly once.
    pub fn values(&self) -> (r: Vec<u64>)
        requires
            self.wf(),
        ensures
            r@.len() == self.values@.len(),
            forall|i: int| 0 <= i < r@.len() ==> r@[i] == self.values@[i].1.1,
            r@.no_duplicates(),
    {
        let n = self.values.len();
        let mut r: Vec<u64> = Vec::new();
        let mut i: usize = 0;
        while i < n
            invariant
                i <= n,
                n == self.values@.len(),
                self.wf(),
                r@.len() == i,
                forall|j: int| 0 <= j < i ==> r@[j] == self.values@[j].1.1,
            decreases n - i,
        {
            r.push(self.values[i].1 .1);
            i = i + 1;
        }
        assert forall|p: int, q: int| 0 <= p < q < r@.len() implies r@[p] != r@[q] by {
            assert(self.values@[p].1.1 != self.values@[q].1.1);
        }
        r
    }

    /// Whether the broadcast value `v` has been observed.
    pub fn contains_value(&self, v: u64) -> (r: bool)
        ensures
            r == stores_value(self.values@, v),
    {
        let n = self.values.len();
        let mut i: usize = 0;
        while i < n
            invariant
                i <= n,
                n == self.values@.len(),
                forall|j: int| 0 <= j < i ==> self.values@[j].1.1 != v,
            decreases n - i,
        {
            if self.values[i].1 .1 == v {
                assert(stores_value(self.values@, v));
                return true;
            }
            i = i + 1;
        }
        false
    }

    /// The names of the peers currently Online.
    pub fn online_nodes(&self) -> (r: Vec<String>)
        ensures
            forall|i: int| 0 <= i < r@.len() ==> crate::neighbors::name_is_online(
                self.node_status@,
                #[trigger] r@[i]@,
            ),
            forall|j: int| 0 <= j < self.node_status@.len() && self.node_status@[j].1 is Online
                ==> seq_has_name(r@, #[trigger] self.node_status@[j].0@),
            self.wf() ==> (forall|p: int, q: int| 0 <= p < q < r@.len() ==> r@[p]@ != r@[q]@),
    {
        online_nodes(&self.node_status)
    }

    /// The names of the peers currently Offline.
    pub fn offline_nodes(&self) -> (r: Vec<String>)
        ensures
            forall|i: int| 0 <= i < r@.len() ==> crate::neighbors::name_is_offline(
                self.node_status@,
                #[trigger] r@[i]@,
            ),
            forall|j: int| 0 <= j < self.node_status@.len() && self.node_status@[j].1 is Offline
                ==> seq_has_name(r@, #[trigger] self.node_status@[j].0@),
            self.wf() ==> (forall|p: int, q: int| 0 <= p < q < r@.len() ==> r@[p]@ != r@[q]@),
    {
        offline_nodes(&self.node_status)
    }

    /// Sweep the registry: every Online peer not seen for more than
    /// 30 000 ms becomes Offline. Afterwards every Online timestamp lies
    /// within the staleness window of `now`.
    pub fn update_node_states(&mut self, now: u64)
        requires
            old(self).wf(),
        ensures
            final(self).wf(),
            *final(self) == (Storage { node_status: final(self).node_status, ..*old(self) }),
            final(self).node_status@.len() == old(self).node_status@.len(),
            forall|j: int| 0 <= j < old(self).node_status@.len()
                ==> #[trigger] final(self).node_status@[j].0 == old(self).node_status@[j].0
                && final(self).node_status@[j].1 == (
            match old(self).node_status@[j].1 {
                NodeStatus::Online(t) => if now > t + 30000 {
                    NodeStatus::Offline(now)
                } else {
                    NodeStatus::Online(t)
                },
                s => s,
            }),
            forall|j: int| 0 <= j < final(self).node_status@.len()
                && #[trigger] final(self).node_status@[j].1 is Online
                ==> now <= final(self).node_status@[j].1->Online_0 + 30000
                || final(self).node_status@[j].1->Online_0 > now,
    {
        sweep_statuses(&mut self.node_status, now);
    }
}

/// Re-establishing the pending invariant: if every membership in the new
/// pending sets was already present or refers to a key of the new store,
/// and every old store key survives, the invariant carries over.
proof fn lemma_pending_ok_step(
    p1: Seq<(String, Vec<u64>)>,
    p2: Seq<(String, Vec<u64>)>,
    v1: Seq<(u64, (String, u64))>,
    v2: Seq<(u64, (String, u64))>,
)
    requires
        list_wf(p2),
        pending_ok(p1, v1),
        forall|n: Seq<char>, v: u64| #[trigger] in_list(p2, n, v) ==> in_list(p1, n, v)
            || has_u64_key(v2, v),
        forall|key: u64| has_u64_key(v1, key) ==> #[trigger] has_u64_key(v2, key),
    ensures
        pending_ok(p2, v2),
{
    assert forall|i: int, j: int|
        0 <= i < p2.len() && 0 <= j < p2[i].1@.len() implies has_u64_key(
        v2,
        #[trigger] p2[i].1@[j],
    ) by {
        let v = p2[i].1@[j];
        lemma_str_key_at(p2, p2[i].0@, i);
        assert(p2[i].1@.contains(v));
        assert(in_list(p2, p2[i].0@, v));
        if !has_u64_key(v2, v) {
            assert(in_list(p1, p2[i].0@, v));
            let q = crate::vecutil::str_key_idx(p1, p2[i].0@);
            lemma_str_key_at(p1, p2[i].0@, q);
            let jj = choose|jj: int| 0 <= jj < p1[q].1@.len() && p1[q].1@[jj] == v;
            assert(has_u64_key(v1, p1[q].1@[jj]));
        }
    }
}

impl Storage {
    /// Insert a broadcast value heard from `src`: a fresh store key is
    /// allocated and added to the pending set of every known peer except
    /// the originator. Returns true iff the value was new; a duplicate
    /// leaves the state untouched.
    pub fn update_values(&mut self, src: &String, message: u64, now: u64) -> (fresh: bool)
        requires
            old(self).wf(),
            CUSTOM_EPOCH <= now <= MAX_TIMESTAMP,
            !old(self).snowflake.saturated(),
        ensures
            final(self).wf(),
            fresh == !stores_value(old(self).values@, message),
            !fresh ==> *final(self) == *old(self),
            fresh ==> ({
                &&& final(self).values@.len() == old(self).values@.len() + 1
                &&& final(self).values@.drop_last() == old(self).values@
                &&& final(self).values@.last().1.1 == message
                &&& final(self).values@.last().1.0@ == src@
                &&& final(self).node_id == old(self).node_id
                &&& final(self).workload == old(self).workload
                &&& final(self).node_status == old(self).node_status
                &&& final(self).g_counter == old(self).g_counter
                &&& (forall|p: int|
                    0 <= p < final(self).node_status@.len() && final(self).node_status@[p].0@
                        != src@ ==> in_list(
                        final(self).peer_pending@,
                        #[trigger] final(self).node_status@[p].0@,
                        final(self).values@.last().0,
                    ))
                &&& (forall|n: Seq<char>, v: u64|
                    v != final(self).values@.last().0 ==> #[trigger] in_list(
                        final(self).peer_pending@,
                        n,
                        v,
                    ) == in_list(old(self).peer_pending@, n, v))
                &&& (forall|n: Seq<char>| #[trigger] in_list(
                    final(self).peer_pending@,
                    n,
                    final(self).values@.last().0,
                ) ==> has_str_key(final(self).node_status@, n) && n != src@)
            }),
    {
        if self.contains_value(message) {
            return false;
        }
        let ghost vb = self.values@;
        let key = self.snowflake.next_id(now);
        proof {
            assert forall|i: int| 0 <= i < vb.len() implies vb[i].0 != key by {
                assert(vb[i].0 as int <= old(self).snowflake.last_id());
            }
            assert(!has_u64_key(vb, key)) by {
                if has_u64_key(vb, key) {
                    let i = crate::vecutil::u64_key_idx(vb, key);
                    lemma_u64_key_at(vb, key, i);
                }
            }
        }
        self.values.push((key, (src.clone(), message)));
        proof {
            lemma_u64_push_frame(vb, key, self.values@.last().1);
            assert(self.values@ =~= vb.push((key, self.values@.last().1)));
        }
        let ghost v2 = self.values@;
        let ghost sf = self.snowflake;
        let ghost p0 = self.peer_pending@;
        proof {
            assert forall|n: Seq<char>| !in_list(p0, n, key) by {
                if in_list(p0, n, key) {
                    let q = crate::vecutil::str_key_idx(p0, n);
                    lemma_str_key_at(p0, n, q);
                    let jj = choose|jj: int| 0 <= jj < p0[q].1@.len() && p0[q].1@[jj] == key;
                    assert(has_u64_key(vb, p0[q].1@[jj]));
                }
            }
        }
        let m = self.node_status.len();
        let mut i: usize = 0;
        while i < m
            invariant
                i <= m,
                m == self.node_status@.len(),
                self.node_status == old(self).node_status,
                self.node_id == old(self).node_id,
                self.workload == old(self).workload,
                self.g_counter == old(self).g_counter,
                self.snowflake == sf,
                self.values@ == v2,
                list_wf(self.peer_pending@),
                forall|n: Seq<char>, v: u64| v != key ==> #[trigger] in_list(
                    self.peer_pending@,
                    n,
                    v,
                ) == in_list(p0, n, v),
                forall|n: Seq<char>, v: u64| #[trigger] in_list(self.peer_pending@, n, v)
                    ==> in_list(p0, n, v) || v == key,
                forall|p: int| 0 <= p < i && self.node_status@[p].0@ != src@ ==> in_list(
                    self.peer_pending@,
                    #[trigger] self.node_status@[p].0@,
                    key,
                ),
                forall|n: Seq<char>| #[trigger] in_list(self.peer_pending@, n, key)
                    ==> has_str_key(self.node_status@, n) && n != src@,
            decreases m - i,
        {
            let name: &String = &self.node_status[i].0;
            if !src.eq(name) {
                let ghost pb = self.peer_pending@;
                add_to_list(&mut self.peer_pending, name, key);
                proof {
                    assert forall|n: Seq<char>, v: u64| v != key implies #[trigger] in_list(
                        self.peer_pending@,
                        n,
                        v,
                    ) == in_list(p0, n, v) by {
                        assert(in_list(self.peer_pending@, n, v) == in_list(pb, n, v));
                    }
                    assert forall|n: Seq<char>, v: u64| #[trigger] in_list(
                        self.peer_pending@,
                        n,
                        v,
                    ) implies in_list(p0, n, v) || v == key by {
                        if v != key {
                            assert(in_list(pb, n, v));
                        }
                    }
                    assert forall|n: Seq<char>| #[trigger] in_list(
                        self.peer_pending@,
                        n,
                        key,
                    ) implies has_str_key(self.node_status@, n) && n != src@ by {
                        if n == name@ {
                            assert(self.node_status@[i as int].0@ == n);
                            assert(has_str_key(self.node_status@, n));
                        } else {
                            assert(in_list(pb, n, key));
                        }
                    }
                    assert forall|p: int|
                        0 <= p < i + 1 && self.node_status@[p].0@ != src@ implies in_list(
                        self.peer_pending@,
                        #[trigger] self.node_status@[p].0@,
                        key,
                    ) by {
                        if p < i {
                            assert(in_list(pb, self.node_status@[p].0@, key));
                            if !(self.node_status@[p].0@ == name@) {
                                assert(in_list(self.peer_pending@, self.node_status@[p].0@, key)
                                    == in_list(pb, self.node_status@[p].0@, key));
                            }
                        }
                    }
                }
            }
            i = i + 1;
        }
        proof {
            assert forall|k2: u64| has_u64_key(vb, k2) implies has_u64_key(
                self.values@,
                k2,
            ) by {
                let q = crate::vecutil::u64_key_idx(vb, k2);
                lemma_u64_key_at(vb, k2, q);
                assert(self.values@[q].0 == k2);
            }
            lemma_pending_ok_step(p0, self.peer_pending@, vb, self.values@);
            assert forall|a: int, b: int| 0 <= a < b < self.values@.len() implies self.values@[a].1.1
                != self.values@[b].1.1 by {
                if b == vb.len() {
                    assert(self.values@[a] == vb[a]);
                    if vb[a].1.1 == message {
                        assert(stores_value(vb, message));
                    }
                }
            }
        }
        true
    }

    /// Record a peer's acknowledgment of the store key `key`: the key
    /// leaves the peer's pending set and the peer counts as seen now. A
    /// peer coming back from Offline gets its pending set reseeded with
    /// every store key, so it catches up on everything it may have
    /// missed.
    pub fn remove_from_peer_pending(&mut self, node: &String, key: u64, now: u64)
        requires
            old(self).wf(),
        ensures
            final(self).wf(),
            final(self).node_id == old(self).node_id,
            final(self).workload == old(self).workload,
            final(self).snowflake == old(self).snowflake,
            final(self).values == old(self).values,
            final(self).g_counter == old(self).g_counter,
            str_key_opt(final(self).node_status@, node@) == (match str_key_opt(
                old(self).node_status@,
                node@,
            ) {
                Option::None => Option::None,
                Option::Some(_) => Option::Some(NodeStatus::Online(now)),
            }),
            forall|k: Seq<char>| k != node@ ==> #[trigger] str_key_opt(final(self).node_status@, k)
                == str_key_opt(old(self).node_status@, k),
            !(str_key_opt(old(self).node_status@, node@) matches Option::Some(
                NodeStatus::Offline(_),
            )) ==> forall|n: Seq<char>, v: u64| #[trigger] in_list(final(self).peer_pending@, n, v)
                == (in_list(old(self).peer_pending@, n, v) && !(n == node@ && v == key)),
            (str_key_opt(old(self).node_status@, node@) matches Option::Some(
                NodeStatus::Offline(_),
            )) ==> (forall|n: Seq<char>, v: u64| n != node@ ==> #[trigger] in_list(
                final(self).peer_pending@,
                n,
                v,
            ) == in_list(old(self).peer_pending@, n, v)) && (forall|v: u64| #[trigger] in_list(
                final(self).peer_pending@,
                node@,
                v,
            ) == (has_u64_key(old(self).values@, v) || (in_list(old(self).peer_pending@, node@, v)
                && v != key))),
    {
        remove_from_list(&mut self.peer_pending, node, key);
        let ghost p1 = self.peer_pending@;
        match str_key_find(&self.node_status, node) {
            None => {
                proof {
                    assert forall|n: Seq<char>, v: u64| #[trigger] in_list(
                        self.peer_pending@,
                        n,
                        v,
                    ) implies in_list(old(self).peer_pending@, n, v) || has_u64_key(
                        self.values@,
                        v,
                    ) by {
                        if !(n == node@ && v == key) {
                            assert(in_list(old(self).peer_pending@, n, v));
                        }
                    }
                    lemma_pending_ok_step(
                        old(self).peer_pending@,
                        self.peer_pending@,
                        old(self).values@,
                        self.values@,
                    );
                }
            },
            Some(si) => {
                proof {
                    lemma_str_key_at(self.node_status@, node@, si as int);
                    crate::vecutil::lemma_str_update_frame(
                        self.node_status@,
                        si as int,
                        NodeStatus::Online(now),
                    );
                }
                let was_offline = matches!(self.node_status[si].1, NodeStatus::Offline(_));
                self.node_status[si].1 = NodeStatus::Online(now);
                let ghost ns1 = self.node_status@;
                if was_offline {
                    let vn = self.values.len();
                    let mut i: usize = 0;
                    while i < vn
                        invariant
                            i <= vn,
                            vn == self.values@.len(),
                            self.node_status@ == ns1,
                            self.node_id == old(self).node_id,
                            self.workload == old(self).workload,
                            self.snowflake == old(self).snowflake,
                            self.values == old(self).values,
                            self.g_counter == old(self).g_counter,
                            list_wf(self.peer_pending@),
                            forall|n: Seq<char>, v: u64| n != node@ ==> #[trigger] in_list(
                                self.peer_pending@,
                                n,
                                v,
                            ) == in_list(p1, n, v),
                            forall|v: u64| in_list(p1, node@, v) ==> #[trigger] in_list(
                                self.peer_pending@,
                                node@,
                                v,
                            ),
                            forall|v: u64| #[trigger] in_list(self.peer_pending@, node@, v)
                                ==> in_list(p1, node@, v) || (exists|q: int|
                                0 <= q < i && #[trigger] self.values@[q].0 == v),
                            forall|q: int| 0 <= q < i ==> in_list(
                                self.peer_pending@,
                                node@,
                                #[trigger] self.values@[q].0,
                            ),
                        decreases vn - i,
                    {
                        let k2 = self.values[i].0;
                        let ghost pb = self.peer_pending@;
                        add_to_list(&mut self.peer_pending, node, k2);
                        proof {
                            assert forall|n: Seq<char>, v: u64| n != node@ implies #[trigger] in_list(
                                self.peer_pending@,
                                n,
                                v,
                            ) == in_list(p1, n, v) by {
                                assert(in_list(self.peer_pending@, n, v) == in_list(pb, n, v));
                            }
                            assert forall|v: u64| in_list(p1, node@, v) implies #[trigger] in_list(
                                self.peer_pending@,
                                node@,
                                v,
                            ) by {
                                if v != k2 {
                                    assert(in_list(self.peer_pending@, node@, v) == in_list(
                                        pb,
                                        node@,
                                        v,
                                    ));
                                }
                            }
                            assert forall|v: u64| #[trigger] in_list(
                                self.peer_pending@,
                                node@,
                                v,
                            ) implies in_list(p1, node@, v) || (exists|q: int|
                                0 <= q < i + 1 && #[trigger] self.values@[q].0 == v) by {
                                if v == k2 {
                                    assert(self.values@[i as int].0 == v);
                                } else {
                                    assert(in_list(pb, node@, v));
                                }
                            }
                            assert forall|q: int| 0 <= q < i + 1 implies in_list(
                                self.peer_pending@,
                                node@,
                                #[trigger] self.values@[q].0,
                            ) by {
                                if q < i {
                                    if self.values@[q].0 != k2 {
                                        assert(in_list(pb, node@, self.values@[q].0));
                                    }
                                }
                            }
                        }
                        i = i + 1;
                    }
                    proof {
                        assert forall|v: u64| #[trigger] in_list(
                            self.peer_pending@,
                            node@,
                            v,
                        ) implies (has_u64_key(old(self).values@, v) || (in_list(
                            old(self).peer_pending@,
                            node@,
                            v,
                        ) && v != key)) by {
                            if in_list(p1, node@, v) {
                                assert(in_list(old(self).peer_pending@, node@, v) && v != key);
                            } else {
                                let q = choose|q: int|
                                    0 <= q < vn && #[trigger] self.values@[q].0 == v;
                                lemma_u64_key_at(self.values@, v, q);
                            }
                        }
                        assert forall|v: u64| has_u64_key(old(self).values@, v) || (in_list(
                            old(self).peer_pending@,
                            node@,
                            v,
                        ) && v != key) implies #[trigger] in_list(
                            self.peer_pending@,
                            node@,
                            v,
                        ) by {
                            if has_u64_key(self.values@, v) {
                                let q = crate::vecutil::u64_key_idx(self.values@, v);
                                lemma_u64_key_at(self.values@, v, q);
                            } else {
                                assert(in_list(p1, node@, v));
                            }
                        }
                        assert forall|n: Seq<char>, v: u64| #[trigger] in_list(
                            self.peer_pending@,
                            n,
                            v,
                        ) implies in_list(old(self).peer_pending@, n, v) || has_u64_key(
                            self.values@,
                            v,
                        ) by {
                            if n == node@ {
                                if !has_u64_key(self.values@, v) {
                                    assert(in_list(p1, node@, v));
                                    assert(in_list(old(self).peer_pending@, n, v));
                                }
                            } else {
                                assert(in_list(p1, n, v));
                                if !(n == node@ && v == key) {
                                    assert(in_list(old(self).peer_pending@, n, v));
                                }
                            }
                        }
                        lemma_pending_ok_step(
                            old(self).peer_pending@,
                            self.peer_pending@,
                            old(self).values@,
                            self.values@,
                        );
                    }
                } else {
                    proof {
                        assert forall|n: Seq<char>, v: u64| #[trigger] in_list(
                            self.peer_pending@,
                            n,
                            v,
                        ) implies in_list(old(self).peer_pending@, n, v) || has_u64_key(
                            self.values@,
                            v,
                        ) by {
                            if !(n == node@ && v == key) {
                                assert(in_list(old(self).peer_pending@, n, v));
                            }
                        }
                        lemma_pending_ok_step(
                            old(self).peer_pending@,
                            self.peer_pending@,
                            old(self).values@,
                            self.values@,
                        );
                    }
                }
            },
        }
    }
    /// Apply an authoritative topology: listed peers move as the registry
    /// transition says, peers newly learned of get their pending set
    /// seeded with every store key, and peers no longer listed are
    /// dropped together with their pending sets.
    pub fn update_neighbors(&mut self, update: &Vec<String>, now: u64)
        requires
            old(self).wf(),
        ensures
            final(self).wf(),
            final(self).node_id == old(self).node_id,
            final(self).workload == old(self).workload,
            final(self).snowflake == old(self).snowflake,
            final(self).values == old(self).values,
            final(self).g_counter == old(self).g_counter,
            forall|i: int| 0 <= i < update@.len() ==> #[trigger] str_key_opt(
                final(self).node_status@,
                update@[i]@,
            ) == Option::Some(
                spec_update_status(str_key_opt(old(self).node_status@, update@[i]@), now),
            ),
            forall|k: Seq<char>| !seq_has_name(update@, k) ==> !(#[trigger] has_str_key(
                final(self).node_status@,
                k,
            )) && !has_str_key(final(self).peer_pending@, k),
            forall|i: int, vi: int|
                0 <= i < update@.len() && !has_str_key(old(self).node_status@, update@[i]@) && 0
                    <= vi < old(self).values@.len() ==> in_list(
                    final(self).peer_pending@,
                    #[trigger] update@[i]@,
                    #[trigger] old(self).values@[vi].0,
                ),
            forall|i: int, v: u64|
                0 <= i < update@.len() && has_str_key(old(self).node_status@, update@[i]@)
                    ==> #[trigger] in_list(final(self).peer_pending@, update@[i]@, v) == in_list(
                    old(self).peer_pending@,
                    update@[i]@,
                    v,
                ),
    {
        let ghost p0 = self.peer_pending@;
        let ghost s0 = self.node_status@;
        let un = update.len();
        let mut ui: usize = 0;
        while ui < un
            invariant
                ui <= un,
                un == update@.len(),
                self.node_status == old(self).node_status,
                self.node_id == old(self).node_id,
                self.workload == old(self).workload,
                self.snowflake == old(self).snowflake,
                self.values == old(self).values,
                self.g_counter == old(self).g_counter,
                s0 == old(self).node_status@,
                str_keys_unique(s0),
                u64_keys_unique(self.values@),
                list_wf(self.peer_pending@),
                forall|n: Seq<char>, v: u64|
                    has_str_key(s0, n) ==> #[trigger] in_list(self.peer_pending@, n, v) == in_list(
                        p0,
                        n,
                        v,
                    ),
                forall|n: Seq<char>, v: u64| #[trigger] in_list(self.peer_pending@, n, v)
                    ==> in_list(p0, n, v) || has_u64_key(self.values@, v),
                forall|i: int, vi: int|
                    0 <= i < ui && !has_str_key(s0, update@[i]@) && 0 <= vi
                        < self.values@.len() ==> in_list(
                        self.peer_pending@,
                        #[trigger] update@[i]@,
                        #[trigger] self.values@[vi].0,
                    ),
            decreases un - ui,
        {
            let is_known: bool = match str_key_find(&self.node_status, &update[ui]) {
                Some(_) => true,
                None => false,
            };
            if !is_known {
                let vn = self.values.len();
                let mut vi: usize = 0;
                while vi < vn
                    invariant
                        vi <= vn,
                        ui < un,
                        un == update@.len(),
                        vn == self.values@.len(),
                        self.node_status == old(self).node_status,
                        self.node_id == old(self).node_id,
                        self.workload == old(self).workload,
                        self.snowflake == old(self).snowflake,
                        self.values == old(self).values,
                        self.g_counter == old(self).g_counter,
                        s0 == old(self).node_status@,
                        str_keys_unique(s0),
                        u64_keys_unique(self.values@),
                        !has_str_key(s0, update@[ui as int]@),
                        list_wf(self.peer_pending@),
                        forall|n: Seq<char>, v: u64|
                            has_str_key(s0, n) ==> #[trigger] in_list(self.peer_pending@, n, v)
                                == in_list(p0, n, v),
                        forall|n: Seq<char>, v: u64| #[trigger] in_list(self.peer_pending@, n, v)
                            ==> in_list(p0, n, v) || has_u64_key(self.values@, v),
                        forall|i: int, vi2: int|
                            0 <= i < ui && !has_str_key(s0, update@[i]@) && 0 <= vi2
                                < self.values@.len() ==> in_list(
                                self.peer_pending@,
                                #[trigger] update@[i]@,
                                #[trigger] self.values@[vi2].0,
                            ),
                        forall|vi2: int| 0 <= vi2 < vi ==> in_list(
                            self.peer_pending@,
                            update@[ui as int]@,
                            #[trigger] self.values@[vi2].0,
                        ),
                    decreases vn - vi,
                {
                    let k2 = self.values[vi].0;
                    let ghost pb = self.peer_pending@;
                    let name: &String = &update[ui];
                    add_to_list(&mut self.peer_pending, name, k2);
                    proof {
                        lemma_u64_key_at(
                            self.values@,
                            k2,
                            vi as int,
                        );
                        assert forall|n: Seq<char>, v: u64| has_str_key(s0, n) implies #[trigger] in_list(
                            self.peer_pending@,
                            n,
                            v,
                        ) == in_list(p0, n, v) by {
                            if !(n == name@ && v == k2) {
                                assert(in_list(self.peer_pending@, n, v) == in_list(pb, n, v));
                            }
                        }
                        assert forall|n: Seq<char>, v: u64| #[trigger] in_list(
                            self.peer_pending@,
                            n,
                            v,
                        ) implies in_list(p0, n, v) || has_u64_key(self.values@, v) by {
                            if !(n == name@ && v == k2) {
                                assert(in_list(pb, n, v));
                            }
                        }
                        assert forall|i: int, vi2: int|
                            0 <= i < ui && !has_str_key(s0, update@[i]@) && 0 <= vi2
                                < self.values@.len() implies in_list(
                            self.peer_pending@,
                            #[trigger] update@[i]@,
                            #[trigger] self.values@[vi2].0,
                        ) by {
                            if !(update@[i]@ == name@ && self.values@[vi2].0 == k2) {
                                assert(in_list(pb, update@[i]@, self.values@[vi2].0));
                            }
                        }
                        assert forall|vi2: int| 0 <= vi2 < vi + 1 implies in_list(
                            self.peer_pending@,
                            update@[ui as int]@,
                            #[trigger] self.values@[vi2].0,
                        ) by {
                            if vi2 < vi {
                                if self.values@[vi2].0 != k2 {
                                    assert(in_list(pb, update@[ui as int]@, self.values@[vi2].0));
                                }
                            }
                        }
                    }
                    vi = vi + 1;
                }
            }
            ui = ui + 1;
        }
        let ghost p_seeded = self.peer_pending@;
        retain_named(&mut self.node_status, update);
        retain_named(&mut self.peer_pending, update);
        let ghost p_ret = self.peer_pending@;
        proof {
            assert forall|i: int| 0 <= i < p_ret.len() implies (
            #[trigger] p_ret[i].1)@.no_duplicates() by {
                assert(p_seeded.contains(p_ret[i]));
                let j = choose|j: int| 0 <= j < p_seeded.len() && p_seeded[j] == p_ret[i];
                assert(p_seeded[j].1@.no_duplicates());
            }
            assert forall|n: Seq<char>, v: u64| #[trigger] in_list(p_ret, n, v) implies in_list(
                p_seeded,
                n,
                v,
            ) by {
                assert(seq_has_name(update@, n)) by {
                    if !seq_has_name(update@, n) {
                        assert(!has_str_key(p_ret, n));
                    }
                }
                assert(str_key_opt(p_ret, n) == str_key_opt(p_seeded, n));
            }
        }
        let ghost s_ret = self.node_status@;
        update_statuses(&mut self.node_status, update, now);
        proof {
            assert forall|n: Seq<char>, v: u64| #[trigger] in_list(self.peer_pending@, n, v) implies
                in_list(old(self).peer_pending@, n, v) || has_u64_key(self.values@, v) by {
                assert(in_list(p_seeded, n, v));
            }
            lemma_pending_ok_step(
                old(self).peer_pending@,
                self.peer_pending@,
                old(self).values@,
                self.values@,
            );
            assert forall|i: int, vi: int|
                0 <= i < update@.len() && !has_str_key(s0, update@[i]@) && 0 <= vi
                    < old(self).values@.len() implies in_list(
                self.peer_pending@,
                #[trigger] update@[i]@,
                #[trigger] old(self).values@[vi].0,
            ) by {
                assert(in_list(p_seeded, update@[i]@, old(self).values@[vi].0));
                assert(seq_has_name(update@, update@[i]@)) by {
                    assert(update@[i]@ == update@[i]@);
                }
                assert(str_key_opt(p_ret, update@[i]@) == str_key_opt(p_seeded, update@[i]@));
            }
            assert forall|i: int, v: u64|
                0 <= i < update@.len() && has_str_key(s0, update@[i]@) implies #[trigger] in_list(
                self.peer_pending@,
                update@[i]@,
                v,
            ) == in_list(old(self).peer_pending@, update@[i]@, v) by {
                assert(in_list(p_seeded, update@[i]@, v) == in_list(p0, update@[i]@, v));
                assert(seq_has_name(update@, update@[i]@)) by {
                    assert(update@[i]@ == update@[i]@);
                }
                assert(str_key_opt(p_ret, update@[i]@) == str_key_opt(p_seeded, update@[i]@));
            }
            assert forall|k: Seq<char>| !seq_has_name(update@, k) implies !(
            #[trigger] has_str_key(final(self).node_status@, k)) && !has_str_key(
                final(self).peer_pending@,
                k,
            ) by {
                assert(str_key_opt(self.node_status@, k) == str_key_opt(s_ret, k));
                assert(!has_str_key(s_ret, k));
                assert(!has_str_key(p_ret, k));
            }
        }
    }
    /// This node's own counter contribution, creating a zero entry when
    /// none exists yet.
    pub fn g_counter_value(&mut self) -> (r: u64)
        requires
            old(self).wf(),
            old(self).node_id is Some,
        ensures
            final(self).wf(),
            final(self).node_id == old(self).node_id,
            final(self).workload == old(self).workload,
            final(self).snowflake == old(self).snowflake,
            final(self).values == old(self).values,
            final(self).node_status == old(self).node_status,
            final(self).peer_pending == old(self).peer_pending,
            r as int == old(self).g_counter.contribution(old(self).node_id->0@),
            final(self).g_counter.pending == old(self).g_counter.pending,
            final(self).g_counter.watchers == old(self).g_counter.watchers,
            str_key_opt(final(self).g_counter.data@, old(self).node_id->0@) == Option::Some(r),
            forall|k: Seq<char>| k != old(self).node_id->0@ ==> #[trigger] str_key_opt(
                final(self).g_counter.data@,
                k,
            ) == str_key_opt(old(self).g_counter.data@, k),
    {
        let node = self.get_node_id();
        self.g_counter.local_value(&node)
    }

    /// Accept a client `add`: credit this node's contribution by `delta`
    /// at once (the client is answered optimistically), and ask the
    /// key-value service for the counter's current value under a fresh
    /// id. The answer resolves into the compare-and-set.
    pub fn process_add(&mut self, delta: u64, dest: &String, msg_id: u64, now: u64) -> (cmd:
        BroadcastCommand)
        requires
            old(self).wf(),
            old(self).node_id is Some,
            CUSTOM_EPOCH <= now <= MAX_TIMESTAMP,
        ensures
            final(self).wf(),
            final(self).node_id == old(self).node_id,
            final(self).workload == old(self).workload,
            final(self).values == old(self).values,
            final(self).node_status == old(self).node_status,
            final(self).peer_pending == old(self).peer_pending,
            final(self).g_counter.pending == old(self).g_counter.pending,
            ({
                let node = old(self).node_id->0@;
                let to = if old(self).g_counter.contribution(node) + delta <= u64::MAX {
                    old(self).g_counter.contribution(node) + delta
                } else {
                    u64::MAX as int
                };
                &&& (cmd matches BroadcastCommand::Read { dest: d, msg_id: k } && d@ == "seq-kv"@)
                &&& (cmd matches BroadcastCommand::Read { msg_id: k, .. } ==> u64_key_opt(
                    final(self).g_counter.watchers@,
                    k,
                ) matches Option::Some(w) && w.delta == delta && w.dest@ == dest@ && w.msg_id
                    == msg_id)
                &&& (str_key_opt(final(self).g_counter.data@, node) matches Option::Some(v) && v
                    as int == to)
            }),
            forall|k: Seq<char>| k != old(self).node_id->0@ ==> #[trigger] str_key_opt(
                final(self).g_counter.data@,
                k,
            ) == str_key_opt(old(self).g_counter.data@, k),
            cmd matches BroadcastCommand::Read { msg_id: k, .. } ==> (forall|k2: u64|
                k2 != k ==> #[trigger] u64_key_opt(final(self).g_counter.watchers@, k2)
                    == u64_key_opt(old(self).g_counter.watchers@, k2)),
    {
        let key = self.snowflake.next_id(now);
        let node = self.get_node_id();
        self.g_counter.process_add(&node, key, delta, dest, msg_id)
    }

    /// Feed back the value the key-value service returned for a counter
    /// read: the waiting add resolves into a compare-and-set from that
    /// value to the value plus the waited delta, recorded under a fresh
    /// attempt key. An answer nobody waits for changes nothing.
    pub fn resolve_read(&mut self, read_id: u64, value: u64, now: u64) -> (cmd: Option<
        BroadcastCommand,
    >)
        requires
            old(self).wf(),
            old(self).node_id is Some,
            CUSTOM_EPOCH <= now <= MAX_TIMESTAMP,
        ensures
            final(self).wf(),
            final(self).node_id == old(self).node_id,
            final(self).workload == old(self).workload,
            final(self).values == old(self).values,
            final(self).node_status == old(self).node_status,
            final(self).peer_pending == old(self).peer_pending,
            !has_u64_key(old(self).g_counter.watchers@, read_id) ==> *final(self) == *old(self)
                && cmd is None,
            has_u64_key(old(self).g_counter.watchers@, read_id) ==> ({
                let node = old(self).node_id->0@;
                let w = u64_key_val(old(self).g_counter.watchers@, read_id);
                let to = if value + w.delta <= u64::MAX {
                    value + w.delta
                } else {
                    u64::MAX as int
                };
                &&& (cmd matches Option::Some(BroadcastCommand::Cas {
                    dest,
                    msg_id: m,
                    from,
                    to: t,
                    create_if_not_exists,
                }) && dest@ == "seq-kv"@ && from == value && t as int == to
                    && create_if_not_exists)
                &&& !has_u64_key(final(self).g_counter.watchers@, read_id)
                &&& (forall|k: u64| k != read_id ==> #[trigger] u64_key_opt(
                    final(self).g_counter.watchers@,
                    k,
                ) == u64_key_opt(old(self).g_counter.watchers@, k))
                &&& (str_key_opt(final(self).g_counter.data@, node) matches Option::Some(v) && v
                    as int == (if old(self).g_counter.contribution(node) >= to {
                    old(self).g_counter.contribution(node)
                } else {
                    to
                }))
                &&& (cmd matches Option::Some(BroadcastCommand::Cas { msg_id: m, .. })
                    ==> (u64_key_opt(final(self).g_counter.pending@, m) matches Option::Some(req)
                    && req.from == value && req.to as int == to && req.dest@ == w.dest@
                    && req.msg_id == w.msg_id) && (forall|k: u64|
                    k != m ==> #[trigger] u64_key_opt(final(self).g_counter.pending@, k)
                        == u64_key_opt(old(self).g_counter.pending@, k)))
            }),
    {
        if !self.g_counter.has_watcher(read_id) {
            return None;
        }
        let cas_key = self.snowflake.next_id(now);
        let node = self.get_node_id();
        self.g_counter.resolve_read(&node, read_id, value, cas_key)
    }

    /// Drop the pending attempt a `cas_ok` answers.
    pub fn remove_request_from_pending_cas(&mut self, msg_id: u64)
        requires
            old(self).wf(),
        ensures
            final(self).wf(),
            *final(self) == (Storage { g_counter: final(self).g_counter, ..*old(self) }),
            final(self).g_counter.data == old(self).g_counter.data,
            final(self).g_counter.watchers == old(self).g_counter.watchers,
            !has_u64_key(final(self).g_counter.pending@, msg_id),
            forall|k: u64| k != msg_id ==> #[trigger] u64_key_opt(
                final(self).g_counter.pending@,
                k,
            ) == u64_key_opt(old(self).g_counter.pending@, k),
    {
        self.g_counter.remove_from_pending(msg_id);
    }

    /// Answer a `cas` failure: drop the attempt when the stored counter
    /// has already passed its target, else reissue it under a fresh key
    /// with this node's current contribution as the new `from`.
    pub fn retry_for_cas(&mut self, msg_id: u64, now: u64) -> (cmd: Option<BroadcastCommand>)
        requires
            old(self).wf(),
            old(self).node_id is Some,
            CUSTOM_EPOCH <= now <= MAX_TIMESTAMP,
        ensures
            final(self).wf(),
            final(self).node_id == old(self).node_id,
            final(self).workload == old(self).workload,
            final(self).values == old(self).values,
            final(self).node_status == old(self).node_status,
            final(self).peer_pending == old(self).peer_pending,
            !has_u64_key(old(self).g_counter.pending@, msg_id) ==> final(self).g_counter.pending@
                == old(self).g_counter.pending@ && cmd is None,
            (has_u64_key(old(self).g_counter.pending@, msg_id) && old(self).g_counter.contribution(
                old(self).node_id->0@,
            ) > u64_key_val(old(self).g_counter.pending@, msg_id).to as int) ==> cmd is None
                && !has_u64_key(final(self).g_counter.pending@, msg_id) && (forall|k: u64|
                k != msg_id ==> #[trigger] u64_key_opt(final(self).g_counter.pending@, k)
                    == u64_key_opt(old(self).g_counter.pending@, k)),
            (has_u64_key(old(self).g_counter.pending@, msg_id) && old(self).g_counter.contribution(
                old(self).node_id->0@,
            ) <= u64_key_val(old(self).g_counter.pending@, msg_id).to as int) ==> ({
                let req = u64_key_val(old(self).g_counter.pending@, msg_id);
                &&& (cmd matches Option::Some(BroadcastCommand::Cas {
                    dest,
                    msg_id: m,
                    from,
                    to,
                    create_if_not_exists,
                }) && dest@ == "seq-kv"@ && from as int == old(self).g_counter.contribution(
                    old(self).node_id->0@,
                ) && to == req.to && create_if_not_exists)
                &&& (cmd matches Option::Some(BroadcastCommand::Cas { msg_id: m, .. })
                    ==> (u64_key_opt(final(self).g_counter.pending@, m) matches Option::Some(r)
                    && r.from as int == old(self).g_counter.contribution(old(self).node_id->0@)
                    && r.to == req.to && r.msg_id == req.msg_id && r.dest@ == req.dest@) && (
                    forall|k: u64|
                        k != msg_id && k != m ==> #[trigger] u64_key_opt(
                            final(self).g_counter.pending@,
                            k,
                        ) == u64_key_opt(old(self).g_counter.pending@, k)) && (msg_id != m
                    ==> !has_u64_key(final(self).g_counter.pending@, msg_id)))
            }),
    {
        let key = self.snowflake.next_id(now);
        let node = self.get_node_id();
        let fresh = self.g_counter.local_value(&node);
        self.g_counter.retry_for_cas(msg_id, fresh, key)
    }

    /// Merge an incoming counter map and return the merged snapshot to
    /// gossip onwards. No entry ever decreases.
    pub fn update_counter(&mut self, values: &Vec<(String, u64)>) -> (gossip: Vec<(String, u64)>)
        requires
            old(self).wf(),
        ensures
            final(self).wf(),
            *final(self) == (Storage { g_counter: final(self).g_counter, ..*old(self) }),
            final(self).g_counter.pending == old(self).g_counter.pending,
            final(self).g_counter.watchers == old(self).g_counter.watchers,
            gossip@ == final(self).g_counter.data@,
            forall|i: int| 0 <= i < values@.len() ==> has_str_key(
                final(self).g_counter.data@,
                #[trigger] values@[i].0@,
            ) && str_key_val(final(self).g_counter.data@, values@[i].0@) >= values@[i].1,
            forall|k: Seq<char>|
                has_str_key(old(self).g_counter.data@, k) ==> #[trigger] has_str_key(
                    final(self).g_counter.data@,
                    k,
                ) && str_key_val(final(self).g_counter.data@, k) >= str_key_val(
                    old(self).g_counter.data@,
                    k,
                ),
    {
        self.g_counter.update_counter(values);
        self.g_counter.snapshot()
    }

    /// The counter total, saturating at the integer limit.
    pub fn g_counter_read(&self) -> (r: u64)
        ensures
            r as int == if crate::g_counter::sum_seq(self.g_counter.data@) <= u64::MAX {
                crate::g_counter::sum_seq(self.g_counter.data@)
            } else {
                u64::MAX as int
            },
    {
        self.g_counter.local_sum()
    }

    /// One gossip pass over the given peers: for every pending store key
    /// of every listed peer, build the broadcast envelope that resends
    /// the stored value, keyed by the store key so an acknowledgment can
    /// clear it.
    pub fn gossip_to(&self, nodes: &Vec<String>) -> (cmds: Vec<BroadcastCommand>)
        requires
            self.wf(),
        ensures
            forall|j: int, v: u64|
                0 <= j < nodes@.len() && #[trigger] in_list(
                    self.peer_pending@,
                    nodes@[j]@,
                    v,
                ) ==> gossip_cmd(cmds@, nodes@[j]@, v, u64_key_val(self.values@, v).1),
    {
        let mut cmds: Vec<BroadcastCommand> = Vec::new();
        let nn = nodes.len();
        let mut j: usize = 0;
        while j < nn
            invariant
                j <= nn,
                nn == nodes@.len(),
                self.wf(),
                forall|j2: int, v: u64|
                    0 <= j2 < j && #[trigger] in_list(self.peer_pending@, nodes@[j2]@, v)
                        ==> gossip_cmd(cmds@, nodes@[j2]@, v, u64_key_val(self.values@, v).1),
            decreases nn - j,
        {
            match str_key_find(&self.peer_pending, &nodes[j]) {
                None => {
                    proof {
                        assert forall|v: u64| !in_list(
                            self.peer_pending@,
                            nodes@[j as int]@,
                            v,
                        ) by {}
                    }
                },
                Some(pi) => {
                    proof {
                        lemma_str_key_at(self.peer_pending@, nodes@[j as int]@, pi as int);
                    }
                    let kn = self.peer_pending[pi].1.len();
                    let mut ki: usize = 0;
                    while ki < kn
                        invariant
                            ki <= kn,
                            j < nn,
                            nn == nodes@.len(),
                            pi < self.peer_pending@.len(),
                            kn == self.peer_pending@[pi as int].1@.len(),
                            self.peer_pending@[pi as int].0@ == nodes@[j as int]@,
                            self.wf(),
                            forall|j2: int, v: u64|
                                0 <= j2 < j && #[trigger] in_list(
                                    self.peer_pending@,
                                    nodes@[j2]@,
                                    v,
                                ) ==> gossip_cmd(cmds@, nodes@[j2]@, v, u64_key_val(
                                    self.values@,
                                    v,
                                ).1),
                            forall|x: int| 0 <= x < ki ==> gossip_cmd(
                                cmds@,
                                nodes@[j as int]@,
                                #[trigger] self.peer_pending@[pi as int].1@[x],
                                u64_key_val(
                                    self.values@,
                                    self.peer_pending@[pi as int].1@[x],
                                ).1,
                            ),
                        decreases kn - ki,
                    {
                        let key = self.peer_pending[pi].1[ki];
                        proof {
                            lemma_str_key_at(self.peer_pending@, nodes@[j as int]@, pi as int);
                            assert(self.peer_pending@[pi as int].1@.contains(
                                self.peer_pending@[pi as int].1@[ki as int],
                            ));
                        }
                        let vi = match u64_key_find(&self.values, key) {
                            Some(vi) => vi,
                            None => {
                                proof {
                                    assert(false);
                                }
                                0
                            },
                        };
                        proof {
                            lemma_u64_key_at(self.values@, key, vi as int);
                        }
                        let value = self.values[vi].1 .1;
                        let ghost prev = cmds@;
                        cmds.push(
                            BroadcastCommand::Broadcast {
                                dest: nodes[j].clone(),
                                msg_id: key,
                                message: crate::message::BroadcastMessage::Single(value),
                            },
                        );
                        proof {
                            assert(gossip_cmd(cmds@, nodes@[j as int]@, key, value)) by {
                                assert(cmds@[prev.len() as int]
                                    matches BroadcastCommand::Broadcast {
                                    dest,
                                    msg_id,
                                    message,
                                } && dest@ == nodes@[j as int]@ && msg_id == key && message
                                    == crate::message::BroadcastMessage::Single(value));
                            }
                            assert forall|n2: Seq<char>, k2: u64, v2: u64| gossip_cmd(
                                prev,
                                n2,
                                k2,
                                v2,
                            ) implies gossip_cmd(cmds@, n2, k2, v2) by {
                                let i = choose|i: int|
                                    0 <= i < prev.len() && (#[trigger] prev[i]
                                        matches BroadcastCommand::Broadcast {
                                        dest,
                                        msg_id,
                                        message,
                                    } && dest@ == n2 && msg_id == k2 && message
                                        == crate::message::BroadcastMessage::Single(v2));
                                assert(cmds@[i] == prev[i]);
                            }
                        }
                        ki = ki + 1;
                    }
                },
            }
            j = j + 1;
        }
        proof {
            assert forall|j2: int, v: u64|
                0 <= j2 < nn && #[trigger] in_list(self.peer_pending@, nodes@[j2]@, v) implies
                gossip_cmd(cmds@, nodes@[j2]@, v, u64_key_val(self.values@, v).1) by {}
        }
        cmds
    }
}

/// Whether `cmds` holds a broadcast to `name` keyed by `key` carrying the
/// single value `value`.
pub open spec fn gossip_cmd(
    cmds: Seq<BroadcastCommand>,
    name: Seq<char>,
    key: u64,
    value: u64,
) -> bool {
    exists|i: int|
        0 <= i < cmds.len() && (#[trigger] cmds[i] matches BroadcastCommand::Broadcast {
            dest,
            msg_id,
            message,
        } && dest@ == name && msg_id == key && message == crate::message::BroadcastMessage::Single(
            value,
        ))
}

/// Every pending key refers to a stored entry: what a peer still owes an
/// acknowledgment for is always something the node itself holds.
pub proof fn lemma_pending_in_store(s: Storage, peer: Seq<char>, v: u64)
    requires
        s.wf(),
        in_list(s.peer_pending@, peer, v),
    ensures
        has_u64_key(s.values@, v),
{
    let i = crate::vecutil::str_key_idx(s.peer_pending@, peer);
    lemma_str_key_at(s.peer_pending@, peer, i);
    let j = choose|j: int|
        0 <= j < s.peer_pending@[i].1@.len() && s.peer_pending@[i].1@[j] == v;
    assert(has_u64_key(s.values@, s.peer_pending@[i].1@[j]));
}

} // verus!