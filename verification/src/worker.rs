//! The broadcast worker: keeps, per peer, the set of values the peer has
//! acknowledged and a queue of values still owed to it. Each tick enqueues
//! everything the peer is missing and emits a broadcast command for every
//! queued value; unacknowledged values are simply sent again next tick.

use vstd::prelude::*;

use crate::commands::BroadcastCommand;
use crate::message::BroadcastMessage;
use crate::snowflake::{Snowflake, CUSTOM_EPOCH, MAX_TIMESTAMP};
use crate::vecutil::{
    add_to_list, contains_u64, has_u64_key, in_list, lemma_str_key_at, lemma_u64_key_at,
    lemma_u64_remove_frame, list_wf, remove_from_list, str_key_find, str_key_idx,
    u64_key_find, u64_key_opt, u64_key_val, u64_keys_unique, u64_upsert,
};

verus! {

/// Whether `cmds` holds a broadcast of the single value `v` to the peer
/// named `name`.
pub open spec fn emitted(cmds: Seq<BroadcastCommand>, name: Seq<char>, v: u64) -> bool {
    exists|i: int|
        0 <= i < cmds.len() && (#[trigger] cmds[i] matches BroadcastCommand::Broadcast {
            dest,
            msg_id,
            message,
        } && dest@ == name && message == BroadcastMessage::Single(v))
}

/// The anti-entropy worker state: the in-flight map from message id to
/// value, what each peer has acknowledged, and what is queued for it.
pub struct BroadcastWorker {
    pub key_map: Vec<(u64, u64)>,
    pub sent_to: Vec<(String, Vec<u64>)>,
    pub queue: Vec<(String, Vec<u64>)>,
}

impl BroadcastWorker {
    /// Keys and names are unique and the per-peer lists are duplicate
    /// free.
    pub open spec fn wf(self) -> bool {
        &&& u64_keys_unique(self.key_map@)
        &&& list_wf(self.sent_to@)
        &&& list_wf(self.queue@)
    }

    /// A fresh worker with nothing in flight.
    pub fn new() -> (w: BroadcastWorker)
        ensures
            w.wf(),
            w.key_map@ == Seq::<(u64, u64)>::empty(),
            w.sent_to@ == Seq::<(String, Vec<u64>)>::empty(),
            w.queue@ == Seq::<(String, Vec<u64>)>::empty(),
    {
        BroadcastWorker { key_map: Vec::new(), sent_to: Vec::new(), queue: Vec::new() }
    }

    /// Queue for `node` every store value the peer has neither
    /// acknowledged nor already queued.
    fn enqueue_missing(&mut self, node: &String, store: &Vec<u64>)
        requires
            old(self).wf(),
        ensures
            final(self).wf(),
            final(self).sent_to == old(self).sent_to,
            final(self).key_map == old(self).key_map,
            forall|n: Seq<char>, v: u64| in_list(old(self).queue@, n, v) ==> #[trigger] in_list(
                final(self).queue@,
                n,
                v,
            ),
            forall|vi: int| 0 <= vi < store@.len() ==> in_list(
                old(self).sent_to@,
                node@,
                #[trigger] store@[vi],
            ) || in_list(final(self).queue@, node@, store@[vi]),
    {
        let ghost q0 = self.queue@;
        let n = store.len();
        let mut vi: usize = 0;
        while vi < n
            invariant
                vi <= n,
                n == store@.len(),
                self.wf(),
                self.sent_to == old(self).sent_to,
                self.key_map == old(self).key_map,
                forall|n2: Seq<char>, v: u64| in_list(q0, n2, v) ==> #[trigger] in_list(
                    self.queue@,
                    n2,
                    v,
                ),
                forall|wi: int| 0 <= wi < vi ==> in_list(
                    self.sent_to@,
                    node@,
                    #[trigger] store@[wi],
                ) || in_list(self.queue@, node@, store@[wi]),
            decreases n - vi,
        {
            let v = store[vi];
            let in_sent: bool = match str_key_find(&self.sent_to, node) {
                Some(si) => {
                    proof {
                        lemma_str_key_at(self.sent_to@, node@, si as int);
                    }
                    contains_u64(&self.sent_to[si].1, v)
                },
                None => false,
            };
            if !in_sent {
                let ghost qmid = self.queue@;
                add_to_list(&mut self.queue, node, v);
                proof {
                    assert forall|n2: Seq<char>, w: u64| in_list(q0, n2, w) implies #[trigger] in_list(
                        self.queue@,
                        n2,
                        w,
                    ) by {
                        if !(n2 == node@ && w == v) {
                            assert(in_list(qmid, n2, w));
                        }
                    }
                    assert forall|wi: int| 0 <= wi < vi + 1 implies in_list(
                        self.sent_to@,
                        node@,
                        #[trigger] store@[wi],
                    ) || in_list(self.queue@, node@, store@[wi]) by {
                        if wi < vi {
                            if in_list(qmid, node@, store@[wi]) {
                                if !(store@[wi] == v) {
                                    assert(in_list(self.queue@, node@, store@[wi]));
                                }
                            }
                        }
                    }
                }
            } else {
                proof {
                    assert(in_list(self.sent_to@, node@, v));
                }
            }
            vi = vi + 1;
        }
    }

    /// Emit one broadcast command for every queued value of every peer,
    /// keyed by a fresh id recorded in the in-flight map.
    fn flush_queue(&mut self, snowflake: &mut Snowflake, now: u64) -> (cmds: Vec<BroadcastCommand>)
        requires
            old(self).wf(),
            old(snowflake).wf(),
            CUSTOM_EPOCH <= now <= MAX_TIMESTAMP,
        ensures
            final(self).wf(),
            final(snowflake).wf(),
            final(self).sent_to == old(self).sent_to,
            final(self).queue == old(self).queue,
            forall|n: Seq<char>, v: u64| in_list(old(self).queue@, n, v) ==> #[trigger] emitted(
                cmds@,
                n,
                v,
            ),
    {
        let mut cmds: Vec<BroadcastCommand> = Vec::new();
        let qn = self.queue.len();
        let mut qi: usize = 0;
        while qi < qn
            invariant
                qi <= qn,
                qn == self.queue@.len(),
                self.wf(),
                snowflake.wf(),
                CUSTOM_EPOCH <= now <= MAX_TIMESTAMP,
                self.sent_to == old(self).sent_to,
                self.queue == old(self).queue,
                forall|p: int, w: u64| 0 <= p < qi && #[trigger] self.queue@[p].1@.contains(w)
                    ==> emitted(cmds@, self.queue@[p].0@, w),
            decreases qn - qi,
        {
            let m = self.queue[qi].1.len();
            let mut wi: usize = 0;
            while wi < m
                invariant
                    wi <= m,
                    qi < qn,
                    qn == self.queue@.len(),
                    m == self.queue@[qi as int].1@.len(),
                    self.wf(),
                    snowflake.wf(),
                    CUSTOM_EPOCH <= now <= MAX_TIMESTAMP,
                    self.sent_to == old(self).sent_to,
                    self.queue == old(self).queue,
                    forall|p: int, w: u64| 0 <= p < qi && #[trigger] self.queue@[p].1@.contains(w)
                        ==> emitted(cmds@, self.queue@[p].0@, w),
                    forall|x: int| 0 <= x < wi ==> emitted(
                        cmds@,
                        self.queue@[qi as int].0@,
                        #[trigger] self.queue@[qi as int].1@[x],
                    ),
                decreases m - wi,
            {
                let v = self.queue[qi].1[wi];
                let key = snowflake.next_id(now);
                u64_upsert(&mut self.key_map, key, v);
                let ghost prev = cmds@;
                let dest = self.queue[qi].0.clone();
                cmds.push(
                    BroadcastCommand::Broadcast {
                        dest,
                        msg_id: key,
                        message: BroadcastMessage::Single(v),
                    },
                );
                proof {
                    assert(cmds@[prev.len() as int] matches BroadcastCommand::Broadcast {
                        dest: d,
                        msg_id: k,
                        message: msg,
                    } && d@ == self.queue@[qi as int].0@ && msg == BroadcastMessage::Single(v));
                    assert(emitted(cmds@, self.queue@[qi as int].0@, v));
                    assert forall|n2: Seq<char>, w: u64| emitted(prev, n2, w) implies emitted(
                        cmds@,
                        n2,
                        w,
                    ) by {
                        let i = choose|i: int|
                            0 <= i < prev.len() && (#[trigger] prev[i]
                                matches BroadcastCommand::Broadcast {
                                dest,
                                msg_id,
                                message,
                            } && dest@ == n2 && message == BroadcastMessage::Single(w));
                        assert(cmds@[i] == prev[i]);
                    }
                }
                wi = wi + 1;
            }
            qi = qi + 1;
        }
        proof {
            assert forall|n2: Seq<char>, v: u64| in_list(old(self).queue@, n2, v) implies #[trigger] emitted(
                cmds@,
                n2,
                v,
            ) by {
                let p = str_key_idx(old(self).queue@, n2);
                lemma_str_key_at(old(self).queue@, n2, p);
            }
        }
        cmds
    }

    /// One worker tick: queue what each listed peer is missing, then emit
    /// a broadcast for everything queued. Afterwards every store value is
    /// either already acknowledged by a listed peer or broadcast to it.
    pub fn tick(&mut self, neighbors: &Vec<String>, store: &Vec<u64>, snowflake: &mut Snowflake,
        now: u64) -> (cmds: Vec<BroadcastCommand>)
        requires
            old(self).wf(),
            old(snowflake).wf(),
            CUSTOM_EPOCH <= now <= MAX_TIMESTAMP,
        ensures
            final(self).wf(),
            final(snowflake).wf(),
            final(self).sent_to == old(self).sent_to,
            forall|j: int, vi: int|
                0 <= j < neighbors@.len() && 0 <= vi < store@.len() ==> in_list(
                    old(self).sent_to@,
                    #[trigger] neighbors@[j]@,
                    #[trigger] store@[vi],
                ) || emitted(cmds@, neighbors@[j]@, store@[vi]),
    {
        let n = neighbors.len();
        let mut j: usize = 0;
        while j < n
            invariant
                j <= n,
                n == neighbors@.len(),
                self.wf(),
                self.sent_to == old(self).sent_to,
                forall|j2: int, vi: int|
                    0 <= j2 < j && 0 <= vi < store@.len() ==> in_list(
                        self.sent_to@,
                        #[trigger] neighbors@[j2]@,
                        #[trigger] store@[vi],
                    ) || in_list(self.queue@, neighbors@[j2]@, store@[vi]),
            decreases n - j,
        {
            let ghost qprev = self.queue@;
            self.enqueue_missing(&neighbors[j], store);
            proof {
                assert forall|j2: int, vi: int|
                    0 <= j2 < j + 1 && 0 <= vi < store@.len() implies in_list(
                    self.sent_to@,
                    #[trigger] neighbors@[j2]@,
                    #[trigger] store@[vi],
                ) || in_list(self.queue@, neighbors@[j2]@, store@[vi]) by {
                    if j2 < j {
                        if in_list(qprev, neighbors@[j2]@, store@[vi]) {
                            assert(in_list(self.queue@, neighbors@[j2]@, store@[vi]));
                        }
                    }
                }
            }
            j = j + 1;
        }
        let cmds = self.flush_queue(snowflake, now);
        cmds
    }

    /// Record an acknowledgment: resolve the in-flight id, mark the value
    /// as received by the peer, and drop it from the peer's queue.
    pub fn ack(&mut self, node: &String, msg_id: u64)
        requires
            old(self).wf(),
        ensures
            final(self).wf(),
            !has_u64_key(old(self).key_map@, msg_id) ==> *final(self) == *old(self),
            has_u64_key(old(self).key_map@, msg_id) ==> ({
                let value = u64_key_val(old(self).key_map@, msg_id);
                &&& !has_u64_key(final(self).key_map@, msg_id)
                &&& (forall|k: u64| k != msg_id ==> #[trigger] u64_key_opt(final(self).key_map@, k)
                    == u64_key_opt(old(self).key_map@, k))
                &&& in_list(final(self).sent_to@, node@, value)
                &&& (forall|n2: Seq<char>, v: u64| !(n2 == node@ && v == value) ==> (#[trigger] in_list(
                    final(self).sent_to@,
                    n2,
                    v,
                ) == in_list(old(self).sent_to@, n2, v)))
                &&& !in_list(final(self).queue@, node@, value)
                &&& (forall|n2: Seq<char>, v: u64| !(n2 == node@ && v == value) ==> (#[trigger] in_list(
                    final(self).queue@,
                    n2,
                    v,
                ) == in_list(old(self).queue@, n2, v)))
            }),
    {
        let ki = match u64_key_find(&self.key_map, msg_id) {
            None => {
                return ;
            },
            Some(ki) => ki,
        };
        proof {
            lemma_u64_key_at(self.key_map@, msg_id, ki as int);
            lemma_u64_remove_frame(self.key_map@, ki as int);
        }
        let entry = self.key_map.remove(ki);
        let value = entry.1;
        add_to_list(&mut self.sent_to, node, value);
        remove_from_list(&mut self.queue, node, value);
    }
}

} // verus!
