//! The grow-only counter: a map of per-node contributions merged by
//! component-wise maximum, and the ladder of pending compare-and-set
//! attempts against the external key-value service.

use vstd::prelude::*;

use crate::commands::BroadcastCommand;
use crate::vecutil::{
    has_str_key, has_u64_key, lemma_str_key_at, lemma_str_push_frame, lemma_str_update_frame,
    lemma_u64_key_at, lemma_u64_push_frame, lemma_u64_remove_frame, lemma_u64_update_frame,
    str_key_find, str_key_opt, str_key_val, str_keys_unique, u64_key_find, u64_key_opt,
    u64_key_val, u64_keys_unique,
};

verus! {

/// One outstanding compare-and-set attempt: where the answer must go,
/// the client request it answers, and the `from`/`to` window it carries.
pub struct PendingRequest {
    pub dest: String,
    pub from: u64,
    pub msg_id: u64,
    pub to: u64,
}

/// The sum of all contributions in the map.
pub open spec fn sum_seq(s: Seq<(String, u64)>) -> int
    decreases s.len(),
{
    if s.len() == 0 {
        0
    } else {
        sum_seq(s.drop_last()) + s.last().1
    }
}

/// One outstanding read against the key-value service: the delta of the
/// `add` that waits for it and the client that add answers.
pub struct ReadWaiter {
    pub delta: u64,
    pub dest: String,
    pub msg_id: u64,
}

/// The grow-only counter state.
pub struct GCounter {
    pub data: Vec<(String, u64)>,
    pub pending: Vec<(u64, PendingRequest)>,
    pub watchers: Vec<(u64, ReadWaiter)>,
}

impl GCounter {
    /// Contribution names, pending keys and waiter keys are unique.
    pub open spec fn wf(self) -> bool {
        &&& str_keys_unique(self.data@)
        &&& u64_keys_unique(self.pending@)
        &&& u64_keys_unique(self.watchers@)
    }

    /// The contribution of `node`, zero when none is recorded.
    pub open spec fn contribution(self, node: Seq<char>) -> int {
        if has_str_key(self.data@, node) {
            str_key_val(self.data@, node) as int
        } else {
            0
        }
    }

    /// An empty counter.
    pub fn new() -> (c: GCounter)
        ensures
            c.wf(),
            c.data@ == Seq::<(String, u64)>::empty(),
            c.pending@ == Seq::<(u64, PendingRequest)>::empty(),
            c.watchers@ == Seq::<(u64, ReadWaiter)>::empty(),
    {
        GCounter { data: Vec::new(), pending: Vec::new(), watchers: Vec::new() }
    }

    /// The total of all contributions, saturating at the integer limit.
    pub fn local_sum(&self) -> (r: u64)
        ensures
            r as int == if sum_seq(self.data@) <= u64::MAX {
                sum_seq(self.data@)
            } else {
                u64::MAX as int
            },
    {
        let n = self.data.len();
        let mut acc: u64 = 0;
        let mut i: usize = 0;
        while i < n
            invariant
                i <= n,
                n == self.data@.len(),
                acc as int == if sum_seq(self.data@.take(i as int)) <= u64::MAX {
                    sum_seq(self.data@.take(i as int))
                } else {
                    u64::MAX as int
                },
            decreases n - i,
        {
            proof {
                assert(self.data@.take(i + 1).drop_last() =~= self.data@.take(i as int));
                assert(self.data@.take(i + 1).last() == self.data@[i as int]);
                assert(sum_seq(self.data@.take(i + 1)) == sum_seq(self.data@.take(i as int))
                    + self.data@[i as int].1);
                assert(sum_seq(self.data@.take(i as int)) >= 0) by {
                    lemma_sum_nonneg(self.data@.take(i as int));
                }
            }
            let v = self.data[i].1;
            if acc <= u64::MAX - v {
                acc = acc + v;
            } else {
                acc = u64::MAX;
            }
            i = i + 1;
        }
        proof {
            assert(self.data@.take(n as int) =~= self.data@);
        }
        acc
    }

    /// The contribution of this node, recording a zero entry when none
    /// exists yet.
    pub fn local_value(&mut self, node: &String) -> (r: u64)
        requires
            old(self).wf(),
        ensures
            final(self).wf(),
            r as int == old(self).contribution(node@),
            str_key_opt(final(self).data@, node@) == Option::Some(r),
            forall|k: Seq<char>| k != node@ ==> #[trigger] str_key_opt(final(self).data@, k)
                == str_key_opt(old(self).data@, k),
            final(self).pending == old(self).pending,
            final(self).watchers == old(self).watchers,
    {
        match str_key_find(&self.data, node) {
            Some(i) => {
                proof {
                    lemma_str_key_at(self.data@, node@, i as int);
                    lemma_str_update_frame(self.data@, i as int, self.data@[i as int].1);
                    assert(self.data@.update(
                        i as int,
                        (self.data@[i as int].0, self.data@[i as int].1),
                    ) =~= self.data@);
                }
                self.data[i].1
            },
            None => {
                proof {
                    lemma_str_push_frame(self.data@, *node, 0u64);
                }
                self.data.push((node.clone(), 0));
                0
            },
        }
    }

    /// A copy of the contribution map, for gossiping to the peers.
    pub fn snapshot(&self) -> (r: Vec<(String, u64)>)
        ensures
            r@ == self.data@,
    {
        let n = self.data.len();
        let mut r: Vec<(String, u64)> = Vec::new();
        let mut i: usize = 0;
        while i < n
            invariant
                i <= n,
                n == self.data@.len(),
                r@ == self.data@.take(i as int),
            decreases n - i,
        {
            r.push((self.data[i].0.clone(), self.data[i].1));
            assert(r@ =~= self.data@.take(i + 1));
            i = i + 1;
        }
        assert(self.data@.take(n as int) =~= self.data@);
        r
    }

    /// Merge an incoming contribution map: each listed node's entry rises
    /// to at least the incoming value, no entry ever falls, and nodes not
    /// listed keep their entries.
    #[verifier::rlimit(60)]
    #[verifier::spinoff_prover]
    pub fn update_counter(&mut self, values: &Vec<(String, u64)>)
        requires
            old(self).wf(),
        ensures
            final(self).wf(),
            final(self).pending == old(self).pending,
            final(self).watchers == old(self).watchers,
            forall|i: int| 0 <= i < values@.len() ==> has_str_key(
                final(self).data@,
                #[trigger] values@[i].0@,
            ) && str_key_val(final(self).data@, values@[i].0@) >= values@[i].1,
            forall|k: Seq<char>|
                has_str_key(old(self).data@, k) ==> #[trigger] has_str_key(final(self).data@, k)
                    && str_key_val(final(self).data@, k) >= str_key_val(old(self).data@, k),
            forall|k: Seq<char>|
                #[trigger] has_str_key(final(self).data@, k) ==> has_str_key(old(self).data@, k)
                    || (exists|i: int| 0 <= i < values@.len() && #[trigger] values@[i].0@ == k),
            forall|k: Seq<char>|
                #[trigger] has_str_key(final(self).data@, k) ==> str_key_val(final(self).data@, k)
                    == (if has_str_key(old(self).data@, k) {
                        str_key_val(old(self).data@, k)
                    } else {
                        0u64
                    }) || (exists|i: int|
                    0 <= i < values@.len() && #[trigger] values@[i].0@ == k && values@[i].1
                        == str_key_val(final(self).data@, k)),
    {
        let n = values.len();
        let mut u: usize = 0;
        while u < n
            invariant
                u <= n,
                n == values@.len(),
                self.wf(),
                self.pending == old(self).pending,
                self.watchers == old(self).watchers,
                forall|i: int| 0 <= i < u ==> has_str_key(self.data@, #[trigger] values@[i].0@)
                    && str_key_val(self.data@, values@[i].0@) >= values@[i].1,
                forall|k: Seq<char>|
                    has_str_key(old(self).data@, k) ==> #[trigger] has_str_key(self.data@, k)
                        && str_key_val(self.data@, k) >= str_key_val(old(self).data@, k),
                forall|k: Seq<char>|
                    #[trigger] has_str_key(self.data@, k) ==> has_str_key(old(self).data@, k) || (
                    exists|i: int| 0 <= i < u && #[trigger] values@[i].0@ == k),
                forall|k: Seq<char>|
                    #[trigger] has_str_key(self.data@, k) ==> str_key_val(self.data@, k)
                        == (if has_str_key(old(self).data@, k) {
                        str_key_val(old(self).data@, k)
                    } else {
                        0u64
                    }) || (exists|i: int|
                        0 <= i < u && #[trigger] values@[i].0@ == k && values@[i].1 == str_key_val(
                            self.data@,
                            k,
                        )),
            decreases n - u,
        {
            let node: &String = &values[u].0;
            let incoming: u64 = values[u].1;
            let ghost before = self.data@;
            match str_key_find(&self.data, node) {
                Some(i) => {
                    proof {
                        lemma_str_key_at(self.data@, node@, i as int);
                    }
                    if self.data[i].1 < incoming {
                        proof {
                            lemma_str_update_frame(self.data@, i as int, incoming);
                        }
                        self.data[i].1 = incoming;
                    } else {
                        proof {
                            lemma_str_update_frame(self.data@, i as int, self.data@[i as int].1);
                            assert(self.data@.update(
                                i as int,
                                (self.data@[i as int].0, self.data@[i as int].1),
                            ) =~= self.data@);
                        }
                    }
                },
                None => {
                    proof {
                        lemma_str_push_frame(self.data@, *node, incoming);
                    }
                    self.data.push((node.clone(), incoming));
                },
            }
            proof {
                let after = self.data@;
                assert(has_str_key(after, node@) && str_key_val(after, node@) >= incoming);
                assert(forall|k: Seq<char>| k != node@ ==> #[trigger] str_key_opt(after, k)
                    == str_key_opt(before, k));
                assert forall|k: Seq<char>| has_str_key(old(self).data@, k) implies #[trigger] has_str_key(
                    after,
                    k,
                ) && str_key_val(after, k) >= str_key_val(old(self).data@, k) by {
                    assert(has_str_key(before, k) && str_key_val(before, k) >= str_key_val(
                        old(self).data@,
                        k,
                    ));
                    if k != node@ {
                        assert(str_key_opt(after, k) == str_key_opt(before, k));
                    }
                }
                assert forall|k: Seq<char>| #[trigger] has_str_key(after, k) implies has_str_key(
                    old(self).data@,
                    k,
                ) || (exists|i: int| 0 <= i < u + 1 && #[trigger] values@[i].0@ == k) by {
                    if k == node@ {
                        assert(values@[u as int].0@ == k);
                    } else {
                        assert(str_key_opt(after, k) == str_key_opt(before, k));
                    }
                }
                assert forall|k: Seq<char>| #[trigger] has_str_key(after, k) implies str_key_val(
                    after,
                    k,
                ) == (if has_str_key(old(self).data@, k) {
                        str_key_val(old(self).data@, k)
                    } else {
                        0u64
                    }) || (exists|i: int|
                    0 <= i < u + 1 && #[trigger] values@[i].0@ == k && values@[i].1 == str_key_val(
                        after,
                        k,
                    )) by {
                    if k == node@ {
                        if str_key_val(after, k) == incoming {
                            assert(values@[u as int].0@ == k && values@[u as int].1 == str_key_val(
                                after,
                                k,
                            ));
                        } else {
                            assert(has_str_key(before, k) && str_key_val(after, k) == str_key_val(
                                before,
                                k,
                            ));
                        }
                    } else {
                        assert(str_key_opt(after, k) == str_key_opt(before, k));
                    }
                }
                assert forall|i: int| 0 <= i < u + 1 implies has_str_key(
                    after,
                    #[trigger] values@[i].0@,
                ) && str_key_val(after, values@[i].0@) >= values@[i].1 by {
                    if i < u {
                        assert(has_str_key(before, values@[i].0@) && str_key_val(
                            before,
                            values@[i].0@,
                        ) >= values@[i].1);
                        if values@[i].0@ != node@ {
                            assert(str_key_opt(after, values@[i].0@) == str_key_opt(
                                before,
                                values@[i].0@,
                            ));
                        }
                    }
                }
            }
            u = u + 1;
        }
    }
}

impl GCounter {
    /// Set this node's contribution outright (used by the add path, which
    /// only ever raises it).
    fn set_contribution(&mut self, node: &String, v: u64)
        requires
            old(self).wf(),
        ensures
            final(self).wf(),
            str_key_opt(final(self).data@, node@) == Option::Some(v),
            forall|k: Seq<char>| k != node@ ==> #[trigger] str_key_opt(final(self).data@, k)
                == str_key_opt(old(self).data@, k),
            final(self).pending == old(self).pending,
            final(self).watchers == old(self).watchers,
    {
        match str_key_find(&self.data, node) {
            Some(i) => {
                proof {
                    lemma_str_key_at(self.data@, node@, i as int);
                    lemma_str_update_frame(self.data@, i as int, v);
                }
                self.data[i].1 = v;
            },
            None => {
                proof {
                    lemma_str_push_frame(self.data@, *node, v);
                }
                self.data.push((node.clone(), v));
            },
        }
    }

    /// Store a pending request under `key`, replacing any entry already
    /// there.
    fn set_pending(&mut self, key: u64, req: PendingRequest)
        requires
            old(self).wf(),
        ensures
            final(self).wf(),
            u64_key_opt(final(self).pending@, key) == Option::Some(req),
            forall|k: u64| k != key ==> #[trigger] u64_key_opt(final(self).pending@, k)
                == u64_key_opt(old(self).pending@, k),
            final(self).data == old(self).data,
            final(self).watchers == old(self).watchers,
    {
        match u64_key_find(&self.pending, key) {
            Some(i) => {
                proof {
                    lemma_u64_key_at(self.pending@, key, i as int);
                    lemma_u64_update_frame(self.pending@, i as int, req);
                }
                self.pending[i] = (key, req);
                assert(self.pending@ =~= old(self).pending@.update(
                    i as int,
                    (old(self).pending@[i as int].0, self.pending@[i as int].1),
                ));
            },
            None => {
                proof {
                    lemma_u64_push_frame(self.pending@, key, req);
                }
                self.pending.push((key, req));
            },
        }
    }

    /// Raise this node's contribution by `delta`, saturating at the
    /// integer limit.
    fn credit(&mut self, node: &String, delta: u64)
        requires
            old(self).wf(),
        ensures
            final(self).wf(),
            final(self).pending == old(self).pending,
            final(self).watchers == old(self).watchers,
            str_key_opt(final(self).data@, node@) matches Option::Some(v) && v as int == (
            if old(self).contribution(node@) + delta <= u64::MAX {
                old(self).contribution(node@) + delta
            } else {
                u64::MAX as int
            }),
            forall|k: Seq<char>| k != node@ ==> #[trigger] str_key_opt(final(self).data@, k)
                == str_key_opt(old(self).data@, k),
    {
        let from = self.local_value(node);
        let to: u64 = if delta <= u64::MAX - from {
            from + delta
        } else {
            u64::MAX
        };
        self.set_contribution(node, to);
    }

    /// Register a one-shot waiter under the fresh `key` and build the
    /// read against the key-value service that will resolve it.
    fn set_watcher(&mut self, key: u64, delta: u64, client: &String, client_msg_id: u64) -> (cmd:
        BroadcastCommand)
        requires
            old(self).wf(),
        ensures
            final(self).wf(),
            final(self).data == old(self).data,
            final(self).pending == old(self).pending,
            cmd matches BroadcastCommand::Read { dest, msg_id } && dest@ == "seq-kv"@ && msg_id
                == key,
            u64_key_opt(final(self).watchers@, key) matches Option::Some(w) && w.delta == delta
                && w.dest@ == client@ && w.msg_id == client_msg_id,
            forall|k: u64| k != key ==> #[trigger] u64_key_opt(final(self).watchers@, k)
                == u64_key_opt(old(self).watchers@, k),
    {
        let w = ReadWaiter { delta, dest: client.clone(), msg_id: client_msg_id };
        match u64_key_find(&self.watchers, key) {
            Some(i) => {
                proof {
                    lemma_u64_key_at(self.watchers@, key, i as int);
                    lemma_u64_update_frame(self.watchers@, i as int, w);
                }
                self.watchers[i] = (key, w);
                assert(self.watchers@ =~= old(self).watchers@.update(
                    i as int,
                    (old(self).watchers@[i as int].0, self.watchers@[i as int].1),
                ));
            },
            None => {
                proof {
                    lemma_u64_push_frame(self.watchers@, key, w);
                }
                self.watchers.push((key, w));
            },
        }
        BroadcastCommand::Read { dest: "seq-kv".to_owned(), msg_id: key }
    }

    /// Whether a waiter is registered under `key`.
    pub fn has_watcher(&self, key: u64) -> (r: bool)
        ensures
            r == has_u64_key(self.watchers@, key),
    {
        match u64_key_find(&self.watchers, key) {
            Some(i) => {
                proof {
                    assert(has_u64_key(self.watchers@, key));
                }
                true
            },
            None => false,
        }
    }

    /// Accept a client `add`: credit this node's contribution by `delta`
    /// at once (the client is answered optimistically), register a waiter
    /// under the fresh `read_key`, and build the read that asks the
    /// key-value service for the counter's current value. The answer will
    /// carry the compare-and-set.
    pub fn process_add(&mut self, node: &String, read_key: u64, delta: u64, client: &String,
        client_msg_id: u64) -> (cmd: BroadcastCommand)
        requires
            old(self).wf(),
        ensures
            final(self).wf(),
            final(self).pending == old(self).pending,
            ({
                let to = if old(self).contribution(node@) + delta <= u64::MAX {
                    old(self).contribution(node@) + delta
                } else {
                    u64::MAX as int
                };
                &&& (cmd matches BroadcastCommand::Read { dest, msg_id } && dest@ == "seq-kv"@
                    && msg_id == read_key)
                &&& (str_key_opt(final(self).data@, node@) matches Option::Some(v) && v as int
                    == to)
                &&& (u64_key_opt(final(self).watchers@, read_key) matches Option::Some(w)
                    && w.delta == delta && w.dest@ == client@ && w.msg_id == client_msg_id)
            }),
            forall|k: Seq<char>| k != node@ ==> #[trigger] str_key_opt(final(self).data@, k)
                == str_key_opt(old(self).data@, k),
            forall|k: u64| k != read_key ==> #[trigger] u64_key_opt(final(self).watchers@, k)
                == u64_key_opt(old(self).watchers@, k),
            str_key_opt(old(self).data@, node@) matches Option::Some(v) ==> str_key_val(
                final(self).data@,
                node@,
            ) >= v,
    {
        self.credit(node, delta);
        self.set_watcher(read_key, delta, client, client_msg_id)
    }

    /// Resolve a waiter with the value the key-value service returned:
    /// the node's contribution rises to at least that value plus the
    /// waited delta, the attempt is recorded under the fresh `cas_key`,
    /// and the compare-and-set moving the stored counter from the read
    /// value to the target is built. An answer nobody waits for changes
    /// nothing.
    pub fn resolve_read(&mut self, node: &String, read_id: u64, value: u64, cas_key: u64) -> (cmd:
        Option<BroadcastCommand>)
        requires
            old(self).wf(),
        ensures
            final(self).wf(),
            !has_u64_key(old(self).watchers@, read_id) ==> *final(self) == *old(self) && cmd
                is None,
            has_u64_key(old(self).watchers@, read_id) ==> ({
                let w = u64_key_val(old(self).watchers@, read_id);
                let to = if value + w.delta <= u64::MAX {
                    value + w.delta
                } else {
                    u64::MAX as int
                };
                &&& (cmd matches Option::Some(BroadcastCommand::Cas {
                    dest,
                    msg_id,
                    from,
                    to: t,
                    create_if_not_exists,
                }) && dest@ == "seq-kv"@ && msg_id == cas_key && from == value && t as int == to
                    && create_if_not_exists)
                &&& !has_u64_key(final(self).watchers@, read_id)
                &&& (forall|k: u64| k != read_id ==> #[trigger] u64_key_opt(
                    final(self).watchers@,
                    k,
                ) == u64_key_opt(old(self).watchers@, k))
                &&& (str_key_opt(final(self).data@, node@) matches Option::Some(v) && v as int == (
                if old(self).contribution(node@) >= to {
                    old(self).contribution(node@)
                } else {
                    to
                }))
                &&& (forall|k: Seq<char>| k != node@ ==> #[trigger] str_key_opt(
                    final(self).data@,
                    k,
                ) == str_key_opt(old(self).data@, k))
                &&& (u64_key_opt(final(self).pending@, cas_key) matches Option::Some(req)
                    && req.from == value && req.to as int == to && req.dest@ == w.dest@
                    && req.msg_id == w.msg_id)
                &&& (forall|k: u64| k != cas_key ==> #[trigger] u64_key_opt(
                    final(self).pending@,
                    k,
                ) == u64_key_opt(old(self).pending@, k))
            }),
    {
        let wi = match u64_key_find(&self.watchers, read_id) {
            None => {
                return None;
            },
            Some(i) => i,
        };
        proof {
            lemma_u64_key_at(self.watchers@, read_id, wi as int);
            lemma_u64_remove_frame(self.watchers@, wi as int);
        }
        let entry = self.watchers.remove(wi);
        let w = entry.1;
        let to: u64 = if w.delta <= u64::MAX - value {
            value + w.delta
        } else {
            u64::MAX
        };
        let cur = self.local_value(node);
        if cur < to {
            self.set_contribution(node, to);
        }
        self.set_pending(
            cas_key,
            PendingRequest { dest: w.dest, from: value, msg_id: w.msg_id, to },
        );
        Some(
            BroadcastCommand::Cas {
                dest: "seq-kv".to_owned(),
                msg_id: cas_key,
                from: value,
                to,
                create_if_not_exists: true,
            },
        )
    }

    /// Drop a waiter whose read has timed out; dropping an unknown key
    /// changes nothing.
    pub fn drop_watcher(&mut self, key: u64)
        requires
            old(self).wf(),
        ensures
            final(self).wf(),
            final(self).data == old(self).data,
            final(self).pending == old(self).pending,
            !has_u64_key(final(self).watchers@, key),
            forall|k: u64| k != key ==> #[trigger] u64_key_opt(final(self).watchers@, k)
                == u64_key_opt(old(self).watchers@, k),
    {
        match u64_key_find(&self.watchers, key) {
            Some(i) => {
                proof {
                    lemma_u64_key_at(self.watchers@, key, i as int);
                    lemma_u64_remove_frame(self.watchers@, i as int);
                }
                self.watchers.remove(i);
            },
            None => {},
        }
    }

    /// Drop the pending attempt answered by `cas_ok`, if it is still
    /// recorded. Dropping twice is harmless.
    pub fn remove_from_pending(&mut self, msg_id: u64)
        requires
            old(self).wf(),
        ensures
            final(self).wf(),
            final(self).data == old(self).data,
            final(self).watchers == old(self).watchers,
            !has_u64_key(final(self).pending@, msg_id),
            forall|k: u64| k != msg_id ==> #[trigger] u64_key_opt(final(self).pending@, k)
                == u64_key_opt(old(self).pending@, k),
    {
        match u64_key_find(&self.pending, msg_id) {
            Some(i) => {
                proof {
                    lemma_u64_key_at(self.pending@, msg_id, i as int);
                    lemma_u64_remove_frame(self.pending@, i as int);
                }
                self.pending.remove(i);
            },
            None => {},
        }
    }

    /// Answer a `cas` failure: look up the pending attempt, and either
    /// drop it (the stored value has already passed our target) or
    /// reissue it under the fresh `new_key` with the refreshed `from`.
    pub fn retry_for_cas(&mut self, msg_id: u64, fresh: u64, new_key: u64) -> (cmd: Option<
        BroadcastCommand,
    >)
        requires
            old(self).wf(),
        ensures
            final(self).wf(),
            final(self).data == old(self).data,
            final(self).watchers == old(self).watchers,
            !has_u64_key(old(self).pending@, msg_id) ==> final(self).pending@ == old(
                self,
            ).pending@ && cmd is None,
            (has_u64_key(old(self).pending@, msg_id) && fresh > u64_key_val(
                old(self).pending@,
                msg_id,
            ).to) ==> cmd is None && !has_u64_key(final(self).pending@, msg_id) && (forall|k: u64|
                k != msg_id ==> #[trigger] u64_key_opt(final(self).pending@, k) == u64_key_opt(
                    old(self).pending@,
                    k,
                )),
            (has_u64_key(old(self).pending@, msg_id) && fresh <= u64_key_val(
                old(self).pending@,
                msg_id,
            ).to) ==> ({
                let req = u64_key_val(old(self).pending@, msg_id);
                &&& (cmd matches Option::Some(BroadcastCommand::Cas {
                    dest,
                    msg_id: m,
                    from,
                    to,
                    create_if_not_exists,
                }) && dest@ == "seq-kv"@ && m == new_key && from == fresh && to == req.to
                    && create_if_not_exists)
                &&& (u64_key_opt(final(self).pending@, new_key) matches Option::Some(r) && r.from
                    == fresh && r.to == req.to && r.msg_id == req.msg_id && r.dest@ == req.dest@)
                &&& (forall|k: u64| k != msg_id && k != new_key ==> #[trigger] u64_key_opt(
                    final(self).pending@,
                    k,
                ) == u64_key_opt(old(self).pending@, k))
                &&& (msg_id != new_key ==> !has_u64_key(final(self).pending@, msg_id))
            }),
    {
        match u64_key_find(&self.pending, msg_id) {
            None => None,
            Some(i) => {
                proof {
                    lemma_u64_key_at(self.pending@, msg_id, i as int);
                    lemma_u64_remove_frame(self.pending@, i as int);
                }
                let entry = self.pending.remove(i);
                let req = entry.1;
                let ghost greq = req;
                let ghost mid = self.pending@;
                if fresh > req.to {
                    None
                } else {
                    self.set_pending(
                        new_key,
                        PendingRequest {
                            dest: req.dest,
                            from: fresh,
                            msg_id: req.msg_id,
                            to: req.to,
                        },
                    );
                    proof {
                        assert(greq == u64_key_val(old(self).pending@, msg_id));
                        assert(u64_key_opt(self.pending@, new_key) == Option::Some(
                            PendingRequest {
                                dest: greq.dest,
                                from: fresh,
                                msg_id: greq.msg_id,
                                to: greq.to,
                            },
                        ));
                        assert forall|k: u64| k != msg_id && k != new_key implies #[trigger] u64_key_opt(
                            self.pending@,
                            k,
                        ) == u64_key_opt(old(self).pending@, k) by {
                            assert(u64_key_opt(self.pending@, k) == u64_key_opt(mid, k));
                            assert(u64_key_opt(mid, k) == u64_key_opt(old(self).pending@, k));
                        }
                        if msg_id != new_key {
                            assert(u64_key_opt(self.pending@, msg_id) == u64_key_opt(mid, msg_id));
                            assert(u64_key_opt(mid, msg_id) is None);
                        }
                    }
                    Some(
                        BroadcastCommand::Cas {
                            dest: "seq-kv".to_owned(),
                            msg_id: new_key,
                            from: fresh,
                            to: req.to,
                            create_if_not_exists: true,
                        },
                    )
                }
            },
        }
    }
}

/// Every contribution map sums to a non-negative total.
pub proof fn lemma_sum_nonneg(s: Seq<(String, u64)>)
    ensures
        sum_seq(s) >= 0,
    decreases s.len(),
{
    if s.len() > 0 {
        lemma_sum_nonneg(s.drop_last());
    }
}

} // verus!
