//! Per-node bookkeeping for the simple workloads, with a string id
//! generator: node name, zero-padded millisecond timestamp and zero-padded
//! sequence number, so that the lexicographic order of ids of one node
//! follows the order in which they were issued.

use vstd::prelude::*;

use crate::strutil::{dec_pad, push_char, push_dec_pad};

verus! {

/// The id string composed of a node name, a timestamp and a sequence
/// number, the numbers zero-padded to fixed widths.
pub open spec fn spec_state_id(node: Seq<char>, ts: int, seq: int) -> Seq<char> {
    node + seq!['-'] + dec_pad(ts, 13) + seq!['-'] + dec_pad(seq, 6)
}

/// Mutable per-node state shared by the handlers of the simple workloads.
pub struct State {
    pub node_id: Option<String>,
    pub echo_log: Vec<String>,
    pub broadcast_peers: Vec<String>,
    pub current_workload: Option<String>,
    pub counter: u64,
}

impl State {
    /// A fresh state: no identity, no history, counter at zero.
    pub fn new() -> (s: State)
        ensures
            s.node_id is None,
            s.current_workload is None,
            s.echo_log@ == Seq::<String>::empty(),
            s.broadcast_peers@ == Seq::<String>::empty(),
            s.counter == 0,
    {
        State {
            node_id: None,
            current_workload: None,
            echo_log: Vec::new(),
            broadcast_peers: Vec::new(),
            counter: 0,
        }
    }

    /// Produce the next id string for wall-clock time `now_ms` and advance
    /// the sequence counter.
    pub fn next_id(&mut self, now_ms: u64) -> (r: String)
        requires
            old(self).node_id is Some,
            old(self).counter < u64::MAX,
        ensures
            r@ == spec_state_id(
                old(self).node_id->0@,
                now_ms as int,
                old(self).counter as int,
            ),
            final(self).counter == old(self).counter + 1,
            final(self).node_id == old(self).node_id,
            final(self).echo_log == old(self).echo_log,
            final(self).broadcast_peers == old(self).broadcast_peers,
            final(self).current_workload == old(self).current_workload,
    {
        let id: &String = self.node_id.as_ref().unwrap();
        let mut out: String = id.clone();
        push_char(&mut out, '-');
        push_dec_pad(&mut out, now_ms, 13);
        push_char(&mut out, '-');
        push_dec_pad(&mut out, self.counter, 6);
        let seq = self.counter;
        self.counter = self.counter + 1;
        assert(out@ =~= spec_state_id(old(self).node_id->0@, now_ms as int, seq as int));
        out
    }
}

} // verus!
