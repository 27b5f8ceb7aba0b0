//! The peer registry: each known neighbor carries a liveness status with
//! millisecond timestamps. Statuses move between Online, Offline and
//! Rejoining; the sweeper moves stale Online peers to Offline.

use vstd::prelude::*;

use crate::vecutil::{
    lemma_str_key_at, lemma_str_push_frame, lemma_str_update_frame, seq_has_name,
    str_key_find, str_key_opt, str_keys_unique,
};

verus! {

/// The liveness of one peer. `Online(t)` and `Offline(t)` carry the time
/// of the transition; `Rejoining(last_seen, now)` carries the time the
/// peer was last seen and the time it reappeared.
#[derive(Clone, Copy, Debug, PartialEq, Eq, Structural)]
pub enum NodeStatus {
    Online(u64),
    Offline(u64),
    Rejoining(u64, u64),
}

/// How a topology update moves one peer's status: an unknown peer comes
/// up Online, an Offline peer turns Rejoining, anything else refreshes to
/// Online.
pub open spec fn spec_update_status(s: Option<NodeStatus>, time: u64) -> NodeStatus {
    match s {
        Option::None => NodeStatus::Online(time),
        Option::Some(NodeStatus::Offline(t)) => NodeStatus::Rejoining(t, time),
        Option::Some(NodeStatus::Online(_)) => NodeStatus::Online(time),
        Option::Some(NodeStatus::Rejoining(_, _)) => NodeStatus::Online(time),
    }
}

/// Apply a topology update to the registry: every listed peer moves as
/// `spec_update_status` says; peers not listed keep their entry. A name
/// listed twice counts once.
pub fn update_statuses(neighbors: &mut Vec<(String, NodeStatus)>, update: &Vec<String>, time: u64)
    requires
        str_keys_unique(old(neighbors)@),
    ensures
        str_keys_unique(final(neighbors)@),
        forall|i: int| 0 <= i < update@.len() ==> #[trigger] str_key_opt(
            final(neighbors)@,
            update@[i]@,
        ) == Option::Some(spec_update_status(str_key_opt(old(neighbors)@, update@[i]@), time)),
        forall|k: Seq<char>| !seq_has_name(update@, k) ==> #[trigger] str_key_opt(
            final(neighbors)@,
            k,
        ) == str_key_opt(old(neighbors)@, k),
{
    let n = update.len();
    let mut u: usize = 0;
    while u < n
        invariant
            u <= n,
            n == update@.len(),
            str_keys_unique(neighbors@),
            forall|i: int| 0 <= i < u ==> #[trigger] str_key_opt(neighbors@, update@[i]@)
                == Option::Some(spec_update_status(str_key_opt(old(neighbors)@, update@[i]@), time)),
            forall|k: Seq<char>| !seq_has_name(update@.take(u as int), k) ==> #[trigger] str_key_opt(
                neighbors@,
                k,
            ) == str_key_opt(old(neighbors)@, k),
        decreases n - u,
    {
        let node: &String = &update[u];
        let mut seen_before: bool = false;
        let mut j: usize = 0;
        while j < u
            invariant
                j <= u,
                u < n,
                n == update@.len(),
                node@ == update@[u as int]@,
                seen_before ==> (exists|i: int|
                    0 <= i < j && #[trigger] update@[i]@ == update@[u as int]@),
                !seen_before ==> (forall|i: int|
                    0 <= i < j ==> #[trigger] update@[i]@ != update@[u as int]@),
            decreases u - j,
        {
            if update[j].eq(node) {
                seen_before = true;
                assert(update@[j as int]@ == update@[u as int]@);
            }
            j = j + 1;
        }
        if !seen_before {
            assert(!seq_has_name(update@.take(u as int), node@)) by {
                if seq_has_name(update@.take(u as int), node@) {
                    let i = choose|i: int|
                        0 <= i < u && update@.take(u as int)[i]@ == update@[u as int]@;
                    assert(update@[i]@ == update@[u as int]@);
                }
            }
            match str_key_find(neighbors, node) {
                Some(idx) => {
                    proof {
                        lemma_str_key_at(neighbors@, node@, idx as int);
                    }
                    let fresh: NodeStatus = match neighbors[idx].1 {
                        NodeStatus::Offline(t) => NodeStatus::Rejoining(t, time),
                        _ => NodeStatus::Online(time),
                    };
                    proof {
                        lemma_str_update_frame(neighbors@, idx as int, fresh);
                    }
                    neighbors[idx].1 = fresh;
                },
                None => {
                    let fresh: NodeStatus = NodeStatus::Online(time);
                    proof {
                        lemma_str_push_frame(neighbors@, *node, fresh);
                    }
                    neighbors.push((node.clone(), fresh));
                },
            }
        }
        proof {
            assert(update@.take(u + 1).drop_last() =~= update@.take(u as int));
            assert forall|k: Seq<char>| !seq_has_name(update@.take(u + 1), k) implies #[trigger] str_key_opt(
                neighbors@,
                k,
            ) == str_key_opt(old(neighbors)@, k) by {
                assert(!seq_has_name(update@.take(u as int), k)) by {
                    if seq_has_name(update@.take(u as int), k) {
                        let i = choose|i: int| 0 <= i < u && update@.take(u as int)[i]@ == k;
                        assert(update@.take(u + 1)[i]@ == k);
                    }
                }
                assert(k != update@[u as int]@) by {
                    assert(update@.take(u + 1)[u as int]@ == update@[u as int]@);
                }
            }
        }
        u = u + 1;
    }
    proof {
        assert forall|k: Seq<char>| !seq_has_name(update@, k) implies !seq_has_name(
            update@.take(n as int),
            k,
        ) by {
            if seq_has_name(update@.take(n as int), k) {
                let i = choose|i: int| 0 <= i < n && update@.take(n as int)[i]@ == k;
                assert(update@[i]@ == k);
            }
        }
    }
}

/// Whether some peer named `name` is Online in the registry.
pub open spec fn name_is_online(neighbors: Seq<(String, NodeStatus)>, name: Seq<char>) -> bool {
    exists|j: int|
        0 <= j < neighbors.len() && #[trigger] neighbors[j].0@ == name && neighbors[j].1 is Online
}

/// Whether some peer named `name` is Offline in the registry.
pub open spec fn name_is_offline(neighbors: Seq<(String, NodeStatus)>, name: Seq<char>) -> bool {
    exists|j: int|
        0 <= j < neighbors.len() && #[trigger] neighbors[j].0@ == name && neighbors[j].1 is Offline
}

/// Whether one of the first `k` registry entries is named `name`.
pub open spec fn name_before(neighbors: Seq<(String, NodeStatus)>, k: int, name: Seq<char>) -> bool {
    exists|j: int| 0 <= j < k && #[trigger] neighbors[j].0@ == name
}

/// The names of all peers whose status is Online.
pub fn online_nodes(neighbors: &Vec<(String, NodeStatus)>) -> (r: Vec<String>)
    ensures
        forall|i: int| 0 <= i < r@.len() ==> name_is_online(neighbors@, #[trigger] r@[i]@),
        forall|j: int| 0 <= j < neighbors@.len() && neighbors@[j].1 is Online ==> seq_has_name(
            r@,
            #[trigger] neighbors@[j].0@,
        ),
        str_keys_unique(neighbors@) ==> (forall|p: int, q: int|
            0 <= p < q < r@.len() ==> r@[p]@ != r@[q]@),
{
    let n = neighbors.len();
    let mut r: Vec<String> = Vec::new();
    let mut i: usize = 0;
    while i < n
        invariant
            i <= n,
            n == neighbors@.len(),
            forall|p: int| 0 <= p < r@.len() ==> name_is_online(neighbors@, #[trigger] r@[p]@),
            forall|j: int| 0 <= j < i && neighbors@[j].1 is Online ==> seq_has_name(
                r@,
                #[trigger] neighbors@[j].0@,
            ),
            forall|p: int| 0 <= p < r@.len() ==> name_before(neighbors@, i as int, #[trigger] r@[p]@),
            str_keys_unique(neighbors@) ==> (forall|p: int, q: int|
                0 <= p < q < r@.len() ==> r@[p]@ != r@[q]@),
        decreases n - i,
    {
        if matches!(neighbors[i].1, NodeStatus::Online(_)) {
            let ghost r0 = r@;
            r.push(neighbors[i].0.clone());
            assert(forall|p: int| 0 <= p < r0.len() ==> r@[p] == r0[p]);
            assert(name_is_online(neighbors@, r@[r0.len() as int]@));
            assert(seq_has_name(r@, neighbors@[i as int].0@));
            assert forall|p: int| 0 <= p < r@.len() implies name_before(
                neighbors@,
                i + 1,
                #[trigger] r@[p]@,
            ) by {
                if p < r0.len() {
                    let j = choose|j: int| 0 <= j < i && #[trigger] neighbors@[j].0@ == r0[p]@;
                    assert(neighbors@[j].0@ == r@[p]@);
                } else {
                    assert(neighbors@[i as int].0@ == r@[p]@);
                }
            }
            proof {
                if str_keys_unique(neighbors@) {
                    assert forall|p: int, q: int| 0 <= p < q < r@.len() implies r@[p]@
                        != r@[q]@ by {
                        if q == r0.len() {
                            assert(name_before(neighbors@, i as int, r0[p]@));
                            let j = choose|j: int|
                                0 <= j < i && #[trigger] neighbors@[j].0@ == r0[p]@;
                            assert(neighbors@[j].0@ != neighbors@[i as int].0@);
                        }
                    }
                }
            }
            assert forall|j: int| 0 <= j < i + 1 && neighbors@[j].1 is Online implies seq_has_name(
                r@,
                #[trigger] neighbors@[j].0@,
            ) by {
                if j < i {
                    let p = choose|p: int| 0 <= p < r0.len() && #[trigger] r0[p]@ == neighbors@[j].0@;
                    assert(r@[p]@ == neighbors@[j].0@);
                }
            }
        }
        i = i + 1;
    }
    r
}

/// The names of all peers whose status is Offline.
pub fn offline_nodes(neighbors: &Vec<(String, NodeStatus)>) -> (r: Vec<String>)
    ensures
        forall|i: int| 0 <= i < r@.len() ==> name_is_offline(neighbors@, #[trigger] r@[i]@),
        forall|j: int| 0 <= j < neighbors@.len() && neighbors@[j].1 is Offline ==> seq_has_name(
            r@,
            #[trigger] neighbors@[j].0@,
        ),
        str_keys_unique(neighbors@) ==> (forall|p: int, q: int|
            0 <= p < q < r@.len() ==> r@[p]@ != r@[q]@),
{
    let n = neighbors.len();
    let mut r: Vec<String> = Vec::new();
    let mut i: usize = 0;
    while i < n
        invariant
            i <= n,
            n == neighbors@.len(),
            forall|p: int| 0 <= p < r@.len() ==> name_is_offline(neighbors@, #[trigger] r@[p]@),
            forall|j: int| 0 <= j < i && neighbors@[j].1 is Offline ==> seq_has_name(
                r@,
                #[trigger] neighbors@[j].0@,
            ),
            forall|p: int| 0 <= p < r@.len() ==> name_before(neighbors@, i as int, #[trigger] r@[p]@),
            str_keys_unique(neighbors@) ==> (forall|p: int, q: int|
                0 <= p < q < r@.len() ==> r@[p]@ != r@[q]@),
        decreases n - i,
    {
        if matches!(neighbors[i].1, NodeStatus::Offline(_)) {
            let ghost r0 = r@;
            r.push(neighbors[i].0.clone());
            assert(forall|p: int| 0 <= p < r0.len() ==> r@[p] == r0[p]);
            assert(name_is_offline(neighbors@, r@[r0.len() as int]@));
            assert(seq_has_name(r@, neighbors@[i as int].0@));
            assert forall|p: int| 0 <= p < r@.len() implies name_before(
                neighbors@,
                i + 1,
                #[trigger] r@[p]@,
            ) by {
                if p < r0.len() {
                    let j = choose|j: int| 0 <= j < i && #[trigger] neighbors@[j].0@ == r0[p]@;
                    assert(neighbors@[j].0@ == r@[p]@);
                } else {
                    assert(neighbors@[i as int].0@ == r@[p]@);
                }
            }
            proof {
                if str_keys_unique(neighbors@) {
                    assert forall|p: int, q: int| 0 <= p < q < r@.len() implies r@[p]@
                        != r@[q]@ by {
                        if q == r0.len() {
                            assert(name_before(neighbors@, i as int, r0[p]@));
                            let j = choose|j: int|
                                0 <= j < i && #[trigger] neighbors@[j].0@ == r0[p]@;
                            assert(neighbors@[j].0@ != neighbors@[i as int].0@);
                        }
                    }
                }
            }
            assert forall|j: int| 0 <= j < i + 1 && neighbors@[j].1 is Offline implies seq_has_name(
                r@,
                #[trigger] neighbors@[j].0@,
            ) by {
                if j < i {
                    let p = choose|p: int| 0 <= p < r0.len() && #[trigger] r0[p]@ == neighbors@[j].0@;
                    assert(r@[p]@ == neighbors@[j].0@);
                }
            }
        }
        i = i + 1;
    }
    r
}

/// Move every Online peer whose timestamp is more than 30 000 ms old to
/// Offline, stamped with the sweep time. Afterwards every Online peer was
/// seen within the staleness window.
pub fn sweep_statuses(neighbors: &mut Vec<(String, NodeStatus)>, now: u64)
    requires
        str_keys_unique(old(neighbors)@),
    ensures
        str_keys_unique(final(neighbors)@),
        final(neighbors)@.len() == old(neighbors)@.len(),
        forall|j: int| 0 <= j < old(neighbors)@.len() ==> #[trigger] final(neighbors)@[j].0 == old(
            neighbors,
        )@[j].0 && final(neighbors)@[j].1 == (
        match old(neighbors)@[j].1 {
            NodeStatus::Online(t) => if now > t + 30000 {
                NodeStatus::Offline(now)
            } else {
                NodeStatus::Online(t)
            },
            s => s,
        }),
        forall|j: int| 0 <= j < final(neighbors)@.len() && #[trigger] final(neighbors)@[j].1
            is Online ==> now <= final(neighbors)@[j].1->Online_0 + 30000
            || final(neighbors)@[j].1->Online_0 > now,
{
    let n = neighbors.len();
    let mut i: usize = 0;
    while i < n
        invariant
            i <= n,
            n == neighbors@.len() == old(neighbors)@.len(),
            str_keys_unique(old(neighbors)@),
            forall|j: int| 0 <= j < n ==> #[trigger] neighbors@[j].0 == old(neighbors)@[j].0,
            forall|j: int| i <= j < n ==> #[trigger] neighbors@[j].1 == old(neighbors)@[j].1,
            forall|j: int| 0 <= j < i ==> #[trigger] neighbors@[j].1 == (
            match old(neighbors)@[j].1 {
                NodeStatus::Online(t) => if now > t + 30000 {
                    NodeStatus::Offline(now)
                } else {
                    NodeStatus::Online(t)
                },
                s => s,
            }),
        decreases n - i,
    {
        if let NodeStatus::Online(t) = neighbors[i].1 {
            if t <= u64::MAX - 30000 && now > t + 30000 {
                neighbors[i].1 = NodeStatus::Offline(now);
            }
        }
        i = i + 1;
    }
    assert(str_keys_unique(neighbors@)) by {
        assert(forall|j: int| 0 <= j < neighbors@.len() ==> #[trigger] neighbors@[j].0@ == old(
            neighbors,
        )@[j].0@);
    }
}

} // verus!
