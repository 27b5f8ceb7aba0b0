//! The dispatcher: one entry point per inbound envelope. It deduplicates
//! by (source, message id), routes by body tag, mutates the node state,
//! and yields at most one reply line plus any outbound commands.

use vstd::prelude::*;

use crate::commands::{spec_envelope, BroadcastCommand};
use crate::json::{json_str, json_u64_list};
use crate::message::{spec_cache_id, Body, BroadcastMessage, Message, ReadMessage, ReplyBody, ReplyMessage};
use crate::snowflake::{CUSTOM_EPOCH, MAX_TIMESTAMP};
use crate::storage::{stores_value, Storage};
use crate::strutil::{dec_seq, push_dec};
use crate::vecutil::{
    has_str_key, has_u64_key, in_list, lemma_str_key_at, seq_has_name, str_key_find, str_key_opt,
    str_key_val, u64_key_opt, u64_key_val,
};

verus! {

/// The reply line to an `init`.
pub open spec fn init_ok_line(node: Seq<char>, client: Seq<char>, id: u64) -> Seq<char> {
    spec_envelope(node, client, "{\"type\":\"init_ok\",\"in_reply_to\":"@ + dec_seq(id as int) + "}"@)
}

/// The reply line to an `echo`.
pub open spec fn echo_ok_line(node: Seq<char>, client: Seq<char>, id: u64, echo: Seq<char>) -> Seq<
    char,
> {
    spec_envelope(
        node,
        client,
        "{\"type\":\"echo_ok\",\"in_reply_to\":"@ + dec_seq(id as int) + ",\"echo\":"@ + json_str(
            echo,
        ) + "}"@,
    )
}

/// The reply line to a `generate`, carrying the fresh id rendered in
/// decimal.
pub open spec fn generate_ok_line(node: Seq<char>, client: Seq<char>, id: u64, idval: int) -> Seq<
    char,
> {
    spec_envelope(
        node,
        client,
        "{\"type\":\"generate_ok\",\"in_reply_to\":"@ + dec_seq(id as int) + ",\"id\":"@ + json_str(
            dec_seq(idval),
        ) + "}"@,
    )
}

/// The reply line to a `topology`.
pub open spec fn topology_ok_line(node: Seq<char>, client: Seq<char>, id: u64) -> Seq<char> {
    spec_envelope(
        node,
        client,
        "{\"type\":\"topology_ok\",\"in_reply_to\":"@ + dec_seq(id as int) + "}"@,
    )
}

/// The reply line to a `broadcast`.
pub open spec fn broadcast_ok_line(node: Seq<char>, client: Seq<char>, id: u64) -> Seq<char> {
    spec_envelope(
        node,
        client,
        "{\"type\":\"broadcast_ok\",\"in_reply_to\":"@ + dec_seq(id as int) + "}"@,
    )
}

/// The reply line to an `add`.
pub open spec fn add_ok_line(node: Seq<char>, client: Seq<char>, id: u64) -> Seq<char> {
    spec_envelope(node, client, "{\"type\":\"add_ok\",\"in_reply_to\":"@ + dec_seq(id as int) + "}"@)
}

/// The reply line to a `read` under the broadcast workload: the list of
/// stored values.
pub open spec fn read_ok_list_line(
    node: Seq<char>,
    client: Seq<char>,
    id: u64,
    vals: Seq<u64>,
) -> Seq<char> {
    spec_envelope(
        node,
        client,
        "{\"type\":\"read_ok\",\"in_reply_to\":"@ + dec_seq(id as int) + ",\"messages\":"@
            + json_u64_list(vals) + "}"@,
    )
}

/// The reply line to a `read` under the counter workload: the total.
pub open spec fn read_ok_sum_line(node: Seq<char>, client: Seq<char>, id: u64, total: u64) -> Seq<
    char,
> {
    spec_envelope(
        node,
        client,
        "{\"type\":\"read_ok\",\"in_reply_to\":"@ + dec_seq(id as int) + ",\"messages\":"@ + dec_seq(
            total as int,
        ) + "}"@,
    )
}

/// The broadcast values of the store, in order.
pub open spec fn values_of(values: Seq<(u64, (String, u64))>) -> Seq<u64> {
    Seq::new(values.len(), |i: int| values[i].1.1)
}

/// Build the `init_ok` reply.
pub fn handle_init(src: String, dest: String, msg_id: u64) -> (r: String)
    ensures
        r@ == init_ok_line(dest@, src@, msg_id),
{
    let reply = ReplyMessage { src: dest, dest: src, body: ReplyBody::InitOk { in_reply_to: msg_id } };
    let r = crate::json::reply_to_json(&reply);
    assert(r@ =~= init_ok_line(reply.src@, reply.dest@, msg_id));
    r
}

/// Build the `echo_ok` reply, repeating the echoed text.
pub fn handle_echo(src: String, dest: String, msg_id: u64, echo: String) -> (r: String)
    ensures
        r@ == echo_ok_line(dest@, src@, msg_id, echo@),
{
    let ghost e = echo@;
    let reply = ReplyMessage {
        src: dest,
        dest: src,
        body: ReplyBody::EchoOk { in_reply_to: msg_id, echo },
    };
    let r = crate::json::reply_to_json(&reply);
    assert(r@ =~= echo_ok_line(reply.src@, reply.dest@, msg_id, e));
    r
}

/// Build the `generate_ok` reply around a fresh id.
pub fn handle_id_gen(src: String, dest: String, msg_id: u64, id: u64) -> (r: String)
    ensures
        r@ == generate_ok_line(dest@, src@, msg_id, id as int),
{
    let mut ids = String::new();
    push_dec(&mut ids, id);
    let reply = ReplyMessage {
        src: dest,
        dest: src,
        body: ReplyBody::GenerateOk { id: ids, in_reply_to: msg_id },
    };
    let r = crate::json::reply_to_json(&reply);
    assert(r@ =~= generate_ok_line(reply.src@, reply.dest@, msg_id, id as int));
    r
}

/// Build the `topology_ok` reply.
pub fn handle_topology(src: String, dest: String, msg_id: u64) -> (r: String)
    ensures
        r@ == topology_ok_line(dest@, src@, msg_id),
{
    let reply = ReplyMessage {
        src: dest,
        dest: src,
        body: ReplyBody::TopologyOk { in_reply_to: msg_id },
    };
    let r = crate::json::reply_to_json(&reply);
    assert(r@ =~= topology_ok_line(reply.src@, reply.dest@, msg_id));
    r
}

/// Build the `broadcast_ok` reply.
pub fn handle_broadcast(src: String, dest: String, msg_id: u64) -> (r: String)
    ensures
        r@ == broadcast_ok_line(dest@, src@, msg_id),
{
    let reply = ReplyMessage {
        src: dest,
        dest: src,
        body: ReplyBody::BroadcastOk { in_reply_to: msg_id },
    };
    let r = crate::json::reply_to_json(&reply);
    assert(r@ =~= broadcast_ok_line(reply.src@, reply.dest@, msg_id));
    r
}

/// Build the `add_ok` reply.
pub fn handle_add(src: String, dest: String, msg_id: u64) -> (r: String)
    ensures
        r@ == add_ok_line(dest@, src@, msg_id),
{
    let reply = ReplyMessage { src: dest, dest: src, body: ReplyBody::AddOk { in_reply_to: msg_id } };
    let r = crate::json::reply_to_json(&reply);
    assert(r@ =~= add_ok_line(reply.src@, reply.dest@, msg_id));
    r
}

/// Build the `read_ok` reply carrying the snapshot of broadcast values.
pub fn handle_read(src: String, dest: String, msg_id: u64, vals: Vec<u64>) -> (r: String)
    ensures
        r@ == read_ok_list_line(dest@, src@, msg_id, vals@),
{
    let ghost vs = vals@;
    let reply = ReplyMessage {
        src: dest,
        dest: src,
        body: ReplyBody::ReadOk { in_reply_to: msg_id, messages: ReadMessage::Multiple(vals) },
    };
    let r = crate::json::reply_to_json(&reply);
    assert(r@ =~= read_ok_list_line(reply.src@, reply.dest@, msg_id, vs));
    r
}

/// Build the `read_ok` reply carrying the counter total.
pub fn handle_g_counter_read(src: String, dest: String, msg_id: u64, total: u64) -> (r: String)
    ensures
        r@ == read_ok_sum_line(dest@, src@, msg_id, total),
{
    let reply = ReplyMessage {
        src: dest,
        dest: src,
        body: ReplyBody::ReadOk { in_reply_to: msg_id, messages: ReadMessage::Single(total) },
    };
    let r = crate::json::reply_to_json(&reply);
    assert(r@ =~= read_ok_sum_line(reply.src@, reply.dest@, msg_id, total));
    r
}

/// Whether the cache holds an entry for (source, id).
pub open spec fn cache_has(
    c: Seq<((String, u64), Option<String>)>,
    src: Seq<char>,
    id: u64,
) -> bool {
    exists|i: int| 0 <= i < c.len() && #[trigger] c[i].0.0@ == src && c[i].0.1 == id
}

/// The index of the entry for (source, id).
pub open spec fn cache_idx(
    c: Seq<((String, u64), Option<String>)>,
    src: Seq<char>,
    id: u64,
) -> int {
    choose|i: int| 0 <= i < c.len() && #[trigger] c[i].0.0@ == src && c[i].0.1 == id
}

/// The cached outcome for (source, id): a reply line, or None for a
/// message that produced no reply.
pub open spec fn cache_val(
    c: Seq<((String, u64), Option<String>)>,
    src: Seq<char>,
    id: u64,
) -> Option<String> {
    c[cache_idx(c, src, id)].1
}

/// No two cache entries share a key.
pub open spec fn cache_unique(c: Seq<((String, u64), Option<String>)>) -> bool {
    forall|i: int, j: int|
        0 <= i < j < c.len() ==> !(c[i].0.0@ == c[j].0.0@ && c[i].0.1 == c[j].0.1)
}

/// With unique keys, any entry holding the key stands at `cache_idx`.
proof fn lemma_cache_at(c: Seq<((String, u64), Option<String>)>, src: Seq<char>, id: u64, i: int)
    requires
        cache_unique(c),
        0 <= i < c.len(),
        c[i].0.0@ == src,
        c[i].0.1 == id,
    ensures
        cache_has(c, src, id),
        cache_idx(c, src, id) == i,
        cache_val(c, src, id) == c[i].1,
{
    assert(cache_has(c, src, id));
    let j = cache_idx(c, src, id);
    if i < j {
        assert(!(c[i].0.0@ == c[j].0.0@ && c[i].0.1 == c[j].0.1));
    } else if j < i {
        assert(!(c[j].0.0@ == c[i].0.0@ && c[j].0.1 == c[i].0.1));
    }
}

/// Find the cache entry for (source, id).
fn cache_find(c: &Vec<((String, u64), Option<String>)>, src: &String, id: u64) -> (r: Option<usize>)
    ensures
        match r {
            Some(i) => 0 <= i < c@.len() && c@[i as int].0.0@ == src@ && c@[i as int].0.1 == id,
            None => !cache_has(c@, src@, id),
        },
{
    let n = c.len();
    let mut i: usize = 0;
    while i < n
        invariant
            i <= n,
            n == c@.len(),
            forall|j: int| 0 <= j < i ==> !(#[trigger] c@[j].0.0@ == src@ && c@[j].0.1 == id),
        decreases n - i,
    {
        if c[i].0 .1 == id && src.eq(&c[i].0 .0) {
            return Some(i);
        }
        i = i + 1;
    }
    None
}

/// Store an outcome under (source, id), replacing any entry already
/// there.
fn cache_put(c: &mut Vec<((String, u64), Option<String>)>, src: String, id: u64, val: Option<
    String,
>)
    requires
        cache_unique(old(c)@),
    ensures
        cache_unique(final(c)@),
        cache_has(final(c)@, src@, id),
        cache_val(final(c)@, src@, id) == val,
        forall|s2: Seq<char>, i2: u64|
            !(s2 == src@ && i2 == id) ==> #[trigger] cache_has(final(c)@, s2, i2) == cache_has(
                old(c)@,
                s2,
                i2,
            ),
        forall|s2: Seq<char>, i2: u64|
            !(s2 == src@ && i2 == id) && cache_has(old(c)@, s2, i2) ==> #[trigger] cache_val(
                final(c)@,
                s2,
                i2,
            ) == cache_val(old(c)@, s2, i2),
{
    match cache_find(c, &src, id) {
        Some(i) => {
            proof {
                lemma_cache_at(c@, src@, id, i as int);
            }
            let ghost cb = c@;
            c[i].1 = val;
            proof {
                assert(c@ =~= cb.update(i as int, (cb[i as int].0, c@[i as int].1)));
                assert(forall|j: int| 0 <= j < c@.len() ==> #[trigger] c@[j].0 == cb[j].0);
                lemma_cache_at(c@, src@, id, i as int);
                assert forall|s2: Seq<char>, i2: u64| !(s2 == src@ && i2 == id) implies (
                #[trigger] cache_has(c@, s2, i2) == cache_has(cb, s2, i2)) && (cache_has(
                    cb,
                    s2,
                    i2,
                ) ==> cache_val(c@, s2, i2) == cache_val(cb, s2, i2)) by {
                    if cache_has(cb, s2, i2) {
                        let j = cache_idx(cb, s2, i2);
                        lemma_cache_at(cb, s2, i2, j);
                        assert(j != i);
                        lemma_cache_at(c@, s2, i2, j);
                    } else {
                        if cache_has(c@, s2, i2) {
                            let j = cache_idx(c@, s2, i2);
                            assert(cb[j].0.0@ == s2 && cb[j].0.1 == i2);
                            assert(cache_has(cb, s2, i2));
                        }
                    }
                }
                assert forall|s2: Seq<char>, i2: u64|
                    !(s2 == src@ && i2 == id) && cache_has(cb, s2, i2) implies #[trigger] cache_val(
                    c@,
                    s2,
                    i2,
                ) == cache_val(cb, s2, i2) by {
                    let j = cache_idx(cb, s2, i2);
                    lemma_cache_at(cb, s2, i2, j);
                    assert(j != i);
                    lemma_cache_at(c@, s2, i2, j);
                }
            }
        },
        None => {
            let ghost cb = c@;
            c.push(((src, id), val));
            proof {
                assert(forall|j: int| 0 <= j < cb.len() ==> #[trigger] c@[j] == cb[j]);
                assert(c@[cb.len() as int].0.1 == id);
                assert forall|i: int, j: int| 0 <= i < j < c@.len() implies !(#[trigger] c@[i].0.0@
                    == #[trigger] c@[j].0.0@ && c@[i].0.1 == c@[j].0.1) by {
                    if j == cb.len() {
                        if c@[i].0.0@ == c@[j].0.0@ && c@[i].0.1 == c@[j].0.1 {
                            assert(cache_has(cb, c@[j].0.0@, c@[j].0.1));
                        }
                    }
                }
                lemma_cache_at(c@, c@[cb.len() as int].0.0@, id, cb.len() as int);
                assert forall|s2: Seq<char>, i2: u64| !(s2 == c@[cb.len() as int].0.0@ && i2 == id)
                    implies (#[trigger] cache_has(c@, s2, i2) == cache_has(cb, s2, i2)) && (
                cache_has(cb, s2, i2) ==> cache_val(c@, s2, i2) == cache_val(cb, s2, i2)) by {
                    if cache_has(cb, s2, i2) {
                        let j = cache_idx(cb, s2, i2);
                        lemma_cache_at(cb, s2, i2, j);
                        lemma_cache_at(c@, s2, i2, j);
                    } else {
                        if cache_has(c@, s2, i2) {
                            let j = cache_idx(c@, s2, i2);
                            if j < cb.len() {
                                assert(cb[j].0.0@ == s2 && cb[j].0.1 == i2);
                                assert(cache_has(cb, s2, i2));
                            } else {
                                assert(c@[j].0.0@ == src@ && c@[j].0.1 == id);
                            }
                        }
                    }
                }
                assert forall|s2: Seq<char>, i2: u64|
                    !(s2 == c@[cb.len() as int].0.0@ && i2 == id) && cache_has(
                        cb,
                        s2,
                        i2,
                    ) implies #[trigger] cache_val(c@, s2, i2) == cache_val(cb, s2, i2) by {
                    let j = cache_idx(cb, s2, i2);
                    lemma_cache_at(cb, s2, i2, j);
                    lemma_cache_at(c@, s2, i2, j);
                }
            }
        },
    }
}

/// What one dispatch produced: at most one reply line, and the outbound
/// commands the transport should send.
pub struct DispatchOutcome {
    pub reply: Option<String>,
    pub commands: Vec<BroadcastCommand>,
}

/// Whether `w` names the counter workload.
fn is_counter_workload(w: &Option<String>) -> (r: bool)
    ensures
        r == (w matches Option::Some(s) && s@ == "g-counter"@),
{
    match w {
        Some(s) => {
            let lit: String = "g-counter".to_owned();
            s.eq(&lit)
        },
        None => false,
    }
}

/// Whether the cache already holds a reply line for this envelope's
/// (source, id) key.
pub open spec fn spec_hit(c: Seq<((String, u64), Option<String>)>, m: Message) -> bool {
    cache_has(c, m.src@, spec_cache_id(m.body)) && cache_val(c, m.src@, spec_cache_id(m.body))
        is Some
}

/// Whether `cmds` holds a broadcast to `name` whose payload is the
/// counter map `data`.
pub open spec fn counter_cmd(
    cmds: Seq<BroadcastCommand>,
    name: Seq<char>,
    data: Seq<(String, u64)>,
) -> bool {
    exists|i: int|
        0 <= i < cmds.len() && (#[trigger] cmds[i] matches BroadcastCommand::Broadcast {
            dest,
            msg_id,
            message: BroadcastMessage::Hashmap(m2),
        } && dest@ == name && m2@ == data)
}

/// Build one gossip envelope per Online peer carrying the merged counter
/// map.
fn gossip_counter(storage: &mut Storage, now: u64) -> (cmds: Vec<BroadcastCommand>)
    requires
        old(storage).wf(),
        CUSTOM_EPOCH <= now <= MAX_TIMESTAMP,
    ensures
        final(storage).wf(),
        *final(storage) == (Storage { snowflake: final(storage).snowflake, ..*old(storage) }),
        forall|j: int|
            0 <= j < old(storage).node_status@.len() && old(storage).node_status@[j].1 is Online
                ==> counter_cmd(
                cmds@,
                #[trigger] old(storage).node_status@[j].0@,
                old(storage).g_counter.data@,
            ),
{
    let peers = storage.online_nodes();
    let mut cmds: Vec<BroadcastCommand> = Vec::new();
    let pn = peers.len();
    let mut pi: usize = 0;
    while pi < pn
        invariant
            pi <= pn,
            pn == peers@.len(),
            storage.wf(),
            CUSTOM_EPOCH <= now <= MAX_TIMESTAMP,
            *storage == (Storage { snowflake: storage.snowflake, ..*old(storage) }),
            cmds@.len() == pi,
            forall|p: int| 0 <= p < pi ==> (#[trigger] cmds@[p]
                matches BroadcastCommand::Broadcast {
                dest,
                msg_id,
                message: BroadcastMessage::Hashmap(m2),
            } && dest@ == peers@[p]@ && m2@ == old(storage).g_counter.data@),
        decreases pn - pi,
    {
        let map_copy = storage.g_counter.snapshot();
        let key = storage.next_id(now);
        cmds.push(
            BroadcastCommand::Broadcast {
                dest: peers[pi].clone(),
                msg_id: key,
                message: BroadcastMessage::Hashmap(map_copy),
            },
        );
        pi = pi + 1;
    }
    proof {
        assert forall|j: int|
            0 <= j < old(storage).node_status@.len() && old(storage).node_status@[j].1
                is Online implies counter_cmd(
            cmds@,
            #[trigger] old(storage).node_status@[j].0@,
            old(storage).g_counter.data@,
        ) by {
            assert(seq_has_name(peers@, old(storage).node_status@[j].0@));
            let p = choose|p: int|
                0 <= p < peers@.len() && #[trigger] peers@[p]@ == old(storage).node_status@[j].0@;
            assert(cmds@[p] matches BroadcastCommand::Broadcast {
                dest,
                msg_id,
                message: BroadcastMessage::Hashmap(m2),
            } && dest@ == peers@[p]@ && m2@ == old(storage).g_counter.data@);
        }
    }
    cmds
}

/// Dispatch one inbound envelope: answer from the cache when the same
/// (source, id) was already answered, else route by tag, mutate the node
/// state, record the outcome in the cache, and return the reply and the
/// outbound commands.
pub fn process_message(
    storage: &mut Storage,
    processed: &mut Vec<((String, u64), Option<String>)>,
    msg: Message,
    now: u64,
) -> (out: DispatchOutcome)
    requires
        old(storage).wf(),
        cache_unique(old(processed)@),
        CUSTOM_EPOCH <= now <= MAX_TIMESTAMP,
        !old(storage).snowflake.saturated(),
        msg.body matches Body::Topology { topology, .. } ==> old(storage).node_id is Some
            && has_str_key(topology@, old(storage).node_id->0@) && crate::vecutil::str_keys_unique(
            topology@,
        ),
        msg.body is Add ==> old(storage).node_id is Some,
        msg.body is Error ==> old(storage).node_id is Some,
        msg.body is ReadOk ==> old(storage).node_id is Some,
    ensures
        final(storage).wf(),
        cache_unique(final(processed)@),
        spec_hit(old(processed)@, msg) ==> out.reply == cache_val(
            old(processed)@,
            msg.src@,
            spec_cache_id(msg.body),
        ) && *final(storage) == *old(storage) && final(processed)@ == old(processed)@
            && out.commands@.len() == 0,
        !spec_hit(old(processed)@, msg) ==> cache_has(
            final(processed)@,
            msg.src@,
            spec_cache_id(msg.body),
        ) && cache_val(final(processed)@, msg.src@, spec_cache_id(msg.body)) == out.reply && (
        forall|s2: Seq<char>, i2: u64|
            !(s2 == msg.src@ && i2 == spec_cache_id(msg.body)) ==> #[trigger] cache_has(
                final(processed)@,
                s2,
                i2,
            ) == cache_has(old(processed)@, s2, i2)) && (forall|s2: Seq<char>, i2: u64|
            !(s2 == msg.src@ && i2 == spec_cache_id(msg.body)) && cache_has(old(processed)@, s2, i2)
                ==> #[trigger] cache_val(final(processed)@, s2, i2) == cache_val(
                old(processed)@,
                s2,
                i2,
            )),
        msg.body matches Body::Init {
            msg_id,
            node_id,
            workload,
            ..
        } ==> !spec_hit(old(processed)@, msg) ==> (out.reply matches Option::Some(r) && r@ == init_ok_line(msg.dest@, msg.src@, msg_id))
            && (final(storage).node_id matches Option::Some(n) && n@ == node_id@) && final(storage).workload == workload && final(storage).snowflake.last_ts == old(storage).snowflake.last_ts
            && final(storage).snowflake.sequence == old(storage).snowflake.sequence && final(storage).snowflake.node_id == (if old(storage).snowflake.last_ts == 0 {
            crate::snowflake::node_bits_of(node_id@)
        } else {
            old(storage).snowflake.node_id
        }) && final(storage).values == old(storage).values && final(storage).node_status == old(storage).node_status
            && final(storage).peer_pending == old(storage).peer_pending && final(storage).g_counter
            == old(storage).g_counter && out.commands@.len() == 0,
        msg.body matches Body::Echo { msg_id, echo } ==> !spec_hit(old(processed)@, msg) ==> (
        out.reply matches Option::Some(r) && r@ == echo_ok_line(
            msg.dest@,
            msg.src@,
            msg_id,
            echo@,
        )) && *final(storage) == *old(storage) && out.commands@.len() == 0,
        msg.body matches Body::Generate { msg_id } ==> !spec_hit(old(processed)@, msg) ==> (
        out.reply matches Option::Some(r) && r@ == generate_ok_line(
            msg.dest@,
            msg.src@,
            msg_id,
            final(storage).snowflake.last_id(),
        )) && *final(storage) == (Storage {
            snowflake: final(storage).snowflake,
            ..*old(storage)
        }) && (old(storage).snowflake.last_ts != 0 ==> final(storage).snowflake.last_id() > old(storage).snowflake.last_id()) && out.commands@.len() == 0,
        msg.body matches Body::Topology { msg_id, topology } ==> !spec_hit(
            old(processed)@,
            msg,
        ) ==> (out.reply matches Option::Some(r) && r@ == topology_ok_line(
            msg.dest@,
            msg.src@,
            msg_id,
        )) && out.commands@.len() == 0 && final(storage).values == old(storage).values && final(storage).g_counter == old(storage).g_counter && final(storage).snowflake == old(storage).snowflake
            && final(storage).node_id == old(storage).node_id && ({
            let entry = str_key_val(topology@, old(storage).node_id->0@);
            &&& (forall|i: int| 0 <= i < entry@.len() ==> #[trigger] str_key_opt(
                final(storage).node_status@,
                entry@[i]@,
            ) == Option::Some(
                crate::neighbors::spec_update_status(
                    str_key_opt(old(storage).node_status@, entry@[i]@),
                    now,
                ),
            ))
            &&& (forall|k: Seq<char>| !seq_has_name(entry@, k) ==> !(#[trigger] has_str_key(
                final(storage).node_status@,
                k,
            )) && !has_str_key(final(storage).peer_pending@, k))
        }),
        msg.body matches Body::Broadcast {
            msg_id,
            message: BroadcastMessage::Single(v),
        } ==> !spec_hit(old(processed)@, msg) ==> (out.reply matches Option::Some(r) && r@ == broadcast_ok_line(
            msg.dest@,
            msg.src@,
            msg_id,
        )) && out.commands@.len() == 0 && stores_value(final(storage).values@, v) && (stores_value(
            old(storage).values@,
            v,
        ) ==> *final(storage) == *old(storage)) && (!stores_value(old(storage).values@, v) ==> final(storage).values@.len() == old(storage).values@.len() + 1 && final(storage).values@.drop_last()
            == old(storage).values@ && final(storage).values@.last().1.1 == v && (forall|p: int|
            0 <= p < final(storage).node_status@.len() && final(storage).node_status@[p].0@
                != msg.src@ ==> in_list(
                final(storage).peer_pending@,
                #[trigger] final(storage).node_status@[p].0@,
                final(storage).values@.last().0,
            ))),
        msg.body matches Body::Broadcast {
            msg_id,
            message: BroadcastMessage::Hashmap(m),
        } ==> !spec_hit(old(processed)@, msg) ==> (out.reply matches Option::Some(r) && r@ == broadcast_ok_line(
            msg.dest@,
            msg.src@,
            msg_id,
        )) && (forall|i: int| 0 <= i < m@.len() ==> has_str_key(
            final(storage).g_counter.data@,
            #[trigger] m@[i].0@,
        ) && str_key_val(final(storage).g_counter.data@, m@[i].0@) >= m@[i].1) && (forall|
            k: Seq<char>,
        |
            has_str_key(old(storage).g_counter.data@, k) ==> #[trigger] has_str_key(
                final(storage).g_counter.data@,
                k,
            ) && str_key_val(final(storage).g_counter.data@, k) >= str_key_val(
                old(storage).g_counter.data@,
                k,
            )) && (forall|j: int|
            0 <= j < old(storage).node_status@.len() && old(storage).node_status@[j].1 is Online
                ==> counter_cmd(
                out.commands@,
                #[trigger] old(storage).node_status@[j].0@,
                final(storage).g_counter.data@,
            )) && final(storage).values == old(storage).values,
        msg.body matches Body::Broadcast {
            msg_id,
            message: BroadcastMessage::Multiple(vs),
        } ==> !spec_hit(old(processed)@, msg) ==> (out.reply matches Option::Some(r) && r@ == broadcast_ok_line(
            msg.dest@,
            msg.src@,
            msg_id,
        )) && *final(storage) == *old(storage) && out.commands@.len() == 0,
        msg.body matches Body::BroadcastOk { in_reply_to } ==> !spec_hit(old(processed)@, msg) ==> out.reply
            is None && out.commands@.len() == 0 && final(storage).values == old(storage).values
            && final(storage).g_counter == old(storage).g_counter && final(storage).snowflake == old(storage).snowflake && str_key_opt(final(storage).node_status@, msg.src@) == (match str_key_opt(
            old(storage).node_status@,
            msg.src@,
        ) {
            Option::None => Option::None,
            Option::Some(_) => Option::Some(crate::neighbors::NodeStatus::Online(now)),
        }) && (!(str_key_opt(old(storage).node_status@, msg.src@) matches Option::Some(
            crate::neighbors::NodeStatus::Offline(_),
        )) ==> forall|n2: Seq<char>, v: u64| #[trigger] in_list(final(storage).peer_pending@, n2, v)
            == (in_list(old(storage).peer_pending@, n2, v) && !(n2 == msg.src@ && v
            == in_reply_to))) && ((str_key_opt(old(storage).node_status@, msg.src@)
            matches Option::Some(crate::neighbors::NodeStatus::Offline(_))) ==> (forall|v: u64| #[trigger] in_list(
            final(storage).peer_pending@,
            msg.src@,
            v,
        ) == (has_u64_key(old(storage).values@, v) || (in_list(
            old(storage).peer_pending@,
            msg.src@,
            v,
        ) && v != in_reply_to))) && (forall|n2: Seq<char>, v: u64| n2 != msg.src@
            ==> #[trigger] in_list(final(storage).peer_pending@, n2, v) == in_list(
            old(storage).peer_pending@,
            n2,
            v,
        ))),
        msg.body matches Body::Read { msg_id, .. } ==> !spec_hit(old(processed)@, msg) ==> (
        out.reply matches Option::Some(r) && (((old(storage).workload matches Option::Some(w)
            && w@ == "g-counter"@) ==> r@ == read_ok_sum_line(
            msg.dest@,
            msg.src@,
            msg_id,
            (if crate::g_counter::sum_seq(old(storage).g_counter.data@) <= u64::MAX {
                crate::g_counter::sum_seq(old(storage).g_counter.data@)
            } else {
                u64::MAX as int
            }) as u64,
        )) && (!(old(storage).workload matches Option::Some(w) && w@ == "g-counter"@) ==> r@
            == read_ok_list_line(msg.dest@, msg.src@, msg_id, values_of(old(storage).values@)))))
            && *final(storage) == *old(storage) && out.commands@.len() == 0,
        msg.body matches Body::Add { msg_id, delta } ==> !spec_hit(old(processed)@, msg) ==> (
        out.reply matches Option::Some(r) && r@ == add_ok_line(msg.dest@, msg.src@, msg_id)) && ({
            let node = old(storage).node_id->0@;
            let to = if old(storage).g_counter.contribution(node) + delta <= u64::MAX {
                old(storage).g_counter.contribution(node) + delta
            } else {
                u64::MAX as int
            };
            &&& out.commands@.len() >= 1
            &&& (out.commands@.last() matches BroadcastCommand::Read { dest: d, msg_id: k } && d@
                == "seq-kv"@)
            &&& (out.commands@.last() matches BroadcastCommand::Read { msg_id: k, .. }
                ==> u64_key_opt(final(storage).g_counter.watchers@, k) matches Option::Some(w)
                && w.delta == delta && w.dest@ == msg.src@ && w.msg_id == msg_id)
            &&& (str_key_opt(final(storage).g_counter.data@, node) matches Option::Some(cv) && cv
                as int == to)
            &&& final(storage).g_counter.pending == old(storage).g_counter.pending
            &&& (forall|j: int|
                0 <= j < old(storage).node_status@.len() && old(storage).node_status@[j].1
                    is Online ==> counter_cmd(
                    out.commands@,
                    #[trigger] old(storage).node_status@[j].0@,
                    final(storage).g_counter.data@,
                ))
        }) && final(storage).values == old(storage).values && final(storage).node_status == old(storage).node_status && final(storage).peer_pending == old(storage).peer_pending,
        msg.body matches Body::ReadOk { in_reply_to, value } ==> !spec_hit(old(processed)@, msg)
            ==> out.reply is None && (!has_u64_key(old(storage).g_counter.watchers@, in_reply_to)
            ==> out.commands@.len() == 0 && *final(storage) == *old(storage)) && (has_u64_key(
            old(storage).g_counter.watchers@,
            in_reply_to,
        ) ==> final(storage).values == old(storage).values && final(storage).node_status == old(storage).node_status && final(storage).peer_pending == old(storage).peer_pending && ({
            let node = old(storage).node_id->0@;
            let w = u64_key_val(old(storage).g_counter.watchers@, in_reply_to);
            let to = if value + w.delta <= u64::MAX {
                value + w.delta
            } else {
                u64::MAX as int
            };
            &&& out.commands@.len() == 1
            &&& (out.commands@[0] matches BroadcastCommand::Cas {
                dest: d,
                msg_id: m,
                from: f,
                to: t,
                create_if_not_exists,
            } && d@ == "seq-kv"@ && f == value && t as int == to && create_if_not_exists)
            &&& !has_u64_key(final(storage).g_counter.watchers@, in_reply_to)
            &&& (str_key_opt(final(storage).g_counter.data@, node) matches Option::Some(cv) && cv
                as int == (if old(storage).g_counter.contribution(node) >= to {
                old(storage).g_counter.contribution(node)
            } else {
                to
            }))
            &&& (out.commands@[0] matches BroadcastCommand::Cas { msg_id: m, .. } ==> u64_key_opt(
                final(storage).g_counter.pending@,
                m,
            ) matches Option::Some(req) && req.from == value && req.to as int == to && req.dest@
                == w.dest@ && req.msg_id == w.msg_id)
        })),
        msg.body matches Body::CasOk { in_reply_to } ==> !spec_hit(old(processed)@, msg) ==> out.reply
            is None && out.commands@.len() == 0 && !has_u64_key(
            final(storage).g_counter.pending@,
            in_reply_to,
        ) && final(storage).g_counter.data == old(storage).g_counter.data && final(storage).values
            == old(storage).values,
        msg.body matches Body::Error { in_reply_to, .. } ==> !spec_hit(old(processed)@, msg) ==> out.reply
            is None && final(storage).values == old(storage).values && (!has_u64_key(
            old(storage).g_counter.pending@,
            in_reply_to,
        ) ==> out.commands@.len() == 0) && ((has_u64_key(old(storage).g_counter.pending@, in_reply_to)
            && old(storage).g_counter.contribution(old(storage).node_id->0@) <= u64_key_val(
            old(storage).g_counter.pending@,
            in_reply_to,
        ).to as int) ==> out.commands@.len() == 1 && (out.commands@[0]
            matches BroadcastCommand::Cas {
            dest: d,
            from: f,
            to: t,
            ..
        } && d@ == "seq-kv"@ && f as int == old(storage).g_counter.contribution(
            old(storage).node_id->0@,
        ) && t == u64_key_val(old(storage).g_counter.pending@, in_reply_to).to)),
        msg.body matches Body::Cas { .. } ==> !spec_hit(old(processed)@, msg) ==> out.reply is None
            && out.commands@.len() == 0 && *final(storage) == *old(storage),
{
    let Message { src, dest, body } = msg;
    let cid: u64 = *body.cache_id();
    match cache_find(processed, &src, cid) {
        Some(i) => {
            proof {
                lemma_cache_at(processed@, src@, cid, i as int);
            }
            if processed[i].1.is_some() {
                let cached: String = processed[i].1.as_ref().unwrap().clone();
                return DispatchOutcome { reply: Some(cached), commands: Vec::new() };
            }
        },
        None => {},
    }
    let src_key = src.clone();
    let outcome: DispatchOutcome = match body {
        Body::Init { msg_id, node_id, node_ids: _, workload } => {
            storage.set_id(node_id.as_str());
            storage.workload = workload;
            DispatchOutcome { reply: Some(handle_init(src, dest, msg_id)), commands: Vec::new() }
        },
        Body::Echo { msg_id, echo } => DispatchOutcome {
            reply: Some(handle_echo(src, dest, msg_id, echo)),
            commands: Vec::new(),
        },
        Body::Generate { msg_id } => {
            let id = storage.next_id(now);
            DispatchOutcome { reply: Some(handle_id_gen(src, dest, msg_id, id)), commands: Vec::new() }
        },
        Body::Topology { msg_id, topology } => {
            let node = storage.get_node_id();
            let idx: usize = match str_key_find(&topology, &node) {
                Some(i) => i,
                None => {
                    proof {
                        assert(false);
                    }
                    0
                },
            };
            proof {
                lemma_str_key_at(topology@, node@, idx as int);
            }
            storage.update_neighbors(&topology[idx].1, now);
            DispatchOutcome { reply: Some(handle_topology(src, dest, msg_id)), commands: Vec::new() }
        },
        Body::Broadcast { msg_id, message } => match message {
            BroadcastMessage::Single(v) => {
                let _fresh = storage.update_values(&src, v, now);
                DispatchOutcome {
                    reply: Some(handle_broadcast(src, dest, msg_id)),
                    commands: Vec::new(),
                }
            },
            BroadcastMessage::Hashmap(m) => {
                storage.g_counter.update_counter(&m);
                let cmds = gossip_counter(storage, now);
                DispatchOutcome { reply: Some(handle_broadcast(src, dest, msg_id)), commands: cmds }
            },
            BroadcastMessage::Multiple(_) => DispatchOutcome {
                reply: Some(handle_broadcast(src, dest, msg_id)),
                commands: Vec::new(),
            },
        },
        Body::BroadcastOk { in_reply_to } => {
            storage.remove_from_peer_pending(&src, in_reply_to, now);
            DispatchOutcome { reply: None, commands: Vec::new() }
        },
        Body::Read { msg_id, key: _ } => {
            if is_counter_workload(&storage.workload) {
                let total = storage.g_counter_read();
                DispatchOutcome {
                    reply: Some(handle_g_counter_read(src, dest, msg_id, total)),
                    commands: Vec::new(),
                }
            } else {
                let vals = storage.values();
                proof {
                    assert(vals@ =~= values_of(storage.values@));
                }
                DispatchOutcome {
                    reply: Some(handle_read(src, dest, msg_id, vals)),
                    commands: Vec::new(),
                }
            }
        },
        Body::Add { msg_id, delta } => {
            let rcmd = storage.process_add(delta, &src, msg_id, now);
            let ghost mid = *storage;
            let mut cmds = gossip_counter(storage, now);
            let ghost before_push = cmds@;
            cmds.push(rcmd);
            proof {
                assert forall|j: int|
                    0 <= j < mid.node_status@.len() && mid.node_status@[j].1
                        is Online implies counter_cmd(
                    cmds@,
                    #[trigger] mid.node_status@[j].0@,
                    mid.g_counter.data@,
                ) by {
                    let i = choose|i: int|
                        0 <= i < before_push.len() && (#[trigger] before_push[i]
                            matches BroadcastCommand::Broadcast {
                            dest,
                            msg_id,
                            message: BroadcastMessage::Hashmap(m2),
                        } && dest@ == mid.node_status@[j].0@ && m2@ == mid.g_counter.data@);
                    assert(cmds@[i] == before_push[i]);
                }
            }
            DispatchOutcome { reply: Some(handle_add(src, dest, msg_id)), commands: cmds }
        },
        Body::ReadOk { in_reply_to, value } => {
            match storage.resolve_read(in_reply_to, value, now) {
                Some(cmd) => {
                    let mut cmds: Vec<BroadcastCommand> = Vec::new();
                    cmds.push(cmd);
                    DispatchOutcome { reply: None, commands: cmds }
                },
                None => DispatchOutcome { reply: None, commands: Vec::new() },
            }
        },
        Body::CasOk { in_reply_to } => {
            storage.remove_request_from_pending_cas(in_reply_to);
            DispatchOutcome { reply: None, commands: Vec::new() }
        },
        Body::Error { in_reply_to, code: _, text: _ } => {
            match storage.retry_for_cas(in_reply_to, now) {
                Some(cmd) => {
                    let mut cmds: Vec<BroadcastCommand> = Vec::new();
                    cmds.push(cmd);
                    DispatchOutcome { reply: None, commands: cmds }
                },
                None => DispatchOutcome { reply: None, commands: Vec::new() },
            }
        },
        Body::Cas { .. } => DispatchOutcome { reply: None, commands: Vec::new() },
    };
    let cache_copy: Option<String> = match &outcome.reply {
        Some(r) => Some(r.clone()),
        None => None,
    };
    proof {
        assert(cache_copy == outcome.reply);
    }
    cache_put(processed, src_key, cid, cache_copy);
    outcome
}

} // verus!