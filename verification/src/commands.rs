//! Outbound commands: what the engine asks the transport to send, and the
//! JSON lines those commands become on the wire.

use vstd::prelude::*;

use crate::json::{
    json_str, push_broadcast_message, push_json_string, push_lit, spec_broadcast_message,
};
use crate::message::BroadcastMessage;
use crate::strutil::{dec_seq, push_dec};

verus! {

/// An outbound envelope the engine wants sent: a broadcast to a peer, or
/// a compare-and-set or read against the key-value service.
pub enum BroadcastCommand {
    Broadcast { dest: String, msg_id: u64, message: BroadcastMessage },
    Cas { dest: String, msg_id: u64, from: u64, to: u64, create_if_not_exists: bool },
    Read { dest: String, msg_id: u64 },
}

/// An internal gossip command: the counter map to merge into the peers.
pub enum StorageBroadcastCommand {
    GCounter(Vec<(String, u64)>),
}

/// The JSON envelope around a rendered body.
pub open spec fn spec_envelope(src: Seq<char>, dest: Seq<char>, body: Seq<char>) -> Seq<char> {
    "{\"src\":"@ + json_str(src) + ",\"dest\":"@ + json_str(dest) + ",\"body\":"@ + body + "}"@
}

/// The JSON rendering of a `broadcast` request body.
pub open spec fn spec_broadcast_body(msg_id: u64, message: BroadcastMessage) -> Seq<char> {
    "{\"type\":\"broadcast\",\"msg_id\":"@ + dec_seq(msg_id as int) + ",\"message\":"@
        + spec_broadcast_message(message) + "}"@
}

/// The JSON rendering of a `cas` request body against the counter key.
pub open spec fn spec_cas_body(msg_id: u64, from: u64, to: u64, create: bool) -> Seq<char> {
    "{\"type\":\"cas\",\"msg_id\":"@ + dec_seq(msg_id as int) + ",\"key\":\"counter\",\"from\":"@
        + dec_seq(from as int) + ",\"to\":"@ + dec_seq(to as int) + ",\"create_if_not_exists\":"@ + (
    if create {
        "true"@
    } else {
        "false"@
    }) + "}"@
}

/// The JSON rendering of a `read` request body against the counter key.
pub open spec fn spec_read_body(msg_id: u64) -> Seq<char> {
    "{\"type\":\"read\",\"msg_id\":"@ + dec_seq(msg_id as int) + ",\"key\":\"counter\"}"@
}

/// Render an outbound `broadcast` envelope as one JSON line.
pub fn send_broadcast(src: &String, dest: &String, msg_id: u64, message: &BroadcastMessage) -> (s:
    String)
    ensures
        s@ == spec_envelope(src@, dest@, spec_broadcast_body(msg_id, *message)),
{
    let mut out = String::new();
    push_lit(&mut out, "{\"src\":");
    push_json_string(&mut out, src.as_str());
    push_lit(&mut out, ",\"dest\":");
    push_json_string(&mut out, dest.as_str());
    push_lit(&mut out, ",\"body\":");
    push_lit(&mut out, "{\"type\":\"broadcast\",\"msg_id\":");
    push_dec(&mut out, msg_id);
    push_lit(&mut out, ",\"message\":");
    push_broadcast_message(&mut out, message);
    push_lit(&mut out, "}");
    push_lit(&mut out, "}");
    assert(out@ =~= spec_envelope(src@, dest@, spec_broadcast_body(msg_id, *message)));
    out
}

/// Render an outbound `cas` envelope as one JSON line.
pub fn send_cas(src: &String, dest: &String, msg_id: u64, from: u64, to: u64, create: bool) -> (s:
    String)
    ensures
        s@ == spec_envelope(src@, dest@, spec_cas_body(msg_id, from, to, create)),
{
    let mut out = String::new();
    push_lit(&mut out, "{\"src\":");
    push_json_string(&mut out, src.as_str());
    push_lit(&mut out, ",\"dest\":");
    push_json_string(&mut out, dest.as_str());
    push_lit(&mut out, ",\"body\":");
    push_lit(&mut out, "{\"type\":\"cas\",\"msg_id\":");
    push_dec(&mut out, msg_id);
    push_lit(&mut out, ",\"key\":\"counter\",\"from\":");
    push_dec(&mut out, from);
    push_lit(&mut out, ",\"to\":");
    push_dec(&mut out, to);
    push_lit(&mut out, ",\"create_if_not_exists\":");
    if create {
        push_lit(&mut out, "true");
    } else {
        push_lit(&mut out, "false");
    }
    push_lit(&mut out, "}");
    push_lit(&mut out, "}");
    assert(out@ =~= spec_envelope(src@, dest@, spec_cas_body(msg_id, from, to, create)));
    out
}

/// Render an outbound `read` envelope as one JSON line.
pub fn send_read(src: &String, dest: &String, msg_id: u64) -> (s: String)
    ensures
        s@ == spec_envelope(src@, dest@, spec_read_body(msg_id)),
{
    let mut out = String::new();
    push_lit(&mut out, "{\"src\":");
    push_json_string(&mut out, src.as_str());
    push_lit(&mut out, ",\"dest\":");
    push_json_string(&mut out, dest.as_str());
    push_lit(&mut out, ",\"body\":");
    push_lit(&mut out, "{\"type\":\"read\",\"msg_id\":");
    push_dec(&mut out, msg_id);
    push_lit(&mut out, ",\"key\":\"counter\"}");
    push_lit(&mut out, "}");
    assert(out@ =~= spec_envelope(src@, dest@, spec_read_body(msg_id)));
    out
}

/// The JSON line an outbound command becomes, sent from `src`.
pub open spec fn spec_command_line(src: Seq<char>, cmd: BroadcastCommand) -> Seq<char> {
    match cmd {
        BroadcastCommand::Broadcast { dest, msg_id, message } => spec_envelope(
            src,
            dest@,
            spec_broadcast_body(msg_id, message),
        ),
        BroadcastCommand::Cas { dest, msg_id, from, to, create_if_not_exists } => spec_envelope(
            src,
            dest@,
            spec_cas_body(msg_id, from, to, create_if_not_exists),
        ),
        BroadcastCommand::Read { dest, msg_id } => spec_envelope(src, dest@, spec_read_body(msg_id)),
    }
}

/// Render any outbound command as the JSON line sent from `src`.
pub fn command_to_line(src: &String, cmd: &BroadcastCommand) -> (s: String)
    ensures
        s@ == spec_command_line(src@, *cmd),
{
    match cmd {
        BroadcastCommand::Broadcast { dest, msg_id, message } => send_broadcast(
            src,
            dest,
            *msg_id,
            message,
        ),
        BroadcastCommand::Cas { dest, msg_id, from, to, create_if_not_exists } => send_cas(
            src,
            dest,
            *msg_id,
            *from,
            *to,
            *create_if_not_exists,
        ),
        BroadcastCommand::Read { dest, msg_id } => send_read(src, dest, *msg_id),
    }
}

} // verus!
