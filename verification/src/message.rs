//! The envelopes and body variants of the line protocol: one request body
//! per inbound tag, one reply body per outbound tag.

use vstd::prelude::*;

verus! {

/// An inbound envelope: one JSON object per line.
pub struct Message {
    pub src: String,
    pub dest: String,
    pub body: Body,
}

/// An outbound reply envelope.
pub struct ReplyMessage {
    pub src: String,
    pub dest: String,
    pub body: ReplyBody,
}

/// The payload of a `broadcast` body: a single value, a list of values, or
/// a per-node counter map (the gossip form of the grow-only counter).
pub enum BroadcastMessage {
    Single(u64),
    Multiple(Vec<u64>),
    Hashmap(Vec<(String, u64)>),
}

/// A request body, tagged by message type.
pub enum Body {
    Init { msg_id: u64, node_id: String, node_ids: Vec<String>, workload: Option<String> },
    Add { msg_id: u64, delta: u64 },
    Broadcast { msg_id: u64, message: BroadcastMessage },
    BroadcastOk { in_reply_to: u64 },
    Echo { msg_id: u64, echo: String },
    Error { in_reply_to: u64, code: u64, text: String },
    Generate { msg_id: u64 },
    Read { msg_id: u64, key: Option<String> },
    ReadOk { in_reply_to: u64, value: u64 },
    Cas { msg_id: u64, key: String, from: u64, to: u64, create_if_not_exists: bool },
    CasOk { in_reply_to: u64 },
    Topology { msg_id: u64, topology: Vec<(String, Vec<String>)> },
}

/// The `messages` field of a `read_ok` reply: the counter total or the
/// snapshot of broadcast values.
pub enum ReadMessage {
    Single(u64),
    Multiple(Vec<u64>),
}

/// A reply body, tagged by message type.
pub enum ReplyBody {
    AddOk { in_reply_to: u64 },
    BroadcastOk { in_reply_to: u64 },
    InitOk { in_reply_to: u64 },
    EchoOk { in_reply_to: u64, echo: String },
    GenerateOk { id: String, in_reply_to: u64 },
    ReadOk { in_reply_to: u64, messages: ReadMessage },
    TopologyOk { in_reply_to: u64 },
}

/// The key under which a body is deduplicated: the request id of a request,
/// the answered id of a reply.
pub open spec fn spec_cache_id(b: Body) -> u64 {
    match b {
        Body::Add { msg_id, .. } => msg_id,
        Body::Broadcast { msg_id, .. } => msg_id,
        Body::BroadcastOk { in_reply_to } => in_reply_to,
        Body::Cas { msg_id, .. } => msg_id,
        Body::CasOk { in_reply_to } => in_reply_to,
        Body::Echo { msg_id, .. } => msg_id,
        Body::Error { in_reply_to, .. } => in_reply_to,
        Body::Generate { msg_id } => msg_id,
        Body::Init { msg_id, .. } => msg_id,
        Body::Read { msg_id, .. } => msg_id,
        Body::ReadOk { in_reply_to, .. } => in_reply_to,
        Body::Topology { msg_id, .. } => msg_id,
    }
}

impl Body {
    /// The deduplication key of this body.
    pub fn cache_id(&self) -> (r: &u64)
        ensures
            *r == spec_cache_id(*self),
    {
        match self {
            Self::Add { msg_id, .. } => msg_id,
            Self::Broadcast { msg_id, .. } => msg_id,
            Self::BroadcastOk { in_reply_to } => in_reply_to,
            Self::Cas { msg_id, .. } => msg_id,
            Self::CasOk { in_reply_to } => in_reply_to,
            Self::Echo { msg_id, .. } => msg_id,
            Self::Error { in_reply_to, .. } => in_reply_to,
            Self::Generate { msg_id } => msg_id,
            Self::Init { msg_id, .. } => msg_id,
            Self::Read { msg_id, .. } => msg_id,
            Self::ReadOk { in_reply_to, .. } => in_reply_to,
            Self::Topology { msg_id, .. } => msg_id,
        }
    }
}

} // verus!
