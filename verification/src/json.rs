//! A small JSON emitter for the line protocol. Every reply and every
//! outbound envelope is rendered by these functions, so two renderings of
//! equal values are byte-identical.

use vstd::prelude::*;

use crate::message::{BroadcastMessage, ReadMessage, ReplyBody, ReplyMessage};
use crate::strutil::{dec_seq, push_char, push_dec};

verus! {

/// The lowercase hex character for a nibble.
pub open spec fn hex_digit(d: int) -> char {
    if d == 0 {
        '0'
    } else if d == 1 {
        '1'
    } else if d == 2 {
        '2'
    } else if d == 3 {
        '3'
    } else if d == 4 {
        '4'
    } else if d == 5 {
        '5'
    } else if d == 6 {
        '6'
    } else if d == 7 {
        '7'
    } else if d == 8 {
        '8'
    } else if d == 9 {
        '9'
    } else if d == 10 {
        'a'
    } else if d == 11 {
        'b'
    } else if d == 12 {
        'c'
    } else if d == 13 {
        'd'
    } else if d == 14 {
        'e'
    } else {
        'f'
    }
}

/// How one character is escaped inside a JSON string literal.
pub open spec fn esc_char(c: char) -> Seq<char> {
    if c == '"' {
        seq!['\\', '"']
    } else if c == '\\' {
        seq!['\\', '\\']
    } else if c == '\n' {
        seq!['\\', 'n']
    } else if c == '\r' {
        seq!['\\', 'r']
    } else if c == '\t' {
        seq!['\\', 't']
    } else if (c as u32) < 0x20 {
        seq!['\\', 'u', '0', '0', hex_digit((c as u32) as int / 16), hex_digit((c as u32) as int % 16)]
    } else {
        seq![c]
    }
}

/// The escaped form of a whole string body.
pub open spec fn esc_seq(s: Seq<char>) -> Seq<char>
    decreases s.len(),
{
    if s.len() == 0 {
        Seq::empty()
    } else {
        esc_seq(s.drop_last()) + esc_char(s.last())
    }
}

/// A JSON string literal: quotes around the escaped body.
pub open spec fn json_str(s: Seq<char>) -> Seq<char> {
    seq!['"'] + esc_seq(s) + seq!['"']
}

fn hex_char(d: u32) -> (c: char)
    requires
        d < 16,
    ensures
        c == hex_digit(d as int),
{
    match d {
        0 => '0',
        1 => '1',
        2 => '2',
        3 => '3',
        4 => '4',
        5 => '5',
        6 => '6',
        7 => '7',
        8 => '8',
        9 => '9',
        10 => 'a',
        11 => 'b',
        12 => 'c',
        13 => 'd',
        14 => 'e',
        _ => 'f',
    }
}

/// Append the escape of one character.
fn push_esc_char(out: &mut String, c: char)
    ensures
        final(out)@ == old(out)@ + esc_char(c),
{
    if c == '"' {
        push_char(out, '\\');
        push_char(out, '"');
    } else if c == '\\' {
        push_char(out, '\\');
        push_char(out, '\\');
    } else if c == '\n' {
        push_char(out, '\\');
        push_char(out, 'n');
    } else if c == '\r' {
        push_char(out, '\\');
        push_char(out, 'r');
    } else if c == '\t' {
        push_char(out, '\\');
        push_char(out, 't');
    } else if (c as u32) < 0x20 {
        push_char(out, '\\');
        push_char(out, 'u');
        push_char(out, '0');
        push_char(out, '0');
        push_char(out, hex_char((c as u32) / 16));
        push_char(out, hex_char((c as u32) % 16));
    } else {
        push_char(out, c);
    }
    assert(out@ =~= old(out)@ + esc_char(c));
}

/// Append the escaped body of `s`.
pub fn push_escaped(out: &mut String, s: &str)
    ensures
        final(out)@ == old(out)@ + esc_seq(s@),
{
    let n = s.unicode_len();
    let mut i: usize = 0;
    while i < n
        invariant
            i <= n,
            n == s@.len(),
            out@ == old(out)@ + esc_seq(s@.take(i as int)),
        decreases n - i,
    {
        let c = s.get_char(i);
        push_esc_char(out, c);
        proof {
            assert(s@.take(i + 1).drop_last() =~= s@.take(i as int));
            assert(s@.take(i + 1).last() == s@[i as int]);
        }
        i = i + 1;
    }
    proof {
        assert(s@.take(n as int) =~= s@);
    }
}

/// Append a quoted, escaped JSON string literal.
pub fn push_json_string(out: &mut String, s: &str)
    ensures
        final(out)@ == old(out)@ + json_str(s@),
{
    push_char(out, '"');
    push_escaped(out, s);
    push_char(out, '"');
    assert(out@ =~= old(out)@ + json_str(s@));
}

/// Append a string literal of the JSON skeleton.
pub fn push_lit(out: &mut String, lit: &str)
    ensures
        final(out)@ == old(out)@ + lit@,
{
    out.append(lit);
}

/// The comma-separated decimal renderings of a list of values.
pub open spec fn list_inner(vs: Seq<u64>) -> Seq<char>
    decreases vs.len(),
{
    if vs.len() == 0 {
        Seq::empty()
    } else if vs.len() == 1 {
        dec_seq(vs[0] as int)
    } else {
        list_inner(vs.drop_last()) + seq![','] + dec_seq(vs.last() as int)
    }
}

/// A JSON array of unsigned values.
pub open spec fn json_u64_list(vs: Seq<u64>) -> Seq<char> {
    seq!['['] + list_inner(vs) + seq![']']
}

/// Append a JSON array of unsigned values.
pub fn push_u64_list(out: &mut String, vs: &Vec<u64>)
    ensures
        final(out)@ == old(out)@ + json_u64_list(vs@),
{
    push_char(out, '[');
    let ghost base = out@;
    let n = vs.len();
    let mut i: usize = 0;
    while i < n
        invariant
            i <= n,
            n == vs@.len(),
            out@ == base + list_inner(vs@.take(i as int)),
        decreases n - i,
    {
        if i > 0 {
            push_char(out, ',');
        }
        push_dec(out, vs[i]);
        proof {
            assert(vs@.take(i + 1).drop_last() =~= vs@.take(i as int));
            assert(vs@.take(i + 1).last() == vs@[i as int]);
            if i == 0 {
                assert(vs@.take(1).len() == 1);
            }
            assert(out@ =~= base + list_inner(vs@.take(i + 1)));
        }
        i = i + 1;
    }
    push_char(out, ']');
    proof {
        assert(vs@.take(n as int) =~= vs@);
        assert(out@ =~= old(out)@ + json_u64_list(vs@));
    }
}

/// The comma-separated members of a JSON object mapping names to values.
pub open spec fn map_inner(m: Seq<(String, u64)>) -> Seq<char>
    decreases m.len(),
{
    if m.len() == 0 {
        Seq::empty()
    } else if m.len() == 1 {
        json_str(m[0].0@) + seq![':'] + dec_seq(m[0].1 as int)
    } else {
        map_inner(m.drop_last()) + seq![','] + json_str(m.last().0@) + seq![':'] + dec_seq(
            m.last().1 as int,
        )
    }
}

/// A JSON object mapping names to unsigned values.
pub open spec fn json_u64_map(m: Seq<(String, u64)>) -> Seq<char> {
    seq!['{'] + map_inner(m) + seq!['}']
}

/// Append a JSON object mapping names to unsigned values.
pub fn push_u64_map(out: &mut String, m: &Vec<(String, u64)>)
    ensures
        final(out)@ == old(out)@ + json_u64_map(m@),
{
    push_char(out, '{');
    let ghost base = out@;
    let n = m.len();
    let mut i: usize = 0;
    while i < n
        invariant
            i <= n,
            n == m@.len(),
            out@ == base + map_inner(m@.take(i as int)),
        decreases n - i,
    {
        if i > 0 {
            push_char(out, ',');
        }
        push_json_string(out, m[i].0.as_str());
        push_char(out, ':');
        push_dec(out, m[i].1);
        proof {
            assert(m@.take(i + 1).drop_last() =~= m@.take(i as int));
            assert(m@.take(i + 1).last() == m@[i as int]);
            if i == 0 {
                assert(m@.take(1).len() == 1);
            }
            assert(out@ =~= base + map_inner(m@.take(i + 1)));
        }
        i = i + 1;
    }
    push_char(out, '}');
    proof {
        assert(m@.take(n as int) =~= m@);
        assert(out@ =~= old(out)@ + json_u64_map(m@));
    }
}

/// The JSON rendering of a reply body.
pub open spec fn spec_reply_body(b: ReplyBody) -> Seq<char> {
    match b {
        ReplyBody::AddOk { in_reply_to } => "{\"type\":\"add_ok\",\"in_reply_to\":"@ + dec_seq(
            in_reply_to as int,
        ) + "}"@,
        ReplyBody::BroadcastOk { in_reply_to } => "{\"type\":\"broadcast_ok\",\"in_reply_to\":"@
            + dec_seq(in_reply_to as int) + "}"@,
        ReplyBody::InitOk { in_reply_to } => "{\"type\":\"init_ok\",\"in_reply_to\":"@ + dec_seq(
            in_reply_to as int,
        ) + "}"@,
        ReplyBody::EchoOk { in_reply_to, echo } => "{\"type\":\"echo_ok\",\"in_reply_to\":"@
            + dec_seq(in_reply_to as int) + ",\"echo\":"@ + json_str(echo@) + "}"@,
        ReplyBody::GenerateOk { id, in_reply_to } => "{\"type\":\"generate_ok\",\"in_reply_to\":"@
            + dec_seq(in_reply_to as int) + ",\"id\":"@ + json_str(id@) + "}"@,
        ReplyBody::ReadOk { in_reply_to, messages } => "{\"type\":\"read_ok\",\"in_reply_to\":"@
            + dec_seq(in_reply_to as int) + ",\"messages\":"@ + spec_read_messages(messages) + "}"@,
        ReplyBody::TopologyOk { in_reply_to } => "{\"type\":\"topology_ok\",\"in_reply_to\":"@
            + dec_seq(in_reply_to as int) + "}"@,
    }
}

/// The JSON rendering of a `read_ok` payload.
pub open spec fn spec_read_messages(m: ReadMessage) -> Seq<char> {
    match m {
        ReadMessage::Single(v) => dec_seq(v as int),
        ReadMessage::Multiple(vs) => json_u64_list(vs@),
    }
}

/// Append the JSON rendering of a reply body.
pub fn push_reply_body(out: &mut String, b: &ReplyBody)
    ensures
        final(out)@ == old(out)@ + spec_reply_body(*b),
{
    match b {
        ReplyBody::AddOk { in_reply_to } => {
            push_lit(out, "{\"type\":\"add_ok\",\"in_reply_to\":");
            push_dec(out, *in_reply_to);
            push_lit(out, "}");
        },
        ReplyBody::BroadcastOk { in_reply_to } => {
            push_lit(out, "{\"type\":\"broadcast_ok\",\"in_reply_to\":");
            push_dec(out, *in_reply_to);
            push_lit(out, "}");
        },
        ReplyBody::InitOk { in_reply_to } => {
            push_lit(out, "{\"type\":\"init_ok\",\"in_reply_to\":");
            push_dec(out, *in_reply_to);
            push_lit(out, "}");
        },
        ReplyBody::EchoOk { in_reply_to, echo } => {
            push_lit(out, "{\"type\":\"echo_ok\",\"in_reply_to\":");
            push_dec(out, *in_reply_to);
            push_lit(out, ",\"echo\":");
            push_json_string(out, echo.as_str());
            push_lit(out, "}");
        },
        ReplyBody::GenerateOk { id, in_reply_to } => {
            push_lit(out, "{\"type\":\"generate_ok\",\"in_reply_to\":");
            push_dec(out, *in_reply_to);
            push_lit(out, ",\"id\":");
            push_json_string(out, id.as_str());
            push_lit(out, "}");
        },
        ReplyBody::ReadOk { in_reply_to, messages } => {
            push_lit(out, "{\"type\":\"read_ok\",\"in_reply_to\":");
            push_dec(out, *in_reply_to);
            push_lit(out, ",\"messages\":");
            match messages {
                ReadMessage::Single(v) => {
                    push_dec(out, *v);
                },
                ReadMessage::Multiple(vs) => {
                    push_u64_list(out, vs);
                },
            }
            push_lit(out, "}");
        },
        ReplyBody::TopologyOk { in_reply_to } => {
            push_lit(out, "{\"type\":\"topology_ok\",\"in_reply_to\":");
            push_dec(out, *in_reply_to);
            push_lit(out, "}");
        },
    }
    assert(out@ =~= old(out)@ + spec_reply_body(*b));
}

/// The JSON rendering of a full reply envelope.
pub open spec fn spec_reply_json(r: ReplyMessage) -> Seq<char> {
    "{\"src\":"@ + json_str(r.src@) + ",\"dest\":"@ + json_str(r.dest@) + ",\"body\":"@
        + spec_reply_body(r.body) + "}"@
}

/// Render a full reply envelope as one JSON line (without the newline).
pub fn reply_to_json(r: &ReplyMessage) -> (s: String)
    ensures
        s@ == spec_reply_json(*r),
{
    let mut out = String::new();
    push_lit(&mut out, "{\"src\":");
    push_json_string(&mut out, r.src.as_str());
    push_lit(&mut out, ",\"dest\":");
    push_json_string(&mut out, r.dest.as_str());
    push_lit(&mut out, ",\"body\":");
    push_reply_body(&mut out, &r.body);
    push_lit(&mut out, "}");
    assert(out@ =~= spec_reply_json(*r));
    out
}

/// The JSON rendering of a broadcast payload.
pub open spec fn spec_broadcast_message(m: BroadcastMessage) -> Seq<char> {
    match m {
        BroadcastMessage::Single(v) => dec_seq(v as int),
        BroadcastMessage::Multiple(vs) => json_u64_list(vs@),
        BroadcastMessage::Hashmap(m) => json_u64_map(m@),
    }
}

/// Append the JSON rendering of a broadcast payload.
pub fn push_broadcast_message(out: &mut String, m: &BroadcastMessage)
    ensures
        final(out)@ == old(out)@ + spec_broadcast_message(*m),
{
    match m {
        BroadcastMessage::Single(v) => {
            push_dec(out, *v);
        },
        BroadcastMessage::Multiple(vs) => {
            push_u64_list(out, vs);
        },
        BroadcastMessage::Hashmap(mm) => {
            push_u64_map(out, mm);
        },
    }
}

} // verus!
