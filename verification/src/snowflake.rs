//! The snowflake id generator: 64-bit ids composed of a millisecond
//! timestamp, a node identity and a per-millisecond sequence number.
//! The identity bits are a fixed 64-bit hash of the node's name masked
//! to ten bits; ids emitted by one generator are strictly increasing.

use vstd::prelude::*;

verus! {

/// Milliseconds of 2020-01-01 UTC since the Unix epoch; timestamps are
/// stored relative to it.
pub const CUSTOM_EPOCH: u64 = 1577836800000;

/// Number of bits reserved for the node identity inside an id.
pub const NODE_BITS: u64 = 10;

/// Number of bits reserved for the per-millisecond sequence counter.
pub const SEQ_BITS: u64 = 12;

/// Largest node identity that fits in `NODE_BITS` bits.
pub const MAX_NODE_ID: u64 = 0x3FF;

/// Largest sequence number that fits in `SEQ_BITS` bits.
pub const MAX_SEQ: u64 = 0xFFF;

/// Largest millisecond timestamp whose offset from the custom epoch fits
/// in the 42 bits left above node and sequence.
pub const MAX_TIMESTAMP: u64 = CUSTOM_EPOCH + 0x3FFFFFFFFFF;

/// The numeric value of an id: timestamp offset, node and sequence packed
/// from most to least significant.
pub open spec fn id_value(ts: int, node: int, seq: int) -> int {
    (ts - CUSTOM_EPOCH) * 0x400000 + node * 0x1000 + seq
}

/// One id generator. `last_ts == 0` means no id has been emitted yet.
pub struct Snowflake {
    pub node_id: u64,
    pub last_ts: u64,
    pub sequence: u64,
}

impl Snowflake {
    /// The generator's bookkeeping stays inside the bit widths of an id.
    pub open spec fn wf(self) -> bool {
        &&& self.node_id <= MAX_NODE_ID
        &&& self.sequence <= MAX_SEQ
        &&& (self.last_ts == 0 || (CUSTOM_EPOCH <= self.last_ts <= MAX_TIMESTAMP))
    }

    /// The value of the most recently emitted id.
    pub open spec fn last_id(self) -> int {
        id_value(self.last_ts as int, self.node_id as int, self.sequence as int)
    }

    /// True once the generator can emit no further distinct id: the
    /// timestamp space is exhausted and the sequence is at its maximum.
    pub open spec fn saturated(self) -> bool {
        self.last_ts == MAX_TIMESTAMP && self.sequence == MAX_SEQ
    }

    /// Creates a new generator. The identity bits start at zero and are
    /// adopted from the node's name once the first `init` assigns it.
    pub fn new() -> (s: Snowflake)
        ensures
            s.wf(),
            s.node_id == 0,
            s.last_ts == 0,
            s.sequence == 0,
    {
        Snowflake { node_id: 0, last_ts: 0, sequence: 0 }
    }

    /// Creates a new generator with the given node identity bits.
    pub fn with_node_id(node_id: u64) -> (s: Snowflake)
        ensures
            s.wf(),
            s.node_id == node_id & MAX_NODE_ID,
            s.last_ts == 0,
            s.sequence == 0,
    {
        proof {
            assert(node_id & 0x3FFu64 <= 0x3FFu64) by (bit_vector);
        }
        Snowflake { node_id: node_id & MAX_NODE_ID, last_ts: 0, sequence: 0 }
    }

    /// Emit the next id for wall-clock time `now` (in milliseconds).
    /// Within one millisecond the sequence advances; when it overflows, the
    /// generator moves to the next millisecond by itself; a clock that runs
    /// backwards is ignored in favour of the stored timestamp. Each id is
    /// strictly greater than the one before it, until the 42-bit timestamp
    /// space is exhausted.
    pub fn next_id(&mut self, now: u64) -> (r: u64)
        requires
            old(self).wf(),
            CUSTOM_EPOCH <= now <= MAX_TIMESTAMP,
        ensures
            final(self).wf(),
            final(self).node_id == old(self).node_id,
            final(self).last_ts >= old(self).last_ts,
            CUSTOM_EPOCH <= final(self).last_ts,
            r as int == final(self).last_id(),
            old(self).last_ts != 0 && !old(self).saturated() ==> r as int > old(self).last_id(),
            old(self).last_ts != 0 ==> final(self).last_id() >= old(self).last_id(),
    {
        let ts0: u64 = if now > self.last_ts {
            now
        } else {
            self.last_ts
        };
        if self.last_ts != 0 && ts0 == self.last_ts {
            if self.sequence >= MAX_SEQ {
                if self.last_ts < MAX_TIMESTAMP {
                    self.last_ts = self.last_ts + 1;
                    self.sequence = 0;
                }
            } else {
                self.sequence = self.sequence + 1;
            }
        } else {
            self.last_ts = ts0;
            self.sequence = 0;
        }
        let t: u64 = self.last_ts - CUSTOM_EPOCH;
        let n: u64 = self.node_id;
        let s: u64 = self.sequence;
        let r: u64 = (t << 22u64) | (n << 12u64) | s;
        proof {
            assert((t << 22u64) | (n << 12u64) | s == t * 0x400000 + n * 0x1000 + s
                && t * 0x400000 + n * 0x1000 + s >= t * 0x400000) by (bit_vector)
                requires
                    t <= 0x3FFFFFFFFFFu64,
                    n <= 0x3FFu64,
                    s <= 0xFFFu64,
            ;
        }
        r
    }
}

impl Snowflake {
    /// Adopt the identity bits derived from the node's name. The bits are
    /// taken only while no id has been emitted yet, so the ids already
    /// handed out stay strictly below all later ones.
    pub fn adopt_node_bits(&mut self, name: &str)
        requires
            old(self).wf(),
        ensures
            final(self).wf(),
            final(self).last_ts == old(self).last_ts,
            final(self).sequence == old(self).sequence,
            final(self).node_id == (if old(self).last_ts == 0 {
                node_bits_of(name@)
            } else {
                old(self).node_id
            }),
    {
        if self.last_ts == 0 {
            self.node_id = node_bits(name);
        }
    }
}

/// A 64-bit product reduced modulo 2^64, as the hash's multiply wraps.
pub open spec fn mul64(a: u64, b: u64) -> u64 {
    ((a as int * b as int) % 0x10000000000000000) as u64
}

/// The running 64-bit hash of the first `n` characters of a name: the
/// offset basis, folded with xor and a fixed prime multiplier per
/// character.
pub open spec fn node_hash(s: Seq<char>, n: int) -> u64
    decreases n,
{
    if n <= 0 {
        0xcbf29ce484222325u64
    } else {
        mul64(node_hash(s, n - 1) ^ ((s[n - 1] as u32) as u64), 0x100000001b3u64)
    }
}

/// The identity bits of a node name: its fixed 64-bit hash masked to the
/// ten node bits. The same name always yields the same bits.
pub open spec fn node_bits_of(s: Seq<char>) -> u64 {
    node_hash(s, s.len() as int) & MAX_NODE_ID
}

/// Compute the identity bits of a node name.
pub fn node_bits(name: &str) -> (r: u64)
    ensures
        r == node_bits_of(name@),
        r <= MAX_NODE_ID,
{
    let n = name.unicode_len();
    let mut h: u64 = 0xcbf29ce484222325;
    let mut i: usize = 0;
    while i < n
        invariant
            i <= n,
            n == name@.len(),
            h == node_hash(name@, i as int),
        decreases n - i,
    {
        let c = name.get_char(i);
        let x: u64 = h ^ ((c as u32) as u64);
        let wide: u128 = (x as u128) * 0x100000001b3u128;
        let rem: u128 = wide % 0x10000000000000000u128;
        h = rem as u64;
        proof {
            assert(h == mul64(x, 0x100000001b3u64));
            assert(h == node_hash(name@, i + 1));
        }
        i = i + 1;
    }
    let r: u64 = h & MAX_NODE_ID;
    proof {
        assert(h & 0x3FFu64 <= 0x3FFu64) by (bit_vector);
    }
    r
}

} // verus!
