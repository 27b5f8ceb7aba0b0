//! Decimal rendering of unsigned integers, used for snowflake id strings
//! and for the JSON emitter.

use vstd::prelude::*;

verus! {

/// The character for a single decimal digit.
pub open spec fn dec_digit(d: int) -> char {
    if d == 0 {
        '0'
    } else if d == 1 {
        '1'
    } else if d == 2 {
        '2'
    } else if d == 3 {
        '3'
    } else if d == 4 {
        '4'
    } else if d == 5 {
        '5'
    } else if d == 6 {
        '6'
    } else if d == 7 {
        '7'
    } else if d == 8 {
        '8'
    } else {
        '9'
    }
}

/// The decimal rendering of `v`, most significant digit first, no leading
/// zeros (except for `v == 0`, which is rendered as "0").
pub open spec fn dec_seq(v: int) -> Seq<char>
    decreases v,
{
    if v < 10 {
        seq![dec_digit(v)]
    } else {
        dec_seq(v / 10).push(dec_digit(v % 10))
    }
}

/// The decimal rendering of `v` left-padded with zeros to at least `width`
/// characters, as a minimum-width format specifier renders it.
pub open spec fn dec_pad(v: int, width: int) -> Seq<char> {
    if dec_seq(v).len() >= width {
        dec_seq(v)
    } else {
        Seq::new((width - dec_seq(v).len()) as nat, |i: int| '0') + dec_seq(v)
    }
}

/// How many characters `dec_seq(v)` has.
pub open spec fn dec_len(v: int) -> int
    decreases v,
{
    if v < 10 {
        1
    } else {
        1 + dec_len(v / 10)
    }
}

pub proof fn lemma_dec_seq_len(v: int)
    ensures
        dec_seq(v).len() == dec_len(v),
    decreases v,
{
    if v >= 10 {
        lemma_dec_seq_len(v / 10);
    }
}

proof fn lemma_dec_len_pos(v: int)
    ensures
        dec_len(v) >= 1,
    decreases v,
{
    if v >= 10 {
        lemma_dec_len_pos(v / 10);
    }
}

spec fn pow10(n: nat) -> int
    decreases n,
{
    if n == 0 {
        1
    } else {
        10 * pow10((n - 1) as nat)
    }
}

proof fn lemma_dec_len_le(v: int, n: nat)
    requires
        n >= 1,
        0 <= v < pow10(n),
    ensures
        dec_len(v) <= n,
    decreases n,
{
    if v >= 10 {
        assert(pow10(n) == 10 * pow10((n - 1) as nat));
        lemma_dec_len_le(v / 10, (n - 1) as nat);
    }
}

proof fn lemma_dec_len_bound(v: int)
    requires
        0 <= v < 0x10000000000000000,
    ensures
        dec_len(v) <= 20,
{
    reveal_with_fuel(pow10, 21);
    assert(pow10(20) == 100000000000000000000);
    lemma_dec_len_le(v, 20);
}

fn digit_char(d: u64) -> (c: char)
    requires
        d < 10,
    ensures
        c == dec_digit(d as int),
{
    match d {
        0 => '0',
        1 => '1',
        2 => '2',
        3 => '3',
        4 => '4',
        5 => '5',
        6 => '6',
        7 => '7',
        8 => '8',
        _ => '9',
    }
}

/// Relies on `String::push`: appends exactly one character.
#[verifier::external_body]
pub fn push_char(s: &mut String, c: char)
    ensures
        final(s)@ == old(s)@.push(c),
{
    s.push(c);
}

/// Append the decimal rendering of `v` to `out`.
pub fn push_dec(out: &mut String, v: u64)
    ensures
        final(out)@ == old(out)@ + dec_seq(v as int),
    decreases v,
{
    if v < 10 {
        push_char(out, digit_char(v));
        assert(out@ =~= old(out)@ + dec_seq(v as int));
    } else {
        push_dec(out, v / 10);
        push_char(out, digit_char(v % 10));
        assert(out@ =~= old(out)@ + dec_seq(v as int));
    }
}

/// Count the decimal digits of `v`.
pub fn dec_width(v: u64) -> (n: u64)
    ensures
        n == dec_len(v as int),
        1 <= n <= 20,
{
    proof {
        lemma_dec_len_bound(v as int);
        lemma_dec_len_pos(v as int);
    }
    let mut n: u64 = 1;
    let mut rest: u64 = v;
    while rest >= 10
        invariant
            0 <= rest <= v,
            n as int == 1 + dec_len(v as int) - dec_len(rest as int),
            dec_len(v as int) <= 20,
            dec_len(rest as int) >= 1,
        decreases rest,
    {
        proof {
            lemma_dec_len_pos(rest as int / 10);
        }
        rest = rest / 10;
        n = n + 1;
    }
    n
}

/// Append the decimal rendering of `v`, zero-padded to at least `width`
/// characters.
pub fn push_dec_pad(out: &mut String, v: u64, width: u64)
    requires
        width <= 32,
    ensures
        final(out)@ == old(out)@ + dec_pad(v as int, width as int),
{
    let n = dec_width(v);
    proof {
        lemma_dec_seq_len(v as int);
    }
    let target: u64 = if width > n {
        width - n
    } else {
        0
    };
    let mut pad: u64 = 0;
    let ghost prefix = out@;
    while pad < target
        invariant
            pad <= target <= 32,
            out@ == prefix + Seq::new(pad as nat, |i: int| '0'),
        decreases target - pad,
    {
        push_char(out, '0');
        assert(out@ =~= prefix + Seq::new((pad + 1) as nat, |i: int| '0'));
        pad = pad + 1;
    }
    push_dec(out, v);
    assert(out@ =~= old(out)@ + dec_pad(v as int, width as int));
}

} // verus!
