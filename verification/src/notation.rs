//! How an address is written: lower-case groups without leading zeros, the
//! first longest run of two or more zero groups as `::`, and the addresses
//! of `::ffff:0:0/96` with their last 32 bits as a dotted quad.

use vstd::prelude::*;
use crate::address::{group_of, Ipv6Address};
use crate::literal::ints;
use crate::text::string_of;

verus! {

/// The character of a digit below sixteen, in lower case.
pub open spec fn digit_char(d: int) -> char {
    if d < 10 {
        ((0x30 + d) as u8) as char
    } else {
        ((0x61 + d - 10) as u8) as char
    }
}

/// `n` in hexadecimal, without leading zeros.
pub open spec fn hex_text(n: int) -> Seq<char>
    decreases n,
{
    if n < 16 {
        seq![digit_char(n)]
    } else {
        hex_text(n / 16).push(digit_char(n % 16))
    }
}

/// `n` in decimal, without leading zeros.
pub open spec fn dec_text(n: int) -> Seq<char>
    decreases n,
{
    if n < 10 {
        seq![digit_char(n)]
    } else {
        dec_text(n / 10).push(digit_char(n % 10))
    }
}

/// The groups in hexadecimal, with a colon between neighbours.
pub open spec fn joined(g: Seq<int>) -> Seq<char>
    decreases g.len(),
{
    if g.len() == 0 {
        Seq::<char>::empty()
    } else if g.len() == 1 {
        hex_text(g[0])
    } else {
        joined(g.drop_last()) + seq![':'] + hex_text(g.last())
    }
}

/// The eight groups of an address.
pub open spec fn groups_of(bits: u128) -> Seq<int> {
    Seq::new(8, |i: int| group_of(bits, i))
}

/// The `len` groups from `start` on are all zero.
pub open spec fn is_zero_run(g: Seq<int>, start: int, len: int) -> bool {
    &&& 0 <= start
    &&& 0 <= len
    &&& start + len <= g.len()
    &&& forall|k: int| start <= k < start + len ==> #[trigger] g[k] == 0
}

/// The run is the first of the longest runs of zero groups.
pub open spec fn is_longest_run(g: Seq<int>, start: int, len: int) -> bool {
    &&& is_zero_run(g, start, len)
    &&& forall|s: int, l: int| #[trigger]
        is_zero_run(g, s, l) ==> l < len || (l == len && start <= s)
}

/// The run that is written as `::`: the first longest run of zero groups,
/// if it has two groups or more.
pub open spec fn elided_run(g: Seq<int>) -> Option<(int, int)> {
    if exists|r: (int, int)| r.1 >= 2 && #[trigger] is_longest_run(g, r.0, r.1) {
        Some(choose|r: (int, int)| r.1 >= 2 && #[trigger] is_longest_run(g, r.0, r.1))
    } else {
        None
    }
}

/// An IPv4 address mapped into IPv6: five groups of zero, then `ffff`.
pub open spec fn is_mapped(g: Seq<int>) -> bool {
    g[0] == 0 && g[1] == 0 && g[2] == 0 && g[3] == 0 && g[4] == 0 && g[5] == 0xffff
}

/// The last two groups as four decimal octets.
pub open spec fn quad_text(hi: int, lo: int) -> Seq<char> {
    dec_text(hi / 256) + seq!['.'] + dec_text(hi % 256) + seq!['.'] + dec_text(lo / 256) + seq![
        '.',
    ] + dec_text(lo % 256)
}

/// The text of eight groups.
pub open spec fn groups_text(g: Seq<int>) -> Seq<char> {
    if is_mapped(g) {
        seq![':', ':', 'f', 'f', 'f', 'f', ':'] + quad_text(g[6], g[7])
    } else {
        match elided_run(g) {
            Some(r) => joined(g.take(r.0)) + seq![':', ':'] + joined(g.skip(r.0 + r.1)),
            None => joined(g),
        }
    }
}

/// The text of an address.
pub open spec fn address_text(bits: u128) -> Seq<char> {
    groups_text(groups_of(bits))
}

/// The character of the digit `d`.
fn digit_char_of(d: u32) -> (c: char)
    requires
        d < 16,
    ensures
        c == digit_char(d as int),
{
    if d < 10 {
        ((0x30 + d) as u8) as char
    } else {
        ((0x61 + d - 10) as u8) as char
    }
}

/// Appends `n` in hexadecimal.
pub fn push_hex(out: &mut Vec<char>, n: u128)
    ensures
        final(out)@ == old(out)@ + hex_text(n as int),
    decreases n,
{
    if n >= 16 {
        push_hex(out, n / 16);
    }
    out.push(digit_char_of((n % 16) as u32));
}

/// Appends `n` in decimal.
pub fn push_decimal(out: &mut Vec<char>, n: u32)
    ensures
        final(out)@ == old(out)@ + dec_text(n as int),
    decreases n,
{
    if n >= 10 {
        push_decimal(out, n / 10);
    }
    out.push(digit_char_of(n % 10));
}

/// Appends the groups from `from` up to `to`, with colons between them.
fn push_joined(out: &mut Vec<char>, g: &Vec<u16>, from: usize, to: usize)
    requires
        from <= to <= g.len(),
    ensures
        final(out)@ == old(out)@ + joined(ints(g@).subrange(from as int, to as int)),
{
    let ghost run = ints(g@).subrange(from as int, to as int);
    let ghost start = out@;
    let mut i: usize = from;
    proof {
        assert(start + joined(run.take(0)) == start);
    }
    while i < to
        invariant
            from <= i <= to <= g.len(),
            run == ints(g@).subrange(from as int, to as int),
            out@ == start + joined(run.take(i - from)),
        decreases to - i,
    {
        let ghost before = run.take(i - from);
        let ghost now = run.take(i - from + 1);
        let ghost mid = out@;
        proof {
            assert(now.drop_last() == before);
            assert(now.last() == g@[i as int] as int);
        }
        if i > from {
            out.push(':');
        }
        let ghost sep = out@;
        push_hex(out, g[i] as u128);
        proof {
            if i > from {
                assert(sep == mid + seq![':']);
                assert(out@ == start + (joined(before) + seq![':'] + hex_text(now.last())));
            } else {
                assert(before.len() == 0);
                assert(now.len() == 1);
                assert(out@ == start + hex_text(now[0]));
            }
        }
        i += 1;
    }
    proof {
        assert(run.take(to - from) == run);
    }
}

/// Appends four octets with dots between them.
fn push_quad(out: &mut Vec<char>, hi: u16, lo: u16)
    ensures
        final(out)@ == old(out)@ + quad_text(hi as int, lo as int),
{
    let ghost start = out@;
    push_decimal(out, (hi / 256) as u32);
    out.push('.');
    push_decimal(out, (hi % 256) as u32);
    out.push('.');
    push_decimal(out, (lo / 256) as u32);
    out.push('.');
    push_decimal(out, (lo % 256) as u32);
    proof {
        assert(out@ == start + quad_text(hi as int, lo as int));
    }
}

/// There is one first longest run of zero groups.
pub proof fn lemma_longest_run_unique(g: Seq<int>, a: (int, int), b: (int, int))
    requires
        is_longest_run(g, a.0, a.1),
        is_longest_run(g, b.0, b.1),
    ensures
        a == b,
{
    assert(is_zero_run(g, a.0, a.1));
    assert(is_zero_run(g, b.0, b.1));
}

/// The run found as the first longest is the one written as `::`, if it
/// has two groups or more; else none is.
pub proof fn lemma_elided_run(g: Seq<int>, start: int, len: int)
    requires
        is_longest_run(g, start, len),
    ensures
        elided_run(g) == if len >= 2 {
            Some((start, len))
        } else {
            None
        },
{
    if len >= 2 {
        let w = (start, len);
        assert(w.1 >= 2 && is_longest_run(g, w.0, w.1));
        let c = choose|r: (int, int)| r.1 >= 2 && #[trigger] is_longest_run(g, r.0, r.1);
        lemma_longest_run_unique(g, c, w);
    } else {
        if exists|r: (int, int)| r.1 >= 2 && #[trigger] is_longest_run(g, r.0, r.1) {
            let c = choose|r: (int, int)| r.1 >= 2 && #[trigger] is_longest_run(g, r.0, r.1);
            lemma_longest_run_unique(g, c, (start, len));
        }
    }
}

/// The first longest run of zero groups: where it starts and how many
/// groups it has.
pub fn longest_zero_run(g: &Vec<u16>) -> (r: (usize, usize))
    ensures
        is_longest_run(ints(g@), r.0 as int, r.1 as int),
{
    let ghost v = ints(g@);
    let mut best_start: usize = 0;
    let mut best_len: usize = 0;
    let mut cur: usize = 0;
    let mut i: usize = 0;
    while i < g.len()
        invariant
            i <= g.len(),
            v == ints(g@),
            cur <= i,
            forall|k: int| i - cur <= k < i ==> #[trigger] v[k] == 0,
            cur < i ==> v[i - cur - 1] != 0,
            best_start + best_len <= i,
            is_zero_run(v, best_start as int, best_len as int),
            cur <= best_len,
            forall|s: int, l: int| #[trigger]
                is_zero_run(v, s, l) && s + l <= i ==> l < best_len || (l == best_len
                    && best_start <= s),
        decreases g.len() - i,
    {
        proof {
            assert(v[i as int] == g@[i as int] as int);
        }
        if g[i] == 0 {
            cur += 1;
            if cur > best_len {
                best_start = i + 1 - cur;
                best_len = cur;
            }
            proof {
                assert forall|s: int, l: int| #[trigger]
                    is_zero_run(v, s, l) && s + l <= i + 1 implies l < best_len || (l == best_len
                    && best_start <= s) by {
                    if s + l == i + 1 && l > 0 {
                        if l > cur {
                            assert(v[i + 1 - cur - 1] == 0);
                        }
                    }
                }
            }
        } else {
            cur = 0;
            proof {
                assert forall|s: int, l: int| #[trigger]
                    is_zero_run(v, s, l) && s + l <= i + 1 implies l < best_len || (l == best_len
                    && best_start <= s) by {
                    if s + l == i + 1 && l > 0 {
                        assert(v[i as int] == 0);
                    }
                }
            }
        }
        i += 1;
    }
    (best_start, best_len)
}

impl Ipv6Address {
    /// The eight groups, the most significant first.
    pub fn segments(&self) -> (g: Vec<u16>)
        ensures
            g@.len() == 8,
            ints(g@) == groups_of(self.bits),
    {
        let mut g: Vec<u16> = Vec::new();
        let mut i: usize = 0;
        while i < 8
            invariant
                i <= 8,
                g@.len() == i,
                forall|k: int| 0 <= k < i ==> g@[k] as int == group_of(self.bits, k),
            decreases 8 - i,
        {
            g.push(self.segment(i));
            i += 1;
        }
        g
    }

    /// The text of the address.
    pub fn to_string(&self) -> (s: String)
        ensures
            s@ == address_text(self.bits),
    {
        let g: Vec<u16> = self.segments();
        let ghost v = ints(g@);
        let mut out: Vec<char> = Vec::new();
        proof {
            assert(v[0] == g@[0] as int);
            assert(v[1] == g@[1] as int);
            assert(v[2] == g@[2] as int);
            assert(v[3] == g@[3] as int);
            assert(v[4] == g@[4] as int);
            assert(v[5] == g@[5] as int);
            assert(v[6] == g@[6] as int);
            assert(v[7] == g@[7] as int);
        }
        if g[0] == 0 && g[1] == 0 && g[2] == 0 && g[3] == 0 && g[4] == 0 && g[5] == 0xffff {
            out.push(':');
            out.push(':');
            out.push('f');
            out.push('f');
            out.push('f');
            out.push('f');
            out.push(':');
            proof {
                assert(out@ == seq![':', ':', 'f', 'f', 'f', 'f', ':']);
            }
            push_quad(&mut out, g[6], g[7]);
        } else {
            let run: (usize, usize) = longest_zero_run(&g);
            proof {
                lemma_elided_run(v, run.0 as int, run.1 as int);
            }
            if run.1 >= 2 {
                push_joined(&mut out, &g, 0, run.0);
                let ghost head = out@;
                out.push(':');
                out.push(':');
                push_joined(&mut out, &g, run.0 + run.1, 8);
                proof {
                    assert(v.subrange(0, run.0 as int) == v.take(run.0 as int));
                    assert(v.subrange(run.0 + run.1, 8) == v.skip(run.0 + run.1));
                    assert(head == joined(v.take(run.0 as int)));
                    assert(out@ == joined(v.take(run.0 as int)) + seq![':', ':'] + joined(
                        v.skip(run.0 + run.1),
                    ));
                }
            } else {
                push_joined(&mut out, &g, 0, 8);
                proof {
                    assert(v.subrange(0, 8) == v);
                    assert(out@ == joined(v));
                }
            }
        }
        string_of(&out)
    }
}

} // verus!
