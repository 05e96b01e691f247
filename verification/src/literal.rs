//! The text form of an IPv6 address: what counts as one, and its value.
//!
//! A literal is eight 16-bit groups in hexadecimal, separated by colons.
//! One `::` may stand for one or more groups of zero, and the last two
//! groups may be written as four decimal octets separated by dots.

use vstd::prelude::*;
use crate::address::{weight, Ipv6Address};
use crate::text::{chars_of, split, split_on, texts};

verus! {

/// The value of a hexadecimal digit, of either case.
pub open spec fn hex_digit(c: char) -> Option<int> {
    if '0' <= c <= '9' {
        Some(c as int - '0' as int)
    } else if 'a' <= c <= 'f' {
        Some(c as int - 'a' as int + 10)
    } else if 'A' <= c <= 'F' {
        Some(c as int - 'A' as int + 10)
    } else {
        None
    }
}

/// The value of a decimal digit.
pub open spec fn dec_digit(c: char) -> Option<int> {
    if '0' <= c <= '9' {
        Some(c as int - '0' as int)
    } else {
        None
    }
}

pub open spec fn all_hex(p: Seq<char>) -> bool {
    forall|i: int| 0 <= i < p.len() ==> (#[trigger] hex_digit(p[i])) is Some
}

pub open spec fn all_dec(p: Seq<char>) -> bool {
    forall|i: int| 0 <= i < p.len() ==> (#[trigger] dec_digit(p[i])) is Some
}

/// The number that the hexadecimal digits of `p` write, most significant
/// first.
pub open spec fn hex_number(p: Seq<char>) -> int
    decreases p.len(),
{
    if p.len() == 0 {
        0
    } else {
        hex_number(p.drop_last()) * 16 + hex_digit(p.last()).unwrap()
    }
}

/// The number that the decimal digits of `p` write, most significant first.
pub open spec fn dec_number(p: Seq<char>) -> int
    decreases p.len(),
{
    if p.len() == 0 {
        0
    } else {
        dec_number(p.drop_last()) * 10 + dec_digit(p.last()).unwrap()
    }
}

/// A group: one to four hexadecimal digits. Its value is below 65536.
pub open spec fn hex_group(p: Seq<char>) -> Option<int> {
    if 1 <= p.len() <= 4 && all_hex(p) {
        Some(hex_number(p))
    } else {
        None
    }
}

/// An octet: one to three decimal digits that write a number up to 255,
/// with no leading zero before another digit.
pub open spec fn dec_octet(p: Seq<char>) -> Option<int> {
    if 1 <= p.len() <= 3 && all_dec(p) && (p.len() > 1 ==> p[0] != '0') && dec_number(p) <= 255 {
        Some(dec_number(p))
    } else {
        None
    }
}

/// Four octets separated by dots, as the two groups they fill.
pub open spec fn dotted_quad(p: Seq<char>) -> Option<(int, int)> {
    let parts = split_on(p, '.');
    if parts.len() == 4 && dec_octet(parts[0]) is Some && dec_octet(parts[1]) is Some && dec_octet(
        parts[2],
    ) is Some && dec_octet(parts[3]) is Some {
        Some(
            (
                dec_octet(parts[0]).unwrap() * 256 + dec_octet(parts[1]).unwrap(),
                dec_octet(parts[2]).unwrap() * 256 + dec_octet(parts[3]).unwrap(),
            ),
        )
    } else {
        None
    }
}

/// The number written by up to four hexadecimal digits is below 65536.
pub proof fn lemma_hex_number_bound(p: Seq<char>)
    requires
        all_hex(p),
    ensures
        0 <= hex_number(p),
        p.len() == 0 ==> hex_number(p) == 0,
        p.len() == 1 ==> hex_number(p) < 0x10,
        p.len() == 2 ==> hex_number(p) < 0x100,
        p.len() == 3 ==> hex_number(p) < 0x1000,
        p.len() == 4 ==> hex_number(p) < 0x1_0000,
    decreases p.len(),
{
    if p.len() > 0 {
        let init = p.drop_last();
        assert forall|i: int| 0 <= i < init.len() implies (#[trigger] hex_digit(init[i])) is Some by {
            assert(init[i] == p[i]);
        }
        lemma_hex_number_bound(init);
        assert(hex_digit(p[p.len() - 1]) is Some);
    }
}

/// The number written by up to three decimal digits is below 1000.
pub proof fn lemma_dec_number_bound(p: Seq<char>)
    requires
        all_dec(p),
    ensures
        0 <= dec_number(p),
        p.len() == 0 ==> dec_number(p) == 0,
        p.len() == 1 ==> dec_number(p) < 10,
        p.len() == 2 ==> dec_number(p) < 100,
        p.len() == 3 ==> dec_number(p) < 1000,
    decreases p.len(),
{
    if p.len() > 0 {
        let init = p.drop_last();
        assert forall|i: int| 0 <= i < init.len() implies (#[trigger] dec_digit(init[i])) is Some by {
            assert(init[i] == p[i]);
        }
        lemma_dec_number_bound(init);
        assert(dec_digit(p[p.len() - 1]) is Some);
    }
}

/// The value of `c` as a hexadecimal digit, if it is one.
pub fn hex_digit_of(c: char) -> (d: Option<u16>)
    ensures
        d is Some <==> hex_digit(c) is Some,
        d matches Some(x) ==> x as int == hex_digit(c).unwrap() && x < 16,
{
    let n: u32 = c as u32;
    if 0x30 <= n && n <= 0x39 {
        Some((n - 0x30) as u16)
    } else if 0x61 <= n && n <= 0x66 {
        Some((n - 0x61 + 10) as u16)
    } else if 0x41 <= n && n <= 0x46 {
        Some((n - 0x41 + 10) as u16)
    } else {
        None
    }
}

/// The value of `c` as a decimal digit, if it is one.
pub fn dec_digit_of(c: char) -> (d: Option<u16>)
    ensures
        d is Some <==> dec_digit(c) is Some,
        d matches Some(x) ==> x as int == dec_digit(c).unwrap() && x < 10,
{
    let n: u32 = c as u32;
    if 0x30 <= n && n <= 0x39 {
        Some((n - 0x30) as u16)
    } else {
        None
    }
}

/// Reads `p` as one group.
pub fn parse_group(p: &Vec<char>) -> (g: Option<u16>)
    ensures
        g is Some <==> hex_group(p@) is Some,
        g matches Some(x) ==> x as int == hex_group(p@).unwrap(),
{
    let n: usize = p.len();
    if n < 1 || n > 4 {
        return None;
    }
    let mut acc: u16 = 0;
    let mut i: usize = 0;
    while i < n
        invariant
            n == p.len(),
            1 <= n <= 4,
            i <= n,
            all_hex(p@.take(i as int)),
            acc as int == hex_number(p@.take(i as int)),
        decreases n - i,
    {
        let ghost before = p@.take(i as int);
        let ghost now = p@.take(i as int + 1);
        proof {
            assert(now.drop_last() == before);
            assert(now.last() == p@[i as int]);
            lemma_hex_number_bound(before);
        }
        match hex_digit_of(p[i]) {
            None => {
                proof {
                    assert(hex_digit(p@[i as int]) is None);
                }
                return None;
            },
            Some(d) => {
                proof {
                    assert forall|k: int| 0 <= k < now.len() implies (#[trigger] hex_digit(
                        now[k],
                    )) is Some by {
                        if k < i {
                            assert(now[k] == before[k]);
                        }
                    }
                }
                acc = acc * 16 + d;
            },
        }
        i += 1;
    }
    proof {
        assert(p@.take(n as int) == p@);
    }
    Some(acc)
}

/// Reads `p` as one octet.
pub fn parse_octet(p: &Vec<char>) -> (o: Option<u16>)
    ensures
        o is Some <==> dec_octet(p@) is Some,
        o matches Some(x) ==> x as int == dec_octet(p@).unwrap() && x <= 255,
{
    let n: usize = p.len();
    if n < 1 || n > 3 {
        return None;
    }
    let mut acc: u16 = 0;
    let mut i: usize = 0;
    while i < n
        invariant
            n == p.len(),
            1 <= n <= 3,
            i <= n,
            all_dec(p@.take(i as int)),
            acc as int == dec_number(p@.take(i as int)),
        decreases n - i,
    {
        let ghost before = p@.take(i as int);
        let ghost now = p@.take(i as int + 1);
        proof {
            assert(now.drop_last() == before);
            assert(now.last() == p@[i as int]);
            lemma_dec_number_bound(before);
        }
        match dec_digit_of(p[i]) {
            None => {
                proof {
                    assert(dec_digit(p@[i as int]) is None);
                }
                return None;
            },
            Some(d) => {
                proof {
                    assert forall|k: int| 0 <= k < now.len() implies (#[trigger] dec_digit(
                        now[k],
                    )) is Some by {
                        if k < i {
                            assert(now[k] == before[k]);
                        }
                    }
                }
                acc = acc * 10 + d;
            },
        }
        i += 1;
    }
    proof {
        assert(p@.take(n as int) == p@);
    }
    if n > 1 && p[0] == '0' {
        return None;
    }
    if acc > 255 {
        return None;
    }
    Some(acc)
}

/// Reads `p` as four dotted octets and gives the two groups they fill.
pub fn parse_quad(p: &Vec<char>) -> (q: Option<(u16, u16)>)
    ensures
        q is Some <==> dotted_quad(p@) is Some,
        q matches Some(x) ==> x.0 as int == dotted_quad(p@).unwrap().0 && x.1 as int
            == dotted_quad(p@).unwrap().1,
{
    let parts: Vec<Vec<char>> = split(p, '.');
    proof {
        assert(texts(parts@).len() == parts@.len());
    }
    if parts.len() != 4 {
        return None;
    }
    proof {
        assert(texts(parts@)[0] == parts@[0]@);
        assert(texts(parts@)[1] == parts@[1]@);
        assert(texts(parts@)[2] == parts@[2]@);
        assert(texts(parts@)[3] == parts@[3]@);
    }
    let a: u16 = match parse_octet(&parts[0]) {
        Some(x) => x,
        None => {
            return None;
        },
    };
    let b: u16 = match parse_octet(&parts[1]) {
        Some(x) => x,
        None => {
            return None;
        },
    };
    let c: u16 = match parse_octet(&parts[2]) {
        Some(x) => x,
        None => {
            return None;
        },
    };
    let d: u16 = match parse_octet(&parts[3]) {
        Some(x) => x,
        None => {
            return None;
        },
    };
    Some((a * 256 + b, c * 256 + d))
}

/// Every piece is a group.
pub open spec fn all_groups(ps: Seq<Seq<char>>) -> bool {
    forall|i: int| 0 <= i < ps.len() ==> (#[trigger] hex_group(ps[i])) is Some
}

/// The values of pieces that are all groups.
pub open spec fn group_values(ps: Seq<Seq<char>>) -> Seq<int> {
    Seq::new(ps.len(), |i: int| hex_group(ps[i]).unwrap())
}

/// The groups written by a run of pieces: every piece a group, but that
/// the last may be a dotted quad, which fills two.
pub open spec fn run_values(ps: Seq<Seq<char>>) -> Option<Seq<int>> {
    if ps.len() == 0 {
        Some(Seq::<int>::empty())
    } else if !all_groups(ps.drop_last()) {
        None
    } else if hex_group(ps.last()) is Some {
        Some(group_values(ps))
    } else if dotted_quad(ps.last()) is Some {
        Some(
            group_values(ps.drop_last()).push(dotted_quad(ps.last()).unwrap().0).push(
                dotted_quad(ps.last()).unwrap().1,
            ),
        )
    } else {
        None
    }
}

/// `i` is the index of the first empty piece.
pub open spec fn is_first_empty(ps: Seq<Seq<char>>, i: int) -> bool {
    &&& 0 <= i < ps.len()
    &&& ps[i].len() == 0
    &&& forall|j: int| 0 <= j < i ==> (#[trigger] ps[j]).len() > 0
}

/// No piece is empty.
pub open spec fn no_empty(ps: Seq<Seq<char>>) -> bool {
    forall|j: int| 0 <= j < ps.len() ==> (#[trigger] ps[j]).len() > 0
}

/// `n` groups of zero.
pub open spec fn zeros(n: int) -> Seq<int> {
    Seq::new(n as nat, |i: int| 0int)
}

/// The eight groups of a literal in which `::` stands between the pieces
/// `head` and the pieces `rest`. A `rest` of one empty piece is what the
/// split leaves of a `::` at the end of the text. The `::` stands for at
/// least one group.
pub open spec fn elided(head: Seq<Seq<char>>, rest: Seq<Seq<char>>) -> Option<Seq<int>> {
    let tail = if rest.len() == 1 && rest[0].len() == 0 {
        Seq::<Seq<char>>::empty()
    } else {
        rest
    };
    match run_values(tail) {
        Some(t) => if all_groups(head) && head.len() + t.len() <= 7 {
            Some(group_values(head) + zeros(8 - head.len() - t.len()) + t)
        } else {
            None
        },
        None => None,
    }
}

/// The eight groups that the literal `s` writes, if it is one.
///
/// The text is cut at its colons. Without an empty piece it must be a run
/// of exactly eight groups. Otherwise the first empty piece marks the `::`:
/// at the very start it is followed by a second empty piece, elsewhere it
/// stands between the groups before it and the run after it.
pub open spec fn literal_groups(s: Seq<char>) -> Option<Seq<int>> {
    let ps = split_on(s, ':');
    if no_empty(ps) {
        match run_values(ps) {
            Some(g) => if g.len() == 8 {
                Some(g)
            } else {
                None
            },
            None => None,
        }
    } else {
        let i = choose|i: int| is_first_empty(ps, i);
        if i == 0 {
            if ps.len() >= 3 && ps[1].len() == 0 {
                elided(Seq::<Seq<char>>::empty(), ps.skip(2))
            } else {
                None
            }
        } else if i + 1 < ps.len() {
            elided(ps.take(i), ps.skip(i + 1))
        } else {
            None
        }
    }
}

/// The 128-bit number made of eight groups, the first the most significant.
pub open spec fn groups_value(g: Seq<int>) -> int {
    g[0] * weight(7) + g[1] * weight(6) + g[2] * weight(5) + g[3] * weight(4) + g[4] * weight(3)
        + g[5] * weight(2) + g[6] * weight(1) + g[7]
}

/// The address that the literal `s` writes, if it is one.
pub open spec fn literal_value(s: Seq<char>) -> Option<int> {
    match literal_groups(s) {
        Some(g) => Some(groups_value(g)),
        None => None,
    }
}

/// Every element is a 16-bit value.
pub open spec fn all_u16(g: Seq<int>) -> bool {
    forall|i: int| 0 <= i < g.len() ==> 0 <= #[trigger] g[i] < 0x1_0000
}

/// The elements of `v` as mathematical integers.
pub open spec fn ints(v: Seq<u16>) -> Seq<int> {
    Seq::new(v.len(), |i: int| v[i] as int)
}

/// A group writes a 16-bit value.
pub proof fn lemma_hex_group_bound(p: Seq<char>)
    requires
        hex_group(p) is Some,
    ensures
        0 <= hex_group(p).unwrap() < 0x1_0000,
{
    lemma_hex_number_bound(p);
}

/// The integers of a sequence with one more element.
pub proof fn lemma_ints_push(v: Seq<u16>, x: u16)
    ensures
        ints(v.push(x)) == ints(v).push(x as int),
{
}

/// Reads the pieces from `from` up to `to` as groups.
fn parse_groups(pieces: &Vec<Vec<char>>, from: usize, to: usize) -> (r: Option<Vec<u16>>)
    requires
        from <= to <= pieces.len(),
    ensures
        r is Some <==> all_groups(texts(pieces@).subrange(from as int, to as int)),
        r matches Some(v) ==> ints(v@) == group_values(
            texts(pieces@).subrange(from as int, to as int),
        ),
{
    let ghost ps = texts(pieces@).subrange(from as int, to as int);
    let mut out: Vec<u16> = Vec::new();
    let mut i: usize = from;
    while i < to
        invariant
            from <= i <= to <= pieces.len(),
            ps == texts(pieces@).subrange(from as int, to as int),
            all_groups(ps.take(i - from)),
            ints(out@) == group_values(ps.take(i - from)),
        decreases to - i,
    {
        proof {
            assert(ps[i - from] == pieces@[i as int]@);
        }
        match parse_group(&pieces[i]) {
            None => {
                return None;
            },
            Some(g) => {
                let ghost before = ps.take(i - from);
                let ghost now = ps.take(i - from + 1);
                let ghost old_out = out@;
                out.push(g);
                proof {
                    assert forall|k: int| 0 <= k < now.len() implies (#[trigger] hex_group(
                        now[k],
                    )) is Some by {
                        if k < i - from {
                            assert(now[k] == before[k]);
                        }
                    }
                    assert(ints(old_out).len() == before.len());
                    assert(ints(out@) == group_values(now)) by {
                        assert(ints(out@).len() == now.len());
                        assert forall|k: int| 0 <= k < now.len() implies ints(out@)[k]
                            == group_values(now)[k] by {
                            if k < i - from {
                                assert(ints(old_out)[k] == group_values(before)[k]);
                                assert(now[k] == before[k]);
                            } else {
                                assert(now[k] == ps[i - from]);
                            }
                        }
                    }
                }
            },
        }
        i += 1;
    }
    proof {
        assert(ps.take(to - from) == ps);
    }
    Some(out)
}

/// Reads the pieces from `from` up to `to` as a run.
fn parse_run(pieces: &Vec<Vec<char>>, from: usize, to: usize) -> (r: Option<Vec<u16>>)
    requires
        from <= to <= pieces.len(),
    ensures
        r is Some <==> run_values(texts(pieces@).subrange(from as int, to as int)) is Some,
        r matches Some(v) ==> ints(v@) == run_values(
            texts(pieces@).subrange(from as int, to as int),
        ).unwrap(),
{
    let ghost ps = texts(pieces@).subrange(from as int, to as int);
    if from == to {
        let out: Vec<u16> = Vec::new();
        proof {
            assert(ints(out@) == Seq::<int>::empty());
        }
        return Some(out);
    }
    let last: usize = to - 1;
    proof {
        assert(ps.drop_last() == texts(pieces@).subrange(from as int, last as int));
        assert(ps.last() == pieces@[last as int]@);
    }
    let mut out: Vec<u16> = match parse_groups(pieces, from, last) {
        Some(v) => v,
        None => {
            return None;
        },
    };
    let ghost old_out = out@;
    proof {
        assert(ints(old_out).len() == ps.drop_last().len());
    }
    match parse_group(&pieces[last]) {
        Some(g) => {
            out.push(g);
            proof {
                assert(ints(out@) == group_values(ps)) by {
                    assert(ints(out@).len() == ps.len());
                    assert forall|k: int| 0 <= k < ps.len() implies ints(out@)[k] == group_values(
                        ps,
                    )[k] by {
                        if k < ps.len() - 1 {
                            assert(ints(old_out)[k] == group_values(ps.drop_last())[k]);
                            assert(ps[k] == ps.drop_last()[k]);
                        }
                    }
                }
            }
            Some(out)
        },
        None => match parse_quad(&pieces[last]) {
            Some(q) => {
                out.push(q.0);
                out.push(q.1);
                proof {
                    assert(ints(out@) == ints(old_out).push(q.0 as int).push(q.1 as int));
                }
                Some(out)
            },
            None => None,
        },
    }
}

/// Reads a literal with `::` between the pieces before `head_to` and the
/// pieces from `rest_from` on.
fn parse_elided(pieces: &Vec<Vec<char>>, head_to: usize, rest_from: usize) -> (r: Option<Vec<u16>>)
    requires
        head_to <= rest_from <= pieces.len(),
    ensures
        r is Some <==> elided(
            texts(pieces@).subrange(0, head_to as int),
            texts(pieces@).subrange(rest_from as int, pieces@.len() as int),
        ) is Some,
        r matches Some(v) ==> ints(v@) == elided(
            texts(pieces@).subrange(0, head_to as int),
            texts(pieces@).subrange(rest_from as int, pieces@.len() as int),
        ).unwrap(),
{
    let n: usize = pieces.len();
    let ghost head = texts(pieces@).subrange(0, head_to as int);
    let ghost rest = texts(pieces@).subrange(rest_from as int, n as int);
    let tail_from: usize = if n - rest_from == 1 && pieces[rest_from].len() == 0 {
        n
    } else {
        rest_from
    };
    let ghost tail = texts(pieces@).subrange(tail_from as int, n as int);
    proof {
        if rest.len() == 1 {
            assert(rest[0] == pieces@[rest_from as int]@);
        }
        if tail_from == n {
            assert(tail == Seq::<Seq<char>>::empty());
        }
    }
    let t: Vec<u16> = match parse_run(pieces, tail_from, n) {
        Some(t) => t,
        None => {
            return None;
        },
    };
    let mut out: Vec<u16> = match parse_groups(pieces, 0, head_to) {
        Some(h) => h,
        None => {
            return None;
        },
    };
    proof {
        assert(ints(out@).len() == head.len());
        assert(ints(t@).len() == t@.len());
    }
    if head_to > 7 || t.len() > 7 - head_to {
        return None;
    }
    let fill: usize = 8 - head_to - t.len();
    let ghost h = ints(out@);
    let mut k: usize = 0;
    while k < fill
        invariant
            k <= fill,
            ints(out@) == h + zeros(k as int),
        decreases fill - k,
    {
        proof {
            lemma_ints_push(out@, 0);
        }
        out.push(0);
        k += 1;
        proof {
            assert(zeros(k as int) == zeros(k - 1).push(0));
            assert(ints(out@) == h + zeros(k as int));
        }
    }
    let mut j: usize = 0;
    while j < t.len()
        invariant
            j <= t.len(),
            ints(out@) == h + zeros(fill as int) + ints(t@).take(j as int),
        decreases t.len() - j,
    {
        proof {
            lemma_ints_push(out@, t@[j as int]);
        }
        out.push(t[j]);
        j += 1;
        proof {
            assert(ints(t@).take(j as int) == ints(t@).take(j - 1).push(t@[j - 1] as int));
            assert(ints(out@) == h + zeros(fill as int) + ints(t@).take(j as int));
        }
    }
    proof {
        assert(ints(t@).take(t@.len() as int) == ints(t@));
    }
    Some(out)
}

/// A dotted quad writes two 16-bit values.
pub proof fn lemma_dotted_quad_bound(p: Seq<char>)
    requires
        dotted_quad(p) is Some,
    ensures
        0 <= dotted_quad(p).unwrap().0 < 0x1_0000,
        0 <= dotted_quad(p).unwrap().1 < 0x1_0000,
{
    let parts = split_on(p, '.');
    lemma_dec_number_bound(parts[0]);
    lemma_dec_number_bound(parts[1]);
    lemma_dec_number_bound(parts[2]);
    lemma_dec_number_bound(parts[3]);
}

/// A run writes 16-bit values only.
pub proof fn lemma_run_values_bound(ps: Seq<Seq<char>>)
    requires
        run_values(ps) is Some,
    ensures
        all_u16(run_values(ps).unwrap()),
{
    let g = run_values(ps).unwrap();
    assert forall|i: int| 0 <= i < g.len() implies 0 <= #[trigger] g[i] < 0x1_0000 by {
        if i < ps.len() - 1 {
            assert(hex_group(ps.drop_last()[i]) is Some);
            lemma_hex_group_bound(ps[i]);
        } else if hex_group(ps.last()) is Some {
            lemma_hex_group_bound(ps.last());
        } else {
            lemma_dotted_quad_bound(ps.last());
        }
    }
}

/// The groups of a literal are eight 16-bit values.
pub proof fn lemma_literal_groups_bound(s: Seq<char>)
    requires
        literal_groups(s) is Some,
    ensures
        literal_groups(s).unwrap().len() == 8,
        all_u16(literal_groups(s).unwrap()),
        0 <= literal_value(s).unwrap() <= u128::MAX,
{
    let ps = split_on(s, ':');
    let g = literal_groups(s).unwrap();
    if no_empty(ps) {
        lemma_run_values_bound(ps);
    } else {
        let i = choose|i: int| is_first_empty(ps, i);
        let head = if i == 0 {
            Seq::<Seq<char>>::empty()
        } else {
            ps.take(i)
        };
        let rest = if i == 0 {
            ps.skip(2)
        } else {
            ps.skip(i + 1)
        };
        let tail = if rest.len() == 1 && rest[0].len() == 0 {
            Seq::<Seq<char>>::empty()
        } else {
            rest
        };
        lemma_run_values_bound(tail);
        let t = run_values(tail).unwrap();
        assert forall|k: int| 0 <= k < g.len() implies 0 <= #[trigger] g[k] < 0x1_0000 by {
            if k < head.len() {
                assert(hex_group(head[k]) is Some);
                lemma_hex_group_bound(head[k]);
            } else if k < 8 - t.len() {
            } else {
                assert(g[k] == t[k - (8 - t.len())]);
            }
        }
    }
    assert(0 <= g[0] < 0x1_0000);
    assert(0 <= g[1] < 0x1_0000);
    assert(0 <= g[2] < 0x1_0000);
    assert(0 <= g[3] < 0x1_0000);
    assert(0 <= g[4] < 0x1_0000);
    assert(0 <= g[5] < 0x1_0000);
    assert(0 <= g[6] < 0x1_0000);
    assert(0 <= g[7] < 0x1_0000);
}

/// The address of eight groups.
fn assemble(g: &Vec<u16>) -> (a: Ipv6Address)
    requires
        g@.len() == 8,
    ensures
        a@ == groups_value(ints(g@)),
{
    let bits: u128 = (g[0] as u128) * 0x1_0000_0000_0000_0000_0000_0000_0000u128 + (g[1] as u128)
        * 0x1_0000_0000_0000_0000_0000_0000u128 + (g[2] as u128) * 0x1_0000_0000_0000_0000_0000u128
        + (g[3] as u128) * 0x1_0000_0000_0000_0000u128 + (g[4] as u128) * 0x1_0000_0000_0000u128
        + (g[5] as u128) * 0x1_0000_0000u128 + (g[6] as u128) * 0x1_0000u128 + (g[7] as u128);
    Ipv6Address { bits }
}

/// Reads `s` as an IPv6 literal.
pub fn parse_literal(s: &str) -> (r: Option<Ipv6Address>)
    ensures
        r is Some <==> literal_value(s@) is Some,
        r matches Some(a) ==> a@ == literal_value(s@).unwrap(),
{
    let v: Vec<char> = chars_of(s);
    let pieces: Vec<Vec<char>> = split(&v, ':');
    let n: usize = pieces.len();
    let ghost ps = texts(pieces@);
    proof {
        assert(ps == split_on(s@, ':'));
        assert(ps.len() == n);
    }
    let mut i: usize = 0;
    while i < n && pieces[i].len() > 0
        invariant
            i <= n,
            n == pieces.len(),
            ps == texts(pieces@),
            forall|j: int| 0 <= j < i ==> (#[trigger] ps[j]).len() > 0,
        decreases n - i,
    {
        proof {
            assert(ps[i as int] == pieces@[i as int]@);
        }
        i += 1;
    }
    let groups: Option<Vec<u16>> = if i == n {
        proof {
            assert(no_empty(ps));
            assert(ps.subrange(0, n as int) == ps);
        }
        match parse_run(&pieces, 0, n) {
            Some(g) => if g.len() == 8 {
                Some(g)
            } else {
                proof {
                    assert(ints(g@).len() == g@.len());
                }
                None
            },
            None => None,
        }
    } else {
        proof {
            assert(ps[i as int] == pieces@[i as int]@);
            assert(is_first_empty(ps, i as int));
            assert(!no_empty(ps));
            let c = choose|c: int| is_first_empty(ps, c);
            assert(is_first_empty(ps, c));
            assert(c == i) by {
                if c < i {
                    assert(ps[c].len() > 0);
                } else if c > i {
                    assert(ps[i as int].len() > 0);
                }
            }
        }
        if i == 0 {
            if n >= 3 && pieces[1].len() == 0 {
                proof {
                    assert(ps[1] == pieces@[1]@);
                    assert(ps.subrange(0, 0) == Seq::<Seq<char>>::empty());
                    assert(ps.subrange(2, n as int) == ps.skip(2));
                }
                parse_elided(&pieces, 0, 2)
            } else {
                proof {
                    if n >= 3 {
                        assert(ps[1] == pieces@[1]@);
                    }
                }
                None
            }
        } else if i + 1 < n {
            proof {
                assert(ps.subrange(0, i as int) == ps.take(i as int));
                assert(ps.subrange(i + 1, n as int) == ps.skip(i + 1));
            }
            parse_elided(&pieces, i, i + 1)
        } else {
            None
        }
    };
    match groups {
        Some(g) => {
            proof {
                lemma_literal_groups_bound(s@);
                assert(ints(g@).len() == 8);
            }
            Some(assemble(&g))
        },
        None => None,
    }
}

/// The text is no IPv6 literal.
#[derive(Clone, Copy, Debug, PartialEq, Eq, Structural)]
pub struct AddressParseError {}

impl Ipv6Address {
    /// Reads `s` as an IPv6 literal.
    pub fn parse(s: &str) -> (r: Result<Ipv6Address, AddressParseError>)
        ensures
            r is Ok <==> literal_value(s@) is Some,
            r matches Ok(a) ==> a@ == literal_value(s@).unwrap(),
    {
        match parse_literal(s) {
            Some(a) => Ok(a),
            None => Err(AddressParseError {  }),
        }
    }
}

impl std::str::FromStr for Ipv6Address {
    type Err = AddressParseError;

    fn from_str(s: &str) -> (r: Result<Ipv6Address, AddressParseError>)
        ensures
            r is Ok <==> literal_value(s@) is Some,
            r matches Ok(a) ==> a@ == literal_value(s@).unwrap(),
    {
        Ipv6Address::parse(s)
    }
}

} // verus!
