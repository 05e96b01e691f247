//! Writing and reading agree: the text of an address is a literal, and it
//! reads back as the same address.

use vstd::prelude::*;
use crate::address::weight;
use crate::literal::{
    all_dec, all_groups, all_hex, all_u16, dec_digit, dec_number, dec_octet, dotted_quad,
    elided, group_values, groups_value, hex_digit, hex_group, hex_number, is_first_empty,
    literal_groups, literal_value, no_empty, run_values, zeros,
};
use crate::notation::{
    address_text, dec_text, digit_char, elided_run, groups_of, groups_text, hex_text,
    is_longest_run, is_mapped, is_zero_run, joined, quad_text,
};
use crate::text::{free_of, lemma_split_nonempty, split_on};

verus! {

/// The character of a digit reads as that digit, and is neither a colon
/// nor a dot.
pub proof fn lemma_digit_char(d: int)
    requires
        0 <= d < 16,
    ensures
        hex_digit(digit_char(d)) == Some(d),
        d < 10 ==> dec_digit(digit_char(d)) == Some(d),
        digit_char(d) != ':',
        digit_char(d) != '.',
        (digit_char(d) == '0') == (d == 0),
{
    let c = digit_char(d);
    if d < 10 {
        assert(c as int == 0x30 + d);
    } else {
        assert(c as int == 0x61 + d - 10);
    }
    assert('0' as int == 0x30);
    assert('9' as int == 0x39);
    assert('a' as int == 0x61);
    assert('f' as int == 0x66);
    assert('A' as int == 0x41);
    assert('F' as int == 0x46);
    assert(':' as int == 0x3a);
    assert('.' as int == 0x2e);
}

/// What `hex_text` writes is made of hexadecimal digits alone and reads
/// as the number written; a number below 65536 takes at most four digits.
pub proof fn lemma_hex_text(n: int)
    requires
        0 <= n,
    ensures
        hex_text(n).len() >= 1,
        all_hex(hex_text(n)),
        hex_number(hex_text(n)) == n,
        free_of(hex_text(n), ':'),
        free_of(hex_text(n), '.'),
        n < 0x10 ==> hex_text(n).len() == 1,
        n < 0x100 ==> hex_text(n).len() <= 2,
        n < 0x1000 ==> hex_text(n).len() <= 3,
        n < 0x1_0000 ==> hex_text(n).len() <= 4,
    decreases n,
{
    let t = hex_text(n);
    if n < 16 {
        lemma_digit_char(n);
        assert(t == seq![digit_char(n)]);
        assert(t.drop_last() == Seq::<char>::empty());
        assert(hex_number(t.drop_last()) == 0);
        assert(t.last() == digit_char(n));
    } else {
        lemma_hex_text(n / 16);
        lemma_digit_char(n % 16);
        let init = hex_text(n / 16);
        assert(t == init.push(digit_char(n % 16)));
        assert(t.drop_last() == init);
        assert(t.last() == digit_char(n % 16));
        assert forall|i: int| 0 <= i < t.len() implies (#[trigger] hex_digit(t[i])) is Some by {
            if i < init.len() {
                assert(t[i] == init[i]);
            }
        }
        assert forall|i: int| 0 <= i < t.len() implies #[trigger] t[i] != ':' by {
            if i < init.len() {
                assert(t[i] == init[i]);
            }
        }
        assert forall|i: int| 0 <= i < t.len() implies #[trigger] t[i] != '.' by {
            if i < init.len() {
                assert(t[i] == init[i]);
            }
        }
    }
}

/// A 16-bit value written in hexadecimal is a group with that value.
pub proof fn lemma_hex_text_is_group(n: int)
    requires
        0 <= n < 0x1_0000,
    ensures
        hex_group(hex_text(n)) == Some(n),
        hex_text(n).len() >= 1,
        free_of(hex_text(n), ':'),
{
    lemma_hex_text(n);
}

/// What `dec_text` writes is made of decimal digits alone, reads as the
/// number written, and starts with a zero only for zero itself.
pub proof fn lemma_dec_text(n: int)
    requires
        0 <= n,
    ensures
        dec_text(n).len() >= 1,
        all_dec(dec_text(n)),
        dec_number(dec_text(n)) == n,
        free_of(dec_text(n), ':'),
        free_of(dec_text(n), '.'),
        (dec_text(n)[0] == '0') == (n == 0),
        n < 10 ==> dec_text(n).len() == 1,
        n < 100 ==> dec_text(n).len() <= 2,
        n < 1000 ==> dec_text(n).len() <= 3,
    decreases n,
{
    let t = dec_text(n);
    if n < 10 {
        lemma_digit_char(n);
        assert(t == seq![digit_char(n)]);
        assert(t.drop_last() == Seq::<char>::empty());
        assert(dec_number(t.drop_last()) == 0);
        assert(t.last() == digit_char(n));
    } else {
        lemma_dec_text(n / 10);
        lemma_digit_char(n % 10);
        let init = dec_text(n / 10);
        assert(t == init.push(digit_char(n % 10)));
        assert(t.drop_last() == init);
        assert(t.last() == digit_char(n % 10));
        assert(t[0] == init[0]);
        assert forall|i: int| 0 <= i < t.len() implies (#[trigger] dec_digit(t[i])) is Some by {
            if i < init.len() {
                assert(t[i] == init[i]);
            }
        }
        assert forall|i: int| 0 <= i < t.len() implies #[trigger] t[i] != ':' by {
            if i < init.len() {
                assert(t[i] == init[i]);
            }
        }
        assert forall|i: int| 0 <= i < t.len() implies #[trigger] t[i] != '.' by {
            if i < init.len() {
                assert(t[i] == init[i]);
            }
        }
    }
}

/// A value up to 255 written in decimal is an octet with that value.
pub proof fn lemma_dec_text_is_octet(n: int)
    requires
        0 <= n <= 255,
    ensures
        dec_octet(dec_text(n)) == Some(n),
        free_of(dec_text(n), '.'),
        free_of(dec_text(n), ':'),
{
    lemma_dec_text(n);
}

/// A text without the separator is its own single piece.
pub proof fn lemma_split_free(t: Seq<char>, sep: char)
    requires
        free_of(t, sep),
    ensures
        split_on(t, sep) == seq![t],
    decreases t.len(),
{
    if t.len() > 0 {
        let init = t.drop_last();
        assert forall|i: int| 0 <= i < init.len() implies #[trigger] init[i] != sep by {
            assert(init[i] == t[i]);
        }
        lemma_split_free(init, sep);
        assert(t.last() == t[t.len() - 1]);
        assert(init.push(t.last()) == t);
        assert(seq![init].update(0, init.push(t.last())) == seq![t]);
    } else {
        assert(t == Seq::<char>::empty());
    }
}

/// The pieces of two texts joined by a separator are the pieces of the
/// first followed by the pieces of the second.
pub proof fn lemma_split_concat(a: Seq<char>, b: Seq<char>, sep: char)
    ensures
        split_on(a + seq![sep] + b, sep) == split_on(a, sep) + split_on(b, sep),
    decreases b.len(),
{
    let s = a + seq![sep] + b;
    lemma_split_nonempty(a, sep);
    lemma_split_nonempty(b, sep);
    if b.len() == 0 {
        assert(s.drop_last() == a);
        assert(s.last() == sep);
        assert(split_on(b, sep) == seq![Seq::<char>::empty()]);
        assert(split_on(a, sep).push(Seq::<char>::empty()) == split_on(a, sep) + split_on(b, sep));
    } else {
        let b0 = b.drop_last();
        let c = b.last();
        lemma_split_concat(a, b0, sep);
        lemma_split_nonempty(b0, sep);
        assert(s.drop_last() == a + seq![sep] + b0);
        assert(s.last() == c);
        let x = split_on(a, sep) + split_on(b0, sep);
        if c == sep {
            assert(x.push(Seq::<char>::empty()) == split_on(a, sep) + split_on(b0, sep).push(
                Seq::<char>::empty(),
            ));
        } else {
            let y = split_on(b0, sep);
            assert(x.last() == y.last());
            assert(x.update(x.len() - 1, x.last().push(c)) == split_on(a, sep) + y.update(
                y.len() - 1,
                y.last().push(c),
            ));
        }
    }
}

/// The hexadecimal texts of a sequence of groups.
pub open spec fn hex_texts(g: Seq<int>) -> Seq<Seq<char>> {
    Seq::new(g.len(), |i: int| hex_text(g[i]))
}

/// Groups joined by colons fall apart at the colons into their texts; no
/// groups at all leave one empty piece.
pub proof fn lemma_split_joined(g: Seq<int>)
    requires
        all_u16(g),
    ensures
        g.len() > 0 ==> split_on(joined(g), ':') == hex_texts(g),
        g.len() == 0 ==> split_on(joined(g), ':') == seq![Seq::<char>::empty()],
    decreases g.len(),
{
    if g.len() == 0 {
    } else if g.len() == 1 {
        lemma_hex_text(g[0]);
        lemma_split_free(hex_text(g[0]), ':');
        assert(hex_texts(g) == seq![hex_text(g[0])]);
    } else {
        let init = g.drop_last();
        assert(all_u16(init)) by {
            assert forall|i: int| 0 <= i < init.len() implies 0 <= #[trigger] init[i]
                < 0x1_0000 by {
                assert(init[i] == g[i]);
            }
        }
        lemma_split_joined(init);
        lemma_hex_text(g.last());
        lemma_split_free(hex_text(g.last()), ':');
        lemma_split_concat(joined(init), hex_text(g.last()), ':');
        assert(hex_texts(init) + seq![hex_text(g.last())] == hex_texts(g)) by {
            let l = hex_texts(init) + seq![hex_text(g.last())];
            assert(l.len() == g.len());
            assert forall|i: int| 0 <= i < g.len() implies l[i] == hex_texts(g)[i] by {
                if i < init.len() {
                    assert(init[i] == g[i]);
                }
            }
        }
    }
}

/// The texts of groups are groups with the same values, and none is empty.
pub proof fn lemma_hex_texts(g: Seq<int>)
    requires
        all_u16(g),
    ensures
        all_groups(hex_texts(g)),
        group_values(hex_texts(g)) == g,
        no_empty(hex_texts(g)),
        g.len() > 0 ==> run_values(hex_texts(g)) == Some(g),
{
    let ps = hex_texts(g);
    assert forall|i: int| 0 <= i < ps.len() implies (#[trigger] hex_group(ps[i])) == Some(
        g[i],
    ) && ps[i].len() > 0 by {
        lemma_hex_text_is_group(g[i]);
    }
    assert(group_values(ps) == g);
    if g.len() > 0 {
        assert(all_groups(ps.drop_last())) by {
            assert forall|i: int| 0 <= i < ps.drop_last().len() implies (#[trigger] hex_group(
                ps.drop_last()[i],
            )) is Some by {
                assert(ps.drop_last()[i] == ps[i]);
            }
        }
        assert(hex_group(ps.last()) is Some);
    }
}

/// The index of the first empty piece is wherever an empty piece stands
/// with none before it.
pub proof fn lemma_first_empty_is(ps: Seq<Seq<char>>, i: int)
    requires
        is_first_empty(ps, i),
    ensures
        !no_empty(ps),
        (choose|c: int| is_first_empty(ps, c)) == i,
{
    let c = choose|c: int| is_first_empty(ps, c);
    assert(is_first_empty(ps, c));
    if c < i {
        assert(ps[c].len() > 0);
    } else if c > i {
        assert(ps[i].len() > 0);
    }
}

/// Four octets written with dots read as the two groups they came from.
pub proof fn lemma_quad_text(hi: int, lo: int)
    requires
        0 <= hi < 0x1_0000,
        0 <= lo < 0x1_0000,
    ensures
        dotted_quad(quad_text(hi, lo)) == Some((hi, lo)),
        hex_group(quad_text(hi, lo)) is None,
        free_of(quad_text(hi, lo), ':'),
        quad_text(hi, lo).len() > 0,
{
    let a = dec_text(hi / 256);
    let b = dec_text(hi % 256);
    let c = dec_text(lo / 256);
    let d = dec_text(lo % 256);
    lemma_dec_text_is_octet(hi / 256);
    lemma_dec_text_is_octet(hi % 256);
    lemma_dec_text_is_octet(lo / 256);
    lemma_dec_text_is_octet(lo % 256);
    lemma_dec_text(hi / 256);
    let q = quad_text(hi, lo);
    let tail2 = c + seq!['.'] + d;
    let tail1 = b + seq!['.'] + tail2;
    assert(q == a + seq!['.'] + tail1);
    lemma_split_concat(a, tail1, '.');
    lemma_split_concat(b, tail2, '.');
    lemma_split_concat(c, d, '.');
    lemma_split_free(a, '.');
    lemma_split_free(b, '.');
    lemma_split_free(c, '.');
    lemma_split_free(d, '.');
    assert(split_on(q, '.') == seq![a, b, c, d]);
    assert(q[a.len() as int] == '.');
    assert(hex_digit('.') is None);
    assert(!all_hex(q)) by {
        assert(hex_digit(q[a.len() as int]) is None);
    }
    assert forall|i: int| 0 <= i < q.len() implies #[trigger] q[i] != ':' by {
        if i < a.len() {
            assert(q[i] == a[i]);
        } else if i == a.len() {
        } else if i < a.len() + 1 + b.len() {
            assert(q[i] == b[i - a.len() - 1]);
        } else if i == a.len() + 1 + b.len() {
        } else if i < a.len() + 1 + b.len() + 1 + c.len() {
            assert(q[i] == c[i - a.len() - 1 - b.len() - 1]);
        } else if i == a.len() + 1 + b.len() + 1 + c.len() {
        } else {
            assert(q[i] == d[i - a.len() - 1 - b.len() - 1 - c.len() - 1]);
        }
    }
}

/// The text of a mapped address reads back as its groups.
proof fn lemma_mapped_reads_back(g: Seq<int>)
    requires
        g.len() == 8,
        all_u16(g),
        is_mapped(g),
    ensures
        literal_groups(groups_text(g)) == Some(g),
{
    let e = Seq::<char>::empty();
    let ffff = seq!['f', 'f', 'f', 'f'];
    let q = quad_text(g[6], g[7]);
    let text = groups_text(g);
    lemma_quad_text(g[6], g[7]);
    let inner = ffff + seq![':'] + q;
    let mid = e + seq![':'] + inner;
    assert(text == e + seq![':'] + mid);
    lemma_split_concat(e, mid, ':');
    lemma_split_concat(e, inner, ':');
    lemma_split_concat(ffff, q, ':');
    lemma_split_free(q, ':');
    assert(free_of(ffff, ':'));
    lemma_split_free(ffff, ':');
    let ps = split_on(text, ':');
    assert(split_on(e, ':') == seq![e]);
    assert(ps == seq![e, e, ffff, q]);
    assert(is_first_empty(ps, 0));
    lemma_first_empty_is(ps, 0);
    let rest = ps.skip(2);
    assert(rest == seq![ffff, q]);
    assert(hex_group(ffff) == Some(0xffffint)) by {
        reveal_with_fuel(hex_number, 5);
        assert(ffff.drop_last() == seq!['f', 'f', 'f']);
        assert(ffff.drop_last().drop_last() == seq!['f', 'f']);
        assert(ffff.drop_last().drop_last().drop_last() == seq!['f']);
        assert(ffff.drop_last().drop_last().drop_last().drop_last() == Seq::<char>::empty());
        assert(hex_digit('f') == Some(15int));
    }
    assert(rest.drop_last() == seq![ffff]);
    assert(all_groups(rest.drop_last()));
    assert(rest.last() == q);
    let t = run_values(rest).unwrap();
    assert(group_values(rest.drop_last()) == seq![0xffffint]);
    assert(t == seq![0xffffint, g[6], g[7]]);
    let head = Seq::<Seq<char>>::empty();
    assert(all_groups(head));
    assert(group_values(head) + zeros(8 - head.len() - t.len()) + t == g);
}

/// The text of an address with an elided run reads back as its groups.
proof fn lemma_elided_reads_back(g: Seq<int>, start: int, len: int)
    requires
        g.len() == 8,
        all_u16(g),
        !is_mapped(g),
        len >= 2,
        is_longest_run(g, start, len),
        elided_run(g) == Some((start, len)),
    ensures
        literal_groups(groups_text(g)) == Some(g),
{
    let e = Seq::<char>::empty();
    let head = g.take(start);
    let tail = g.skip(start + len);
    assert(all_u16(head)) by {
        assert forall|i: int| 0 <= i < head.len() implies 0 <= #[trigger] head[i] < 0x1_0000 by {
            assert(head[i] == g[i]);
        }
    }
    assert(all_u16(tail)) by {
        assert forall|i: int| 0 <= i < tail.len() implies 0 <= #[trigger] tail[i] < 0x1_0000 by {
            assert(tail[i] == g[i + start + len]);
        }
    }
    let h = joined(head);
    let t = joined(tail);
    let text = groups_text(g);
    assert(text == h + seq![':', ':'] + t);
    let back = e + seq![':'] + t;
    assert(text == h + seq![':'] + back);
    lemma_split_concat(h, back, ':');
    lemma_split_concat(e, t, ':');
    lemma_split_joined(head);
    lemma_split_joined(tail);
    lemma_hex_texts(head);
    lemma_hex_texts(tail);
    assert(split_on(e, ':') == seq![e]);
    let ps = split_on(text, ':');
    let hp = split_on(h, ':');
    let tp = split_on(t, ':');
    assert(ps == hp + (seq![e] + tp));
    assert(elided(hex_texts(head), tp) == Some(g)) by {
        let tail_pieces = if tp.len() == 1 && tp[0].len() == 0 {
            Seq::<Seq<char>>::empty()
        } else {
            tp
        };
        if tail.len() == 0 {
            assert(tp == seq![e]);
            assert(tail_pieces == Seq::<Seq<char>>::empty());
        } else {
            assert(tp == hex_texts(tail));
            assert(tp[0].len() > 0);
            assert(tail_pieces == hex_texts(tail));
        }
        assert(run_values(tail_pieces) == Some(tail));
        assert(group_values(hex_texts(head)) == head);
        assert(head.len() + tail.len() == 8 - len);
        assert(head + zeros(len) + tail == g) by {
            let r = head + zeros(len) + tail;
            assert(r.len() == 8);
            assert forall|i: int| 0 <= i < 8 implies r[i] == g[i] by {
                if i < start {
                } else if i < start + len {
                    assert(is_zero_run(g, start, len));
                    assert(g[i] == 0);
                } else {
                }
            }
        }
    }
    if start == 0 {
        assert(head.len() == 0);
        assert(hp == seq![e]);
        assert(ps == seq![e, e] + tp);
        assert(is_first_empty(ps, 0));
        lemma_first_empty_is(ps, 0);
        lemma_split_nonempty(t, ':');
        assert(ps.len() >= 3);
        assert(ps[1].len() == 0);
        assert(ps.skip(2) == tp);
        assert(hex_texts(head) == Seq::<Seq<char>>::empty());
    } else {
        assert(hp == hex_texts(head));
        assert(ps[start] == e);
        assert(is_first_empty(ps, start)) by {
            assert forall|j: int| 0 <= j < start implies (#[trigger] ps[j]).len() > 0 by {
                assert(ps[j] == hex_texts(head)[j]);
            }
        }
        lemma_first_empty_is(ps, start);
        lemma_split_nonempty(t, ':');
        assert(start + 1 < ps.len());
        assert(ps.take(start) == hex_texts(head));
        assert(ps.skip(start + 1) == tp);
    }
}

/// The text of an address without an elided run reads back as its groups.
proof fn lemma_plain_reads_back(g: Seq<int>)
    requires
        g.len() == 8,
        all_u16(g),
        !is_mapped(g),
        elided_run(g) is None,
    ensures
        literal_groups(groups_text(g)) == Some(g),
{
    lemma_split_joined(g);
    lemma_hex_texts(g);
}

/// The text of eight 16-bit groups is a literal that writes these groups.
pub proof fn lemma_groups_text_reads_back(g: Seq<int>)
    requires
        g.len() == 8,
        all_u16(g),
    ensures
        literal_groups(groups_text(g)) == Some(g),
{
    if is_mapped(g) {
        lemma_mapped_reads_back(g);
    } else {
        match elided_run(g) {
            Some(r) => {
                assert(r.1 >= 2 && is_longest_run(g, r.0, r.1));
                lemma_elided_reads_back(g, r.0, r.1);
            },
            None => {
                lemma_plain_reads_back(g);
            },
        }
    }
}

/// Dividing by 65536 to the power of `k` and then by 65536 is dividing by
/// the next power.
proof fn lemma_divide_again(b: int, w: int, q: int)
    requires
        0 <= b,
        0 < w,
        q == b / w,
    ensures
        q / 0x1_0000 == b / (w * 0x1_0000),
        q == (q / 0x1_0000) * 0x1_0000 + q % 0x1_0000,
        0 <= q % 0x1_0000 < 0x1_0000,
{
    let q2 = q / 0x1_0000;
    let big = w * 0x1_0000;
    assert(w * q <= b < w * q + w) by (nonlinear_arith)
        requires
            0 <= b,
            0 < w,
            q == b / w,
    ;
    assert(big * q2 <= b < big * q2 + big) by (nonlinear_arith)
        requires
            w * q <= b < w * q + w,
            0x1_0000 * q2 <= q < 0x1_0000 * q2 + 0x1_0000,
            big == w * 0x1_0000,
            0 < w,
    ;
    assert(q2 == b / big) by (nonlinear_arith)
        requires
            big * q2 <= b < big * q2 + big,
            0 < big,
    ;
}

/// An address is the number that its eight groups make.
pub proof fn lemma_groups_of_value(bits: u128)
    ensures
        groups_of(bits).len() == 8,
        all_u16(groups_of(bits)),
        groups_value(groups_of(bits)) == bits,
{
    let g = groups_of(bits);
    let b = bits as int;
    let r0 = b / weight(0);
    let r1 = b / weight(1);
    let r2 = b / weight(2);
    let r3 = b / weight(3);
    let r4 = b / weight(4);
    let r5 = b / weight(5);
    let r6 = b / weight(6);
    let r7 = b / weight(7);
    assert(r0 == b);
    lemma_divide_again(b, weight(0), r0);
    lemma_divide_again(b, weight(1), r1);
    lemma_divide_again(b, weight(2), r2);
    lemma_divide_again(b, weight(3), r3);
    lemma_divide_again(b, weight(4), r4);
    lemma_divide_again(b, weight(5), r5);
    lemma_divide_again(b, weight(6), r6);
    lemma_divide_again(b, weight(7), r7);
    assert(r7 / 0x1_0000 == b / weight(8));
    assert(b / weight(8) == 0);
    assert(g[0] == r7 % 0x1_0000);
    assert(g[1] == r6 % 0x1_0000);
    assert(g[2] == r5 % 0x1_0000);
    assert(g[3] == r4 % 0x1_0000);
    assert(g[4] == r3 % 0x1_0000);
    assert(g[5] == r2 % 0x1_0000);
    assert(g[6] == r1 % 0x1_0000);
    assert(g[7] == r0 % 0x1_0000);
    assert(r7 == g[0]);
    assert(r6 == r7 * 0x1_0000 + g[1]);
    assert(r5 == r6 * 0x1_0000 + g[2]);
    assert(r4 == r5 * 0x1_0000 + g[3]);
    assert(r3 == r4 * 0x1_0000 + g[4]);
    assert(r2 == r3 * 0x1_0000 + g[5]);
    assert(r1 == r2 * 0x1_0000 + g[6]);
    assert(r0 == r1 * 0x1_0000 + g[7]);
}

/// Writing an address and reading the text gives the address back.
pub proof fn lemma_text_reads_back(bits: u128)
    ensures
        literal_value(address_text(bits)) == Some(bits as int),
{
    lemma_groups_of_value(bits);
    lemma_groups_text_reads_back(groups_of(bits));
}

} // verus!
