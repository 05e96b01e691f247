//! Text as sequences of characters: conversion from and to strings.

use vstd::prelude::*;

verus! {

/// The characters of `s`, in order.
pub fn chars_of(s: &str) -> (v: Vec<char>)
    ensures
        v@ == s@,
{
    let mut v: Vec<char> = Vec::new();
    for c in it: s.chars()
        invariant
            v@ == it.seq().take(it.index()),
            it.seq() == s@,
    {
        v.push(c);
    }
    v
}

/// `String::from_iter` over the characters of `v`: the string that holds
/// exactly these characters, in this order.
#[verifier::external_body]
pub(crate) fn string_of(v: &Vec<char>) -> (s: String)
    ensures
        s@ == v@,
{
    String::from_iter(v.iter())
}

/// The pieces of `s` between the occurrences of `sep`: one more piece than
/// there are separators, each free of `sep`, empty where two separators
/// touch or one stands at an end.
pub open spec fn split_on(s: Seq<char>, sep: char) -> Seq<Seq<char>>
    decreases s.len(),
{
    if s.len() == 0 {
        seq![Seq::<char>::empty()]
    } else {
        let init = split_on(s.drop_last(), sep);
        if s.last() == sep {
            init.push(Seq::<char>::empty())
        } else {
            init.update(init.len() - 1, init.last().push(s.last()))
        }
    }
}

/// The character sequences held by a vector of pieces.
pub open spec fn texts(pieces: Seq<Vec<char>>) -> Seq<Seq<char>> {
    Seq::new(pieces.len(), |i: int| pieces[i]@)
}

/// `c` does not occur in `t`.
pub open spec fn free_of(t: Seq<char>, c: char) -> bool {
    forall|i: int| 0 <= i < t.len() ==> #[trigger] t[i] != c
}

/// The pieces with `sep` put between neighbours.
pub open spec fn joined_by(pieces: Seq<Seq<char>>, sep: char) -> Seq<char>
    decreases pieces.len(),
{
    if pieces.len() == 0 {
        Seq::<char>::empty()
    } else if pieces.len() == 1 {
        pieces[0]
    } else {
        joined_by(pieces.drop_last(), sep) + seq![sep] + pieces.last()
    }
}

/// Every text has at least one piece.
pub proof fn lemma_split_nonempty(s: Seq<char>, sep: char)
    ensures
        split_on(s, sep).len() >= 1,
    decreases s.len(),
{
    if s.len() > 0 {
        lemma_split_nonempty(s.drop_last(), sep);
    }
}

/// The pieces of a text hold no separator, and put together again with
/// the separator between them they are the text.
pub proof fn lemma_split_is_a_cut(s: Seq<char>, sep: char)
    ensures
        forall|i: int| 0 <= i < split_on(s, sep).len() ==> free_of(#[trigger] split_on(s, sep)[i], sep),
        joined_by(split_on(s, sep), sep) == s,
    decreases s.len(),
{
    let ps = split_on(s, sep);
    if s.len() == 0 {
        assert(ps[0] == Seq::<char>::empty());
        assert(s == Seq::<char>::empty());
    } else {
        let init = split_on(s.drop_last(), sep);
        lemma_split_is_a_cut(s.drop_last(), sep);
        lemma_split_nonempty(s.drop_last(), sep);
        if s.last() == sep {
            assert(ps.drop_last() == init);
            assert forall|i: int| 0 <= i < ps.len() implies free_of(#[trigger] ps[i], sep) by {
                if i < init.len() {
                    assert(ps[i] == init[i]);
                }
            }
            assert(joined_by(ps, sep) == s.drop_last() + seq![sep] + Seq::<char>::empty());
            assert(s.drop_last() + seq![sep] + Seq::<char>::empty() == s);
        } else {
            let last = init.last().push(s.last());
            assert forall|i: int| 0 <= i < ps.len() implies free_of(#[trigger] ps[i], sep) by {
                if i < init.len() - 1 {
                    assert(ps[i] == init[i]);
                } else {
                    assert(free_of(init[init.len() - 1], sep));
                    assert forall|k: int| 0 <= k < last.len() implies #[trigger] last[k] != sep by {
                        if k < last.len() - 1 {
                            assert(last[k] == init.last()[k]);
                        }
                    }
                }
            }
            if init.len() == 1 {
                assert(joined_by(init, sep) == init[0]);
                assert(ps[0] == last);
                assert(last == s.drop_last().push(s.last()));
                assert(s.drop_last().push(s.last()) == s);
            } else {
                assert(ps.drop_last() == init.drop_last());
                assert(joined_by(ps, sep) == joined_by(init.drop_last(), sep) + seq![sep] + last);
                assert(joined_by(init, sep) == joined_by(init.drop_last(), sep) + seq![sep]
                    + init.last());
                assert(joined_by(init.drop_last(), sep) + seq![sep] + last == (joined_by(
                    init.drop_last(),
                    sep,
                ) + seq![sep] + init.last()).push(s.last()));
                assert(s.drop_last().push(s.last()) == s);
            }
        }
    }
}

/// Splits `v` at every occurrence of `sep`.
pub fn split(v: &Vec<char>, sep: char) -> (pieces: Vec<Vec<char>>)
    ensures
        texts(pieces@) == split_on(v@, sep),
{
    let mut pieces: Vec<Vec<char>> = Vec::new();
    let mut cur: Vec<char> = Vec::new();
    let mut i: usize = 0;
    while i < v.len()
        invariant
            i <= v.len(),
            texts(pieces@).push(cur@) == split_on(v@.take(i as int), sep),
        decreases v.len() - i,
    {
        let c: char = v[i];
        proof {
            let before = v@.take(i as int);
            let now = v@.take(i as int + 1);
            assert(now.drop_last() == before);
            assert(now.last() == c);
            lemma_split_nonempty(before, sep);
        }
        if c == sep {
            let ghost old_pieces = pieces@;
            pieces.push(cur);
            cur = Vec::new();
            proof {
                assert(texts(pieces@) == texts(old_pieces).push(pieces@[pieces@.len() - 1]@));
            }
        } else {
            let ghost old_cur = cur@;
            cur.push(c);
            proof {
                let init = texts(pieces@).push(old_cur);
                assert(init.update(init.len() - 1, init.last().push(c)) == texts(pieces@).push(
                    cur@,
                ));
            }
        }
        i += 1;
    }
    proof {
        assert(v@.take(v.len() as int) == v@);
    }
    let ghost old_pieces = pieces@;
    pieces.push(cur);
    proof {
        assert(texts(pieces@) == texts(old_pieces).push(pieces@[pieces@.len() - 1]@));
    }
    pieces
}

/// Whether two strings hold the same characters.
pub fn same_text(a: &str, b: &str) -> (r: bool)
    ensures
        r == (a@ == b@),
{
    let x: Vec<char> = chars_of(a);
    let y: Vec<char> = chars_of(b);
    if x.len() != y.len() {
        return false;
    }
    let mut i: usize = 0;
    while i < x.len()
        invariant
            i <= x.len(),
            x.len() == y.len(),
            x@ == a@,
            y@ == b@,
            forall|k: int| 0 <= k < i ==> x@[k] == y@[k],
        decreases x.len() - i,
    {
        if x[i] != y[i] {
            proof {
                assert(a@[i as int] != b@[i as int]);
            }
            return false;
        }
        i += 1;
    }
    proof {
        assert(x@ == y@);
    }
    true
}

/// Appends the characters of `s`.
pub fn push_str(out: &mut Vec<char>, s: &str)
    ensures
        final(out)@ == old(out)@ + s@,
{
    let ghost start = out@;
    let v: Vec<char> = chars_of(s);
    let mut k: usize = 0;
    while k < v.len()
        invariant
            k <= v.len(),
            v@ == s@,
            out@ == start + v@.take(k as int),
        decreases v.len() - k,
    {
        out.push(v[k]);
        k += 1;
        proof {
            assert(v@.take(k as int) == v@.take(k - 1).push(v@[k - 1]));
        }
    }
    proof {
        assert(v@.take(v@.len() as int) == v@);
    }
}

} // verus!
