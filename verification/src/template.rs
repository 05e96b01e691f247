//! Templates: text in which placeholder tokens stand for addresses.

use vstd::prelude::*;

verus! {

/// `t` with every occurrence of `pat` replaced by `rep`. Occurrences are
/// found from the left and do not overlap; what has been put in is not
/// searched again. An empty `pat` occurs nowhere.
pub open spec fn replaced(t: Seq<char>, pat: Seq<char>, rep: Seq<char>) -> Seq<char>
    decreases t.len(),
{
    if pat.len() == 0 || t.len() < pat.len() {
        t
    } else if t.take(pat.len() as int) == pat {
        rep + replaced(t.skip(pat.len() as int), pat, rep)
    } else {
        seq![t[0]] + replaced(t.skip(1), pat, rep)
    }
}

/// Whether `pat` stands in `t` at position `at`.
pub fn occurs_at(t: &Vec<char>, at: usize, pat: &Vec<char>) -> (b: bool)
    requires
        at <= t.len(),
    ensures
        b == (pat@.len() <= t@.len() - at && t@.skip(at as int).take(pat@.len() as int) == pat@),
{
    if pat.len() > t.len() - at {
        return false;
    }
    let ghost window = t@.skip(at as int).take(pat@.len() as int);
    let mut k: usize = 0;
    while k < pat.len()
        invariant
            k <= pat.len(),
            at + pat.len() <= t.len(),
            window == t@.skip(at as int).take(pat@.len() as int),
            forall|j: int| 0 <= j < k ==> window[j] == pat@[j],
        decreases pat.len() - k,
    {
        proof {
            assert(window[k as int] == t@[at + k]);
        }
        if t[at + k] != pat[k] {
            return false;
        }
        k += 1;
    }
    proof {
        assert(window == pat@);
    }
    true
}

/// Appends the characters of `more`.
pub fn push_all(out: &mut Vec<char>, more: &Vec<char>)
    ensures
        final(out)@ == old(out)@ + more@,
{
    let ghost start = out@;
    let mut k: usize = 0;
    while k < more.len()
        invariant
            k <= more.len(),
            out@ == start + more@.take(k as int),
        decreases more.len() - k,
    {
        out.push(more[k]);
        k += 1;
        proof {
            assert(more@.take(k as int) == more@.take(k - 1).push(more@[k - 1]));
        }
    }
    proof {
        assert(more@.take(more@.len() as int) == more@);
    }
}

/// Replaces every occurrence of `pat` in `t` by `rep`.
pub fn replace_all(t: &Vec<char>, pat: &Vec<char>, rep: &Vec<char>) -> (out: Vec<char>)
    ensures
        out@ == replaced(t@, pat@, rep@),
{
    let mut out: Vec<char> = Vec::new();
    if pat.len() == 0 {
        push_all(&mut out, t);
        return out;
    }
    let mut i: usize = 0;
    proof {
        assert(t@.skip(0) == t@);
    }
    while i < t.len()
        invariant
            i <= t.len(),
            pat@.len() > 0,
            out@ + replaced(t@.skip(i as int), pat@, rep@) == replaced(t@, pat@, rep@),
        decreases t.len() - i,
    {
        let ghost rest = t@.skip(i as int);
        let ghost before = out@;
        if occurs_at(t, i, pat) {
            push_all(&mut out, rep);
            proof {
                assert(rest.skip(pat@.len() as int) == t@.skip(i + pat@.len()));
                assert(out@ + replaced(t@.skip(i + pat@.len()), pat@, rep@) == before + (rep@
                    + replaced(rest.skip(pat@.len() as int), pat@, rep@)));
            }
            i += pat.len();
        } else {
            out.push(t[i]);
            proof {
                assert(rest[0] == t@[i as int]);
                assert(rest.skip(1) == t@.skip(i + 1));
                if rest.len() < pat@.len() {
                    lemma_replaced_short(rest, pat@, rep@);
                    lemma_replaced_short(rest.skip(1), pat@, rep@);
                    assert(seq![rest[0]] + rest.skip(1) == rest);
                }
                assert(out@ + replaced(t@.skip(i + 1), pat@, rep@) == before + (seq![rest[0]]
                    + replaced(rest.skip(1), pat@, rep@)));
            }
            i += 1;
        }
    }
    proof {
        assert(t@.skip(t@.len() as int).len() == 0);
        assert(out@ + Seq::<char>::empty() == out@);
    }
    out
}

/// A text shorter than the pattern holds no occurrence of it.
pub proof fn lemma_replaced_short(t: Seq<char>, pat: Seq<char>, rep: Seq<char>)
    requires
        t.len() < pat.len(),
    ensures
        replaced(t, pat, rep) == t,
{
}

} // verus!
