//! Where the pages of the management interface are found.

use vstd::prelude::*;
use crate::text::{chars_of, split, split_on, string_of, texts};

verus! {

/// `s` without the slashes at its start.
pub open spec fn without_leading_slashes(s: Seq<char>) -> Seq<char>
    decreases s.len(),
{
    if s.len() > 0 && s[0] == '/' {
        without_leading_slashes(s.drop_first())
    } else {
        s
    }
}

/// One of the segments between the slashes is `..`.
pub open spec fn climbs(path: Seq<char>) -> bool {
    exists|i: int|
        0 <= i < split_on(path, '/').len() && #[trigger] split_on(path, '/')[i] == seq!['.', '.']
}

/// The asset that a request path asks for: the path without its leading
/// slashes, `index.html` where nothing is left, and none where a segment
/// would lead out of the assets.
pub open spec fn asset_of(uri_path: Seq<char>) -> Option<Seq<char>> {
    let rest = without_leading_slashes(uri_path);
    if rest.len() == 0 {
        Some("index.html"@)
    } else if climbs(rest) {
        None
    } else {
        Some(rest)
    }
}

/// The asset to serve for a request path.
pub fn asset_path(uri_path: &str) -> (r: Option<String>)
    ensures
        r is Some <==> asset_of(uri_path@) is Some,
        r matches Some(p) ==> p@ == asset_of(uri_path@).unwrap(),
{
    let v: Vec<char> = chars_of(uri_path);
    let n: usize = v.len();
    let mut start: usize = 0;
    proof {
        assert(v@.skip(0) == v@);
    }
    while start < n && v[start] == '/'
        invariant
            start <= n,
            n == v.len(),
            without_leading_slashes(v@) == without_leading_slashes(v@.skip(start as int)),
        decreases n - start,
    {
        proof {
            let rest = v@.skip(start as int);
            assert(rest[0] == v@[start as int]);
            assert(rest.drop_first() == v@.skip(start + 1));
        }
        start += 1;
    }
    let ghost rest = v@.skip(start as int);
    proof {
        if start < n {
            assert(rest[0] == v@[start as int]);
        }
        assert(without_leading_slashes(uri_path@) == rest);
    }
    if start == n {
        return Some("index.html".to_owned());
    }
    let mut tail: Vec<char> = Vec::new();
    let mut i: usize = start;
    while i < n
        invariant
            start <= i <= n,
            n == v.len(),
            tail@ == v@.subrange(start as int, i as int),
        decreases n - i,
    {
        tail.push(v[i]);
        i += 1;
    }
    proof {
        assert(tail@ == rest);
    }
    let parts: Vec<Vec<char>> = split(&tail, '/');
    let ghost ps = texts(parts@);
    let mut k: usize = 0;
    while k < parts.len()
        invariant
            k <= parts.len(),
            ps == texts(parts@),
            ps == split_on(rest, '/'),
            rest.len() > 0,
            rest == without_leading_slashes(uri_path@),
            forall|j: int| 0 <= j < k ==> #[trigger] ps[j] != seq!['.', '.'],
        decreases parts.len() - k,
    {
        proof {
            assert(ps[k as int] == parts@[k as int]@);
        }
        let part: &Vec<char> = &parts[k];
        if part.len() == 2 && part[0] == '.' && part[1] == '.' {
            proof {
                assert(ps[k as int] == seq!['.', '.']);
            }
            return None;
        }
        proof {
            if ps[k as int] == seq!['.', '.'] {
                assert(ps[k as int].len() == 2);
                assert(ps[k as int][0] == '.');
                assert(ps[k as int][1] == '.');
            }
        }
        k += 1;
    }
    Some(string_of(&tail))
}

} // verus!
