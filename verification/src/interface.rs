//! The index of a network interface, as the kernel writes it into the
//! interface's `ifindex` file.

use vstd::prelude::*;
use crate::literal::{all_dec, dec_digit, dec_digit_of, dec_number};
use crate::text::{chars_of, push_str, string_of};

verus! {

/// The characters that count as white space.
pub open spec fn is_space(c: char) -> bool {
    let n = c as int;
    (0x09 <= n <= 0x0d) || n == 0x20 || n == 0x85 || n == 0xa0 || n == 0x1680 || (0x2000 <= n
        <= 0x200a) || n == 0x2028 || n == 0x2029 || n == 0x202f || n == 0x205f || n == 0x3000
}

/// `s` without the white space at its start.
pub open spec fn trimmed_start(s: Seq<char>) -> Seq<char>
    decreases s.len(),
{
    if s.len() > 0 && is_space(s[0]) {
        trimmed_start(s.drop_first())
    } else {
        s
    }
}

/// `s` without the white space at its end.
pub open spec fn trimmed_end(s: Seq<char>) -> Seq<char>
    decreases s.len(),
{
    if s.len() > 0 && is_space(s.last()) {
        trimmed_end(s.drop_last())
    } else {
        s
    }
}

/// `s` without the white space at its start and at its end.
pub open spec fn trimmed(s: Seq<char>) -> Seq<char> {
    trimmed_end(trimmed_start(s))
}

/// The number that `s` writes: decimal digits, at least one, with or
/// without a plus sign before them.
pub open spec fn unsigned_value(s: Seq<char>) -> Option<int> {
    let digits = if s.len() > 0 && s[0] == '+' {
        s.drop_first()
    } else {
        s
    };
    if digits.len() >= 1 && all_dec(digits) {
        Some(dec_number(digits))
    } else {
        None
    }
}

/// The interface index that the content of an `ifindex` file gives: the
/// number written between any white space, if it fits 32 bits.
pub open spec fn interface_index_of(content: Seq<char>) -> Option<u32> {
    match unsigned_value(trimmed(content)) {
        Some(v) => if v <= u32::MAX {
            Some(v as u32)
        } else {
            None
        },
        None => None,
    }
}

/// Whether `c` is white space.
pub fn is_space_char(c: char) -> (b: bool)
    ensures
        b == is_space(c),
{
    let n: u32 = c as u32;
    (0x09 <= n && n <= 0x0d) || n == 0x20 || n == 0x85 || n == 0xa0 || n == 0x1680 || (0x2000 <= n
        && n <= 0x200a) || n == 0x2028 || n == 0x2029 || n == 0x202f || n == 0x205f || n == 0x3000
}

/// Digits write no negative number.
pub proof fn lemma_dec_number_nonnegative(p: Seq<char>)
    requires
        all_dec(p),
    ensures
        0 <= dec_number(p),
    decreases p.len(),
{
    if p.len() > 0 {
        let init = p.drop_last();
        assert forall|i: int| 0 <= i < init.len() implies (#[trigger] dec_digit(init[i])) is Some by {
            assert(init[i] == p[i]);
        }
        lemma_dec_number_nonnegative(init);
        assert(dec_digit(p[p.len() - 1]) is Some);
    }
}

/// Reads the content of an `ifindex` file.
pub fn parse_interface_index(content: &str) -> (r: Option<u32>)
    ensures
        r == interface_index_of(content@),
{
    let v: Vec<char> = chars_of(content);
    let n: usize = v.len();
    let mut start: usize = 0;
    proof {
        assert(v@.skip(0) == v@);
    }
    while start < n && is_space_char(v[start])
        invariant
            start <= n,
            n == v.len(),
            trimmed_start(v@) == trimmed_start(v@.skip(start as int)),
        decreases n - start,
    {
        proof {
            let rest = v@.skip(start as int);
            assert(rest[0] == v@[start as int]);
            assert(rest.drop_first() == v@.skip(start + 1));
        }
        start += 1;
    }
    let ghost front = v@.skip(start as int);
    proof {
        if start < n {
            assert(front[0] == v@[start as int]);
        }
        assert(trimmed_start(v@) == front);
    }
    let mut end: usize = n;
    proof {
        assert(v@.subrange(start as int, n as int) == front);
    }
    while end > start && is_space_char(v[end - 1])
        invariant
            start <= end <= n,
            n == v.len(),
            trimmed_end(front) == trimmed_end(v@.subrange(start as int, end as int)),
        decreases end - start,
    {
        proof {
            let part = v@.subrange(start as int, end as int);
            assert(part.last() == v@[end - 1]);
            assert(part.drop_last() == v@.subrange(start as int, end - 1));
        }
        end -= 1;
    }
    let ghost core = v@.subrange(start as int, end as int);
    proof {
        if end > start {
            assert(core.last() == v@[end - 1]);
        }
        assert(trimmed(content@) == core);
    }
    let from: usize = if start < end && v[start] == '+' {
        start + 1
    } else {
        start
    };
    let ghost digits = v@.subrange(from as int, end as int);
    proof {
        if start < end {
            assert(core[0] == v@[start as int]);
        }
        if from == start + 1 {
            assert(core.drop_first() == digits);
        } else {
            assert(core == digits);
        }
    }
    proof {
        assert(unsigned_value(trimmed(content@)) == if digits.len() >= 1 && all_dec(digits) {
            Some(dec_number(digits))
        } else {
            None
        });
    }
    if from == end {
        return None;
    }
    let mut acc: u64 = 0;
    let mut over: bool = false;
    let mut i: usize = from;
    while i < end
        invariant
            from <= i <= end <= n,
            n == v.len(),
            digits == v@.subrange(from as int, end as int),
            unsigned_value(trimmed(content@)) == if digits.len() >= 1 && all_dec(digits) {
                Some(dec_number(digits))
            } else {
                None
            },
            all_dec(digits.take(i - from)),
            !over ==> acc as int == dec_number(digits.take(i - from)) && acc <= u32::MAX,
            over ==> dec_number(digits.take(i - from)) > u32::MAX,
        decreases end - i,
    {
        let ghost before = digits.take(i - from);
        let ghost now = digits.take(i - from + 1);
        proof {
            assert(now.drop_last() == before);
            assert(now.last() == v@[i as int]);
            assert(digits[i - from] == v@[i as int]);
        }
        match dec_digit_of(v[i]) {
            None => {
                proof {
                    assert(dec_digit(digits[i - from]) is None);
                }
                return None;
            },
            Some(d) => {
                proof {
                    assert forall|k: int| 0 <= k < now.len() implies (#[trigger] dec_digit(
                        now[k],
                    )) is Some by {
                        if k < i - from {
                            assert(now[k] == before[k]);
                        }
                    }
                    lemma_dec_number_nonnegative(before);
                }
                if !over {
                    let next: u64 = acc * 10 + d as u64;
                    if next > 0xffff_ffff {
                        over = true;
                    } else {
                        acc = next;
                    }
                }
            },
        }
        i += 1;
    }
    proof {
        assert(digits.take(end - from) == digits);
    }
    if over {
        None
    } else {
        Some(acc as u32)
    }
}

/// The file that holds the index of the interface `name`.
pub fn interface_index_path(name: &str) -> (path: String)
    ensures
        path@ == "/sys/class/net/"@ + name@ + "/ifindex"@,
{
    let mut out: Vec<char> = Vec::new();
    push_str(&mut out, "/sys/class/net/");
    push_str(&mut out, name);
    push_str(&mut out, "/ifindex");
    string_of(&out)
}

} // verus!
