//! IPv6 addresses as 128-bit values: halves, the routed prefix, scopes.

use vstd::prelude::*;

verus! {

/// Two to the power of 64: the weight of the upper half of an address.
pub const HALF: u128 = 0x1_0000_0000_0000_0000u128;

/// The bits of the upper half of an address.
pub const PREFIX_MASK: u128 = 0xffff_ffff_ffff_ffff_0000_0000_0000_0000u128;

/// The bits of the lower half of an address.
pub const SUFFIX_MASK: u128 = 0x0000_0000_0000_0000_ffff_ffff_ffff_ffffu128;

/// The network part of an address: its upper 64 bits, as a number below 2^64.
pub open spec fn upper_half(bits: u128) -> int {
    bits as int / (HALF as int)
}

/// The host part of an address: its lower 64 bits, as a number below 2^64.
pub open spec fn lower_half(bits: u128) -> int {
    bits as int % (HALF as int)
}

/// The address whose upper half is `upper` and whose lower half is `lower`.
pub open spec fn join_halves(upper: int, lower: int) -> int {
    upper * (HALF as int) + lower
}

/// The key under which a prefix is remembered: the address with its lower
/// half cleared.
pub open spec fn prefix_of(bits: u128) -> int {
    join_halves(upper_half(bits), 0)
}

/// The upper half of `prefix` joined with the lower half of `suffix`.
pub open spec fn combined(prefix: u128, suffix: u128) -> int {
    join_halves(upper_half(prefix), lower_half(suffix))
}

/// The `i`-th of the eight 16-bit groups of an address, counted from the
/// most significant.
pub open spec fn group_of(bits: u128, i: int) -> int
    recommends
        0 <= i < 8,
{
    (bits as int / weight(7 - i)) % 0x1_0000
}

/// 65536 to the power of `k`, for the eight positions of a group.
pub open spec fn weight(k: int) -> int {
    if k <= 0 {
        1
    } else if k == 1 {
        0x1_0000int
    } else if k == 2 {
        0x1_0000_0000int
    } else if k == 3 {
        0x1_0000_0000_0000int
    } else if k == 4 {
        0x1_0000_0000_0000_0000int
    } else if k == 5 {
        0x1_0000_0000_0000_0000_0000int
    } else if k == 6 {
        0x1_0000_0000_0000_0000_0000_0000int
    } else if k == 7 {
        0x1_0000_0000_0000_0000_0000_0000_0000int
    } else {
        0x1_0000_0000_0000_0000_0000_0000_0000_0000int
    }
}

/// `::1`.
pub open spec fn is_loopback_bits(bits: u128) -> bool {
    bits == 1
}

/// `ff00::/8`: the first eight bits are all set.
pub open spec fn is_multicast_bits(bits: u128) -> bool {
    bits as int / 0x100_0000_0000_0000_0000_0000_0000_0000int == 0xff
}

/// `fe80::/10`: the first ten bits are `1111 1110 10`.
pub open spec fn is_link_local_bits(bits: u128) -> bool {
    bits as int / 0x40_0000_0000_0000_0000_0000_0000_0000int == 0x3fa
}

/// An IPv6 address, held as its 128-bit value in network order: the first
/// group of the text form is the most significant.
#[derive(Clone, Copy, Debug, PartialEq, Eq, Structural, Hash)]
pub struct Ipv6Address {
    pub bits: u128,
}

impl View for Ipv6Address {
    type V = int;

    open spec fn view(&self) -> int {
        self.bits as int
    }
}

impl Ipv6Address {
    pub fn from_bits(bits: u128) -> (addr: Ipv6Address)
        ensures
            addr.bits == bits,
    {
        Ipv6Address { bits }
    }

    pub fn to_bits(&self) -> (bits: u128)
        ensures
            bits == self.bits,
    {
        self.bits
    }

    /// The `i`-th 16-bit group, counted from the most significant.
    pub fn segment(&self, i: usize) -> (g: u16)
        requires
            i < 8,
        ensures
            g as int == group_of(self.bits, i as int),
    {
        let bits: u128 = self.bits;
        let shift: u32 = (16 * (7 - i)) as u32;
        let g: u128 = (bits >> shift) & 0xffffu128;
        proof {
            lemma_group_shift(bits, i as int);
        }
        g as u16
    }

    pub fn is_loopback(&self) -> (b: bool)
        ensures
            b == is_loopback_bits(self.bits),
    {
        self.bits == 1
    }

    pub fn is_multicast(&self) -> (b: bool)
        ensures
            b == is_multicast_bits(self.bits),
    {
        let bits: u128 = self.bits;
        assert((bits >> 120u32) == bits / 0x100_0000_0000_0000_0000_0000_0000_0000u128)
            by (bit_vector);
        (bits >> 120u32) == 0xffu128
    }

    pub fn is_link_local(&self) -> (b: bool)
        ensures
            b == is_link_local_bits(self.bits),
    {
        let bits: u128 = self.bits;
        assert((bits >> 118u32) == bits / 0x40_0000_0000_0000_0000_0000_0000_0000u128)
            by (bit_vector);
        (bits >> 118u32) == 0x3fau128
    }

    /// The address with its lower 64 bits cleared.
    pub fn prefix_key(&self) -> (key: u128)
        ensures
            key as int == prefix_of(self.bits),
    {
        get_prefix_64(*self)
    }
}

/// The deduplication key of an address: its upper 64 bits, the lower 64
/// cleared.
pub fn get_prefix_64(ip: Ipv6Address) -> (key: u128)
    ensures
        key as int == prefix_of(ip.bits),
        upper_half(key) == upper_half(ip.bits),
        lower_half(key) == 0,
{
    let bits: u128 = ip.bits;
    let key: u128 = bits & PREFIX_MASK;
    proof {
        lemma_mask_halves(bits, 0);
    }
    key
}

/// The address made of the upper 64 bits of `prefix` and the lower 64 bits
/// of `suffix`.
pub fn combine_halves(prefix: Ipv6Address, suffix: Ipv6Address) -> (out: Ipv6Address)
    ensures
        out@ == combined(prefix.bits, suffix.bits),
        upper_half(out.bits) == upper_half(prefix.bits),
        lower_half(out.bits) == lower_half(suffix.bits),
{
    let p: u128 = prefix.bits;
    let s: u128 = suffix.bits;
    let bits: u128 = (p & PREFIX_MASK) | (s & SUFFIX_MASK);
    proof {
        lemma_mask_halves(p, s);
    }
    Ipv6Address { bits }
}

/// Masking and or-ing the halves of two addresses is the arithmetic join of
/// the upper half of the first with the lower half of the second.
pub proof fn lemma_mask_halves(p: u128, s: u128)
    ensures
        ((p & PREFIX_MASK) | (s & SUFFIX_MASK)) as int == combined(p, s),
        upper_half(((p & PREFIX_MASK) | (s & SUFFIX_MASK))) == upper_half(p),
        lower_half(((p & PREFIX_MASK) | (s & SUFFIX_MASK))) == lower_half(s),
        s == 0 ==> (p & PREFIX_MASK) == ((p & PREFIX_MASK) | (s & SUFFIX_MASK)),
{
    let c: u128 = (p & PREFIX_MASK) | (s & SUFFIX_MASK);
    assert(c / 0x1_0000_0000_0000_0000u128 == p / 0x1_0000_0000_0000_0000u128) by (bit_vector)
        requires
            c == (p & 0xffff_ffff_ffff_ffff_0000_0000_0000_0000u128) | (s
                & 0x0000_0000_0000_0000_ffff_ffff_ffff_ffffu128),
    ;
    assert(c % 0x1_0000_0000_0000_0000u128 == s % 0x1_0000_0000_0000_0000u128) by (bit_vector)
        requires
            c == (p & 0xffff_ffff_ffff_ffff_0000_0000_0000_0000u128) | (s
                & 0x0000_0000_0000_0000_ffff_ffff_ffff_ffffu128),
    ;
    assert(s == 0 ==> (p & 0xffff_ffff_ffff_ffff_0000_0000_0000_0000u128) == ((p
        & 0xffff_ffff_ffff_ffff_0000_0000_0000_0000u128) | (s
        & 0x0000_0000_0000_0000_ffff_ffff_ffff_ffffu128))) by (bit_vector);
    let ci: int = c as int;
    let h: int = HALF as int;
    assert(ci == (ci / h) * h + ci % h) by (nonlinear_arith)
        requires
            h > 0,
    ;
}

/// Shifting a group down and masking it is the group's arithmetic value.
proof fn lemma_group_shift(bits: u128, i: int)
    requires
        0 <= i < 8,
    ensures
        ((bits >> ((16 * (7 - i)) as u32)) & 0xffffu128) as int == group_of(bits, i),
{
    if i == 0 {
        assert((bits >> 112u32) & 0xffffu128 == (bits / 0x1_0000_0000_0000_0000_0000_0000_0000u128)
            % 0x1_0000u128) by (bit_vector);
    } else if i == 1 {
        assert((bits >> 96u32) & 0xffffu128 == (bits / 0x1_0000_0000_0000_0000_0000_0000u128)
            % 0x1_0000u128) by (bit_vector);
    } else if i == 2 {
        assert((bits >> 80u32) & 0xffffu128 == (bits / 0x1_0000_0000_0000_0000_0000u128)
            % 0x1_0000u128) by (bit_vector);
    } else if i == 3 {
        assert((bits >> 64u32) & 0xffffu128 == (bits / 0x1_0000_0000_0000_0000u128)
            % 0x1_0000u128) by (bit_vector);
    } else if i == 4 {
        assert((bits >> 48u32) & 0xffffu128 == (bits / 0x1_0000_0000_0000u128) % 0x1_0000u128)
            by (bit_vector);
    } else if i == 5 {
        assert((bits >> 32u32) & 0xffffu128 == (bits / 0x1_0000_0000u128) % 0x1_0000u128)
            by (bit_vector);
    } else if i == 6 {
        assert((bits >> 16u32) & 0xffffu128 == (bits / 0x1_0000u128) % 0x1_0000u128)
            by (bit_vector);
    } else {
        assert((bits >> 0u32) & 0xffffu128 == (bits / 1u128) % 0x1_0000u128) by (bit_vector);
    }
}

} // verus!
