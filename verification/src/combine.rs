//! The address of a task: the observed prefix joined with the task's suffix.

use vstd::prelude::*;
use crate::address::{
    combine_halves, combined, lemma_mask_halves, lower_half, upper_half, Ipv6Address,
};
use crate::literal::{lemma_literal_groups_bound, literal_value, parse_literal};
use crate::notation::address_text;
use crate::roundtrip::lemma_text_reads_back;

verus! {

/// Why no address could be made for a task.
#[derive(Clone, Copy, Debug, PartialEq, Eq, Structural)]
pub enum AddressCombineError {
    /// The suffix is not an IPv6 literal.
    InvalidSuffix,
}

impl AddressCombineError {
    /// The text under which the error is logged.
    pub fn message(&self) -> (m: String)
        ensures
            m@ == "invalid IPv6 address syntax"@,
    {
        "invalid IPv6 address syntax".to_owned()
    }
}

/// What `combine_ip` returns for an address and a suffix text.
pub open spec fn combine_result(original: u128, suffix: Seq<char>) -> Result<
    int,
    AddressCombineError,
> {
    match literal_value(suffix) {
        Some(s) => Ok(combined(original, s as u128)),
        None => Err(AddressCombineError::InvalidSuffix),
    }
}

/// Joins the upper 64 bits of `original_ip` with the lower 64 bits of the
/// address that `suffix_str` writes. The lower half of `original_ip` and the
/// upper half of the suffix have no part in the result. Fails exactly where
/// `suffix_str` is no IPv6 literal.
pub fn combine_ip(original_ip: Ipv6Address, suffix_str: &str) -> (r: Result<
    Ipv6Address,
    AddressCombineError,
>)
    ensures
        match combine_result(original_ip.bits, suffix_str@) {
            Ok(c) => r matches Ok(a) && a@ == c,
            Err(e) => r == Err::<Ipv6Address, AddressCombineError>(e),
        },
        r matches Ok(a) ==> upper_half(a.bits) == upper_half(original_ip.bits) && lower_half(
            a.bits,
        ) == lower_half(literal_value(suffix_str@).unwrap() as u128),
{
    match parse_literal(suffix_str) {
        Some(suffix) => {
            proof {
                lemma_literal_groups_bound(suffix_str@);
            }
            Ok(combine_halves(original_ip, suffix))
        },
        None => Err(AddressCombineError::InvalidSuffix),
    }
}

/// The combined address has the upper half of the prefix and the lower half
/// of the suffix, whatever the lower half of the prefix and the upper half
/// of the suffix hold.
pub proof fn lemma_combined_halves(prefix: u128, suffix: u128)
    ensures
        0 <= combined(prefix, suffix) <= u128::MAX,
        upper_half(combined(prefix, suffix) as u128) == upper_half(prefix),
        lower_half(combined(prefix, suffix) as u128) == lower_half(suffix),
{
    lemma_mask_halves(prefix, suffix);
}

/// For every address and every suffix that is a literal, the combined
/// address has the upper 64 bits of the address and the lower 64 bits of
/// the suffix.
pub proof fn lemma_combine_result_halves(original: u128, suffix: Seq<char>)
    requires
        literal_value(suffix) is Some,
    ensures
        combine_result(original, suffix) is Ok,
        0 <= combine_result(original, suffix)->Ok_0 <= u128::MAX,
        upper_half(combine_result(original, suffix)->Ok_0 as u128) == upper_half(original),
        lower_half(combine_result(original, suffix)->Ok_0 as u128) == lower_half(
            literal_value(suffix).unwrap() as u128,
        ),
{
    lemma_literal_groups_bound(suffix);
    lemma_combined_halves(original, literal_value(suffix).unwrap() as u128);
}

/// Two prefixes with the same upper half and two suffixes with the same
/// lower half combine to the same address.
pub proof fn lemma_combined_depends_on_halves(
    prefix: u128,
    suffix: u128,
    other_prefix: u128,
    other_suffix: u128,
)
    requires
        upper_half(prefix) == upper_half(other_prefix),
        lower_half(suffix) == lower_half(other_suffix),
    ensures
        combined(prefix, suffix) == combined(other_prefix, other_suffix),
{
}

/// Combining the result once more with the same prefix, or with the same
/// suffix, changes nothing.
pub proof fn lemma_combined_idempotent(prefix: u128, suffix: u128)
    ensures
        combined(prefix, combined(prefix, suffix) as u128) == combined(prefix, suffix),
        combined(combined(prefix, suffix) as u128, suffix) == combined(prefix, suffix),
        combined(combined(prefix, suffix) as u128, combined(prefix, suffix) as u128) == combined(
            prefix,
            suffix,
        ),
{
    lemma_combined_halves(prefix, suffix);
}

/// The combined address, written as text and taken as the suffix for the
/// same prefix, combines to itself.
pub proof fn lemma_recombine_text(prefix: u128, suffix: u128)
    ensures
        combine_result(prefix, address_text(combined(prefix, suffix) as u128)) == Ok::<
            int,
            AddressCombineError,
        >(combined(prefix, suffix)),
{
    lemma_combined_halves(prefix, suffix);
    lemma_text_reads_back(combined(prefix, suffix) as u128);
    lemma_combined_idempotent(prefix, suffix);
}

} // verus!
