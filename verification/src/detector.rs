//! The memory of the last prefix, and the decision whether an address
//! brings a new one.

use vstd::prelude::*;
use crate::address::{get_prefix_64, lemma_mask_halves, prefix_of, upper_half, Ipv6Address};
use crate::record::AcceptedAddress;

verus! {

/// What an observation found.
#[derive(Clone, Copy, Debug, PartialEq, Eq, Structural)]
pub enum ChangeResult {
    /// The address lies in the prefix seen last.
    Unchanged,
    /// The address lies in another prefix, whose key is given.
    Changed(u128),
}

/// The prefix seen last, if any: the upper 64 bits of an address, with the
/// lower 64 bits cleared.
#[derive(Clone, Copy, Debug, PartialEq, Eq, Structural)]
pub struct PrefixState {
    pub last_prefix: Option<u128>,
}

/// The state after `state` has seen `addr`.
pub open spec fn state_after(state: PrefixState, addr: u128) -> PrefixState {
    PrefixState { last_prefix: Some(prefix_of(addr) as u128) }
}

/// What seeing `addr` in `state` reports.
pub open spec fn observation(state: PrefixState, addr: u128) -> ChangeResult {
    if state.last_prefix == Some(prefix_of(addr) as u128) {
        ChangeResult::Unchanged
    } else {
        ChangeResult::Changed(prefix_of(addr) as u128)
    }
}

/// Decides for each accepted address whether the prefix has changed. It
/// owns the one `PrefixState`; `observe` takes it exclusively, so that no
/// second observation can come between its comparison and its update.
#[derive(Clone, Copy, Debug, PartialEq, Eq, Structural)]
pub struct PrefixChangeDetector {
    pub state: PrefixState,
}

impl PrefixChangeDetector {
    /// A detector that has seen no prefix yet.
    pub fn new() -> (d: PrefixChangeDetector)
        ensures
            d.state.last_prefix is None,
    {
        PrefixChangeDetector { state: PrefixState { last_prefix: None } }
    }

    /// A detector that starts from the prefix of `addr`, as found when the
    /// address table was first read.
    pub fn seeded(addr: Ipv6Address) -> (d: PrefixChangeDetector)
        ensures
            d.state == state_after(PrefixState { last_prefix: None }, addr.bits),
    {
        PrefixChangeDetector { state: PrefixState { last_prefix: Some(get_prefix_64(addr)) } }
    }

    /// The prefix seen last.
    pub fn last_prefix(&self) -> (p: Option<u128>)
        ensures
            p == self.state.last_prefix,
    {
        self.state.last_prefix
    }

    /// Compares the prefix of `addr` with the one seen last, and remembers
    /// it. Reports `Changed` with the new key where they differ or none was
    /// seen before, `Unchanged` where they are equal.
    pub fn observe(&mut self, addr: AcceptedAddress) -> (r: ChangeResult)
        ensures
            r == observation(old(self).state, addr.address.bits),
            final(self).state == state_after(old(self).state, addr.address.bits),
            r is Unchanged ==> final(self).state == old(self).state,
    {
        let key: u128 = get_prefix_64(addr.address);
        let same: bool = match self.state.last_prefix {
            Some(last) => last == key,
            None => false,
        };
        if same {
            ChangeResult::Unchanged
        } else {
            self.state.last_prefix = Some(key);
            ChangeResult::Changed(key)
        }
    }
}

/// Two addresses have the same key exactly if their upper 64 bits agree.
pub proof fn lemma_same_prefix(a: u128, b: u128)
    ensures
        prefix_of(a) == prefix_of(b) <==> upper_half(a) == upper_half(b),
        0 <= prefix_of(a) <= u128::MAX,
{
    lemma_mask_halves(a, 0);
    lemma_mask_halves(b, 0);
}

/// Whatever was seen before: once `first` has been observed, a second
/// address is reported as unchanged if it shares the upper 64 bits of
/// `first`, and as changed, with its own key, if it does not.
pub proof fn lemma_observe_twice(state: PrefixState, first: u128, second: u128)
    ensures
        upper_half(second) == upper_half(first) ==> observation(state_after(state, first), second)
            == ChangeResult::Unchanged,
        upper_half(second) != upper_half(first) ==> observation(state_after(state, first), second)
            == ChangeResult::Changed(prefix_of(second) as u128),
        upper_half(second) != upper_half(first) ==> state_after(
            state_after(state, first),
            second,
        ).last_prefix == Some(prefix_of(second) as u128),
{
    lemma_same_prefix(first, second);
}

/// An address whose upper 64 bits differ from those of the remembered key
/// is reported as changed; one that shares them, as unchanged.
pub proof fn lemma_observe_against_last(state: PrefixState, last: u128, addr: u128)
    requires
        state.last_prefix == Some(prefix_of(last) as u128),
    ensures
        observation(state, addr) is Unchanged <==> upper_half(addr) == upper_half(last),
{
    lemma_same_prefix(last, addr);
}

} // verus!
