//! Kernel address records, and the filter that picks the usable global
//! IPv6 address out of one.

use vstd::prelude::*;
use crate::address::{
    is_link_local_bits, is_loopback_bits, is_multicast_bits, Ipv6Address,
};

verus! {

/// What the kernel reports to have happened to an address.
#[derive(Clone, Copy, Debug, PartialEq, Eq, Structural)]
pub enum Operation {
    Added,
    Removed,
    Queried,
}

/// The address family of a record.
#[derive(Clone, Copy, Debug, PartialEq, Eq, Structural)]
pub enum AddressFamily {
    Inet,
    Inet6,
    Other,
}

/// A status flag of the record's header.
#[derive(Clone, Copy, Debug, PartialEq, Eq, Structural)]
pub enum StatusFlag {
    Secondary,
    NoDad,
    Optimistic,
    DadFailed,
    HomeAddress,
    Deprecated,
    /// Duplicate address detection is still running: the address is not
    /// usable yet.
    Tentative,
    Permanent,
    Other,
}

/// An address carried by an attribute.
#[derive(Clone, Copy, Debug, PartialEq, Eq, Structural)]
pub enum IpValue {
    V4(u32),
    V6(Ipv6Address),
}

/// One attribute of a record.
#[derive(Clone, Copy, Debug, PartialEq, Eq, Structural)]
pub enum RecordAttribute {
    /// The address that the record is about.
    Address(IpValue),
    /// The local end of a point-to-point address.
    Local(IpValue),
    /// Anything else: labels, cache information, extended flags.
    Other,
}

/// One entry of the kernel's address notifications.
#[derive(Clone, Debug)]
pub struct RawAddressRecord {
    pub operation: Operation,
    pub family: AddressFamily,
    pub interface_index: u32,
    pub flags: Vec<StatusFlag>,
    pub attributes: Vec<RecordAttribute>,
}

/// An IPv6 address that passed the filter, with the interface it is on.
#[derive(Clone, Copy, Debug, PartialEq, Eq, Structural)]
pub struct AcceptedAddress {
    pub address: Ipv6Address,
    pub interface_index: u32,
}

/// The IPv6 address of an address attribute.
pub open spec fn attribute_address(a: RecordAttribute) -> Option<Ipv6Address> {
    match a {
        RecordAttribute::Address(IpValue::V6(ip)) => Some(ip),
        _ => None,
    }
}

/// The address that a list of attributes names: that of the last address
/// attribute that holds an IPv6 address.
pub open spec fn named_address(attrs: Seq<RecordAttribute>) -> Option<Ipv6Address>
    decreases attrs.len(),
{
    if attrs.len() == 0 {
        None
    } else if attribute_address(attrs.last()) is Some {
        attribute_address(attrs.last())
    } else {
        named_address(attrs.drop_last())
    }
}

/// An address that may leave the host's links: not the loopback address,
/// not multicast, not link-local.
pub open spec fn is_global(ip: Ipv6Address) -> bool {
    !is_loopback_bits(ip.bits) && !is_multicast_bits(ip.bits) && !is_link_local_bits(ip.bits)
}

/// The record passes for the interface filter `wanted`: an added IPv6
/// address, on the wanted interface if one is given, not tentative.
pub open spec fn record_passes(record: RawAddressRecord, wanted: Option<u32>) -> bool {
    &&& record.operation == Operation::Added
    &&& record.family == AddressFamily::Inet6
    &&& (wanted matches Some(index) ==> record.interface_index == index)
    &&& !record.flags@.contains(StatusFlag::Tentative)
}

/// What the filter gives for a record.
pub open spec fn filtered(record: RawAddressRecord, wanted: Option<u32>) -> Option<
    AcceptedAddress,
> {
    if record_passes(record, wanted) {
        match named_address(record.attributes@) {
            Some(ip) => if is_global(ip) {
                Some(AcceptedAddress { address: ip, interface_index: record.interface_index })
            } else {
                None
            },
            None => None,
        }
    } else {
        None
    }
}

/// The filter of address records, with the interface it is bound to, if any.
#[derive(Clone, Copy, Debug, PartialEq, Eq, Structural)]
pub struct AddressFilter {
    pub interface_index: Option<u32>,
}

impl AddressFilter {
    pub fn new(interface_index: Option<u32>) -> (f: AddressFilter)
        ensures
            f.interface_index == interface_index,
    {
        AddressFilter { interface_index }
    }

    /// The accepted address of `record`, or nothing where the record is
    /// rejected.
    pub fn filter(&self, record: &RawAddressRecord) -> (r: Option<AcceptedAddress>)
        ensures
            r == filtered(*record, self.interface_index),
    {
        extract_ipv6_from_message(record, self.interface_index)
    }
}

/// Whether `flags` holds the tentative flag.
pub fn is_tentative(flags: &Vec<StatusFlag>) -> (b: bool)
    ensures
        b == flags@.contains(StatusFlag::Tentative),
{
    let mut i: usize = 0;
    while i < flags.len()
        invariant
            i <= flags.len(),
            forall|k: int| 0 <= k < i ==> flags@[k] != StatusFlag::Tentative,
        decreases flags.len() - i,
    {
        if flags[i] == StatusFlag::Tentative {
            return true;
        }
        i += 1;
    }
    false
}

/// The address named by `attrs`.
pub fn last_address(attrs: &Vec<RecordAttribute>) -> (r: Option<Ipv6Address>)
    ensures
        r == named_address(attrs@),
{
    let mut found: Option<Ipv6Address> = None;
    let mut i: usize = 0;
    while i < attrs.len()
        invariant
            i <= attrs.len(),
            found == named_address(attrs@.take(i as int)),
        decreases attrs.len() - i,
    {
        proof {
            let now = attrs@.take(i as int + 1);
            assert(now.drop_last() == attrs@.take(i as int));
            assert(now.last() == attrs@[i as int]);
        }
        match attrs[i] {
            RecordAttribute::Address(IpValue::V6(ip)) => {
                found = Some(ip);
            },
            _ => {},
        }
        i += 1;
    }
    proof {
        assert(attrs@.take(attrs@.len() as int) == attrs@);
    }
    found
}

/// The usable global IPv6 address of a kernel record, if it has one.
///
/// Rejected are: a record that is not an addition, a family other than
/// IPv6, an interface other than the wanted one, a tentative address, a
/// record without an IPv6 address, and the loopback, multicast and
/// link-local addresses.
pub fn extract_ipv6_from_message(msg: &RawAddressRecord, interface_index: Option<u32>) -> (r:
    Option<AcceptedAddress>)
    ensures
        r == filtered(*msg, interface_index),
{
    if msg.operation != Operation::Added {
        return None;
    }
    if msg.family != AddressFamily::Inet6 {
        return None;
    }
    if let Some(index) = interface_index {
        if msg.interface_index != index {
            return None;
        }
    }
    if is_tentative(&msg.flags) {
        return None;
    }
    match last_address(&msg.attributes) {
        Some(addr) => {
            if addr.is_loopback() || addr.is_multicast() || addr.is_link_local() {
                return None;
            }
            Some(AcceptedAddress { address: addr, interface_index: msg.interface_index })
        },
        None => None,
    }
}

/// What the filter rejects and what it accepts. Rejected are a tentative
/// record, a record of another interface than the wanted one, and a record
/// whose address is the loopback address, multicast or link-local.
/// Accepted is the global address of an added IPv6 record that is not
/// tentative, on the wanted interface or with no interface wanted.
pub proof fn lemma_filter_cases(record: RawAddressRecord, wanted: Option<u32>)
    ensures
        record.flags@.contains(StatusFlag::Tentative) ==> filtered(record, wanted) is None,
        (wanted matches Some(index) && record.interface_index != index) ==> filtered(
            record,
            wanted,
        ) is None,
        record.family != AddressFamily::Inet6 ==> filtered(record, wanted) is None,
        record.operation != Operation::Added ==> filtered(record, wanted) is None,
        named_address(record.attributes@) is None ==> filtered(record, wanted) is None,
        (named_address(record.attributes@) matches Some(ip) && (is_loopback_bits(ip.bits)
            || is_multicast_bits(ip.bits) || is_link_local_bits(ip.bits))) ==> filtered(
            record,
            wanted,
        ) is None,
        (record_passes(record, wanted) && named_address(record.attributes@) is Some && is_global(
            named_address(record.attributes@).unwrap(),
        )) ==> filtered(record, wanted) == Some(
            AcceptedAddress {
                address: named_address(record.attributes@).unwrap(),
                interface_index: record.interface_index,
            },
        ),
        filtered(record, wanted) matches Some(a) ==> is_global(a.address) && a.interface_index
            == record.interface_index,
{
}

/// A record with no flags and no wanted interface passes with any global
/// address, and so does one on the wanted interface.
pub proof fn lemma_filter_accepts_global(record: RawAddressRecord, wanted: Option<u32>, ip: Ipv6Address)
    requires
        record.operation == Operation::Added,
        record.family == AddressFamily::Inet6,
        record.flags@.len() == 0,
        wanted matches Some(index) ==> record.interface_index == index,
        record.attributes@ == seq![RecordAttribute::Address(IpValue::V6(ip))],
        is_global(ip),
    ensures
        filtered(record, wanted) == Some(
            AcceptedAddress { address: ip, interface_index: record.interface_index },
        ),
{
    let attrs = record.attributes@;
    assert(attrs.last() == RecordAttribute::Address(IpValue::V6(ip)));
}

} // verus!
