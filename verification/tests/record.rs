use prefix_ddns::address::Ipv6Address;
use prefix_ddns::record::{
    extract_ipv6_from_message, is_tentative, last_address, AcceptedAddress, AddressFamily,
    AddressFilter, IpValue, Operation, RawAddressRecord, RecordAttribute, StatusFlag,
};

const GLOBAL: u128 = 0x2001_0db8_0001_0001_0000_0000_0000_0100;

fn record(bits: u128) -> RawAddressRecord {
    RawAddressRecord {
        operation: Operation::Added,
        family: AddressFamily::Inet6,
        interface_index: 2,
        flags: vec![StatusFlag::Permanent],
        attributes: vec![
            RecordAttribute::Address(IpValue::V6(Ipv6Address::from_bits(bits))),
            RecordAttribute::Other,
        ],
    }
}

fn accepted(bits: u128, index: u32) -> Option<AcceptedAddress> {
    Some(AcceptedAddress {
        address: Ipv6Address::from_bits(bits),
        interface_index: index,
    })
}

#[test]
fn filter_accepts_a_global_address_without_an_interface_filter() {
    assert_eq!(
        extract_ipv6_from_message(&record(GLOBAL), None),
        accepted(GLOBAL, 2)
    );
    let mut no_flags = record(GLOBAL);
    no_flags.flags = vec![];
    assert_eq!(
        AddressFilter::new(None).filter(&no_flags),
        accepted(GLOBAL, 2)
    );
}

#[test]
fn filter_accepts_a_global_address_on_the_wanted_interface() {
    assert_eq!(
        extract_ipv6_from_message(&record(GLOBAL), Some(2)),
        accepted(GLOBAL, 2)
    );
    assert_eq!(
        AddressFilter::new(Some(2)).filter(&record(GLOBAL)),
        accepted(GLOBAL, 2)
    );
}

#[test]
fn filter_rejects_another_interface() {
    assert_eq!(extract_ipv6_from_message(&record(GLOBAL), Some(3)), None);
    assert_eq!(AddressFilter::new(Some(0)).filter(&record(GLOBAL)), None);
}

#[test]
fn filter_rejects_a_tentative_address() {
    let mut r = record(GLOBAL);
    r.flags = vec![StatusFlag::Permanent, StatusFlag::Tentative];
    assert_eq!(extract_ipv6_from_message(&r, None), None);
    assert!(is_tentative(&r.flags));
    assert!(!is_tentative(&vec![StatusFlag::Deprecated, StatusFlag::Other]));
}

#[test]
fn filter_rejects_loopback_multicast_and_link_local() {
    assert_eq!(extract_ipv6_from_message(&record(1), None), None);
    assert_eq!(
        extract_ipv6_from_message(&record(0xff02_0000_0000_0000_0000_0000_0000_0001), None),
        None
    );
    assert_eq!(
        extract_ipv6_from_message(&record(0xfe80_0000_0000_0000_0a00_27ff_fe4e_66a1), None),
        None
    );
    assert_eq!(
        extract_ipv6_from_message(&record(0xfebf_ffff_0000_0000_0000_0000_0000_0001), None),
        None
    );
}

#[test]
fn filter_accepts_the_neighbours_of_the_rejected_ranges() {
    let site_local = 0xfec0_0000_0000_0000_0000_0000_0000_0001;
    let below_link_local = 0xfe7f_ffff_0000_0000_0000_0000_0000_0001;
    let below_multicast = 0xfeff_0000_0000_0000_0000_0000_0000_0001;
    for bits in [site_local, below_link_local, below_multicast, 0, 2] {
        assert_eq!(
            extract_ipv6_from_message(&record(bits), None),
            accepted(bits, 2)
        );
    }
}

#[test]
fn filter_rejects_other_families_and_removals() {
    let mut v4 = record(GLOBAL);
    v4.family = AddressFamily::Inet;
    assert_eq!(extract_ipv6_from_message(&v4, None), None);
    let mut other = record(GLOBAL);
    other.family = AddressFamily::Other;
    assert_eq!(extract_ipv6_from_message(&other, None), None);
    let mut removed = record(GLOBAL);
    removed.operation = Operation::Removed;
    assert_eq!(extract_ipv6_from_message(&removed, None), None);
    let mut queried = record(GLOBAL);
    queried.operation = Operation::Queried;
    assert_eq!(extract_ipv6_from_message(&queried, None), None);
}

#[test]
fn filter_takes_the_last_ipv6_address_attribute() {
    let first = Ipv6Address::from_bits(GLOBAL);
    let second = Ipv6Address::from_bits(GLOBAL + 1);
    let attrs = vec![
        RecordAttribute::Local(IpValue::V6(Ipv6Address::from_bits(7))),
        RecordAttribute::Address(IpValue::V6(first)),
        RecordAttribute::Address(IpValue::V4(0x0a00_0001)),
        RecordAttribute::Address(IpValue::V6(second)),
        RecordAttribute::Other,
        RecordAttribute::Local(IpValue::V6(Ipv6Address::from_bits(9))),
    ];
    assert_eq!(last_address(&attrs), Some(second));
    let mut r = record(GLOBAL);
    r.attributes = attrs;
    assert_eq!(extract_ipv6_from_message(&r, None), accepted(GLOBAL + 1, 2));
}

#[test]
fn filter_rejects_a_record_without_an_ipv6_address() {
    let mut r = record(GLOBAL);
    r.attributes = vec![
        RecordAttribute::Other,
        RecordAttribute::Address(IpValue::V4(0xc0a8_0001)),
        RecordAttribute::Local(IpValue::V6(Ipv6Address::from_bits(GLOBAL))),
    ];
    assert_eq!(extract_ipv6_from_message(&r, None), None);
    r.attributes = vec![];
    assert_eq!(extract_ipv6_from_message(&r, None), None);
}

#[test]
fn scopes_of_addresses() {
    assert!(Ipv6Address::from_bits(1).is_loopback());
    assert!(!Ipv6Address::from_bits(2).is_loopback());
    assert!(Ipv6Address::from_bits(0xff00 << 112).is_multicast());
    assert!(!Ipv6Address::from_bits(0xfe00 << 112).is_multicast());
    assert!(Ipv6Address::from_bits(0xfe80 << 112).is_link_local());
    assert!(Ipv6Address::from_bits(0xfebf << 112).is_link_local());
    assert!(!Ipv6Address::from_bits(0xfec0 << 112).is_link_local());
    assert!(!Ipv6Address::from_bits(0xfe7f << 112).is_link_local());
}
