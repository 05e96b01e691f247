use prefix_ddns::address::Ipv6Address;
use prefix_ddns::literal::{parse_literal, AddressParseError};
use std::str::FromStr;

fn bits(text: &str) -> Option<u128> {
    parse_literal(text).map(|a| a.to_bits())
}

#[test]
fn full_form_reads_every_group() {
    assert_eq!(
        bits("2001:0db8:85a3:0000:0000:8a2e:0370:7334"),
        Some(0x2001_0db8_85a3_0000_0000_8a2e_0370_7334)
    );
    assert_eq!(bits("0:0:0:0:1:2:3:4"), Some(0x0001_0002_0003_0004));
    assert_eq!(
        bits("ffff:ffff:ffff:ffff:ffff:ffff:ffff:ffff"),
        Some(u128::MAX)
    );
}

#[test]
fn upper_and_lower_case_digits_read_alike() {
    assert_eq!(bits("2001:DB8::DeAd:BEEF"), bits("2001:db8::dead:beef"));
    assert_eq!(bits("::ABCD"), Some(0xabcd));
}

#[test]
fn double_colon_stands_for_zero_groups() {
    assert_eq!(bits("::"), Some(0));
    assert_eq!(bits("::1"), Some(1));
    assert_eq!(bits("1::"), Some(0x0001_0000_0000_0000_0000_0000_0000_0000));
    assert_eq!(
        bits("2001:db8::1"),
        Some(0x2001_0db8_0000_0000_0000_0000_0000_0001)
    );
    assert_eq!(
        bits("1:2:3:4:5:6:7::"),
        Some(0x0001_0002_0003_0004_0005_0006_0007_0000)
    );
    assert_eq!(
        bits("::2:3:4:5:6:7:8"),
        Some(0x0000_0002_0003_0004_0005_0006_0007_0008)
    );
    assert_eq!(
        bits("1:2:3::6:7:8"),
        Some(0x0001_0002_0003_0000_0000_0006_0007_0008)
    );
}

#[test]
fn double_colon_must_stand_for_at_least_one_group() {
    assert_eq!(bits("1:2:3:4::5:6:7:8"), None);
    assert_eq!(bits("::1:2:3:4:5:6:7:8"), None);
    assert_eq!(bits("1:2:3:4:5:6:7:8::"), None);
}

#[test]
fn dotted_quad_fills_the_last_two_groups() {
    assert_eq!(bits("::ffff:192.168.1.10"), Some(0xffff_c0a8_010a));
    assert_eq!(bits("::1.2.3.4"), Some(0x0102_0304));
    assert_eq!(
        bits("1:2:3:4:5:6:7.8.9.10"),
        Some(0x0001_0002_0003_0004_0005_0006_0708_090a)
    );
    assert_eq!(
        bits("64:ff9b::255.255.255.255"),
        Some(0x0064_ff9b_0000_0000_0000_0000_ffff_ffff)
    );
}

#[test]
fn dotted_quad_is_rejected_where_it_does_not_belong() {
    assert_eq!(bits("1.2.3.4"), None);
    assert_eq!(bits("1.2.3.4::"), None);
    assert_eq!(bits("::1.2.3.4:5"), None);
    assert_eq!(bits("1:2:3:4:5:6:7:1.2.3.4"), None);
    assert_eq!(bits("1:2:3:4:5:1.2.3.4"), None);
    assert_eq!(bits("::1.2.3"), None);
    assert_eq!(bits("::1.2.3.4.5"), None);
    assert_eq!(bits("::256.1.1.1"), None);
    assert_eq!(bits("::01.2.3.4"), None);
    assert_eq!(bits("::1.2.3.0004"), None);
    assert_eq!(bits("::1..3.4"), None);
    assert_eq!(bits("::a.2.3.4"), None);
}

#[test]
fn malformed_text_is_rejected() {
    assert_eq!(bits(""), None);
    assert_eq!(bits("invalid"), None);
    assert_eq!(bits(":"), None);
    assert_eq!(bits(":::"), None);
    assert_eq!(bits("1:"), None);
    assert_eq!(bits(":1"), None);
    assert_eq!(bits("1:2:3:4:5:6:7"), None);
    assert_eq!(bits("1:2:3:4:5:6:7:8:9"), None);
    assert_eq!(bits("1::2::3"), None);
    assert_eq!(bits("1:::2"), None);
    assert_eq!(bits("12345::"), None);
    assert_eq!(bits("::g"), None);
    assert_eq!(bits(" ::1"), None);
    assert_eq!(bits("::1 "), None);
    assert_eq!(bits("::1%eth0"), None);
    assert_eq!(bits("[::1]"), None);
    assert_eq!(bits("::\u{ff11}"), None);
    assert_eq!(bits("fe80::1/64"), None);
}

#[test]
fn from_str_and_parse_agree_with_parse_literal() {
    assert_eq!(
        Ipv6Address::from_str("2001:db8::1"),
        Ok(Ipv6Address::from_bits(
            0x2001_0db8_0000_0000_0000_0000_0000_0001
        ))
    );
    assert_eq!(Ipv6Address::from_str("nope"), Err(AddressParseError {}));
    assert_eq!(Ipv6Address::parse("::"), Ok(Ipv6Address::from_bits(0)));
    assert_eq!(Ipv6Address::parse("::x"), Err(AddressParseError {}));
}

#[test]
fn text_of_an_address_elides_the_first_longest_zero_run() {
    let text = |b: u128| Ipv6Address::from_bits(b).to_string();
    assert_eq!(text(0), "::");
    assert_eq!(text(1), "::1");
    assert_eq!(text(0x0001_0000_0000_0000_0000_0000_0000_0000), "1::");
    assert_eq!(
        text(0x2001_0db8_0000_0000_0000_0000_0000_0001),
        "2001:db8::1"
    );
    assert_eq!(
        text(0x2001_0db8_0000_0000_0001_0000_0000_0001),
        "2001:db8::1:0:0:1"
    );
    assert_eq!(
        text(0x2001_0000_0000_0001_0000_0000_0000_0001),
        "2001:0:0:1::1"
    );
    assert_eq!(
        text(0x0001_0000_0002_0003_0004_0005_0006_0007),
        "1:0:2:3:4:5:6:7"
    );
    assert_eq!(
        text(0x0001_0002_0003_0004_0005_0006_0007_0008),
        "1:2:3:4:5:6:7:8"
    );
    assert_eq!(text(u128::MAX), "ffff:ffff:ffff:ffff:ffff:ffff:ffff:ffff");
    assert_eq!(
        text(0xfe80_0000_0000_0000_0a00_27ff_fe4e_66a1),
        "fe80::a00:27ff:fe4e:66a1"
    );
}

#[test]
fn text_of_a_mapped_address_ends_in_a_dotted_quad() {
    let text = |b: u128| Ipv6Address::from_bits(b).to_string();
    assert_eq!(text(0xffff_c0a8_010a), "::ffff:192.168.1.10");
    assert_eq!(text(0xffff_0000_0000), "::ffff:0.0.0.0");
    assert_eq!(text(0xffff_ffff_ffff), "::ffff:255.255.255.255");
    assert_eq!(text(0x0102_0304), "::102:304");
}

#[test]
fn text_reads_back_as_the_same_address() {
    let samples: [u128; 8] = [
        0,
        1,
        u128::MAX,
        0x2001_0db8_0000_0000_0000_0000_0000_0001,
        0x2001_0db8_0000_0000_0001_0000_0000_0001,
        0xffff_c0a8_010a,
        0x0001_0000_0000_0000_0000_0000_0000_0000,
        0x0000_0000_0001_0000_0000_0000_0000_0000,
    ];
    for b in samples {
        let a = Ipv6Address::from_bits(b);
        assert_eq!(parse_literal(&a.to_string()), Some(a));
    }
}

#[test]
fn segments_are_the_eight_groups() {
    let a = Ipv6Address::from_bits(0x2001_0db8_85a3_0000_0000_8a2e_0370_7334);
    assert_eq!(
        a.segments(),
        vec![0x2001, 0x0db8, 0x85a3, 0, 0, 0x8a2e, 0x0370, 0x7334]
    );
    assert_eq!(a.segment(0), 0x2001);
    assert_eq!(a.segment(7), 0x7334);
}
