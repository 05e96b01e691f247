use netlink_packet_core::{NetlinkHeader, NetlinkMessage, NetlinkPayload};
use netlink_packet_route::address::{
    AddressAttribute, AddressHeaderFlag, AddressMessage, CacheInfo,
};
use netlink_packet_route::link::LinkMessage;
use netlink_packet_route::{AddressFamily, RouteNetlinkMessage};
use prefix_ddns::frames::Rest;
use prefix_ddns::kernel::{
    classify_frame, read_frame, read_messages, read_u16, read_u32, ByteOrder, FrameClass,
    FrameReading,
};
use prefix_ddns::record::Operation;

fn address_message(index: u32, address: &str) -> AddressMessage {
    let mut msg = AddressMessage::default();
    msg.header.family = AddressFamily::Inet6;
    msg.header.prefix_len = 64;
    msg.header.index = index;
    msg.header.flags = vec![AddressHeaderFlag::Permanent];
    msg.attributes = vec![
        AddressAttribute::Address(address.parse().unwrap()),
        AddressAttribute::CacheInfo(CacheInfo::default()),
        AddressAttribute::Label("eth0".to_string()),
    ];
    msg
}

fn bytes_of(inner: RouteNetlinkMessage) -> Vec<u8> {
    let mut msg = NetlinkMessage::new(NetlinkHeader::default(), NetlinkPayload::InnerMessage(inner));
    msg.finalize();
    let mut bytes = vec![0u8; msg.buffer_len()];
    msg.serialize(&mut bytes);
    bytes
}

/// An address message by hand: the header, the address header, and one
/// attribute of the given kind with `value_len` bytes of value.
fn frame_by_hand(order: ByteOrder, message_type: u16, kind: u16, value_len: u16) -> Vec<u8> {
    let u16_bytes = |n: u16| match order {
        ByteOrder::Little => n.to_le_bytes(),
        ByteOrder::Big => n.to_be_bytes(),
    };
    let u32_bytes = |n: u32| match order {
        ByteOrder::Little => n.to_le_bytes(),
        ByteOrder::Big => n.to_be_bytes(),
    };
    let padded = (value_len as u32 + 3) / 4 * 4;
    let total = 16 + 8 + 4 + padded;
    let mut frame = Vec::new();
    frame.extend(u32_bytes(total));
    frame.extend(u16_bytes(message_type));
    frame.extend([0u8; 10]);
    frame.extend([10u8, 64, 0, 0]);
    frame.extend(u32_bytes(2));
    frame.extend(u16_bytes(4 + value_len));
    frame.extend(u16_bytes(kind));
    frame.extend(vec![0u8; padded as usize]);
    frame
}

fn host() -> ByteOrder {
    if u16::from_ne_bytes([1, 0]) == 1 {
        ByteOrder::Little
    } else {
        ByteOrder::Big
    }
}

fn other(order: ByteOrder) -> ByteOrder {
    match order {
        ByteOrder::Little => ByteOrder::Big,
        ByteOrder::Big => ByteOrder::Little,
    }
}

#[test]
fn numbers_are_read_in_either_byte_order() {
    let bytes = [0x12u8, 0x34, 0x56, 0x78, 0x9a];
    assert_eq!(read_u16(&bytes, 0, ByteOrder::Little), 0x3412);
    assert_eq!(read_u16(&bytes, 0, ByteOrder::Big), 0x1234);
    assert_eq!(read_u16(&bytes, 3, ByteOrder::Big), 0x789a);
    assert_eq!(read_u32(&bytes, 0, ByteOrder::Little), 0x7856_3412);
    assert_eq!(read_u32(&bytes, 1, ByteOrder::Big), 0x3456_789a);
}

#[test]
fn address_messages_are_decoded_with_their_operation() {
    let first = address_message(2, "2001:db8:1:1::100");
    let second = address_message(3, "2001:db8:2:2::200");
    let third = address_message(4, "fe80::1");
    let mut buf = bytes_of(RouteNetlinkMessage::NewAddress(first.clone()));
    buf.extend(bytes_of(RouteNetlinkMessage::DelAddress(second.clone())));
    buf.extend(bytes_of(RouteNetlinkMessage::GetAddress(third.clone())));
    let reading = read_messages(&buf);
    assert_eq!(reading.rest, Rest::Nothing);
    assert_eq!(reading.consumed, buf.len());
    assert_eq!(reading.frames.len(), 3);
    assert_eq!(reading.readings.len(), 3);
    match &reading.readings[0] {
        FrameReading::Message(Operation::Added, msg) => assert_eq!(*msg, first),
        other => panic!("got {:?}", other),
    }
    match &reading.readings[1] {
        FrameReading::Message(Operation::Removed, msg) => assert_eq!(*msg, second),
        other => panic!("got {:?}", other),
    }
    match &reading.readings[2] {
        FrameReading::Message(Operation::Queried, msg) => assert_eq!(*msg, third),
        other => panic!("got {:?}", other),
    }
}

#[test]
fn other_messages_are_passed_over() {
    let mut buf = bytes_of(RouteNetlinkMessage::NewLink(LinkMessage::default()));
    let link_len = buf.len();
    buf.extend(bytes_of(RouteNetlinkMessage::NewAddress(address_message(
        7,
        "2001:db8::7",
    ))));
    let reading = read_messages(&buf);
    assert_eq!(reading.readings.len(), 2);
    assert!(matches!(reading.readings[0], FrameReading::NotAddress));
    assert!(matches!(
        reading.readings[1],
        FrameReading::Message(Operation::Added, _)
    ));
    assert_eq!(classify_frame(&buf[..link_len]), FrameClass::NotAddress);
    assert_eq!(classify_frame(&[0u8; 8]), FrameClass::NotAddress);
    assert_eq!(classify_frame(&[]), FrameClass::NotAddress);
}

#[test]
fn cut_short_cache_information_is_never_decoded() {
    for value_len in [0u16, 1, 4, 8, 15] {
        let frame = frame_by_hand(host(), 20, 6, value_len);
        assert_eq!(classify_frame(&frame), FrameClass::Unsafe);
        assert!(matches!(read_frame(&frame), FrameReading::Unsafe));
    }
    let mut buf = frame_by_hand(host(), 20, 6, 8);
    buf.extend(bytes_of(RouteNetlinkMessage::NewAddress(address_message(
        2,
        "2001:db8::1",
    ))));
    let reading = read_messages(&buf);
    assert_eq!(reading.readings.len(), 2);
    assert!(matches!(reading.readings[0], FrameReading::Unsafe));
    assert!(matches!(
        reading.readings[1],
        FrameReading::Message(Operation::Added, _)
    ));
}

#[test]
fn cache_information_with_flag_bits_in_its_kind_is_checked_too() {
    let frame = frame_by_hand(host(), 21, 6 | 0x8000, 4);
    assert_eq!(classify_frame(&frame), FrameClass::Unsafe);
    let frame = frame_by_hand(host(), 22, 6 | 0x4000, 12);
    assert_eq!(classify_frame(&frame), FrameClass::Unsafe);
}

#[test]
fn whole_cache_information_is_decoded() {
    let frame = frame_by_hand(host(), 20, 6, 16);
    assert_eq!(classify_frame(&frame), FrameClass::Decodable);
    match read_frame(&frame) {
        FrameReading::Message(Operation::Added, msg) => {
            assert_eq!(msg.header.index, 2);
            assert_eq!(msg.attributes.len(), 1);
        }
        other => panic!("got {:?}", other),
    }
}

#[test]
fn attribute_that_does_not_decode_gives_no_message() {
    // An address attribute of three bytes is neither IPv4 nor IPv6.
    let frame = frame_by_hand(host(), 20, 1, 3);
    assert_eq!(classify_frame(&frame), FrameClass::Decodable);
    assert!(matches!(read_frame(&frame), FrameReading::Undecodable));
}

#[test]
fn frame_in_the_other_byte_order_is_looked_over_in_that_order() {
    let unsafe_frame = frame_by_hand(other(host()), 20, 6, 8);
    assert_eq!(classify_frame(&unsafe_frame), FrameClass::Unsafe);
    let safe_frame = frame_by_hand(other(host()), 20, 6, 16);
    assert_eq!(classify_frame(&safe_frame), FrameClass::Decodable);
    assert!(matches!(read_frame(&safe_frame), FrameReading::Undecodable));
}

#[test]
fn partial_and_garbage_rests_are_reported() {
    let whole = bytes_of(RouteNetlinkMessage::NewAddress(address_message(
        2,
        "2001:db8::1",
    )));
    let mut buf = whole.clone();
    buf.extend(&whole[..20]);
    let reading = read_messages(&buf);
    assert_eq!(reading.readings.len(), 1);
    assert_eq!(reading.consumed, whole.len());
    assert_eq!(reading.rest, Rest::Partial);
    let mut buf = whole.clone();
    buf.extend([0u8; 16]);
    let reading = read_messages(&buf);
    assert_eq!(reading.readings.len(), 1);
    assert_eq!(reading.rest, Rest::Garbage);
}
