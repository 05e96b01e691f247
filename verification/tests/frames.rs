use netlink_packet_core::{NetlinkHeader, NetlinkMessage, NetlinkPayload};
use netlink_packet_route::address::AddressMessage;
use netlink_packet_route::RouteNetlinkMessage;
use prefix_ddns::frames::{check_frame, split_frames, Frame, FrameCheck, Rest};

fn message(len: u32, fill: u8) -> Vec<u8> {
    let mut m = vec![fill; len as usize];
    m[0..4].copy_from_slice(&len.to_ne_bytes());
    m
}

#[test]
fn empty_buffer_has_no_frames() {
    let s = split_frames(&[]);
    assert!(s.frames.is_empty());
    assert_eq!(s.consumed, 0);
    assert_eq!(s.rest, Rest::Nothing);
}

#[test]
fn one_read_may_hold_several_messages() {
    let mut buf = message(16, 1);
    buf.extend(message(40, 2));
    buf.extend(message(20, 3));
    let s = split_frames(&buf);
    assert_eq!(
        s.frames,
        vec![
            Frame { start: 0, end: 16 },
            Frame { start: 16, end: 56 },
            Frame { start: 56, end: 76 },
        ]
    );
    assert_eq!(s.consumed, 76);
    assert_eq!(s.rest, Rest::Nothing);
}

#[test]
fn message_without_its_end_is_left_as_partial() {
    let mut buf = message(24, 1);
    let second = message(40, 2);
    buf.extend(&second[..30]);
    let s = split_frames(&buf);
    assert_eq!(s.frames, vec![Frame { start: 0, end: 24 }]);
    assert_eq!(s.consumed, 24);
    assert_eq!(s.rest, Rest::Partial);
}

#[test]
fn fewer_than_four_bytes_are_left_as_partial() {
    let mut buf = message(16, 1);
    buf.extend([9u8, 9, 9]);
    let s = split_frames(&buf);
    assert_eq!(s.frames.len(), 1);
    assert_eq!(s.consumed, 16);
    assert_eq!(s.rest, Rest::Partial);
    let alone = split_frames(&[1u8]);
    assert_eq!(alone.consumed, 0);
    assert_eq!(alone.rest, Rest::Partial);
}

#[test]
fn header_cut_short_is_partial() {
    let whole = message(32, 5);
    let s = split_frames(&whole[..10]);
    assert!(s.frames.is_empty());
    assert_eq!(s.rest, Rest::Partial);
}

#[test]
fn length_below_a_header_is_garbage() {
    let mut buf = message(16, 1);
    buf.extend(vec![0u8; 32]);
    let s = split_frames(&buf);
    assert_eq!(s.frames, vec![Frame { start: 0, end: 16 }]);
    assert_eq!(s.consumed, 16);
    assert_eq!(s.rest, Rest::Garbage);
    let mut short = 15u32.to_ne_bytes().to_vec();
    short.extend(vec![7u8; 20]);
    assert_eq!(split_frames(&short).rest, Rest::Garbage);
}

#[test]
fn check_frame_compares_length_and_remaining_bytes() {
    assert_eq!(check_frame(100, 16), FrameCheck::Whole(16));
    assert_eq!(check_frame(100, 100), FrameCheck::Whole(100));
    assert_eq!(check_frame(100, 101), FrameCheck::Truncated);
    assert_eq!(check_frame(4, 16), FrameCheck::Truncated);
    assert_eq!(check_frame(100, 15), FrameCheck::Malformed);
    assert_eq!(check_frame(100, 0), FrameCheck::Malformed);
    assert_eq!(check_frame(0, u32::MAX), FrameCheck::Truncated);
}

#[test]
fn frames_of_serialized_messages_are_found() {
    let mut buf = Vec::new();
    let mut lengths = Vec::new();
    for index in [1u32, 2, 3] {
        let mut inner = AddressMessage::default();
        inner.header.index = index;
        let mut msg = NetlinkMessage::new(
            NetlinkHeader::default(),
            NetlinkPayload::InnerMessage(RouteNetlinkMessage::NewAddress(inner)),
        );
        msg.finalize();
        let mut bytes = vec![0u8; msg.buffer_len()];
        msg.serialize(&mut bytes);
        lengths.push(bytes.len());
        buf.extend(bytes);
    }
    let s = split_frames(&buf);
    assert_eq!(s.rest, Rest::Nothing);
    assert_eq!(s.frames.len(), 3);
    let mut start = 0;
    for (frame, len) in s.frames.iter().zip(lengths) {
        assert_eq!(frame.start, start);
        assert_eq!(frame.end, start + len);
        let decoded =
            NetlinkMessage::<RouteNetlinkMessage>::deserialize(&buf[frame.start..frame.end]);
        assert!(decoded.is_ok());
        start += len;
    }
}
