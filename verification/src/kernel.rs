//! Reading the kernel's address messages. The decoding is done by
//! netlink-packet-route; this module decides which bytes are handed to it.
//!
//! The decoder reads the four counters of a cache-information attribute
//! without looking at the attribute's length, and stops the program where
//! they are not all there. So every frame is looked over first, and only
//! an address message whose cache information is whole is decoded.

use netlink_packet_core::{NetlinkMessage, NetlinkPayload};
use netlink_packet_route::address::AddressMessage;
use netlink_packet_route::RouteNetlinkMessage;
use vstd::prelude::*;
use crate::frames::{
    big_endian, is_split_of, little_endian, split_frames, Frame, Rest, Split,
};
use crate::record::Operation;

verus! {

/// The order in which a host keeps the bytes of a number.
#[derive(Clone, Copy, Debug, PartialEq, Eq, Structural)]
pub enum ByteOrder {
    Little,
    Big,
}

/// The two bytes from `at` on, read in `order`.
pub open spec fn u16_at(bytes: Seq<u8>, at: int, order: ByteOrder) -> int {
    match order {
        ByteOrder::Little => bytes[at] as int + bytes[at + 1] as int * 0x100,
        ByteOrder::Big => bytes[at + 1] as int + bytes[at] as int * 0x100,
    }
}

/// The four bytes from `at` on, read in `order`.
pub open spec fn u32_at(bytes: Seq<u8>, at: int, order: ByteOrder) -> int {
    match order {
        ByteOrder::Little => little_endian(bytes, at),
        ByteOrder::Big => big_endian(bytes, at),
    }
}

/// The message types of address messages: an address is new, is deleted,
/// is asked for.
pub open spec fn is_address_type(t: int) -> bool {
    t == 20 || t == 21 || t == 22
}

/// The kind of the attribute that holds cache information.
pub const CACHE_INFO_KIND: u16 = 6;

/// The length of an attribute that holds cache information: a header of
/// four bytes and four counters of four bytes.
pub const CACHE_INFO_LEN: usize = 20;

/// `n` rounded up to a multiple of four.
pub open spec fn align4(n: int) -> int {
    n + (4 - n % 4) % 4
}

/// Among the attributes that lie from `pos` up to `end`, each led by its
/// length and its kind, none holds cache information in fewer bytes than
/// its counters take. The walk ends where an attribute does not fit.
pub open spec fn attributes_safe(bytes: Seq<u8>, pos: int, end: int, order: ByteOrder) -> bool
    decreases end - pos,
{
    if pos >= end || end - pos < 4 {
        true
    } else {
        let len = u16_at(bytes, pos, order);
        let kind = u16_at(bytes, pos + 2, order) % 0x4000;
        if len < 4 || len > end - pos {
            true
        } else if kind == CACHE_INFO_KIND as int && len < CACHE_INFO_LEN as int {
            false
        } else if pos + align4(len) >= end {
            true
        } else {
            attributes_safe(bytes, pos + align4(len), end, order)
        }
    }
}

/// Read in `order`, the frame is an address message.
pub open spec fn is_address_frame(frame: Seq<u8>, order: ByteOrder) -> bool {
    frame.len() >= 16 && is_address_type(u16_at(frame, 4, order))
}

/// Read in `order`, the frame is an address message whose attributes are
/// safe. The attributes follow the message header of sixteen bytes and the
/// address header of eight, and end where the length field says.
pub open spec fn safe_in(frame: Seq<u8>, order: ByteOrder) -> bool {
    &&& is_address_frame(frame, order)
    &&& (16 <= u32_at(frame, 0, order) <= frame.len() ==> attributes_safe(
        frame,
        24,
        u32_at(frame, 0, order),
        order,
    ))
}

/// The frame may be handed to the decoder, whatever the byte order of the
/// host: in one byte order it is an address message with safe attributes,
/// and in the other its type is then one that the decoder does not know.
pub open spec fn decodes_safely(frame: Seq<u8>) -> bool {
    safe_in(frame, ByteOrder::Little) || safe_in(frame, ByteOrder::Big)
}

/// What is done with a frame.
#[derive(Clone, Copy, Debug, PartialEq, Eq, Structural)]
pub enum FrameClass {
    /// It is no address message: it is passed over.
    NotAddress,
    /// It is an address message whose cache information is cut short: it
    /// is dropped.
    Unsafe,
    /// It is handed to the decoder.
    Decodable,
}

/// The class of a frame.
pub open spec fn frame_class(frame: Seq<u8>) -> FrameClass {
    if decodes_safely(frame) {
        FrameClass::Decodable
    } else if is_address_frame(frame, ByteOrder::Little) || is_address_frame(
        frame,
        ByteOrder::Big,
    ) {
        FrameClass::Unsafe
    } else {
        FrameClass::NotAddress
    }
}

/// Reads two bytes in `order`.
pub fn read_u16(bytes: &[u8], at: usize, order: ByteOrder) -> (n: u16)
    requires
        at + 2 <= bytes@.len(),
    ensures
        n as int == u16_at(bytes@, at as int, order),
{
    let a: u16 = bytes[at] as u16;
    let b: u16 = bytes[at + 1] as u16;
    match order {
        ByteOrder::Little => a + b * 0x100,
        ByteOrder::Big => b + a * 0x100,
    }
}

/// Reads four bytes in `order`.
pub fn read_u32(bytes: &[u8], at: usize, order: ByteOrder) -> (n: u32)
    requires
        at + 4 <= bytes@.len(),
    ensures
        n as int == u32_at(bytes@, at as int, order),
{
    let a: u32 = bytes[at] as u32;
    let b: u32 = bytes[at + 1] as u32;
    let c: u32 = bytes[at + 2] as u32;
    let d: u32 = bytes[at + 3] as u32;
    match order {
        ByteOrder::Little => a + b * 0x100 + c * 0x1_0000 + d * 0x100_0000,
        ByteOrder::Big => d + c * 0x100 + b * 0x1_0000 + a * 0x100_0000,
    }
}

/// Walks the attributes of an address message that ends at `end`.
fn attributes_are_safe(frame: &[u8], end: usize, order: ByteOrder) -> (ok: bool)
    requires
        16 <= end <= frame@.len(),
    ensures
        ok == attributes_safe(frame@, 24, end as int, order),
{
    let mut pos: usize = 24;
    while pos < end && end - pos >= 4
        invariant
            24 <= pos,
            16 <= end <= frame@.len(),
            attributes_safe(frame@, 24, end as int, order) == attributes_safe(
                frame@,
                pos as int,
                end as int,
                order,
            ),
        decreases end - pos,
    {
        let len: usize = read_u16(frame, pos, order) as usize;
        let kind: u16 = read_u16(frame, pos + 2, order) % 0x4000;
        if len < 4 || len > end - pos {
            return true;
        }
        if kind == CACHE_INFO_KIND && len < CACHE_INFO_LEN {
            return false;
        }
        let step: usize = len + (4 - len % 4) % 4;
        if step >= end - pos {
            return true;
        }
        pos += step;
    }
    true
}

/// Looks a frame over: finds the byte order in which it is an address
/// message, if there is one, and walks its attributes in that order.
pub fn classify_frame(frame: &[u8]) -> (class: FrameClass)
    ensures
        class == frame_class(frame@),
{
    if frame.len() < 16 {
        return FrameClass::NotAddress;
    }
    let little: u16 = read_u16(frame, 4, ByteOrder::Little);
    let big: u16 = read_u16(frame, 4, ByteOrder::Big);
    let order: ByteOrder = if little == 20 || little == 21 || little == 22 {
        ByteOrder::Little
    } else if big == 20 || big == 21 || big == 22 {
        ByteOrder::Big
    } else {
        return FrameClass::NotAddress;
    };
    let other: ByteOrder = match order {
        ByteOrder::Little => ByteOrder::Big,
        ByteOrder::Big => ByteOrder::Little,
    };
    proof {
        assert(!is_address_frame(frame@, other));
    }
    let end: u32 = read_u32(frame, 0, order);
    if end < 16 || end as u64 > frame.len() as u64 {
        return FrameClass::Decodable;
    }
    if attributes_are_safe(frame, end as usize, order) {
        FrameClass::Decodable
    } else {
        FrameClass::Unsafe
    }
}

/// A decoded address message of netlink-packet-route. The library carries
/// it through and does not look inside.
#[verifier::external_type_specification]
#[verifier::external_body]
pub struct ExAddressMessage(AddressMessage);

/// `NetlinkMessage::<RouteNetlinkMessage>::deserialize` of
/// netlink-packet-core and netlink-packet-route: decodes one message, and
/// gives its address message with what happened to the address, or nothing
/// where the bytes do not decode or the message is of another kind. The
/// frame must be safe to decode: the decoder indexes the bytes of a
/// cache-information attribute without a check.
#[verifier::external_body]
fn decode_address(frame: &[u8]) -> (r: Option<(Operation, AddressMessage)>)
    requires
        decodes_safely(frame@),
{
    match NetlinkMessage::<RouteNetlinkMessage>::deserialize(frame) {
        Ok(m) => match m.payload {
            NetlinkPayload::InnerMessage(RouteNetlinkMessage::NewAddress(a)) => Some(
                (Operation::Added, a),
            ),
            NetlinkPayload::InnerMessage(RouteNetlinkMessage::DelAddress(a)) => Some(
                (Operation::Removed, a),
            ),
            NetlinkPayload::InnerMessage(RouteNetlinkMessage::GetAddress(a)) => Some(
                (Operation::Queried, a),
            ),
            _ => None,
        },
        Err(_) => None,
    }
}

/// What came of one frame.
#[derive(Debug)]
pub enum FrameReading {
    /// The frame is no address message; it was passed over.
    NotAddress,
    /// The frame is an address message whose cache information is cut
    /// short; it was dropped without being decoded.
    Unsafe,
    /// The frame was handed to the decoder, which gave no address message.
    Undecodable,
    /// The decoded message, with what happened to the address.
    Message(Operation, AddressMessage),
}

/// `reading` is a possible outcome for a frame of class `class`: a frame
/// is decoded only where that is safe.
pub open spec fn reading_fits(reading: FrameReading, class: FrameClass) -> bool {
    match class {
        FrameClass::NotAddress => reading is NotAddress,
        FrameClass::Unsafe => reading is Unsafe,
        FrameClass::Decodable => reading is Undecodable || reading is Message,
    }
}

/// Reads one frame: looks it over, and decodes it where that is safe.
pub fn read_frame(frame: &[u8]) -> (reading: FrameReading)
    ensures
        reading_fits(reading, frame_class(frame@)),
{
    match classify_frame(frame) {
        FrameClass::NotAddress => FrameReading::NotAddress,
        FrameClass::Unsafe => FrameReading::Unsafe,
        FrameClass::Decodable => match decode_address(frame) {
            Some(decoded) => FrameReading::Message(decoded.0, decoded.1),
            None => FrameReading::Undecodable,
        },
    }
}

/// What came of one read of the socket.
#[derive(Debug)]
pub struct Reading {
    /// Where the messages lie in the buffer.
    pub frames: Vec<Frame>,
    /// What came of each frame, in the same order.
    pub readings: Vec<FrameReading>,
    /// The number of bytes that the frames cover.
    pub consumed: usize,
    /// What follows the last frame.
    pub rest: Rest,
}

/// `reading` describes the buffer `bytes`: its frames are the messages of
/// the buffer, and each frame has a reading that fits its class.
pub open spec fn is_reading_of(reading: Reading, bytes: Seq<u8>) -> bool {
    &&& is_split_of(
        Split { frames: reading.frames, consumed: reading.consumed, rest: reading.rest },
        bytes,
    )
    &&& reading.readings@.len() == reading.frames@.len()
    &&& forall|k: int|
        0 <= k < reading.frames@.len() ==> reading_fits(
            #[trigger] reading.readings@[k],
            frame_class(
                bytes.subrange(reading.frames@[k].start as int, reading.frames@[k].end as int),
            ),
        )
}

/// Reads the messages of one read of the socket: finds the frames, and
/// reads each. A frame that is dropped or does not decode does not keep
/// the next from being read.
pub fn read_messages(buf: &[u8]) -> (reading: Reading)
    ensures
        is_reading_of(reading, buf@),
{
    let split: Split = split_frames(buf);
    let mut readings: Vec<FrameReading> = Vec::new();
    let mut k: usize = 0;
    while k < split.frames.len()
        invariant
            k <= split.frames@.len(),
            is_split_of(split, buf@),
            readings@.len() == k,
            forall|j: int|
                0 <= j < k ==> reading_fits(
                    #[trigger] readings@[j],
                    frame_class(
                        buf@.subrange(split.frames@[j].start as int, split.frames@[j].end as int),
                    ),
                ),
        decreases split.frames@.len() - k,
    {
        let frame: Frame = split.frames[k];
        proof {
            assert(split.frames@[k as int].start + 16 <= split.frames@[k as int].end
                <= split.consumed);
        }
        let bytes: &[u8] = vstd::slice::slice_subrange(buf, frame.start, frame.end);
        readings.push(read_frame(bytes));
        k += 1;
    }
    Reading { frames: split.frames, readings, consumed: split.consumed, rest: split.rest }
}

} // verus!
