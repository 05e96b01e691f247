//! The kernel's notifications as they arrive: one read may hold several
//! messages, each led by its length. This module finds where each message
//! starts and ends, and says what is left where the bytes stop short.

use netlink_packet_core::NetlinkBuffer;
use vstd::prelude::*;

verus! {

/// The length of a message's header; no message is shorter.
pub const HEADER_LEN: usize = 16;

/// The first four bytes from `at` on, read with the least significant
/// byte first.
pub open spec fn little_endian(bytes: Seq<u8>, at: int) -> int {
    bytes[at] as int + bytes[at + 1] as int * 0x100 + bytes[at + 2] as int * 0x1_0000 + bytes[at
        + 3] as int * 0x100_0000
}

/// The first four bytes from `at` on, read with the most significant byte
/// first.
pub open spec fn big_endian(bytes: Seq<u8>, at: int) -> int {
    bytes[at + 3] as int + bytes[at + 2] as int * 0x100 + bytes[at + 1] as int * 0x1_0000
        + bytes[at] as int * 0x100_0000
}

/// `n` is the length field that stands at `at`, in one of the two byte
/// orders that a host can have.
pub open spec fn is_length_at(bytes: Seq<u8>, at: int, n: int) -> bool {
    0 <= at && at + 4 <= bytes.len() && (n == little_endian(bytes, at) || n == big_endian(
        bytes,
        at,
    ))
}

/// `NetlinkBuffer::new` and `NetlinkBuffer::length` of netlink-packet-core:
/// the length field of the message that starts with `bytes`, which is its
/// first four bytes read in the byte order of the host. The accessor
/// indexes these four bytes, so there must be as many.
#[verifier::external_body]
fn length_field(bytes: &[u8]) -> (n: u32)
    requires
        bytes@.len() >= 4,
    ensures
        is_length_at(bytes@, 0, n as int),
{
    NetlinkBuffer::new(bytes).length()
}

/// Where one message lies in the buffer: from `start` up to `end`.
#[derive(Clone, Copy, Debug, PartialEq, Eq, Structural)]
pub struct Frame {
    pub start: usize,
    pub end: usize,
}

/// What a message's length field says of the bytes that are left.
#[derive(Clone, Copy, Debug, PartialEq, Eq, Structural)]
pub enum FrameCheck {
    /// A whole message of this many bytes is there.
    Whole(usize),
    /// The message is longer than what is left: its end has not arrived.
    Truncated,
    /// The length is less than that of a header: no message starts here.
    Malformed,
}

/// The check of a length field `length` against `remaining` bytes.
pub open spec fn frame_check(remaining: int, length: int) -> FrameCheck {
    if length < HEADER_LEN as int {
        FrameCheck::Malformed
    } else if length > remaining {
        FrameCheck::Truncated
    } else {
        FrameCheck::Whole(length as usize)
    }
}

/// Checks the length field `length` of a message against the `remaining`
/// bytes of the buffer.
pub fn check_frame(remaining: usize, length: u32) -> (c: FrameCheck)
    ensures
        c == frame_check(remaining as int, length as int),
        c matches FrameCheck::Whole(n) ==> HEADER_LEN <= n <= remaining && n == length,
{
    if length < 16 {
        FrameCheck::Malformed
    } else if length as u64 > remaining as u64 {
        FrameCheck::Truncated
    } else {
        FrameCheck::Whole(length as usize)
    }
}

/// Why the splitting of a buffer ended.
#[derive(Clone, Copy, Debug, PartialEq, Eq, Structural)]
pub enum Rest {
    /// Every byte belongs to a message.
    Nothing,
    /// The bytes left do not hold a whole message: they are its beginning,
    /// to be kept until the rest arrives.
    Partial,
    /// The bytes left start with a length below that of a header: they are
    /// no message, and nothing after them can be found.
    Garbage,
}

/// The messages of a buffer, and what follows the last of them.
#[derive(Clone, Debug)]
pub struct Split {
    pub frames: Vec<Frame>,
    /// The number of bytes that the frames cover, from the start.
    pub consumed: usize,
    pub rest: Rest,
}

/// The frames lie one after the other from the start of the buffer up to
/// `consumed`, and each is a whole message: its length field, in one of
/// the two byte orders, is the number of its bytes, at least a header.
pub open spec fn frames_cover(bytes: Seq<u8>, frames: Seq<Frame>, consumed: int) -> bool {
    &&& 0 <= consumed <= bytes.len()
    &&& frames.len() == 0 ==> consumed == 0
    &&& frames.len() > 0 ==> frames[0].start == 0 && frames.last().end == consumed
    &&& forall|k: int|
        0 <= k < frames.len() ==> {
            &&& (#[trigger] frames[k]).start + HEADER_LEN <= frames[k].end <= consumed
            &&& is_length_at(bytes, frames[k].start as int, frames[k].end - frames[k].start)
        }
    &&& forall|k: int|
        0 <= k < frames.len() - 1 ==> (#[trigger] frames[k]).end == frames[k + 1].start
}

/// What is left at `consumed` is as `rest` says: nothing; or fewer than
/// four bytes, or a message whose length field runs past the end; or a
/// length field below the length of a header.
pub open spec fn rest_is(bytes: Seq<u8>, consumed: int, rest: Rest) -> bool {
    match rest {
        Rest::Nothing => consumed == bytes.len(),
        Rest::Partial => consumed < bytes.len() && (bytes.len() - consumed < 4 || exists|n: int|
            #[trigger] is_length_at(bytes, consumed, n) && frame_check(bytes.len() - consumed, n)
                == FrameCheck::Truncated),
        Rest::Garbage => exists|n: int|
            #[trigger] is_length_at(bytes, consumed, n) && frame_check(bytes.len() - consumed, n)
                == FrameCheck::Malformed,
    }
}

/// `split` describes the buffer `bytes`.
pub open spec fn is_split_of(split: Split, bytes: Seq<u8>) -> bool {
    &&& frames_cover(bytes, split.frames@, split.consumed as int)
    &&& rest_is(bytes, split.consumed as int, split.rest)
}

/// Finds the messages of one read. The search goes from message to message
/// by their lengths and ends at the end of the buffer, at a message whose
/// end is missing, or at bytes that are no message.
pub fn split_frames(buf: &[u8]) -> (split: Split)
    ensures
        is_split_of(split, buf@),
{
    let mut frames: Vec<Frame> = Vec::new();
    let mut offset: usize = 0;
    let mut rest: Rest = Rest::Nothing;
    while offset < buf.len()
        invariant_except_break
            rest == Rest::Nothing,
        invariant
            offset <= buf.len(),
            frames_cover(buf@, frames@, offset as int),
        ensures
            frames_cover(buf@, frames@, offset as int),
            rest_is(buf@, offset as int, rest),
        decreases buf.len() - offset,
    {
        let remaining: usize = buf.len() - offset;
        if remaining < 4 {
            rest = Rest::Partial;
            break ;
        }
        let tail: &[u8] = vstd::slice::slice_subrange(buf, offset, buf.len());
        let length: u32 = length_field(tail);
        proof {
            assert(tail@[0] == buf@[offset as int]);
            assert(tail@[1] == buf@[offset + 1]);
            assert(tail@[2] == buf@[offset + 2]);
            assert(tail@[3] == buf@[offset + 3]);
            assert(is_length_at(buf@, offset as int, length as int));
        }
        match check_frame(remaining, length) {
            FrameCheck::Malformed => {
                rest = Rest::Garbage;
                break ;
            },
            FrameCheck::Truncated => {
                rest = Rest::Partial;
                break ;
            },
            FrameCheck::Whole(n) => {
                let ghost before = frames@;
                frames.push(Frame { start: offset, end: offset + n });
                proof {
                    assert forall|k: int| 0 <= k < frames@.len() - 1 implies (
                    #[trigger] frames@[k]).end == frames@[k + 1].start by {
                        if k < before.len() - 1 {
                            assert(before[k].end == before[k + 1].start);
                        }
                    }
                }
                offset += n;
            },
        }
    }
    Split { frames, consumed: offset, rest }
}

} // verus!
