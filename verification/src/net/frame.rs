//! How messages are laid out on a connection: four bytes that give the length of the message,
//! most significant byte first, and then the message.

use bytes::{Bytes, BytesMut};

use vstd::prelude::*;

use crate::proto::keys::be_value;

verus! {

/// The growable buffer of the `bytes` crate.
#[verifier::external_type_specification]
#[verifier::external_body]
pub struct ExBytesMut(bytes::BytesMut);

/// The immutable byte string of the `bytes` crate.
#[verifier::external_type_specification]
#[verifier::external_body]
pub struct ExBytes(bytes::Bytes);

/// The bytes that a buffer holds.
pub uninterp spec fn buffer_bytes(buffer: BytesMut) -> Seq<u8>;

/// The bytes that a byte string holds.
pub uninterp spec fn string_bytes(bytes: Bytes) -> Seq<u8>;

/// `BytesMut::clear` leaves an empty buffer.
pub assume_specification[ bytes::BytesMut::clear ](buffer: &mut bytes::BytesMut)
    ensures
        buffer_bytes(*final(buffer)) == Seq::<u8>::empty(),
;

/// `BytesMut::resize` keeps as many of the bytes as fit into the new length and fills up with
/// `value`. A length that no allocation can have is left out. That memory runs out, which ends
/// the program here as with every allocation, is not spoken of.
pub assume_specification[ bytes::BytesMut::resize ](
    buffer: &mut bytes::BytesMut,
    new_len: usize,
    value: u8,
)
    requires
        new_len <= isize::MAX,
    ensures
        buffer_bytes(*final(buffer)) == Seq::new(
            new_len as nat,
            |i: int|
                if i < buffer_bytes(*old(buffer)).len() {
                    buffer_bytes(*old(buffer))[i]
                } else {
                    value
                },
        ),
;

/// `BytesMut::split_to` takes the first `at` bytes out of the buffer; there must be as many.
pub assume_specification[ bytes::BytesMut::split_to ](
    buffer: &mut bytes::BytesMut,
    at: usize,
) -> (head: bytes::BytesMut)
    requires
        at <= buffer_bytes(*old(buffer)).len(),
    ensures
        buffer_bytes(head) == buffer_bytes(*old(buffer)).take(at as int),
        buffer_bytes(*final(buffer)) == buffer_bytes(*old(buffer)).skip(at as int),
;

/// `BytesMut::freeze` hands out the same bytes as a byte string.
pub assume_specification[ bytes::BytesMut::freeze ](
    buffer: bytes::BytesMut,
) -> (frozen: bytes::Bytes)
    ensures
        string_bytes(frozen) == buffer_bytes(buffer),
;

/// Why a message is not sent or not accepted.
#[derive(Debug, Clone, Copy, PartialEq, Eq, Structural)]
pub enum FrameError {
    /// A message that is to be sent is too long.
    WouldBeTooLarge { size: usize, max_message_size: usize },
    /// A message that is announced is too long.
    TooLarge { size: usize, max_message_size: usize },
}

/// The four bytes that stand for `len`, most significant byte first.
pub open spec fn prefix_of(len: nat) -> Seq<u8> {
    seq![
        (len / 0x100_0000 % 256) as u8,
        (len / 0x1_0000 % 256) as u8,
        (len / 0x100 % 256) as u8,
        (len % 256) as u8,
    ]
}

/// What goes over the connection for a message.
pub open spec fn framed(message: Seq<u8>) -> Seq<u8> {
    prefix_of(message.len()) + message
}

/// Makes room in `buffer` for a message of `len` bytes that is to be sent, and returns the
/// prefix that goes before it. A message of more than `max_message_size` bytes is refused, and
/// the buffer is left as it is.
///
/// The prefix holds the last 32 bits of the length.
pub fn start_frame(buffer: &mut BytesMut, len: usize, max_message_size: usize) -> (r: Result<
    [u8; 4],
    FrameError,
>)
    requires
        len <= max_message_size ==> len <= isize::MAX,
    ensures
        len <= max_message_size ==> {
            &&& r matches Ok(prefix)
            &&& prefix@ == prefix_of(len as nat)
            &&& buffer_bytes(*final(buffer)) == Seq::new(len as nat, |i: int| 0u8)
        },
        len > max_message_size ==> {
            &&& r == Err::<[u8; 4], FrameError>(
                FrameError::WouldBeTooLarge { size: len, max_message_size },
            )
            &&& *final(buffer) == *old(buffer)
        },
{
    if len > max_message_size {
        return Err(FrameError::WouldBeTooLarge { size: len, max_message_size });
    }
    buffer.clear();
    buffer.resize(len, 0);
    assert(buffer_bytes(*buffer) =~= Seq::new(len as nat, |i: int| 0u8));
    let prefix: [u8; 4] = [
        (len / 0x100_0000 % 256) as u8,
        (len / 0x1_0000 % 256) as u8,
        (len / 0x100 % 256) as u8,
        (len % 256) as u8,
    ];
    assert(prefix@ =~= prefix_of(len as nat));
    Ok(prefix)
}

/// The length of the message that `prefix` announces. A message of more than
/// `max_message_size` bytes is refused.
pub fn message_size(prefix: &[u8; 4], max_message_size: usize) -> (r: Result<usize, FrameError>)
    ensures
        be_value(prefix@) <= max_message_size ==> r == Ok::<usize, FrameError>(
            be_value(prefix@) as usize,
        ),
        be_value(prefix@) > max_message_size ==> r == Err::<usize, FrameError>(
            FrameError::TooLarge { size: be_value(prefix@) as usize, max_message_size },
        ),
        be_value(prefix@) <= usize::MAX,
{
    proof {
        lemma_be_value_4(prefix@);
    }
    let size: usize = ((prefix[0] as usize * 256 + prefix[1] as usize) * 256 + prefix[2] as usize)
        * 256 + prefix[3] as usize;
    if size > max_message_size {
        return Err(FrameError::TooLarge { size, max_message_size });
    }
    Ok(size)
}

/// Takes a message of `size` bytes out of `buffer`, once they have been read into it.
pub fn take_message(buffer: &mut BytesMut, size: usize) -> (message: Bytes)
    requires
        size <= buffer_bytes(*old(buffer)).len(),
    ensures
        string_bytes(message) == buffer_bytes(*old(buffer)).take(size as int),
        buffer_bytes(*final(buffer)) == buffer_bytes(*old(buffer)).skip(size as int),
{
    buffer.split_to(size).freeze()
}

proof fn lemma_be_value_4(b: Seq<u8>)
    requires
        b.len() == 4,
    ensures
        be_value(b) == ((b[0] * 256 + b[1]) * 256 + b[2]) * 256 + b[3],
{
    reveal_with_fuel(be_value, 5);
}

/// A message that was let through when it was sent is accepted by a node with the same limit:
/// the length that is read from its prefix is its own, and those bytes are the message. This
/// holds of messages whose length fits into the prefix.
pub proof fn law_sent_message_is_read_back(message: Seq<u8>, rest: Seq<u8>)
    requires
        message.len() <= u32::MAX,
    ensures
        be_value((framed(message) + rest).take(4)) == message.len(),
        (framed(message) + rest).skip(4).take(message.len() as int) == message,
        (framed(message) + rest).skip(4).skip(message.len() as int) == rest,
{
    let stream = framed(message) + rest;
    let len = message.len();
    assert(stream.take(4) =~= prefix_of(len));
    lemma_be_value_4(prefix_of(len));
    assert(stream.skip(4).take(len as int) =~= message);
    assert(stream.skip(4).skip(len as int) =~= rest);
}

/// What goes over the connection for messages that are sent one after another.
pub open spec fn frames(messages: Seq<Seq<u8>>) -> Seq<u8>
    decreases messages.len(),
{
    if messages.len() == 0 {
        seq![]
    } else {
        framed(messages[0]) + frames(messages.skip(1))
    }
}

/// What can be read from a connection.
#[verifier::ext_equal]
pub enum Reading {
    /// Nothing more: there is no whole prefix.
    Ended,
    /// An announcement of a message that is too long.
    Refused,
    /// The beginning of a message that is not there to its end.
    CutOff,
    /// A message, and what is behind it.
    Message { message: Seq<u8>, rest: Seq<u8> },
}

/// Reads a message: its prefix, and then as many bytes as that announces.
pub open spec fn read_frame(stream: Seq<u8>, max_message_size: usize) -> Reading {
    if stream.len() < 4 {
        Reading::Ended
    } else {
        let size = be_value(stream.take(4));
        if size > max_message_size {
            Reading::Refused
        } else if stream.len() - 4 < size {
            Reading::CutOff
        } else {
            Reading::Message {
                message: stream.skip(4).take(size as int),
                rest: stream.skip(4).skip(size as int),
            }
        }
    }
}

/// Reads messages as long as there are any: these messages, and what the last attempt gives.
pub open spec fn read_frames(stream: Seq<u8>, max_message_size: usize) -> (Seq<Seq<u8>>, Reading)
    decreases stream.len(),
{
    match read_frame(stream, max_message_size) {
        Reading::Message { message, rest } => {
            let (more, end) = read_frames(rest, max_message_size);
            (seq![message] + more, end)
        },
        end => (seq![], end),
    }
}

/// Messages that were let through when they were sent are read back by a node with the same
/// limit, one after another and in order, until nothing is left; and each leaves the buffer that
/// it was read into empty. This holds of messages whose lengths fit into the prefix.
pub proof fn law_sent_messages_are_read_back(messages: Seq<Seq<u8>>, max_message_size: usize)
    requires
        forall|i: int|
            0 <= i < messages.len() ==> (#[trigger] messages[i]).len() <= max_message_size
                && messages[i].len() <= u32::MAX,
    ensures
        read_frames(frames(messages), max_message_size) == (messages, Reading::Ended),
        forall|i: int|
            0 <= i < messages.len() ==> (#[trigger] messages[i]).skip(messages[i].len() as int)
                == Seq::<u8>::empty(),
    decreases messages.len(),
{
    if messages.len() == 0 {
        assert(messages =~= seq![]);
    } else {
        let first = messages[0];
        let rest = messages.skip(1);
        assert forall|i: int| 0 <= i < rest.len() implies (#[trigger] rest[i]).len()
            <= max_message_size && rest[i].len() <= u32::MAX by {
            assert(rest[i] == messages[i + 1]);
        }
        law_sent_messages_are_read_back(rest, max_message_size);
        law_sent_message_is_read_back(first, frames(rest));
        assert(seq![first] + rest =~= messages);
    }
}

proof fn lemma_worth(len: nat)
    ensures
        (len / 0x100_0000 % 256) * 0x100_0000 + (len / 0x1_0000 % 256) * 0x1_0000 + (len / 0x100
            % 256) * 0x100 + len % 256 == len % 0x1_0000_0000,
{
    let c = len / 0x100;
    let b = c / 0x100;
    let a = b / 0x100;
    let q = a / 0x100;
    assert(len == q * 0x1_0000_0000 + (a % 256) * 0x100_0000 + (b % 256) * 0x1_0000 + (c % 256)
        * 0x100 + len % 256);
    assert(b == len / 0x1_0000);
    assert(a == len / 0x100_0000);
    assert(q == len / 0x1_0000_0000);
}

/// The four bytes before a message stand for its length, the most significant first; of a length
/// that does not fit, for what is left of it modulo 2^32. And they are the four bytes that go
/// before the message, which follows unchanged.
pub proof fn law_prefix_by_worth(message: Seq<u8>, len: nat)
    ensures
        prefix_of(len).len() == 4,
        prefix_of(len)[0] * 0x100_0000 + prefix_of(len)[1] * 0x1_0000 + prefix_of(len)[2] * 0x100
            + prefix_of(len)[3] == len % 0x1_0000_0000,
        framed(message).len() == message.len() + 4,
        framed(message).take(4) == prefix_of(message.len()),
        framed(message).skip(4) == message,
{
    lemma_worth(len);
    assert(framed(message).take(4) =~= prefix_of(message.len()));
    assert(framed(message).skip(4) =~= message);
}

/// Four bytes that announce a message stand for its length, the most significant first.
pub proof fn law_announcement_by_worth(prefix: Seq<u8>)
    requires
        prefix.len() == 4,
    ensures
        be_value(prefix) == prefix[0] * 0x100_0000 + prefix[1] * 0x1_0000 + prefix[2] * 0x100
            + prefix[3],
{
    lemma_be_value_4(prefix);
}

} // verus!
