use crate::buffer::buffer_as_slice;
use crate::buffer::buffer_split_to;
use crate::buffer::spec_buffered;
use crate::error::ConvertBytesToBgpMessageError;
use crate::packets::header::lemma_header_layout;
use crate::packets::message::lemma_message_starts_with_header;
use crate::packets::message::Message;
use crate::packets::message::MessageView;
use crate::wire::lemma_u16_be_round_trip;
use crate::wire::spec_u16_from_be;
use crate::wire::u16_from_be;
use bytes::BytesMut;
use vstd::prelude::*;

verus! {

/// Where the first message of `received` ends, as its header says: the
/// length that the seventeenth and eighteenth octet hold. Nothing where
/// fewer than nineteen octets have come in.
pub open spec fn spec_message_separator(received: Seq<u8>) -> Option<int> {
    if received.len() < 19 {
        None
    } else {
        Some(spec_u16_from_be(received[16], received[17]) as int)
    }
}

/// The octets of the first message of `received` and what follows them.
/// Nothing where fewer than nineteen octets have come in, or fewer than the
/// header of the message says that the message has.
pub open spec fn spec_frame(received: Seq<u8>) -> Option<(Seq<u8>, Seq<u8>)> {
    match spec_message_separator(received) {
        None => None,
        Some(index) => if received.len() < index {
            None
        } else {
            Some((received.take(index), received.skip(index)))
        },
    }
}

/// Where the first message in the buffer ends, as its header says.
pub fn get_index_of_message_separator(buffer: &BytesMut) -> (r: Option<usize>)
    ensures
        match r {
            Some(index) => spec_message_separator(spec_buffered(*buffer)) == Some(index as int),
            None => spec_message_separator(spec_buffered(*buffer)).is_none(),
        },
{
    let received = buffer_as_slice(buffer);
    if received.len() < 19 {
        return None;
    }
    Some(u16_from_be(received[16], received[17]) as usize)
}

/// Takes the octets of the first message out of the buffer, where the
/// buffer holds all of them. Where it does not, the buffer stays as it is.
pub fn split_buffer_at_message_separator(buffer: &mut BytesMut) -> (r: Option<BytesMut>)
    ensures
        match r {
            Some(front) => spec_frame(spec_buffered(*old(buffer))) == Some(
                (spec_buffered(front), spec_buffered(*final(buffer))),
            ),
            None => spec_frame(spec_buffered(*old(buffer))).is_none() && spec_buffered(
                *final(buffer),
            ) == spec_buffered(*old(buffer)),
        },
{
    let index = match get_index_of_message_separator(buffer) {
        Some(index) => index,
        None => {
            return None;
        },
    };
    if buffer_as_slice(buffer).len() < index {
        return None;
    }
    Some(buffer_split_to(buffer, index))
}

/// What the octets of one message decode to, where they decode.
fn decoded(frame: &BytesMut) -> (r: Option<Message>)
    ensures
        match r {
            Some(message) => MessageView::spec_decode(spec_buffered(*frame)) == Ok::<
                MessageView,
                ConvertBytesToBgpMessageError,
            >(message@),
            None => MessageView::spec_decode(spec_buffered(*frame)).is_err(),
        },
{
    match Message::from_bytes(frame) {
        Ok(message) => Some(message),
        Err(_) => None,
    }
}

/// The first message in the buffer, where the buffer holds all of it and
/// it decodes. The octets of the message leave the buffer whether they
/// decode or not. Where the buffer does not hold a whole message, it stays as
/// it is.
pub fn get_message(buffer: &mut BytesMut) -> (r: Option<Message>)
    ensures
        match spec_frame(spec_buffered(*old(buffer))) {
            None => r.is_none() && spec_buffered(*final(buffer)) == spec_buffered(*old(buffer)),
            Some((front, rest)) => {
                &&& spec_buffered(*final(buffer)) == rest
                &&& match r {
                    Some(message) => MessageView::spec_decode(front) == Ok::<
                        MessageView,
                        ConvertBytesToBgpMessageError,
                    >(message@),
                    None => MessageView::spec_decode(front).is_err(),
                }
            },
        },
{
    match split_buffer_at_message_separator(buffer) {
        Some(frame) => decoded(&frame),
        None => None,
    }
}

/// A message whose header holds the length of its wire form is taken whole
/// out of any bytes that start with its wire form, and what follows stays.
pub proof fn lemma_frame_of_message(message: MessageView, following: Seq<u8>)
    requires
        message.spec_header().length == message.spec_encode().len(),
    ensures
        spec_frame(message.spec_encode() + following) == Some(
            (message.spec_encode(), following),
        ),
{
    let own = message.spec_encode();
    let received = own + following;
    lemma_message_starts_with_header(message);
    lemma_header_layout(message.spec_header());
    lemma_u16_be_round_trip(message.spec_header().length);
    assert(received[16] == own.take(19)[16]);
    assert(received[17] == own.take(19)[17]);
    assert(received.take(own.len() as int) =~= own);
    assert(received.skip(own.len() as int) =~= following);
}

} // verus!
