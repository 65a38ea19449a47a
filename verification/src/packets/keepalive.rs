use crate::buffer::buffer_as_slice;
use crate::buffer::buffer_from_slice;
use crate::buffer::spec_buffered;
use crate::error::ConvertBytesToBgpMessageError;
use crate::packets::header::Header;
use crate::packets::header::MessageType;
use bytes::BytesMut;
use vstd::prelude::*;

verus! {

/// A Keepalive message: a header and nothing else.
#[derive(PartialEq, Eq, Debug, Clone, Copy, Hash, Structural)]
pub struct KeepaliveMessage {
    pub header: Header,
}

impl KeepaliveMessage {
    /// The Keepalive message that a speaker sends.
    pub open spec fn spec_new() -> KeepaliveMessage {
        KeepaliveMessage { header: Header { length: 19, type_: MessageType::Keepalive } }
    }

    /// The wire form: that of the header.
    pub open spec fn spec_encode(self) -> Seq<u8> {
        self.header.spec_encode()
    }

    /// What `bytes` decode to as a Keepalive message: the header must decode
    /// and name a Keepalive.
    pub open spec fn spec_decode(bytes: Seq<u8>) -> Result<
        KeepaliveMessage,
        ConvertBytesToBgpMessageError,
    > {
        match Header::spec_decode(bytes) {
            Err(e) => Err(e),
            Ok(header) => if header.type_ != MessageType::Keepalive {
                Err(ConvertBytesToBgpMessageError::UnexpectedMessageType)
            } else {
                Ok(KeepaliveMessage { header })
            },
        }
    }

    pub fn new() -> (r: Self)
        ensures
            r == KeepaliveMessage::spec_new(),
    {
        KeepaliveMessage { header: Header::new(19, MessageType::Keepalive) }
    }

    /// Appends the wire form to `out`.
    pub fn encode_into(&self, out: &mut Vec<u8>)
        ensures
            final(out)@ == old(out)@ + self.spec_encode(),
    {
        self.header.encode_into(out);
    }

    /// The Keepalive message that `bytes` hold.
    pub fn decode(bytes: &[u8]) -> (r: Result<KeepaliveMessage, ConvertBytesToBgpMessageError>)
        ensures
            r == KeepaliveMessage::spec_decode(bytes@),
    {
        match Header::decode(bytes) {
            Err(e) => Err(e),
            Ok(header) => match header.type_ {
                MessageType::Keepalive => Ok(KeepaliveMessage { header }),
                _ => Err(ConvertBytesToBgpMessageError::UnexpectedMessageType),
            },
        }
    }

    /// The wire form, in a buffer.
    pub fn to_bytes(&self) -> (buffer: BytesMut)
        ensures
            spec_buffered(buffer) == self.spec_encode(),
    {
        let mut out: Vec<u8> = Vec::new();
        self.encode_into(&mut out);
        assert(out@ =~= self.spec_encode());
        buffer_from_slice(out.as_slice())
    }

    /// The Keepalive message that the buffer holds.
    pub fn from_bytes(buffer: &BytesMut) -> (r: Result<
        KeepaliveMessage,
        ConvertBytesToBgpMessageError,
    >)
        ensures
            r == KeepaliveMessage::spec_decode(spec_buffered(*buffer)),
    {
        KeepaliveMessage::decode(buffer_as_slice(buffer))
    }
}

impl Default for KeepaliveMessage {
    fn default() -> (r: Self)
        ensures
            r == KeepaliveMessage::spec_new(),
    {
        KeepaliveMessage::new()
    }
}

/// A Keepalive message whose header names a Keepalive is read back from its
/// wire form as it was.
pub proof fn lemma_keepalive_round_trip(message: KeepaliveMessage)
    requires
        message.header.type_ == MessageType::Keepalive,
    ensures
        KeepaliveMessage::spec_decode(message.spec_encode()) == Ok::<
            KeepaliveMessage,
            ConvertBytesToBgpMessageError,
        >(message),
{
    crate::packets::header::lemma_header_round_trip(message.header, Seq::empty());
    assert(message.header.spec_encode() + Seq::<u8>::empty() =~= message.header.spec_encode());
}

} // verus!
