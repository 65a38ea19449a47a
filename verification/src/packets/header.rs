use crate::buffer::buffer_as_slice;
use crate::buffer::buffer_from_slice;
use crate::buffer::spec_buffered;
use crate::error::ConvertBytesToBgpMessageError;
use crate::wire::push_u16_be;
use crate::wire::spec_u16_be;
use crate::wire::spec_u16_from_be;
use crate::wire::u16_from_be;
use bytes::BytesMut;
use vstd::prelude::*;
use vstd::std_specs::convert::FromSpecImpl;
use vstd::std_specs::convert::TryFromSpecImpl;

verus! {

/// The number of octets of the header that every message starts with.
pub const HEADER_LENGTH: usize = 19;

/// The kind of a message, as the header names it.
#[derive(PartialEq, Eq, Debug, Clone, Copy, Hash, Structural)]
pub enum MessageType {
    Open,
    Keepalive,
    Update,
}

impl MessageType {
    /// The octet that stands for the kind on the wire.
    pub open spec fn spec_code(self) -> u8 {
        match self {
            MessageType::Open => 1,
            MessageType::Update => 2,
            MessageType::Keepalive => 4,
        }
    }

    /// The kind that the octet stands for; only 1, 2 and 4 stand for one.
    pub open spec fn spec_from_code(code: u8) -> Result<
        MessageType,
        ConvertBytesToBgpMessageError,
    > {
        if code == 1 {
            Ok(MessageType::Open)
        } else if code == 2 {
            Ok(MessageType::Update)
        } else if code == 4 {
            Ok(MessageType::Keepalive)
        } else {
            Err(ConvertBytesToBgpMessageError::MalformedHeader(code))
        }
    }

    /// The octet that stands for the kind on the wire.
    pub fn code(&self) -> (r: u8)
        ensures
            r == self.spec_code(),
    {
        match self {
            MessageType::Open => 1,
            MessageType::Update => 2,
            MessageType::Keepalive => 4,
        }
    }

    /// The kind that the octet stands for.
    pub fn from_code(code: u8) -> (r: Result<MessageType, ConvertBytesToBgpMessageError>)
        ensures
            r == MessageType::spec_from_code(code),
    {
        if code == 1 {
            Ok(MessageType::Open)
        } else if code == 2 {
            Ok(MessageType::Update)
        } else if code == 4 {
            Ok(MessageType::Keepalive)
        } else {
            Err(ConvertBytesToBgpMessageError::MalformedHeader(code))
        }
    }
}

impl TryFrom<u8> for MessageType {
    type Error = ConvertBytesToBgpMessageError;

    fn try_from(code: u8) -> (r: Result<Self, Self::Error>) {
        MessageType::from_code(code)
    }
}

impl TryFromSpecImpl<u8> for MessageType {
    open spec fn obeys_try_from_spec() -> bool {
        true
    }

    open spec fn try_from_spec(code: u8) -> Result<Self, Self::Error> {
        MessageType::spec_from_code(code)
    }
}

impl From<MessageType> for u8 {
    fn from(type_: MessageType) -> (r: u8) {
        type_.code()
    }
}

impl FromSpecImpl<MessageType> for u8 {
    open spec fn obeys_from_spec() -> bool {
        true
    }

    open spec fn from_spec(type_: MessageType) -> u8 {
        type_.spec_code()
    }
}

/// The header of a message: the length of the whole message in octets, and
/// its kind.
#[derive(PartialEq, Eq, Debug, Clone, Copy, Hash, Structural)]
pub struct Header {
    pub length: u16,
    pub type_: MessageType,
}

/// The sixteen octets that every header starts with when it is sent.
pub open spec fn spec_marker() -> Seq<u8> {
    Seq::new(16, |i: int| 0xFFu8)
}

impl Header {
    /// The wire form: the marker, the length big-endian, and the kind.
    pub open spec fn spec_encode(self) -> Seq<u8> {
        spec_marker() + spec_u16_be(self.length) + seq![self.type_.spec_code()]
    }

    /// What the first nineteen of `bytes` decode to. The marker is not
    /// looked at.
    pub open spec fn spec_decode(bytes: Seq<u8>) -> Result<Header, ConvertBytesToBgpMessageError> {
        if bytes.len() < HEADER_LENGTH {
            Err(ConvertBytesToBgpMessageError::Truncated)
        } else {
            match MessageType::spec_from_code(bytes[18]) {
                Ok(type_) => Ok(Header { length: spec_u16_from_be(bytes[16], bytes[17]), type_ }),
                Err(e) => Err(e),
            }
        }
    }

    pub fn new(length: u16, type_: MessageType) -> (r: Self)
        ensures
            r == (Header { length, type_ }),
    {
        Header { length, type_ }
    }

    /// Appends the wire form to `out`.
    pub fn encode_into(&self, out: &mut Vec<u8>)
        ensures
            final(out)@ == old(out)@ + self.spec_encode(),
    {
        let mut i: usize = 0;
        while i < 16
            invariant
                i <= 16,
                out@.len() == old(out)@.len() + i,
                forall|j: int| 0 <= j < old(out)@.len() ==> out@[j] == old(out)@[j],
                forall|j: int| old(out)@.len() <= j < out@.len() ==> out@[j] == 0xFFu8,
            decreases 16 - i,
        {
            out.push(0xFF);
            i = i + 1;
        }
        assert(out@ =~= old(out)@ + spec_marker());
        push_u16_be(out, self.length);
        out.push(self.type_.code());
        assert(out@ =~= old(out)@ + self.spec_encode());
    }

    /// The header that `bytes` start with.
    pub fn decode(bytes: &[u8]) -> (r: Result<Header, ConvertBytesToBgpMessageError>)
        ensures
            r == Header::spec_decode(bytes@),
    {
        if bytes.len() < HEADER_LENGTH {
            return Err(ConvertBytesToBgpMessageError::Truncated);
        }
        match MessageType::from_code(bytes[18]) {
            Ok(type_) => Ok(Header { length: u16_from_be(bytes[16], bytes[17]), type_ }),
            Err(e) => Err(e),
        }
    }

    /// The wire form, in a buffer.
    pub fn to_bytes(&self) -> (buffer: BytesMut)
        ensures
            spec_buffered(buffer) == self.spec_encode(),
    {
        let mut out: Vec<u8> = Vec::new();
        self.encode_into(&mut out);
        assert(out@ =~= self.spec_encode());
        buffer_from_slice(out.as_slice())
    }

    /// The header that the buffer starts with.
    pub fn from_bytes(buffer: &BytesMut) -> (r: Result<Header, ConvertBytesToBgpMessageError>)
        ensures
            r == Header::spec_decode(spec_buffered(*buffer)),
    {
        Header::decode(buffer_as_slice(buffer))
    }
}

/// The wire form of a header is nineteen octets long, and holds the length
/// in the seventeenth and eighteenth and the kind in the nineteenth.
pub proof fn lemma_header_layout(header: Header)
    ensures
        header.spec_encode().len() == HEADER_LENGTH,
        forall|i: int| 0 <= i < 16 ==> header.spec_encode()[i] == 0xFFu8,
        header.spec_encode()[16] == spec_u16_be(header.length)[0],
        header.spec_encode()[17] == spec_u16_be(header.length)[1],
        header.spec_encode()[18] == header.type_.spec_code(),
{
}

/// A header is read back from the front of any bytes that start with its wire
/// form.
pub proof fn lemma_header_round_trip(header: Header, tail: Seq<u8>)
    ensures
        Header::spec_decode(header.spec_encode() + tail) == Ok::<
            Header,
            ConvertBytesToBgpMessageError,
        >(header),
{
    lemma_header_layout(header);
    let bytes = header.spec_encode() + tail;
    assert(bytes[16] == header.spec_encode()[16]);
    assert(bytes[17] == header.spec_encode()[17]);
    assert(bytes[18] == header.spec_encode()[18]);
    crate::wire::lemma_u16_be_round_trip(header.length);
}

} // verus!
