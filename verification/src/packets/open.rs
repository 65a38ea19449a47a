use crate::bgp_type::lemma_version_by_number;
use crate::bgp_type::lemma_version_try_from;
use crate::bgp_type::AutonomousSystemNumber;
use crate::bgp_type::HoldTime;
use crate::bgp_type::Version;
use crate::buffer::buffer_as_slice;
use crate::buffer::buffer_from_slice;
use crate::buffer::spec_buffered;
use crate::error::ConvertBytesToBgpMessageError;
use crate::ipv4::Ipv4Addr;
use crate::packets::header::lemma_header_layout;
use crate::packets::header::lemma_header_round_trip;
use crate::packets::header::Header;
use crate::packets::header::MessageType;
use crate::wire::lemma_u16_be_round_trip;
use crate::wire::push_all;
use crate::wire::push_u16_be;
use crate::wire::spec_u16_be;
use crate::wire::spec_u16_from_be;
use crate::wire::u16_from_be;
use bytes::BytesMut;
use vstd::prelude::*;
use vstd::slice::slice_subrange;

verus! {

/// The number of octets of an Open message without optional parameters.
pub const OPEN_LENGTH: usize = 29;

/// An Open message: what a speaker says of itself when a session starts.
#[derive(PartialEq, Eq, Debug, Hash)]
pub struct OpenMessage {
    header: Header,
    version: Version,
    my_as_number: AutonomousSystemNumber,
    hold_time: HoldTime,
    bgp_identifier: Ipv4Addr,
    optional_parameter_length: u8,
    optional_parameters: Vec<u8>,
}

/// What an `OpenMessage` holds.
pub struct OpenMessageView {
    pub header: Header,
    pub version: Version,
    pub my_as_number: AutonomousSystemNumber,
    pub hold_time: HoldTime,
    pub bgp_identifier: Ipv4Addr,
    pub optional_parameter_length: u8,
    pub optional_parameters: Seq<u8>,
}

impl OpenMessageView {
    /// The wire form: the header, the version, the AS number and the hold
    /// time big-endian, the identifier, the length of the optional
    /// parameters as it is held, and the optional parameters.
    pub open spec fn spec_encode(self) -> Seq<u8> {
        self.header.spec_encode() + seq![self.version.spec_number()] + spec_u16_be(
            self.my_as_number.0,
        ) + spec_u16_be(self.hold_time.0) + self.bgp_identifier.spec_octets()
            + seq![self.optional_parameter_length] + self.optional_parameters
    }

    /// What `bytes` decode to as an Open message. All that follows the
    /// twenty-ninth octet is taken for optional parameters.
    pub open spec fn spec_decode(bytes: Seq<u8>) -> Result<
        OpenMessageView,
        ConvertBytesToBgpMessageError,
    > {
        match Header::spec_decode(bytes) {
            Err(e) => Err(e),
            Ok(header) => if bytes.len() < OPEN_LENGTH {
                Err(ConvertBytesToBgpMessageError::Truncated)
            } else {
                match Version::spec_try_from(bytes[19]) {
                    Err(e) => Err(e),
                    Ok(version) => Ok(
                        OpenMessageView {
                            header,
                            version,
                            my_as_number: AutonomousSystemNumber(
                                spec_u16_from_be(bytes[20], bytes[21]),
                            ),
                            hold_time: HoldTime(spec_u16_from_be(bytes[22], bytes[23])),
                            bgp_identifier: Ipv4Addr(bytes[24], bytes[25], bytes[26], bytes[27]),
                            optional_parameter_length: bytes[28],
                            optional_parameters: bytes.skip(OPEN_LENGTH as int),
                        },
                    ),
                }
            },
        }
    }

    /// Whether the message is one that `OpenMessage::new` makes for the
    /// given AS number and identifier: version 4, hold time 240, no optional
    /// parameters, and a header that says so.
    pub open spec fn spec_is_new(
        self,
        my_as_number: AutonomousSystemNumber,
        my_ip_addr: Ipv4Addr,
    ) -> bool {
        &&& self.header == Header { length: 29, type_: MessageType::Open }
        &&& self.version.spec_number() == 4
        &&& self.my_as_number == my_as_number
        &&& self.hold_time == HoldTime(240)
        &&& self.bgp_identifier == my_ip_addr
        &&& self.optional_parameter_length == 0
        &&& self.optional_parameters == Seq::<u8>::empty()
    }
}

impl View for OpenMessage {
    type V = OpenMessageView;

    closed spec fn view(&self) -> OpenMessageView {
        OpenMessageView {
            header: self.header,
            version: self.version,
            my_as_number: self.my_as_number,
            hold_time: self.hold_time,
            bgp_identifier: self.bgp_identifier,
            optional_parameter_length: self.optional_parameter_length,
            optional_parameters: self.optional_parameters@,
        }
    }
}

impl OpenMessage {
    /// The Open message of a speaker with the given AS number, whose
    /// identifier is its address.
    pub fn new(my_as_number: AutonomousSystemNumber, my_ip_addr: Ipv4Addr) -> (r: Self)
        ensures
            r@.spec_is_new(my_as_number, my_ip_addr),
    {
        OpenMessage {
            header: Header::new(29, MessageType::Open),
            version: Version::new(),
            my_as_number,
            hold_time: HoldTime::new(),
            bgp_identifier: my_ip_addr,
            optional_parameter_length: 0,
            optional_parameters: Vec::new(),
        }
    }

    /// The AS number of the speaker that sent the message.
    pub fn my_as_number(&self) -> (r: AutonomousSystemNumber)
        ensures
            r == self@.my_as_number,
    {
        self.my_as_number
    }

    /// The identifier of the speaker that sent the message.
    pub fn bgp_identifier(&self) -> (r: Ipv4Addr)
        ensures
            r == self@.bgp_identifier,
    {
        self.bgp_identifier
    }

    /// The hold time that the message proposes.
    pub fn hold_time(&self) -> (r: HoldTime)
        ensures
            r == self@.hold_time,
    {
        self.hold_time
    }

    /// Appends the wire form to `out`.
    pub fn encode_into(&self, out: &mut Vec<u8>)
        ensures
            final(out)@ == old(out)@ + self@.spec_encode(),
    {
        self.header.encode_into(out);
        out.push(self.version.number());
        push_u16_be(out, self.my_as_number.0);
        push_u16_be(out, self.hold_time.0);
        out.push(self.bgp_identifier.0);
        out.push(self.bgp_identifier.1);
        out.push(self.bgp_identifier.2);
        out.push(self.bgp_identifier.3);
        out.push(self.optional_parameter_length);
        push_all(out, self.optional_parameters.as_slice());
        assert(out@ =~= old(out)@ + self@.spec_encode());
    }

    /// The Open message that `bytes` hold.
    pub fn decode(bytes: &[u8]) -> (r: Result<OpenMessage, ConvertBytesToBgpMessageError>)
        ensures
            match r {
                Ok(message) => OpenMessageView::spec_decode(bytes@) == Ok::<
                    OpenMessageView,
                    ConvertBytesToBgpMessageError,
                >(message@),
                Err(e) => OpenMessageView::spec_decode(bytes@) == Err::<
                    OpenMessageView,
                    ConvertBytesToBgpMessageError,
                >(e),
            },
    {
        let header = match Header::decode(bytes) {
            Ok(header) => header,
            Err(e) => {
                return Err(e);
            },
        };
        if bytes.len() < OPEN_LENGTH {
            return Err(ConvertBytesToBgpMessageError::Truncated);
        }
        let version = match Version::try_from(bytes[19]) {
            Ok(version) => version,
            Err(e) => {
                return Err(e);
            },
        };
        let mut optional_parameters: Vec<u8> = Vec::new();
        push_all(&mut optional_parameters, slice_subrange(bytes, OPEN_LENGTH, bytes.len()));
        assert(optional_parameters@ =~= bytes@.skip(OPEN_LENGTH as int));
        Ok(
            OpenMessage {
                header,
                version,
                my_as_number: AutonomousSystemNumber(u16_from_be(bytes[20], bytes[21])),
                hold_time: HoldTime(u16_from_be(bytes[22], bytes[23])),
                bgp_identifier: Ipv4Addr(bytes[24], bytes[25], bytes[26], bytes[27]),
                optional_parameter_length: bytes[28],
                optional_parameters,
            },
        )
    }

    /// The wire form, in a buffer.
    pub fn to_bytes(&self) -> (buffer: BytesMut)
        ensures
            spec_buffered(buffer) == self@.spec_encode(),
    {
        let mut out: Vec<u8> = Vec::new();
        self.encode_into(&mut out);
        assert(out@ =~= self@.spec_encode());
        buffer_from_slice(out.as_slice())
    }

    /// The Open message that the buffer holds.
    pub fn from_bytes(buffer: &BytesMut) -> (r: Result<OpenMessage, ConvertBytesToBgpMessageError>)
        ensures
            match r {
                Ok(message) => OpenMessageView::spec_decode(spec_buffered(*buffer)) == Ok::<
                    OpenMessageView,
                    ConvertBytesToBgpMessageError,
                >(message@),
                Err(e) => OpenMessageView::spec_decode(spec_buffered(*buffer)) == Err::<
                    OpenMessageView,
                    ConvertBytesToBgpMessageError,
                >(e),
            },
    {
        OpenMessage::decode(buffer_as_slice(buffer))
    }
}

impl Clone for OpenMessage {
    fn clone(&self) -> (r: Self)
        ensures
            r@ == self@,
    {
        let mut optional_parameters: Vec<u8> = Vec::new();
        push_all(&mut optional_parameters, self.optional_parameters.as_slice());
        assert(optional_parameters@ =~= self.optional_parameters@);
        OpenMessage {
            header: self.header,
            version: self.version,
            my_as_number: self.my_as_number,
            hold_time: self.hold_time,
            bgp_identifier: self.bgp_identifier,
            optional_parameter_length: self.optional_parameter_length,
            optional_parameters,
        }
    }
}

/// An Open message with one of the versions that BGP defines is read back
/// from its wire form as it was; the wire form is as long as the fixed part
/// and the optional parameters together.
pub proof fn lemma_open_round_trip(message: OpenMessageView)
    requires
        message.version.wf(),
    ensures
        OpenMessageView::spec_decode(message.spec_encode()) == Ok::<
            OpenMessageView,
            ConvertBytesToBgpMessageError,
        >(message),
        message.spec_encode().len() == OPEN_LENGTH + message.optional_parameters.len(),
{
    let head = message.header.spec_encode();
    let bytes = message.spec_encode();
    let tail = seq![message.version.spec_number()] + spec_u16_be(message.my_as_number.0)
        + spec_u16_be(message.hold_time.0) + message.bgp_identifier.spec_octets()
        + seq![message.optional_parameter_length] + message.optional_parameters;
    assert(bytes =~= head + tail);
    lemma_header_layout(message.header);
    lemma_header_round_trip(message.header, tail);
    lemma_u16_be_round_trip(message.my_as_number.0);
    lemma_u16_be_round_trip(message.hold_time.0);
    lemma_version_try_from(message.version.spec_number());
    assert(bytes[19] == message.version.spec_number());
    match Version::spec_try_from(bytes[19]) {
        Ok(version) => {
            lemma_version_by_number(version, message.version);
        },
        Err(_) => {},
    }
    assert(bytes[20] == spec_u16_be(message.my_as_number.0)[0]);
    assert(bytes[21] == spec_u16_be(message.my_as_number.0)[1]);
    assert(bytes[22] == spec_u16_be(message.hold_time.0)[0]);
    assert(bytes[23] == spec_u16_be(message.hold_time.0)[1]);
    assert(bytes[24] == message.bgp_identifier.0);
    assert(bytes[25] == message.bgp_identifier.1);
    assert(bytes[26] == message.bgp_identifier.2);
    assert(bytes[27] == message.bgp_identifier.3);
    assert(bytes[28] == message.optional_parameter_length);
    assert(bytes.skip(OPEN_LENGTH as int) =~= message.optional_parameters);
}

/// The Open message that a speaker makes for itself is 29 octets long on the
/// wire and is read back as it was.
pub proof fn lemma_new_open_round_trip(
    message: OpenMessageView,
    my_as_number: AutonomousSystemNumber,
    my_ip_addr: Ipv4Addr,
)
    requires
        message.spec_is_new(my_as_number, my_ip_addr),
    ensures
        OpenMessageView::spec_decode(message.spec_encode()) == Ok::<
            OpenMessageView,
            ConvertBytesToBgpMessageError,
        >(message),
        message.spec_encode().len() == 29,
{
    lemma_open_round_trip(message);
}

} // verus!
