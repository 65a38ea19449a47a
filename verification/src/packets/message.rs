use crate::bgp_type::AutonomousSystemNumber;
use crate::buffer::buffer_as_slice;
use crate::buffer::buffer_from_slice;
use crate::buffer::spec_buffered;
use crate::error::ConvertBytesToBgpMessageError;
use crate::ipv4::Ipv4Addr;
use crate::packets::header::lemma_header_round_trip;
use crate::packets::header::Header;
use crate::packets::header::MessageType;
use crate::packets::keepalive::lemma_keepalive_round_trip;
use crate::packets::keepalive::KeepaliveMessage;
use crate::packets::open::lemma_open_round_trip;
use crate::packets::open::OpenMessage;
use crate::packets::open::OpenMessageView;
use crate::packets::update::lemma_update_round_trip;
use crate::packets::update::UpdateMessage;
use crate::packets::update::UpdateMessageView;
use bytes::BytesMut;
use vstd::prelude::*;

verus! {

/// A message that one speaker sends to the other.
#[derive(PartialEq, Eq, Debug, Hash)]
pub enum Message {
    Open(OpenMessage),
    Keepalive(KeepaliveMessage),
    Update(UpdateMessage),
}

/// What a `Message` holds.
pub enum MessageView {
    Open(OpenMessageView),
    Keepalive(KeepaliveMessage),
    Update(UpdateMessageView),
}

impl View for Message {
    type V = MessageView;

    open spec fn view(&self) -> MessageView {
        match self {
            Message::Open(open) => MessageView::Open(open@),
            Message::Keepalive(keepalive) => MessageView::Keepalive(*keepalive),
            Message::Update(update) => MessageView::Update(update@),
        }
    }
}

impl MessageView {
    /// The header of the message.
    pub open spec fn spec_header(self) -> Header {
        match self {
            MessageView::Open(open) => open.header,
            MessageView::Keepalive(keepalive) => keepalive.header,
            MessageView::Update(update) => update.header,
        }
    }

    /// The wire form: that of the message inside.
    pub open spec fn spec_encode(self) -> Seq<u8> {
        match self {
            MessageView::Open(open) => open.spec_encode(),
            MessageView::Keepalive(keepalive) => keepalive.spec_encode(),
            MessageView::Update(update) => update.spec_encode(),
        }
    }

    /// What `bytes` decode to: the message of the kind that the header
    /// names.
    pub open spec fn spec_decode(bytes: Seq<u8>) -> Result<
        MessageView,
        ConvertBytesToBgpMessageError,
    > {
        match Header::spec_decode(bytes) {
            Err(e) => Err(e),
            Ok(header) => match header.type_ {
                MessageType::Open => match OpenMessageView::spec_decode(bytes) {
                    Ok(open) => Ok(MessageView::Open(open)),
                    Err(e) => Err(e),
                },
                MessageType::Keepalive => match KeepaliveMessage::spec_decode(bytes) {
                    Ok(keepalive) => Ok(MessageView::Keepalive(keepalive)),
                    Err(e) => Err(e),
                },
                MessageType::Update => match UpdateMessageView::spec_decode(bytes) {
                    Ok(update) => Ok(MessageView::Update(update)),
                    Err(e) => Err(e),
                },
            },
        }
    }

    /// Whether the message is read back from its wire form as it is: its
    /// header names its kind, an Open message has one of the versions that
    /// BGP defines, and an Update message is read back as it is.
    pub open spec fn spec_round_trips(self) -> bool {
        match self {
            MessageView::Open(open) => open.header.type_ == MessageType::Open
                && open.version.wf(),
            MessageView::Keepalive(keepalive) => keepalive.header.type_
                == MessageType::Keepalive,
            MessageView::Update(update) => update.header.type_ == MessageType::Update
                && update.spec_round_trips(),
        }
    }
}

impl Message {
    /// The Open message of a speaker with the given AS number and address.
    pub fn new_open(my_as_number: AutonomousSystemNumber, my_ip_addr: Ipv4Addr) -> (r: Self)
        ensures
            r@ matches MessageView::Open(open) && open.spec_is_new(my_as_number, my_ip_addr),
    {
        Message::Open(OpenMessage::new(my_as_number, my_ip_addr))
    }

    /// The Keepalive message.
    pub fn new_keepalive() -> (r: Self)
        ensures
            r@ == MessageView::Keepalive(KeepaliveMessage::spec_new()),
    {
        Message::Keepalive(KeepaliveMessage::new())
    }

    /// Appends the wire form to `out`.
    pub fn encode_into(&self, out: &mut Vec<u8>)
        ensures
            final(out)@ == old(out)@ + self@.spec_encode(),
    {
        match self {
            Message::Open(open) => open.encode_into(out),
            Message::Keepalive(keepalive) => keepalive.encode_into(out),
            Message::Update(update) => update.encode_into(out),
        }
    }

    /// The message that `bytes` hold.
    pub fn decode(bytes: &[u8]) -> (r: Result<Message, ConvertBytesToBgpMessageError>)
        ensures
            match r {
                Ok(message) => MessageView::spec_decode(bytes@) == Ok::<
                    MessageView,
                    ConvertBytesToBgpMessageError,
                >(message@),
                Err(e) => MessageView::spec_decode(bytes@) == Err::<
                    MessageView,
                    ConvertBytesToBgpMessageError,
                >(e),
            },
    {
        let header = match Header::decode(bytes) {
            Ok(header) => header,
            Err(e) => {
                return Err(e);
            },
        };
        match header.type_ {
            MessageType::Open => match OpenMessage::decode(bytes) {
                Ok(open) => Ok(Message::Open(open)),
                Err(e) => Err(e),
            },
            MessageType::Keepalive => match KeepaliveMessage::decode(bytes) {
                Ok(keepalive) => Ok(Message::Keepalive(keepalive)),
                Err(e) => Err(e),
            },
            MessageType::Update => match UpdateMessage::decode(bytes) {
                Ok(update) => Ok(Message::Update(update)),
                Err(e) => Err(e),
            },
        }
    }

    /// The wire form, in a buffer.
    pub fn to_bytes(&self) -> (buffer: BytesMut)
        ensures
            spec_buffered(buffer) == self@.spec_encode(),
    {
        let mut out: Vec<u8> = Vec::new();
        self.encode_into(&mut out);
        assert(out@ =~= self@.spec_encode());
        buffer_from_slice(out.as_slice())
    }

    /// The message that the buffer holds.
    pub fn from_bytes(buffer: &BytesMut) -> (r: Result<Message, ConvertBytesToBgpMessageError>)
        ensures
            match r {
                Ok(message) => MessageView::spec_decode(spec_buffered(*buffer)) == Ok::<
                    MessageView,
                    ConvertBytesToBgpMessageError,
                >(message@),
                Err(e) => MessageView::spec_decode(spec_buffered(*buffer)) == Err::<
                    MessageView,
                    ConvertBytesToBgpMessageError,
                >(e),
            },
    {
        Message::decode(buffer_as_slice(buffer))
    }
}

impl Clone for Message {
    fn clone(&self) -> (r: Self)
        ensures
            r@ == self@,
    {
        match self {
            Message::Open(open) => Message::Open(open.clone()),
            Message::Keepalive(keepalive) => Message::Keepalive(*keepalive),
            Message::Update(update) => Message::Update(update.clone()),
        }
    }
}

/// The wire form of every message starts with the wire form of its header.
pub proof fn lemma_message_starts_with_header(message: MessageView)
    ensures
        message.spec_encode().len() >= 19,
        message.spec_encode().take(19) == message.spec_header().spec_encode(),
{
    crate::packets::header::lemma_header_layout(message.spec_header());
    assert(message.spec_encode().take(19) =~= message.spec_header().spec_encode());
}

/// A message whose header names its kind and whose parts are read back as
/// they are is itself read back from its wire form as it is.
pub proof fn lemma_message_round_trip(message: MessageView)
    requires
        message.spec_round_trips(),
    ensures
        MessageView::spec_decode(message.spec_encode()) == Ok::<
            MessageView,
            ConvertBytesToBgpMessageError,
        >(message),
{
    let bytes = message.spec_encode();
    let head = message.spec_header().spec_encode();
    lemma_message_starts_with_header(message);
    let tail = bytes.skip(19);
    assert(bytes =~= head + tail);
    lemma_header_round_trip(message.spec_header(), tail);
    match message {
        MessageView::Open(open) => {
            lemma_open_round_trip(open);
        },
        MessageView::Keepalive(keepalive) => {
            lemma_keepalive_round_trip(keepalive);
        },
        MessageView::Update(update) => {
            lemma_update_round_trip(update);
        },
    }
}

/// The Open and the Keepalive message that a speaker makes are read back
/// from their wire forms as they are.
pub proof fn lemma_new_messages_round_trip(
    open: OpenMessageView,
    my_as_number: AutonomousSystemNumber,
    my_ip_addr: Ipv4Addr,
)
    requires
        open.spec_is_new(my_as_number, my_ip_addr),
    ensures
        MessageView::spec_decode(MessageView::Open(open).spec_encode()) == Ok::<
            MessageView,
            ConvertBytesToBgpMessageError,
        >(MessageView::Open(open)),
        MessageView::spec_decode(
            MessageView::Keepalive(KeepaliveMessage::spec_new()).spec_encode(),
        ) == Ok::<MessageView, ConvertBytesToBgpMessageError>(
            MessageView::Keepalive(KeepaliveMessage::spec_new()),
        ),
{
    lemma_message_round_trip(MessageView::Open(open));
    lemma_message_round_trip(MessageView::Keepalive(KeepaliveMessage::spec_new()));
}

} // verus!
