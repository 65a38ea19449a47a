use crate::buffer::buffer_as_slice;
use crate::buffer::buffer_from_slice;
use crate::buffer::spec_buffered;
use crate::error::ConvertBytesToBgpMessageError;
use crate::ipv4::encode_networks_into;
use crate::ipv4::lemma_networks_round_trip;
use crate::ipv4::networks_length;
use crate::ipv4::spec_decode_networks;
use crate::ipv4::spec_encode_networks;
use crate::ipv4::Ipv4Network;
use crate::packets::header::lemma_header_layout;
use crate::packets::header::lemma_header_round_trip;
use crate::packets::header::Header;
use crate::packets::header::MessageType;
use crate::packets::header::HEADER_LENGTH;
use crate::path_attribute::attributes_length;
use crate::path_attribute::copy_attributes;
use crate::path_attribute::encode_attributes_into;
use crate::path_attribute::lemma_attributes_round_trip;
use crate::path_attribute::spec_attribute_views;
use crate::path_attribute::spec_attributes_round_trip;
use crate::path_attribute::spec_decode_attributes;
use crate::path_attribute::spec_encode_attributes;
use crate::path_attribute::PathAttribute;
use crate::path_attribute::PathAttributeView;
use crate::wire::lemma_u16_be_round_trip;
use crate::wire::push_u16_be;
use crate::wire::spec_u16_be;
use crate::wire::spec_u16_from_be;
use crate::wire::u16_from_be;
use bytes::BytesMut;
use vstd::prelude::*;
use vstd::slice::slice_subrange;

verus! {

/// An Update message: routes that are withdrawn, and routes that are
/// announced with the attributes that they share.
#[derive(PartialEq, Eq, Debug, Hash)]
pub struct UpdateMessage {
    pub header: Header,
    pub withdrawn_routes: Vec<Ipv4Network>,
    /// The number of octets, not of routes, of the withdrawn routes on the wire.
    pub withdrawn_routes_length: u16,
    pub path_attributes: Vec<PathAttribute>,
    /// The number of octets of the path attributes on the wire.
    pub path_attributes_length: u16,
    pub network_layer_reachability_information: Vec<Ipv4Network>,
}

/// What an `UpdateMessage` holds.
pub struct UpdateMessageView {
    pub header: Header,
    pub withdrawn_routes: Seq<Ipv4Network>,
    pub withdrawn_routes_length: u16,
    pub path_attributes: Seq<PathAttributeView>,
    pub path_attributes_length: u16,
    pub network_layer_reachability_information: Seq<Ipv4Network>,
}

impl View for UpdateMessage {
    type V = UpdateMessageView;

    open spec fn view(&self) -> UpdateMessageView {
        UpdateMessageView {
            header: self.header,
            withdrawn_routes: self.withdrawn_routes@,
            withdrawn_routes_length: self.withdrawn_routes_length,
            path_attributes: spec_attribute_views(self.path_attributes@),
            path_attributes_length: self.path_attributes_length,
            network_layer_reachability_information: self.network_layer_reachability_information@,
        }
    }
}

impl UpdateMessageView {
    /// The Update message of the given attributes and routes. Each length
    /// is that of the wire form, and where that is 65536 or more, what is
    /// left of it after division by 65536: a length field has sixteen bits.
    pub open spec fn spec_new(
        path_attributes: Seq<PathAttributeView>,
        network_layer_reachability_information: Seq<Ipv4Network>,
        withdrawn_routes: Seq<Ipv4Network>,
    ) -> UpdateMessageView {
        let attributes = spec_encode_attributes(path_attributes).len();
        let announced = spec_encode_networks(network_layer_reachability_information).len();
        let withdrawn = spec_encode_networks(withdrawn_routes).len();
        UpdateMessageView {
            header: Header {
                length: ((HEADER_LENGTH + 4 + attributes + announced + withdrawn) % 65536) as u16,
                type_: MessageType::Update,
            },
            withdrawn_routes,
            withdrawn_routes_length: (withdrawn % 65536) as u16,
            path_attributes,
            path_attributes_length: (attributes % 65536) as u16,
            network_layer_reachability_information,
        }
    }

    /// The wire form: the header, the length of the withdrawn routes and the
    /// withdrawn routes, the length of the path attributes and the path
    /// attributes, and the announced routes.
    pub open spec fn spec_encode(self) -> Seq<u8> {
        self.header.spec_encode() + spec_u16_be(self.withdrawn_routes_length)
            + spec_encode_networks(self.withdrawn_routes) + spec_u16_be(
            self.path_attributes_length,
        ) + spec_encode_attributes(self.path_attributes) + spec_encode_networks(
            self.network_layer_reachability_information,
        )
    }

    /// What `bytes` decode to as an Update message. The two length fields
    /// say where the withdrawn routes and the path attributes end; all that
    /// follows is announced routes.
    pub open spec fn spec_decode(bytes: Seq<u8>) -> Result<
        UpdateMessageView,
        ConvertBytesToBgpMessageError,
    > {
        match Header::spec_decode(bytes) {
            Err(e) => Err(e),
            Ok(header) => if bytes.len() < 21 {
                Err(ConvertBytesToBgpMessageError::Truncated)
            } else {
                let withdrawn_routes_length = spec_u16_from_be(bytes[19], bytes[20]);
                let withdrawn_end = 21 + withdrawn_routes_length;
                if bytes.len() < withdrawn_end {
                    Err(ConvertBytesToBgpMessageError::Truncated)
                } else {
                    match spec_decode_networks(bytes.subrange(21, withdrawn_end)) {
                        Err(e) => Err(e),
                        Ok(withdrawn_routes) => if bytes.len() < withdrawn_end + 2 {
                            Err(ConvertBytesToBgpMessageError::Truncated)
                        } else {
                            let path_attributes_length = spec_u16_from_be(
                                bytes[withdrawn_end],
                                bytes[withdrawn_end + 1],
                            );
                            let attributes_start = withdrawn_end + 2;
                            let attributes_end = attributes_start + path_attributes_length;
                            if bytes.len() < attributes_end {
                                Err(ConvertBytesToBgpMessageError::Truncated)
                            } else {
                                match spec_decode_attributes(
                                    bytes.subrange(attributes_start, attributes_end),
                                ) {
                                    Err(e) => Err(e),
                                    Ok(path_attributes) => match spec_decode_networks(
                                        bytes.skip(attributes_end),
                                    ) {
                                        Err(e) => Err(e),
                                        Ok(announced) => Ok(
                                            UpdateMessageView {
                                                header,
                                                withdrawn_routes,
                                                withdrawn_routes_length,
                                                path_attributes,
                                                path_attributes_length,
                                                network_layer_reachability_information: announced,
                                            },
                                        ),
                                    },
                                }
                            }
                        },
                    }
                }
            },
        }
    }

    /// Whether the message is read back from its wire form as it is: the two
    /// length fields hold the lengths of what they measure, every route is
    /// without host bits and has a prefix length of 32 at most, and every
    /// attribute is interpreted, well formed and within its length field.
    pub open spec fn spec_round_trips(self) -> bool {
        &&& self.withdrawn_routes_length == spec_encode_networks(self.withdrawn_routes).len()
        &&& self.path_attributes_length == spec_encode_attributes(self.path_attributes).len()
        &&& spec_attributes_round_trip(self.path_attributes)
        &&& forall|i: int|
            0 <= i < self.withdrawn_routes.len() ==> (#[trigger] self.withdrawn_routes[i]).wf()
                && self.withdrawn_routes[i].is_canonical()
        &&& forall|i: int|
            0 <= i < self.network_layer_reachability_information.len() ==> (
            #[trigger] self.network_layer_reachability_information[i]).wf()
                && self.network_layer_reachability_information[i].is_canonical()
    }
}

fn copy_networks(networks: &Vec<Ipv4Network>) -> (r: Vec<Ipv4Network>)
    ensures
        r@ == networks@,
{
    let mut r: Vec<Ipv4Network> = Vec::new();
    let mut i: usize = 0;
    while i < networks.len()
        invariant
            i <= networks.len(),
            r@ == networks@.take(i as int),
        decreases networks.len() - i,
    {
        r.push(networks[i]);
        i = i + 1;
        assert(r@ =~= networks@.take(i as int));
    }
    assert(networks@.take(networks@.len() as int) =~= networks@);
    r
}

impl UpdateMessage {
    /// The Update message that announces `network_layer_reachability_information`
    /// with `path_attributes` and withdraws `withdrawn_routes`.
    pub fn new(
        path_attributes: Vec<PathAttribute>,
        network_layer_reachability_information: Vec<Ipv4Network>,
        withdrawn_routes: Vec<Ipv4Network>,
    ) -> (r: Self)
        ensures
            r@ == UpdateMessageView::spec_new(
                spec_attribute_views(path_attributes@),
                network_layer_reachability_information@,
                withdrawn_routes@,
            ),
    {
        let attributes: u32 = attributes_length(&path_attributes) as u32;
        let announced: u32 = networks_length(&network_layer_reachability_information) as u32;
        let withdrawn: u32 = networks_length(&withdrawn_routes) as u32;
        let length: u32 = (23 + attributes + announced + withdrawn) % 65536;
        UpdateMessage {
            header: Header::new(length as u16, MessageType::Update),
            withdrawn_routes,
            withdrawn_routes_length: withdrawn as u16,
            path_attributes,
            path_attributes_length: attributes as u16,
            network_layer_reachability_information,
        }
    }

    /// Appends the wire form to `out`.
    pub fn encode_into(&self, out: &mut Vec<u8>)
        ensures
            final(out)@ == old(out)@ + self@.spec_encode(),
    {
        self.header.encode_into(out);
        push_u16_be(out, self.withdrawn_routes_length);
        encode_networks_into(&self.withdrawn_routes, out);
        push_u16_be(out, self.path_attributes_length);
        encode_attributes_into(&self.path_attributes, out);
        encode_networks_into(&self.network_layer_reachability_information, out);
        assert(out@ =~= old(out)@ + self@.spec_encode());
    }

    /// The Update message that `bytes` hold.
    pub fn decode(bytes: &[u8]) -> (r: Result<UpdateMessage, ConvertBytesToBgpMessageError>)
        ensures
            match r {
                Ok(message) => UpdateMessageView::spec_decode(bytes@) == Ok::<
                    UpdateMessageView,
                    ConvertBytesToBgpMessageError,
                >(message@),
                Err(e) => UpdateMessageView::spec_decode(bytes@) == Err::<
                    UpdateMessageView,
                    ConvertBytesToBgpMessageError,
                >(e),
            },
    {
        let header = match Header::decode(bytes) {
            Ok(header) => header,
            Err(e) => {
                return Err(e);
            },
        };
        if bytes.len() < 21 {
            return Err(ConvertBytesToBgpMessageError::Truncated);
        }
        let withdrawn_routes_length = u16_from_be(bytes[19], bytes[20]);
        if bytes.len() - 21 < withdrawn_routes_length as usize {
            return Err(ConvertBytesToBgpMessageError::Truncated);
        }
        let withdrawn_end: usize = 21 + withdrawn_routes_length as usize;
        let withdrawn_routes = match Ipv4Network::from_u8_slice(
            slice_subrange(bytes, 21, withdrawn_end),
        ) {
            Ok(networks) => networks,
            Err(e) => {
                return Err(e);
            },
        };
        if bytes.len() - withdrawn_end < 2 {
            return Err(ConvertBytesToBgpMessageError::Truncated);
        }
        let path_attributes_length = u16_from_be(bytes[withdrawn_end], bytes[withdrawn_end + 1]);
        let attributes_start: usize = withdrawn_end + 2;
        if bytes.len() - attributes_start < path_attributes_length as usize {
            return Err(ConvertBytesToBgpMessageError::Truncated);
        }
        let attributes_end: usize = attributes_start + path_attributes_length as usize;
        let path_attributes = match PathAttribute::from_u8_slice(
            slice_subrange(bytes, attributes_start, attributes_end),
        ) {
            Ok(attributes) => attributes,
            Err(e) => {
                return Err(e);
            },
        };
        assert(bytes@.skip(attributes_end as int) =~= bytes@.subrange(
            attributes_end as int,
            bytes@.len() as int,
        ));
        let announced = match Ipv4Network::from_u8_slice(
            slice_subrange(bytes, attributes_end, bytes.len()),
        ) {
            Ok(networks) => networks,
            Err(e) => {
                return Err(e);
            },
        };
        Ok(
            UpdateMessage {
                header,
                withdrawn_routes,
                withdrawn_routes_length,
                path_attributes,
                path_attributes_length,
                network_layer_reachability_information: announced,
            },
        )
    }

    /// The wire form, in a buffer.
    pub fn to_bytes(&self) -> (buffer: BytesMut)
        ensures
            spec_buffered(buffer) == self@.spec_encode(),
    {
        let mut out: Vec<u8> = Vec::new();
        self.encode_into(&mut out);
        assert(out@ =~= self@.spec_encode());
        buffer_from_slice(out.as_slice())
    }

    /// The Update message that the buffer holds.
    pub fn from_bytes(buffer: &BytesMut) -> (r: Result<
        UpdateMessage,
        ConvertBytesToBgpMessageError,
    >)
        ensures
            match r {
                Ok(message) => UpdateMessageView::spec_decode(spec_buffered(*buffer)) == Ok::<
                    UpdateMessageView,
                    ConvertBytesToBgpMessageError,
                >(message@),
                Err(e) => UpdateMessageView::spec_decode(spec_buffered(*buffer)) == Err::<
                    UpdateMessageView,
                    ConvertBytesToBgpMessageError,
                >(e),
            },
    {
        UpdateMessage::decode(buffer_as_slice(buffer))
    }
}

impl Clone for UpdateMessage {
    fn clone(&self) -> (r: Self)
        ensures
            r@ == self@,
    {
        UpdateMessage {
            header: self.header,
            withdrawn_routes: copy_networks(&self.withdrawn_routes),
            withdrawn_routes_length: self.withdrawn_routes_length,
            path_attributes: copy_attributes(&self.path_attributes),
            path_attributes_length: self.path_attributes_length,
            network_layer_reachability_information: copy_networks(
                &self.network_layer_reachability_information,
            ),
        }
    }
}

/// Where the parts of an Update message lie in its wire form.
pub proof fn lemma_update_layout(message: UpdateMessageView)
    ensures
        ({
            let bytes = message.spec_encode();
            let withdrawn = spec_encode_networks(message.withdrawn_routes);
            let attributes = spec_encode_attributes(message.path_attributes);
            let announced = spec_encode_networks(message.network_layer_reachability_information);
            let withdrawn_end = 21 + withdrawn.len() as int;
            let attributes_start = withdrawn_end + 2;
            let attributes_end = attributes_start + attributes.len() as int;
            &&& bytes.len() == attributes_end + announced.len()
            &&& bytes.take(19) == message.header.spec_encode()
            &&& bytes[19] == spec_u16_be(message.withdrawn_routes_length)[0]
            &&& bytes[20] == spec_u16_be(message.withdrawn_routes_length)[1]
            &&& bytes.subrange(21, withdrawn_end) == withdrawn
            &&& bytes[withdrawn_end] == spec_u16_be(message.path_attributes_length)[0]
            &&& bytes[withdrawn_end + 1] == spec_u16_be(message.path_attributes_length)[1]
            &&& bytes.subrange(attributes_start, attributes_end) == attributes
            &&& bytes.skip(attributes_end) == announced
        }),
{
    let bytes = message.spec_encode();
    let head = message.header.spec_encode();
    let withdrawn = spec_encode_networks(message.withdrawn_routes);
    let attributes = spec_encode_attributes(message.path_attributes);
    let announced = spec_encode_networks(message.network_layer_reachability_information);
    let withdrawn_end: int = 21 + withdrawn.len() as int;
    let attributes_start: int = withdrawn_end + 2;
    let attributes_end: int = attributes_start + attributes.len() as int;
    lemma_header_layout(message.header);
    assert(head.len() == 19);
    assert(spec_u16_be(message.withdrawn_routes_length).len() == 2);
    assert(spec_u16_be(message.path_attributes_length).len() == 2);
    assert(bytes.take(19) =~= head);
    assert(bytes.subrange(21, withdrawn_end) =~= withdrawn);
    assert(bytes.subrange(attributes_start, attributes_end) =~= attributes);
    assert(bytes.skip(attributes_end) =~= announced);
}

/// An Update message whose length fields are right and whose routes and
/// attributes are read back as they are is itself read back from its wire
/// form as it is.
pub proof fn lemma_update_round_trip(message: UpdateMessageView)
    requires
        message.spec_round_trips(),
    ensures
        UpdateMessageView::spec_decode(message.spec_encode()) == Ok::<
            UpdateMessageView,
            ConvertBytesToBgpMessageError,
        >(message),
{
    let bytes = message.spec_encode();
    lemma_update_layout(message);
    assert(Header::spec_decode(bytes) == Ok::<Header, ConvertBytesToBgpMessageError>(
        message.header,
    )) by {
        let tail = bytes.skip(19);
        assert(bytes =~= bytes.take(19) + tail);
        lemma_header_round_trip(message.header, tail);
    }
    lemma_u16_be_round_trip(message.withdrawn_routes_length);
    lemma_u16_be_round_trip(message.path_attributes_length);
    assert(spec_decode_networks(spec_encode_networks(message.withdrawn_routes)) == Ok::<
        Seq<Ipv4Network>,
        ConvertBytesToBgpMessageError,
    >(message.withdrawn_routes)) by {
        lemma_networks_round_trip(message.withdrawn_routes);
    }
    assert(spec_decode_attributes(spec_encode_attributes(message.path_attributes)) == Ok::<
        Seq<PathAttributeView>,
        ConvertBytesToBgpMessageError,
    >(message.path_attributes)) by {
        lemma_attributes_round_trip(message.path_attributes);
    }
    assert(spec_decode_networks(
        spec_encode_networks(message.network_layer_reachability_information),
    ) == Ok::<Seq<Ipv4Network>, ConvertBytesToBgpMessageError>(
        message.network_layer_reachability_information,
    )) by {
        lemma_networks_round_trip(message.network_layer_reachability_information);
    }
}

/// The Update message that `UpdateMessage::new` makes is read back from its
/// wire form as it is, where the withdrawn routes and the path attributes
/// each take less than 65536 octets on the wire, every route is without
/// host bits and has a prefix length of 32 at most, and every attribute is
/// interpreted, well formed and within its length field.
pub proof fn lemma_new_update_round_trip(
    path_attributes: Seq<PathAttributeView>,
    network_layer_reachability_information: Seq<Ipv4Network>,
    withdrawn_routes: Seq<Ipv4Network>,
)
    requires
        spec_encode_networks(withdrawn_routes).len() < 65536,
        spec_encode_attributes(path_attributes).len() < 65536,
        spec_attributes_round_trip(path_attributes),
        forall|i: int|
            0 <= i < withdrawn_routes.len() ==> (#[trigger] withdrawn_routes[i]).wf()
                && withdrawn_routes[i].is_canonical(),
        forall|i: int|
            0 <= i < network_layer_reachability_information.len() ==> (
            #[trigger] network_layer_reachability_information[i]).wf()
                && network_layer_reachability_information[i].is_canonical(),
    ensures
        ({
            let message = UpdateMessageView::spec_new(
                path_attributes,
                network_layer_reachability_information,
                withdrawn_routes,
            );
            UpdateMessageView::spec_decode(message.spec_encode()) == Ok::<
                UpdateMessageView,
                ConvertBytesToBgpMessageError,
            >(message)
        }),
{
    let message = UpdateMessageView::spec_new(
        path_attributes,
        network_layer_reachability_information,
        withdrawn_routes,
    );
    assert(message.withdrawn_routes == withdrawn_routes);
    assert(message.path_attributes == path_attributes);
    assert(message.network_layer_reachability_information
        == network_layer_reachability_information);
    assert(message.withdrawn_routes_length == spec_encode_networks(withdrawn_routes).len());
    assert(message.path_attributes_length == spec_encode_attributes(path_attributes).len());
    assert(message.spec_round_trips());
    lemma_update_round_trip(message);
}

} // verus!
