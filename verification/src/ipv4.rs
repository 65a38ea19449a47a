use crate::error::ConfigParseError;
use crate::error::ConstructIpv4NetworkError;
use crate::error::ConvertBytesToBgpMessageError;
use std::str::FromStr;
use vstd::prelude::*;
use vstd::string::StrSliceExecFns;

verus! {

/// An IPv4 address, as its four octets in network order.
#[derive(PartialEq, Eq, Debug, Clone, Copy, Hash, PartialOrd, Ord, Structural)]
pub struct Ipv4Addr(pub u8, pub u8, pub u8, pub u8);

impl Ipv4Addr {
    /// The address `a.b.c.d`.
    pub fn new(a: u8, b: u8, c: u8, d: u8) -> (r: Self)
        ensures
            r == Ipv4Addr(a, b, c, d),
    {
        Ipv4Addr(a, b, c, d)
    }

    /// The four octets, first to last.
    pub open spec fn spec_octets(self) -> Seq<u8> {
        seq![self.0, self.1, self.2, self.3]
    }

    /// The four octets, first to last.
    pub fn octets(&self) -> (r: [u8; 4])
        ensures
            r@ == self.spec_octets(),
    {
        let r = [self.0, self.1, self.2, self.3];
        assert(r@ =~= self.spec_octets());
        r
    }
}

/// The octet whose `bits` most significant bits are set (all of them from 8 on,
/// none below 1).
pub open spec fn spec_high_bits(bits: int) -> u8 {
    if bits <= 0 {
        0x00
    } else if bits == 1 {
        0x80
    } else if bits == 2 {
        0xC0
    } else if bits == 3 {
        0xE0
    } else if bits == 4 {
        0xF0
    } else if bits == 5 {
        0xF8
    } else if bits == 6 {
        0xFC
    } else if bits == 7 {
        0xFE
    } else {
        0xFF
    }
}

/// `octet` with all but its `bits` most significant bits cleared.
pub open spec fn spec_mask_octet(octet: u8, bits: int) -> u8 {
    if bits <= 0 {
        0
    } else if bits >= 8 {
        octet
    } else {
        octet & spec_high_bits(bits)
    }
}

/// How many address octets a prefix of the given length takes on the wire:
/// the length divided by eight, rounded up, and four at most.
pub open spec fn spec_octet_count(prefix: u8) -> int {
    if prefix == 0 {
        0
    } else if prefix <= 8 {
        1
    } else if prefix <= 16 {
        2
    } else if prefix <= 24 {
        3
    } else {
        4
    }
}

fn high_bits(bits: u8) -> (r: u8)
    ensures
        r == spec_high_bits(bits as int),
{
    if bits == 0 {
        0x00
    } else if bits == 1 {
        0x80
    } else if bits == 2 {
        0xC0
    } else if bits == 3 {
        0xE0
    } else if bits == 4 {
        0xF0
    } else if bits == 5 {
        0xF8
    } else if bits == 6 {
        0xFC
    } else if bits == 7 {
        0xFE
    } else {
        0xFF
    }
}

fn mask_octet(octet: u8, prefix: u8, skipped: u8) -> (r: u8)
    ensures
        r == spec_mask_octet(octet, prefix - skipped),
{
    if prefix <= skipped {
        0
    } else if prefix - skipped >= 8 {
        octet
    } else {
        octet & high_bits(prefix - skipped)
    }
}

fn octet_count(prefix: u8) -> (r: usize)
    ensures
        r == spec_octet_count(prefix),
{
    if prefix == 0 {
        0
    } else if prefix <= 8 {
        1
    } else if prefix <= 16 {
        2
    } else if prefix <= 24 {
        3
    } else {
        4
    }
}

/// An IPv4 prefix: an address and the number of its leading bits that name the
/// network.
#[derive(PartialEq, Eq, Debug, Clone, Copy, Hash, PartialOrd, Ord, Structural)]
pub struct Ipv4Network {
    pub addr: Ipv4Addr,
    pub prefix: u8,
}

impl Ipv4Network {
    /// The prefix length is one that IPv4 has.
    pub open spec fn wf(self) -> bool {
        self.prefix <= 32
    }

    /// The address with the host bits cleared.
    pub open spec fn spec_network(self) -> Ipv4Addr {
        Ipv4Addr(
            spec_mask_octet(self.addr.0, self.prefix as int),
            spec_mask_octet(self.addr.1, self.prefix - 8),
            spec_mask_octet(self.addr.2, self.prefix - 16),
            spec_mask_octet(self.addr.3, self.prefix - 24),
        )
    }

    /// No host bit of the address is set.
    pub open spec fn is_canonical(self) -> bool {
        self.spec_network() == self.addr
    }

    /// The wire form: the prefix length, then the leading octets of the
    /// network address that the length covers.
    pub open spec fn spec_encode(self) -> Seq<u8> {
        seq![self.prefix] + self.spec_network().spec_octets().take(spec_octet_count(self.prefix))
    }

    /// The prefix of the given length whose address starts with the octets
    /// found at `at` in `bytes`, as many as the length covers, and is zero
    /// from there on.
    pub open spec fn spec_from_wire(prefix: u8, bytes: Seq<u8>, at: int) -> Ipv4Network {
        let k = spec_octet_count(prefix);
        Ipv4Network {
            addr: Ipv4Addr(
                if k >= 1 {
                    bytes[at]
                } else {
                    0
                },
                if k >= 2 {
                    bytes[at + 1]
                } else {
                    0
                },
                if k >= 3 {
                    bytes[at + 2]
                } else {
                    0
                },
                if k >= 4 {
                    bytes[at + 3]
                } else {
                    0
                },
            ),
            prefix,
        }
    }

    /// An address with a prefix length; lengths above 32 are refused.
    pub fn new(addr: Ipv4Addr, prefix: u8) -> (r: Result<Self, ConstructIpv4NetworkError>)
        ensures
            prefix <= 32 ==> r == Ok::<Ipv4Network, ConstructIpv4NetworkError>(
                Ipv4Network { addr, prefix },
            ),
            prefix > 32 ==> r == Err::<Ipv4Network, ConstructIpv4NetworkError>(
                ConstructIpv4NetworkError::InvalidPrefix(prefix),
            ),
    {
        if prefix > 32 {
            Err(ConstructIpv4NetworkError::InvalidPrefix(prefix))
        } else {
            Ok(Ipv4Network { addr, prefix })
        }
    }

    /// The address as it was given.
    pub fn ip(&self) -> (r: Ipv4Addr)
        ensures
            r == self.addr,
    {
        self.addr
    }

    /// The prefix length.
    pub fn prefix(&self) -> (r: u8)
        ensures
            r == self.prefix,
    {
        self.prefix
    }

    /// The address with the host bits cleared.
    pub fn network(&self) -> (r: Ipv4Addr)
        ensures
            r == self.spec_network(),
    {
        Ipv4Addr(
            mask_octet(self.addr.0, self.prefix, 0),
            mask_octet(self.addr.1, self.prefix, 8),
            mask_octet(self.addr.2, self.prefix, 16),
            mask_octet(self.addr.3, self.prefix, 24),
        )
    }

    /// Whether no host bit of the address is set.
    pub fn is_network_address(&self) -> (r: bool)
        ensures
            r == self.is_canonical(),
    {
        self.network() == self.addr
    }

    /// The number of octets of the wire form.
    pub fn bytes_len(&self) -> (r: usize)
        ensures
            r == self.spec_encode().len(),
            r == 1 + spec_octet_count(self.prefix),
    {
        1 + octet_count(self.prefix)
    }

    /// Appends the wire form to `out`.
    pub fn encode_into(&self, out: &mut Vec<u8>)
        ensures
            final(out)@ == old(out)@ + self.spec_encode(),
    {
        let n = self.network();
        let k = octet_count(self.prefix);
        out.push(self.prefix);
        if k >= 1 {
            out.push(n.0);
        }
        if k >= 2 {
            out.push(n.1);
        }
        if k >= 3 {
            out.push(n.2);
        }
        if k >= 4 {
            out.push(n.3);
        }
        assert(out@ =~= old(out)@ + self.spec_encode());
    }

    /// The wire form.
    pub fn encode(&self) -> (r: Vec<u8>)
        ensures
            r@ == self.spec_encode(),
    {
        let mut out: Vec<u8> = Vec::new();
        self.encode_into(&mut out);
        assert(out@ =~= self.spec_encode());
        out
    }

    /// The prefixes that `bytes` lists, one wire form after the other, until
    /// the bytes are used up.
    pub fn from_u8_slice(bytes: &[u8]) -> (r: Result<Vec<Self>, ConvertBytesToBgpMessageError>)
        ensures
            match r {
                Ok(networks) => spec_decode_networks(bytes@) == Ok::<
                    Seq<Ipv4Network>,
                    ConvertBytesToBgpMessageError,
                >(networks@),
                Err(e) => spec_decode_networks(bytes@) == Err::<
                    Seq<Ipv4Network>,
                    ConvertBytesToBgpMessageError,
                >(e),
            },
    {
        let mut networks: Vec<Ipv4Network> = Vec::new();
        let mut i: usize = 0;
        while i < bytes.len()
            invariant
                i <= bytes.len(),
                spec_decode_networks(bytes@) == spec_prepend_networks(
                    networks@,
                    spec_decode_networks_from(bytes@, i as int),
                ),
            decreases bytes.len() - i,
        {
            let prefix = bytes[i];
            if prefix > 32 {
                return Err(ConvertBytesToBgpMessageError::InvalidPrefixLength(prefix));
            }
            let k = octet_count(prefix);
            if bytes.len() - i - 1 < k {
                return Err(ConvertBytesToBgpMessageError::Truncated);
            }
            let a = if k >= 1 {
                bytes[i + 1]
            } else {
                0
            };
            let b = if k >= 2 {
                bytes[i + 2]
            } else {
                0
            };
            let c = if k >= 3 {
                bytes[i + 3]
            } else {
                0
            };
            let d = if k >= 4 {
                bytes[i + 4]
            } else {
                0
            };
            let network = Ipv4Network { addr: Ipv4Addr(a, b, c, d), prefix };
            proof {
                let rest = spec_decode_networks_from(bytes@, i + 1 + k);
                assert(network == Ipv4Network::spec_from_wire(prefix, bytes@, i + 1));
                match rest {
                    Ok(tail) => {
                        assert(networks@.push(network) + tail =~= networks@ + (seq![network]
                            + tail));
                    },
                    Err(_) => {},
                }
            }
            networks.push(network);
            i = i + 1 + k;
        }
        assert(networks@ + Seq::<Ipv4Network>::empty() =~= networks@);
        Ok(networks)
    }
}

/// The wire form of a list of prefixes: the wire forms of its items in order.
pub open spec fn spec_encode_networks(networks: Seq<Ipv4Network>) -> Seq<u8>
    decreases networks.len(),
{
    if networks.len() == 0 {
        Seq::empty()
    } else {
        spec_encode_networks(networks.drop_last()) + networks.last().spec_encode()
    }
}

/// `decoded` with `done` put in front of what it lists, where it lists
/// anything.
pub open spec fn spec_prepend_networks(
    done: Seq<Ipv4Network>,
    decoded: Result<Seq<Ipv4Network>, ConvertBytesToBgpMessageError>,
) -> Result<Seq<Ipv4Network>, ConvertBytesToBgpMessageError> {
    match decoded {
        Ok(tail) => Ok(done + tail),
        Err(e) => Err(e),
    }
}

/// What the bytes from index `from` on decode to as a list of prefixes: the
/// first failure met from the left, or every prefix in order.
pub open spec fn spec_decode_networks_from(bytes: Seq<u8>, from: int) -> Result<
    Seq<Ipv4Network>,
    ConvertBytesToBgpMessageError,
>
    decreases bytes.len() - from,
{
    if from < 0 || from >= bytes.len() {
        Ok(Seq::empty())
    } else {
        let prefix = bytes[from];
        let k = spec_octet_count(prefix);
        if prefix > 32 {
            Err(ConvertBytesToBgpMessageError::InvalidPrefixLength(prefix))
        } else if bytes.len() - from - 1 < k {
            Err(ConvertBytesToBgpMessageError::Truncated)
        } else {
            spec_prepend_networks(
                seq![Ipv4Network::spec_from_wire(prefix, bytes, from + 1)],
                spec_decode_networks_from(bytes, from + 1 + k),
            )
        }
    }
}

/// What `bytes` decode to as a list of prefixes.
pub open spec fn spec_decode_networks(bytes: Seq<u8>) -> Result<
    Seq<Ipv4Network>,
    ConvertBytesToBgpMessageError,
> {
    spec_decode_networks_from(bytes, 0)
}

/// Appends the wire forms of `networks`, in order, to `out`.
pub fn encode_networks_into(networks: &Vec<Ipv4Network>, out: &mut Vec<u8>)
    ensures
        final(out)@ == old(out)@ + spec_encode_networks(networks@),
{
    let mut i: usize = 0;
    assert(old(out)@ + spec_encode_networks(networks@.take(0)) =~= old(out)@);
    while i < networks.len()
        invariant
            i <= networks.len(),
            out@ == old(out)@ + spec_encode_networks(networks@.take(i as int)),
        decreases networks.len() - i,
    {
        networks[i].encode_into(out);
        proof {
            let next = networks@.take(i + 1);
            assert(next.drop_last() =~= networks@.take(i as int));
            assert(next.last() == networks@[i as int]);
            assert(out@ =~= old(out)@ + spec_encode_networks(next));
        }
        i = i + 1;
    }
    assert(networks@.take(networks@.len() as int) =~= networks@);
}

/// The number of octets that the wire forms of `networks` take together, as
/// a length field of sixteen bits holds it: what is left of the number after
/// division by 65536.
pub fn networks_length(networks: &Vec<Ipv4Network>) -> (r: u16)
    ensures
        r == spec_encode_networks(networks@).len() % 65536,
{
    let mut length: u32 = 0;
    let mut i: usize = 0;
    assert(spec_encode_networks(networks@.take(0)).len() == 0);
    while i < networks.len()
        invariant
            i <= networks.len(),
            length == spec_encode_networks(networks@.take(i as int)).len() % 65536,
        decreases networks.len() - i,
    {
        proof {
            let next = networks@.take(i + 1);
            assert(next.drop_last() =~= networks@.take(i as int));
            assert(next.last() == networks@[i as int]);
        }
        length = (length + networks[i].bytes_len() as u32) % 65536;
        i = i + 1;
    }
    assert(networks@.take(networks@.len() as int) =~= networks@);
    length as u16
}

/// The wire form of a prefix is its length octet and then one octet for each
/// eight bits, or part of eight bits, of the length.
pub proof fn lemma_network_encoding_length(network: Ipv4Network)
    requires
        network.wf(),
    ensures
        network.spec_encode().len() == 1 + (network.prefix + 7) / 8,
        network.spec_encode()[0] == network.prefix,
{
}

/// The wire form of a list that starts with `first` is the wire form of
/// `first` followed by that of the rest.
pub proof fn lemma_encode_networks_cons(first: Ipv4Network, rest: Seq<Ipv4Network>)
    ensures
        spec_encode_networks(seq![first] + rest) == first.spec_encode() + spec_encode_networks(
            rest,
        ),
    decreases rest.len(),
{
    let all = seq![first] + rest;
    if rest.len() == 0 {
        assert(all.drop_last() =~= Seq::<Ipv4Network>::empty());
        assert(spec_encode_networks(all.drop_last()) =~= Seq::<u8>::empty());
        assert(spec_encode_networks(all) =~= first.spec_encode());
        assert(first.spec_encode() + spec_encode_networks(rest) =~= first.spec_encode());
    } else {
        lemma_encode_networks_cons(first, rest.drop_last());
        assert(all.drop_last() =~= seq![first] + rest.drop_last());
        assert(all.last() == rest.last());
        assert(spec_encode_networks(all) =~= first.spec_encode() + spec_encode_networks(rest));
    }
}

/// Decoding looks only at the bytes from the starting index on: bytes put in
/// front shift the index and change nothing else.
pub proof fn lemma_decode_networks_shift(front: Seq<u8>, bytes: Seq<u8>, from: int)
    requires
        0 <= from,
    ensures
        spec_decode_networks_from(front + bytes, front.len() + from) == spec_decode_networks_from(
            bytes,
            from,
        ),
    decreases bytes.len() - from,
{
    let whole = front + bytes;
    if from < bytes.len() {
        let prefix = bytes[from];
        let k = spec_octet_count(prefix);
        assert(whole[front.len() + from] == bytes[from]);
        if prefix <= 32 && bytes.len() - from - 1 >= k {
            lemma_decode_networks_shift(front, bytes, from + 1 + k);
            assert(Ipv4Network::spec_from_wire(prefix, whole, front.len() + from + 1)
                == Ipv4Network::spec_from_wire(prefix, bytes, from + 1));
        }
    }
}

/// A prefix without host bits, written out and read back from the front of
/// any bytes, comes back as it was.
pub proof fn lemma_network_read_back(network: Ipv4Network, tail: Seq<u8>)
    requires
        network.wf(),
        network.is_canonical(),
    ensures
        Ipv4Network::spec_from_wire(network.prefix, network.spec_encode() + tail, 1) == network,
{
    let bytes = network.spec_encode() + tail;
    let k = spec_octet_count(network.prefix);
    let octets = network.spec_network().spec_octets();
    assert forall|j: int| 0 <= j < k implies bytes[1 + j] == octets[j] by {
        assert(network.spec_encode()[1 + j] == octets.take(k)[j]);
    }
}

/// Every list of prefixes without host bits decodes, from its wire form, to
/// itself.
pub proof fn lemma_networks_round_trip(networks: Seq<Ipv4Network>)
    requires
        forall|i: int| 0 <= i < networks.len() ==> (#[trigger] networks[i]).wf(),
        forall|i: int| 0 <= i < networks.len() ==> (#[trigger] networks[i]).is_canonical(),
    ensures
        spec_decode_networks(spec_encode_networks(networks)) == Ok::<
            Seq<Ipv4Network>,
            ConvertBytesToBgpMessageError,
        >(networks),
    decreases networks.len(),
{
    if networks.len() == 0 {
        assert(networks =~= Seq::<Ipv4Network>::empty());
    } else {
        let first = networks[0];
        let rest = networks.drop_first();
        assert(networks =~= seq![first] + rest);
        lemma_encode_networks_cons(first, rest);
        let head = first.spec_encode();
        let tail = spec_encode_networks(rest);
        let bytes = head + tail;
        assert forall|i: int| 0 <= i < rest.len() implies (#[trigger] rest[i]).wf() by {
            assert(rest[i] == networks[i + 1]);
        }
        assert forall|i: int| 0 <= i < rest.len() implies (#[trigger] rest[i]).is_canonical() by {
            assert(rest[i] == networks[i + 1]);
        }
        lemma_networks_round_trip(rest);
        lemma_decode_networks_shift(head, tail, 0);
        lemma_network_read_back(first, tail);
        assert(bytes[0] == first.prefix);
        assert(head.len() == 1 + spec_octet_count(first.prefix));
        assert(spec_encode_networks(networks) == bytes);
        assert(spec_decode_networks_from(bytes, 1 + spec_octet_count(first.prefix))
            == spec_decode_networks_from(tail, 0));
        assert(spec_decode_networks_from(bytes, 0) == spec_prepend_networks(
            seq![first],
            spec_decode_networks_from(tail, 0),
        ));
    }
}

/// A single prefix without host bits decodes, from its wire form, to itself.
pub proof fn lemma_network_round_trip(network: Ipv4Network)
    requires
        network.wf(),
        network.is_canonical(),
    ensures
        spec_decode_networks(network.spec_encode()) == Ok::<
            Seq<Ipv4Network>,
            ConvertBytesToBgpMessageError,
        >(seq![network]),
        network.spec_encode().len() == 1 + (network.prefix + 7) / 8,
{
    let one = seq![network];
    assert(one.drop_last() =~= Seq::<Ipv4Network>::empty());
    assert(spec_encode_networks(one.drop_last()) =~= Seq::<u8>::empty());
    assert(spec_encode_networks(one) =~= network.spec_encode());
    lemma_networks_round_trip(one);
}

/// What `ipnetwork::Ipv4Network::from_str` makes of a text in CIDR form: the
/// address and the prefix length that the text gives (a text without a
/// slash gives the length 32), or nothing where the text does not parse.
pub uninterp spec fn spec_parse_cidr(text: Seq<char>) -> Option<Ipv4Network>;

/// `ipnetwork::Ipv4Network::from_str`. What it returns is not spelt out
/// here, only named; that the prefix length is 32 at most is what the
/// constructor that it ends with checks.
#[verifier::external_body]
fn parse_cidr(text: &str) -> (r: Option<Ipv4Network>)
    ensures
        r == spec_parse_cidr(text@),
        r matches Some(network) ==> network.prefix <= 32,
{
    match text.parse::<ipnetwork::Ipv4Network>() {
        Ok(network) => {
            let octets = network.ip().octets();
            Some(
                Ipv4Network {
                    addr: Ipv4Addr(octets[0], octets[1], octets[2], octets[3]),
                    prefix: network.prefix(),
                },
            )
        },
        Err(_) => None,
    }
}

/// What a text stands for as an address in dotted-quad form: nothing where
/// it holds a slash, else the address of what it stands for as a network.
pub open spec fn spec_parse_address(text: Seq<char>) -> Option<Ipv4Addr> {
    if text.contains('/') {
        None
    } else {
        match spec_parse_cidr(text) {
            Some(network) => Some(network.addr),
            None => None,
        }
    }
}

impl Ipv4Addr {
    /// The address that `text` gives in dotted-quad form.
    pub fn parse(text: &str) -> (r: Option<Ipv4Addr>)
        ensures
            r == spec_parse_address(text@),
    {
        let n = text.unicode_len();
        let mut i: usize = 0;
        while i < n
            invariant
                i <= n,
                n == text@.len(),
                forall|j: int| 0 <= j < i ==> text@[j] != '/',
            decreases n - i,
        {
            if text.get_char(i) == '/' {
                return None;
            }
            i = i + 1;
        }
        match parse_cidr(text) {
            Some(network) => Some(network.addr),
            None => None,
        }
    }
}

impl FromStr for Ipv4Addr {
    type Err = ConfigParseError;

    fn from_str(s: &str) -> (r: Result<Self, Self::Err>)
        ensures
            r == match spec_parse_address(s@) {
                Some(addr) => Ok::<Ipv4Addr, ConfigParseError>(addr),
                None => Err::<Ipv4Addr, ConfigParseError>(ConfigParseError::InvalidAddress),
            },
    {
        match Ipv4Addr::parse(s) {
            Some(addr) => Ok(addr),
            None => Err(ConfigParseError::InvalidAddress),
        }
    }
}

impl Ipv4Network {
    /// The network that `text` gives in CIDR form.
    pub fn parse(text: &str) -> (r: Option<Ipv4Network>)
        ensures
            r == spec_parse_cidr(text@),
            r matches Some(network) ==> network.wf(),
    {
        parse_cidr(text)
    }
}

impl FromStr for Ipv4Network {
    type Err = ConfigParseError;

    fn from_str(s: &str) -> (r: Result<Self, Self::Err>)
        ensures
            r == match spec_parse_cidr(s@) {
                Some(network) => Ok::<Ipv4Network, ConfigParseError>(network),
                None => Err::<Ipv4Network, ConfigParseError>(ConfigParseError::InvalidNetwork),
            },
            r matches Ok(network) ==> network.wf(),
    {
        match Ipv4Network::parse(s) {
            Some(network) => Ok(network),
            None => Err(ConfigParseError::InvalidNetwork),
        }
    }
}

} // verus!
