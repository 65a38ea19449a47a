use vstd::prelude::*;

verus! {

/// Why a configuration string was rejected.
#[derive(Clone, Copy, Debug, PartialEq, Eq, Structural)]
pub enum ConfigParseError {
    /// Fewer than the five mandatory fields were given.
    MissingField,
    /// The first field is not a 16-bit AS number.
    InvalidLocalAs,
    /// The second field is not a dotted-quad IPv4 address.
    InvalidLocalIp,
    /// The third field is not a 16-bit AS number.
    InvalidRemoteAs,
    /// The fourth field is not a dotted-quad IPv4 address.
    InvalidRemoteIp,
    /// The fifth field is not one of the accepted mode words.
    InvalidMode,
    /// One of the trailing fields is not a network in CIDR form.
    InvalidNetwork,
    /// A text that was to be an address on its own is not in dotted-quad
    /// form.
    InvalidAddress,
}

/// Why a prefix could not be built from an address and a prefix length.
#[derive(Clone, Copy, Debug, PartialEq, Eq, Structural)]
pub enum ConstructIpv4NetworkError {
    /// The prefix length is larger than 32.
    InvalidPrefix(u8),
}

/// Why a byte sequence does not decode into a BGP message or one of its parts.
#[derive(Clone, Copy, Debug, PartialEq, Eq, Structural)]
pub enum ConvertBytesToBgpMessageError {
    /// The bytes end before the layout does.
    Truncated,
    /// The type octet of the header is not 1, 2 or 4.
    MalformedHeader(u8),
    /// The header names another kind of message than the one being decoded.
    UnexpectedMessageType,
    /// The version octet of an Open message is not in 1..=4.
    InvalidVersion(u8),
    /// A prefix length in a list of routes is larger than 32.
    InvalidPrefixLength(u8),
    /// The value of an Origin attribute is not 0, 1 or 2.
    InvalidOrigin(u8),
    /// The segment type of an AS path is neither 1 (set) nor 2 (sequence).
    InvalidAsPathSegmentType(u8),
}

/// The transport could not be established for a peer.
#[derive(Clone, Copy, Debug, PartialEq, Eq, Structural)]
pub struct CreateConnectionError;

} // verus!
