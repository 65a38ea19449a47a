use crate::error::ConvertBytesToBgpMessageError;
use vstd::prelude::*;
use vstd::std_specs::convert::FromSpecImpl;
use vstd::std_specs::convert::TryFromSpecImpl;

verus! {

/// A 16-bit autonomous system number.
#[derive(PartialEq, Eq, Debug, Clone, Copy, Hash, PartialOrd, Ord, Structural)]
pub struct AutonomousSystemNumber(pub u16);

impl From<u16> for AutonomousSystemNumber {
    fn from(as_number: u16) -> (r: Self) {
        AutonomousSystemNumber(as_number)
    }
}

impl FromSpecImpl<u16> for AutonomousSystemNumber {
    open spec fn obeys_from_spec() -> bool {
        true
    }

    open spec fn from_spec(as_number: u16) -> Self {
        AutonomousSystemNumber(as_number)
    }
}

impl From<AutonomousSystemNumber> for u16 {
    fn from(as_number: AutonomousSystemNumber) -> (r: u16) {
        as_number.0
    }
}

impl FromSpecImpl<AutonomousSystemNumber> for u16 {
    open spec fn obeys_from_spec() -> bool {
        true
    }

    open spec fn from_spec(as_number: AutonomousSystemNumber) -> u16 {
        as_number.0
    }
}

/// The hold time that an Open message proposes, in seconds.
#[derive(PartialEq, Eq, Debug, Clone, Copy, Hash, PartialOrd, Ord, Structural)]
pub struct HoldTime(pub u16);

impl From<u16> for HoldTime {
    fn from(t: u16) -> (r: Self) {
        HoldTime(t)
    }
}

impl FromSpecImpl<u16> for HoldTime {
    open spec fn obeys_from_spec() -> bool {
        true
    }

    open spec fn from_spec(t: u16) -> Self {
        HoldTime(t)
    }
}

impl From<HoldTime> for u16 {
    fn from(t: HoldTime) -> (r: u16) {
        t.0
    }
}

impl FromSpecImpl<HoldTime> for u16 {
    open spec fn obeys_from_spec() -> bool {
        true
    }

    open spec fn from_spec(t: HoldTime) -> u16 {
        t.0
    }
}

impl Default for HoldTime {
    fn default() -> (r: Self)
        ensures
            r == HoldTime(240),
    {
        HoldTime(240)
    }
}

impl HoldTime {
    /// The default hold time of 240 seconds.
    pub fn new() -> (r: Self)
        ensures
            r == HoldTime(240),
    {
        HoldTime(240)
    }
}

/// The protocol version that an Open message carries: 1, 2, 3 or 4.
#[derive(PartialEq, Eq, Debug, Clone, Copy, Hash, PartialOrd, Ord, Structural)]
pub struct Version(u8);

impl Version {
    /// The version octet.
    pub closed spec fn spec_number(self) -> u8 {
        self.0
    }

    /// Whether the version is one of those that BGP defines.
    pub open spec fn wf(self) -> bool {
        1 <= self.spec_number() <= 4
    }

    /// What `try_from` returns for the octet `v`.
    pub closed spec fn spec_try_from(v: u8) -> Result<Version, ConvertBytesToBgpMessageError> {
        if 1 <= v && v <= 4 {
            Ok(Version(v))
        } else {
            Err(ConvertBytesToBgpMessageError::InvalidVersion(v))
        }
    }

    /// The current protocol version, 4.
    pub fn new() -> (r: Self)
        ensures
            r.spec_number() == 4,
            r.wf(),
    {
        Version(4)
    }

    /// The version octet.
    pub fn number(&self) -> (r: u8)
        ensures
            r == self.spec_number(),
    {
        self.0
    }
}

/// An octet is accepted as a version exactly when it lies in 1..=4, and the
/// version then holds that octet.
pub proof fn lemma_version_try_from(v: u8)
    ensures
        Version::spec_try_from(v).is_ok() <==> 1 <= v <= 4,
        Version::spec_try_from(v) matches Ok(version) ==> version.spec_number() == v && version.wf(),
        Version::spec_try_from(v) matches Err(e) ==> e
            == ConvertBytesToBgpMessageError::InvalidVersion(v),
{
}

/// Distinct versions have distinct octets.
pub proof fn lemma_version_by_number(a: Version, b: Version)
    requires
        a.spec_number() == b.spec_number(),
    ensures
        a == b,
{
}

impl TryFrom<u8> for Version {
    type Error = ConvertBytesToBgpMessageError;

    fn try_from(v: u8) -> (r: Result<Self, Self::Error>) {
        if 1 <= v && v <= 4 {
            Ok(Version(v))
        } else {
            Err(ConvertBytesToBgpMessageError::InvalidVersion(v))
        }
    }
}

impl TryFromSpecImpl<u8> for Version {
    open spec fn obeys_try_from_spec() -> bool {
        true
    }

    open spec fn try_from_spec(v: u8) -> Result<Self, Self::Error> {
        Version::spec_try_from(v)
    }
}

impl From<Version> for u8 {
    fn from(v: Version) -> (r: u8) {
        v.0
    }
}

impl FromSpecImpl<Version> for u8 {
    open spec fn obeys_from_spec() -> bool {
        true
    }

    open spec fn from_spec(v: Version) -> u8 {
        v.spec_number()
    }
}

impl Default for Version {
    fn default() -> (r: Self)
        ensures
            r.spec_number() == 4,
    {
        Version(4)
    }
}

} // verus!
