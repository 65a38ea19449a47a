use crate::bgp_type::AutonomousSystemNumber;
use crate::error::ConfigParseError;
use crate::ipv4::spec_parse_address;
use crate::ipv4::spec_parse_cidr;
use crate::ipv4::Ipv4Addr;
use crate::ipv4::Ipv4Network;
use std::str::FromStr;
use vstd::prelude::*;
use vstd::string::StrSliceExecFns;

verus! {

/// Which side opens the TCP connection.
#[derive(PartialEq, Eq, Debug, Clone, Copy, Hash, PartialOrd, Ord, Structural)]
pub enum Mode {
    Passive,
    Active,
}

/// What a speaker is told about itself and about one peer.
#[derive(PartialEq, Eq, Debug, Hash, PartialOrd, Ord)]
pub struct Config {
    pub local_as: AutonomousSystemNumber,
    pub local_ip: Ipv4Addr,
    pub remote_as: AutonomousSystemNumber,
    pub remote_ip: Ipv4Addr,
    pub mode: Mode,
    /// The networks that the speaker advertises.
    pub networks: Vec<Ipv4Network>,
}

impl Clone for Config {
    fn clone(&self) -> (r: Self)
        ensures
            r.local_as == self.local_as,
            r.local_ip == self.local_ip,
            r.remote_as == self.remote_as,
            r.remote_ip == self.remote_ip,
            r.mode == self.mode,
            r.networks@ == self.networks@,
    {
        let mut networks: Vec<Ipv4Network> = Vec::new();
        let mut i: usize = 0;
        while i < self.networks.len()
            invariant
                i <= self.networks.len(),
                networks@ == self.networks@.take(i as int),
            decreases self.networks.len() - i,
        {
            networks.push(self.networks[i]);
            i = i + 1;
            assert(networks@ =~= self.networks@.take(i as int));
        }
        assert(self.networks@.take(self.networks@.len() as int) =~= self.networks@);
        Config {
            local_as: self.local_as,
            local_ip: self.local_ip,
            remote_as: self.remote_as,
            remote_ip: self.remote_ip,
            mode: self.mode,
            networks,
        }
    }
}

/// What a `Config` holds.
pub struct ConfigView {
    pub local_as: AutonomousSystemNumber,
    pub local_ip: Ipv4Addr,
    pub remote_as: AutonomousSystemNumber,
    pub remote_ip: Ipv4Addr,
    pub mode: Mode,
    pub networks: Seq<Ipv4Network>,
}

impl View for Config {
    type V = ConfigView;

    open spec fn view(&self) -> ConfigView {
        ConfigView {
            local_as: self.local_as,
            local_ip: self.local_ip,
            remote_as: self.remote_as,
            remote_ip: self.remote_ip,
            mode: self.mode,
            networks: self.networks@,
        }
    }
}

/// The fields of a text: what stands between its spaces, before the first
/// and behind the last. A text without a space is one field; two spaces in
/// a row have an empty field between them.
pub open spec fn spec_fields(text: Seq<char>) -> Seq<Seq<char>>
    decreases text.len(),
{
    if text.len() == 0 {
        seq![Seq::empty()]
    } else {
        let before = spec_fields(text.drop_last());
        if text.last() == ' ' {
            before.push(Seq::empty())
        } else {
            before.update(before.len() - 1, before.last().push(text.last()))
        }
    }
}

/// What `str::parse::<u16>` makes of a text: the number that the text gives
/// in decimal digits, or nothing where the text does not parse.
pub uninterp spec fn spec_parse_u16(text: Seq<char>) -> Option<u16>;

/// `str::parse::<u16>`. What it returns is not spelt out here, only named.
#[verifier::external_body]
fn parse_u16(text: &str) -> (r: Option<u16>)
    ensures
        r == spec_parse_u16(text@),
{
    text.parse::<u16>().ok()
}

/// The mode that a word stands for: `passive` and `Passive` for the one,
/// `active` and `Active` for the other, no other word for any.
pub open spec fn spec_parse_mode(text: Seq<char>) -> Option<Mode> {
    if text == "passive"@ || text == "Passive"@ {
        Some(Mode::Passive)
    } else if text == "active"@ || text == "Active"@ {
        Some(Mode::Active)
    } else {
        None
    }
}

/// What each of the texts stands for as a network in CIDR form.
pub open spec fn spec_parse_networks(texts: Seq<Seq<char>>) -> Seq<Option<Ipv4Network>> {
    Seq::new(texts.len(), |i: int| spec_parse_cidr(texts[i]))
}

/// The networks, where each of `parsed` is one.
pub open spec fn spec_all_networks(parsed: Seq<Option<Ipv4Network>>) -> Option<Seq<Ipv4Network>> {
    if forall|i: int| 0 <= i < parsed.len() ==> (#[trigger] parsed[i]).is_some() {
        Some(Seq::new(parsed.len(), |i: int| parsed[i].unwrap()))
    } else {
        None
    }
}

/// The configuration that the parsed fields make, or the failure of the
/// first field that did not parse.
pub open spec fn spec_from_parts(
    local_as: Option<u16>,
    local_ip: Option<Ipv4Addr>,
    remote_as: Option<u16>,
    remote_ip: Option<Ipv4Addr>,
    mode: Option<Mode>,
    networks: Seq<Option<Ipv4Network>>,
) -> Result<ConfigView, ConfigParseError> {
    if local_as.is_none() {
        Err(ConfigParseError::InvalidLocalAs)
    } else if local_ip.is_none() {
        Err(ConfigParseError::InvalidLocalIp)
    } else if remote_as.is_none() {
        Err(ConfigParseError::InvalidRemoteAs)
    } else if remote_ip.is_none() {
        Err(ConfigParseError::InvalidRemoteIp)
    } else if mode.is_none() {
        Err(ConfigParseError::InvalidMode)
    } else {
        match spec_all_networks(networks) {
            None => Err(ConfigParseError::InvalidNetwork),
            Some(networks) => Ok(
                ConfigView {
                    local_as: AutonomousSystemNumber(local_as.unwrap()),
                    local_ip: local_ip.unwrap(),
                    remote_as: AutonomousSystemNumber(remote_as.unwrap()),
                    remote_ip: remote_ip.unwrap(),
                    mode: mode.unwrap(),
                    networks,
                },
            ),
        }
    }
}

/// The configuration that a text gives: its fields are, in order, the local
/// AS number, the local address, the AS number of the peer, the address of
/// the peer, the mode, and any number of networks to advertise.
pub open spec fn spec_parse_config(text: Seq<char>) -> Result<ConfigView, ConfigParseError> {
    let fields = spec_fields(text);
    if fields.len() < 5 {
        Err(ConfigParseError::MissingField)
    } else {
        spec_from_parts(
            spec_parse_u16(fields[0]),
            spec_parse_address(fields[1]),
            spec_parse_u16(fields[2]),
            spec_parse_address(fields[3]),
            spec_parse_mode(fields[4]),
            spec_parse_networks(fields.skip(5)),
        )
    }
}

/// What each of the texts holds, in order.
pub open spec fn spec_texts(fields: Seq<&str>) -> Seq<Seq<char>> {
    Seq::new(fields.len(), |i: int| fields[i]@)
}

fn same_text(a: &str, b: &str) -> (r: bool)
    ensures
        r == (a@ == b@),
{
    let n = a.unicode_len();
    if n != b.unicode_len() {
        return false;
    }
    let mut i: usize = 0;
    while i < n
        invariant
            i <= n,
            n == a@.len(),
            n == b@.len(),
            forall|j: int| 0 <= j < i ==> a@[j] == b@[j],
        decreases n - i,
    {
        if a.get_char(i) != b.get_char(i) {
            return false;
        }
        i = i + 1;
    }
    assert(a@ =~= b@);
    true
}

/// The fields of `text`: what stands between its spaces.
pub fn split_fields(text: &str) -> (r: Vec<&str>)
    ensures
        spec_texts(r@) == spec_fields(text@),
        r@.len() >= 1,
{
    let n = text.unicode_len();
    let mut fields: Vec<&str> = Vec::new();
    let mut start: usize = 0;
    let mut i: usize = 0;
    assert(text@.subrange(0, 0) =~= Seq::<char>::empty());
    assert(spec_texts(fields@).push(text@.subrange(0, 0)) =~= spec_fields(text@.take(0)));
    while i < n
        invariant
            start <= i <= n,
            n == text@.len(),
            spec_texts(fields@).push(text@.subrange(start as int, i as int)) == spec_fields(
                text@.take(i as int),
            ),
        decreases n - i,
    {
        let ghost before = spec_fields(text@.take(i as int));
        let ghost done = spec_texts(fields@);
        let ghost next = text@.take(i + 1);
        proof {
            assert(next.drop_last() =~= text@.take(i as int));
            assert(next.last() == text@[i as int]);
            assert(before.last() == text@.subrange(start as int, i as int));
        }
        if text.get_char(i) == ' ' {
            fields.push(text.substring_char(start, i));
            start = i + 1;
            proof {
                assert(text@.subrange(i + 1, i + 1) =~= Seq::<char>::empty());
                assert(spec_texts(fields@) =~= before);
            }
        } else {
            proof {
                assert(text@.subrange(start as int, i + 1) =~= text@.subrange(
                    start as int,
                    i as int,
                ).push(text@[i as int]));
                assert(done.push(text@.subrange(start as int, i + 1)) =~= before.update(
                    before.len() - 1,
                    before.last().push(text@[i as int]),
                ));
            }
        }
        i = i + 1;
    }
    assert(text@.take(n as int) =~= text@);
    let ghost done = spec_texts(fields@);
    fields.push(text.substring_char(start, n));
    assert(spec_texts(fields@) =~= done.push(text@.subrange(start as int, n as int)));
    fields
}

impl Mode {
    /// The mode that the word stands for.
    pub fn parse(text: &str) -> (r: Option<Mode>)
        ensures
            r == spec_parse_mode(text@),
    {
        if same_text(text, "passive") || same_text(text, "Passive") {
            Some(Mode::Passive)
        } else if same_text(text, "active") || same_text(text, "Active") {
            Some(Mode::Active)
        } else {
            None
        }
    }
}

impl FromStr for Mode {
    type Err = ConfigParseError;

    fn from_str(s: &str) -> (r: Result<Self, Self::Err>)
        ensures
            r == match spec_parse_mode(s@) {
                Some(mode) => Ok::<Mode, ConfigParseError>(mode),
                None => Err::<Mode, ConfigParseError>(ConfigParseError::InvalidMode),
            },
    {
        match Mode::parse(s) {
            Some(mode) => Ok(mode),
            None => Err(ConfigParseError::InvalidMode),
        }
    }
}

impl Config {
    /// The configuration that the parsed fields make, or the failure of the
    /// first field that did not parse: a field that did not parse is one
    /// for which nothing is given.
    pub fn from_parts(
        local_as: Option<u16>,
        local_ip: Option<Ipv4Addr>,
        remote_as: Option<u16>,
        remote_ip: Option<Ipv4Addr>,
        mode: Option<Mode>,
        networks: Vec<Option<Ipv4Network>>,
    ) -> (r: Result<Config, ConfigParseError>)
        ensures
            match r {
                Ok(config) => spec_from_parts(
                    local_as,
                    local_ip,
                    remote_as,
                    remote_ip,
                    mode,
                    networks@,
                ) == Ok::<ConfigView, ConfigParseError>(config@),
                Err(e) => spec_from_parts(
                    local_as,
                    local_ip,
                    remote_as,
                    remote_ip,
                    mode,
                    networks@,
                ) == Err::<ConfigView, ConfigParseError>(e),
            },
    {
        if local_as.is_none() {
            return Err(ConfigParseError::InvalidLocalAs);
        }
        if local_ip.is_none() {
            return Err(ConfigParseError::InvalidLocalIp);
        }
        if remote_as.is_none() {
            return Err(ConfigParseError::InvalidRemoteAs);
        }
        if remote_ip.is_none() {
            return Err(ConfigParseError::InvalidRemoteIp);
        }
        if mode.is_none() {
            return Err(ConfigParseError::InvalidMode);
        }
        let mut advertised: Vec<Ipv4Network> = Vec::new();
        let mut i: usize = 0;
        while i < networks.len()
            invariant
                i <= networks@.len(),
                local_as.is_some(),
                local_ip.is_some(),
                remote_as.is_some(),
                remote_ip.is_some(),
                mode.is_some(),
                advertised@.len() == i,
                forall|j: int| 0 <= j < i ==> (#[trigger] networks@[j]) == Some(advertised@[j]),
            decreases networks@.len() - i,
        {
            match networks[i] {
                Some(network) => {
                    advertised.push(network);
                },
                None => {
                    assert(!networks@[i as int].is_some());
                    return Err(ConfigParseError::InvalidNetwork);
                },
            }
            i = i + 1;
        }
        proof {
            assert(spec_all_networks(networks@).unwrap() =~= advertised@);
        }
        Ok(
            Config {
                local_as: AutonomousSystemNumber(local_as.unwrap()),
                local_ip: local_ip.unwrap(),
                remote_as: AutonomousSystemNumber(remote_as.unwrap()),
                remote_ip: remote_ip.unwrap(),
                mode: mode.unwrap(),
                networks: advertised,
            },
        )
    }

    /// The configuration that `text` gives.
    pub fn parse(text: &str) -> (r: Result<Config, ConfigParseError>)
        ensures
            match r {
                Ok(config) => spec_parse_config(text@) == Ok::<ConfigView, ConfigParseError>(
                    config@,
                ),
                Err(e) => spec_parse_config(text@) == Err::<ConfigView, ConfigParseError>(e),
            },
    {
        let fields = split_fields(text);
        if fields.len() < 5 {
            return Err(ConfigParseError::MissingField);
        }
        let ghost texts = spec_texts(fields@);
        let mut networks: Vec<Option<Ipv4Network>> = Vec::new();
        let mut i: usize = 5;
        while i < fields.len()
            invariant
                5 <= i <= fields@.len(),
                texts == spec_texts(fields@),
                networks@.len() == i - 5,
                forall|j: int|
                    0 <= j < networks@.len() ==> (#[trigger] networks@[j]) == spec_parse_cidr(
                        texts[5 + j],
                    ),
            decreases fields@.len() - i,
        {
            assert(texts[i as int] == fields@[i as int]@);
            networks.push(Ipv4Network::parse(fields[i]));
            i = i + 1;
        }
        proof {
            assert(networks@ =~= spec_parse_networks(texts.skip(5)));
            assert(texts[0] == fields@[0]@);
            assert(texts[1] == fields@[1]@);
            assert(texts[2] == fields@[2]@);
            assert(texts[3] == fields@[3]@);
            assert(texts[4] == fields@[4]@);
        }
        Config::from_parts(
            parse_u16(fields[0]),
            Ipv4Addr::parse(fields[1]),
            parse_u16(fields[2]),
            Ipv4Addr::parse(fields[3]),
            Mode::parse(fields[4]),
            networks,
        )
    }
}

impl FromStr for Config {
    type Err = ConfigParseError;

    fn from_str(s: &str) -> (r: Result<Self, Self::Err>)
        ensures
            match r {
                Ok(config) => spec_parse_config(s@) == Ok::<ConfigView, ConfigParseError>(
                    config@,
                ),
                Err(e) => spec_parse_config(s@) == Err::<ConfigView, ConfigParseError>(e),
            },
    {
        Config::parse(s)
    }
}

} // verus!
