use mrbgpdv2::bgp_type::AutonomousSystemNumber;
use mrbgpdv2::config::split_fields;
use mrbgpdv2::config::Config;
use mrbgpdv2::config::Mode;
use mrbgpdv2::error::ConfigParseError;
use mrbgpdv2::ipv4::Ipv4Addr;
use mrbgpdv2::ipv4::Ipv4Network;

#[test]
fn config_is_read_from_its_fields() {
    let config: Config =
        "64512 127.0.0.1 64513 127.0.0.2 active 10.100.220.0/24 10.1.2.3/32".parse().unwrap();
    assert_eq!(config.local_as, AutonomousSystemNumber(64512));
    assert_eq!(config.local_ip, Ipv4Addr(127, 0, 0, 1));
    assert_eq!(config.remote_as, AutonomousSystemNumber(64513));
    assert_eq!(config.remote_ip, Ipv4Addr(127, 0, 0, 2));
    assert_eq!(config.mode, Mode::Active);
    assert_eq!(
        config.networks,
        vec![
            Ipv4Network { addr: Ipv4Addr(10, 100, 220, 0), prefix: 24 },
            Ipv4Network { addr: Ipv4Addr(10, 1, 2, 3), prefix: 32 },
        ]
    );
    assert_eq!(config.clone(), config);
    let bare: Config = "1 10.0.0.1 2 10.0.0.2 Passive".parse().unwrap();
    assert_eq!(bare.mode, Mode::Passive);
    assert_eq!(bare.networks, vec![]);
}

#[test]
fn config_failures_name_the_first_bad_field() {
    let cases = [
        ("", ConfigParseError::MissingField),
        ("64512 127.0.0.1 64513 127.0.0.2", ConfigParseError::MissingField),
        ("x 127.0.0.1 64513 127.0.0.2 active", ConfigParseError::InvalidLocalAs),
        ("65536 127.0.0.1 64513 127.0.0.2 active", ConfigParseError::InvalidLocalAs),
        ("64512 127.0.0 64513 127.0.0.2 active", ConfigParseError::InvalidLocalIp),
        ("64512 127.0.0.1/8 64513 127.0.0.2 active", ConfigParseError::InvalidLocalIp),
        ("64512 127.0.0.1 -1 127.0.0.2 active", ConfigParseError::InvalidRemoteAs),
        ("64512 127.0.0.1 64513 localhost active", ConfigParseError::InvalidRemoteIp),
        ("64512 127.0.0.1 64513 127.0.0.2 ACTIVE", ConfigParseError::InvalidMode),
        ("64512 127.0.0.1 64513 127.0.0.2 active 10.0.0.0/33", ConfigParseError::InvalidNetwork),
        ("64512 127.0.0.1 64513 127.0.0.2 active  10.0.0.0/8", ConfigParseError::InvalidNetwork),
        ("x y z w v", ConfigParseError::InvalidLocalAs),
    ];
    for (text, error) in cases {
        assert_eq!(Config::parse(text), Err(error), "{}", text);
    }
}

#[test]
fn config_from_parts_takes_the_first_missing_part() {
    let address = Some(Ipv4Addr(10, 0, 0, 1));
    let network = Ipv4Network { addr: Ipv4Addr(10, 0, 0, 0), prefix: 8 };
    assert_eq!(
        Config::from_parts(Some(1), address, Some(2), address, Some(Mode::Active), vec![Some(network)]),
        Ok(Config {
            local_as: AutonomousSystemNumber(1),
            local_ip: Ipv4Addr(10, 0, 0, 1),
            remote_as: AutonomousSystemNumber(2),
            remote_ip: Ipv4Addr(10, 0, 0, 1),
            mode: Mode::Active,
            networks: vec![network],
        })
    );
    assert_eq!(
        Config::from_parts(None, None, None, None, None, vec![None]),
        Err(ConfigParseError::InvalidLocalAs)
    );
    assert_eq!(
        Config::from_parts(Some(1), None, None, None, None, vec![None]),
        Err(ConfigParseError::InvalidLocalIp)
    );
    assert_eq!(
        Config::from_parts(Some(1), address, None, None, None, vec![None]),
        Err(ConfigParseError::InvalidRemoteAs)
    );
    assert_eq!(
        Config::from_parts(Some(1), address, Some(2), None, None, vec![None]),
        Err(ConfigParseError::InvalidRemoteIp)
    );
    assert_eq!(
        Config::from_parts(Some(1), address, Some(2), address, None, vec![None]),
        Err(ConfigParseError::InvalidMode)
    );
    assert_eq!(
        Config::from_parts(Some(1), address, Some(2), address, Some(Mode::Passive), vec![Some(network), None]),
        Err(ConfigParseError::InvalidNetwork)
    );
}

#[test]
fn fields_are_split_at_every_space() {
    assert_eq!(split_fields(""), vec![""]);
    assert_eq!(split_fields("a"), vec!["a"]);
    assert_eq!(split_fields("a b"), vec!["a", "b"]);
    assert_eq!(split_fields(" a  b "), vec!["", "a", "", "b", ""]);
    assert_eq!(split_fields("64512 127.0.0.1"), vec!["64512", "127.0.0.1"]);
    let texts = ["", " ", "a b c", "  x", "x  ", "é ü  ß"];
    for text in texts {
        assert_eq!(split_fields(text), text.split(' ').collect::<Vec<&str>>());
    }
}

#[test]
fn mode_words() {
    assert_eq!("passive".parse(), Ok(Mode::Passive));
    assert_eq!("Passive".parse(), Ok(Mode::Passive));
    assert_eq!("active".parse(), Ok(Mode::Active));
    assert_eq!("Active".parse(), Ok(Mode::Active));
    assert_eq!("activ".parse::<Mode>(), Err(ConfigParseError::InvalidMode));
    assert_eq!("".parse::<Mode>(), Err(ConfigParseError::InvalidMode));
    assert_eq!(Mode::parse("PASSIVE"), None);
}

#[test]
fn addresses_and_networks_are_read_as_the_ipnetwork_crate_reads_them() {
    assert_eq!("10.200.100.3".parse(), Ok(Ipv4Addr(10, 200, 100, 3)));
    assert_eq!("10.200.100.3/32".parse::<Ipv4Addr>(), Err(ConfigParseError::InvalidAddress));
    assert_eq!("10.200.100".parse::<Ipv4Addr>(), Err(ConfigParseError::InvalidAddress));
    assert_eq!(Ipv4Addr::parse("256.0.0.1"), None);
    assert_eq!(
        "10.100.220.0/24".parse(),
        Ok(Ipv4Network { addr: Ipv4Addr(10, 100, 220, 0), prefix: 24 })
    );
    assert_eq!(
        "10.100.220.7".parse(),
        Ok(Ipv4Network { addr: Ipv4Addr(10, 100, 220, 7), prefix: 32 })
    );
    assert_eq!("10.100.220.0/33".parse::<Ipv4Network>(), Err(ConfigParseError::InvalidNetwork));
    assert_eq!(Ipv4Network::parse("10.100.220.0/24/1"), None);
    let texts = ["0.0.0.0/0", "10.1.9.32/16", "192.168.1.1/255.255.255.0", "1.2.3.4/", "/8", "a/b"];
    for text in texts {
        let theirs = text.parse::<ipnetwork::Ipv4Network>().ok();
        let ours = Ipv4Network::parse(text);
        assert_eq!(ours.map(|n| (n.ip().octets(), n.prefix())), theirs.map(|n| (n.ip().octets(), n.prefix())));
    }
}
