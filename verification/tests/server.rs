use astra_dns::chain::{build_authorities, plan_zones, ChainLink};
use astra_dns::compiled::CompiledRuleSets;
use astra_dns::filtering::{
    AdblockRuntimeConfig, FilterConfig, FilteringConfig, RewriteAnswerConfig, RewriteConfig,
};
use astra_dns::ip::{AddrParseError, IpAddr, Ipv4Addr, Ipv6Addr, SocketAddr};
use astra_dns::name::DomainName;
use astra_dns::server::{
    empty_stores_error, parse_upstream_dns_address, store_config_default, Config, DnsConfig,
    ExternalStoreConfig, ForwardConfig, LogLevel, NameServerConfig, Protocol, UpstreamDnsConfig,
    ZoneConfig, ZoneType, ZoneTypeConfig,
};

fn empty_config() -> Config {
    Config {
        listen_addrs_ipv4: Vec::new(),
        listen_addrs_ipv6: Vec::new(),
        listen_port: None,
        prometheus_listen_addr: None,
        disable_tcp: None,
        disable_udp: None,
        disable_tls: None,
        disable_https: None,
        disable_quic: None,
        disable_prometheus: None,
        tcp_request_timeout: None,
        log_level: None,
        user: None,
        group: None,
        zones: Vec::new(),
        dns: None,
        filters: Vec::new(),
        user_rules: Vec::new(),
        filtering: FilteringConfig::default(),
    }
}

fn upstreams(addresses: &[&str]) -> Option<DnsConfig> {
    let addresses = addresses.iter().map(|address| address.to_string());
    Some(DnsConfig {
        upstream_dns: addresses.map(UpstreamDnsConfig::Address).collect(),
    })
}

fn v4(a: u8, b: u8, c: u8, d: u8, port: u16) -> SocketAddr {
    SocketAddr {
        ip: IpAddr::V4(Ipv4Addr::new(a, b, c, d)),
        port,
        scope_id: 0,
    }
}

fn forward(servers: Vec<NameServerConfig>) -> ExternalStoreConfig {
    ExternalStoreConfig::Forward(ForwardConfig {
        name_servers: servers,
        options: None,
    })
}

fn zone(name: &str, stores: Vec<ExternalStoreConfig>) -> ZoneConfig {
    ZoneConfig {
        zone: name.to_owned(),
        zone_type_config: ZoneTypeConfig::External { stores },
    }
}

#[test]
fn supports_adguard_style_upstream_dns() {
    let config = Config {
        listen_addrs_ipv4: vec!["127.0.0.1".to_owned()],
        dns: upstreams(&["127.0.0.1:7874"]),
        ..empty_config()
    }
    .normalize()
    .expect("config should parse");

    assert_eq!(config.zones.len(), 1);
    assert_eq!(config.zones[0].zone, ".");

    match &config.zones[0].zone_type_config {
        ZoneTypeConfig::External { stores } => {
            assert_eq!(stores.len(), 1);
            match &stores[0] {
                ExternalStoreConfig::Forward(config) => {
                    assert_eq!(config.name_servers.len(), 1);
                    let upstream = &config.name_servers[0];
                    assert_eq!(upstream.socket_addr, v4(127, 0, 0, 1, 7874));
                    assert_eq!(upstream.protocol, Protocol::Udp);
                    assert!(!upstream.trust_negative_responses);
                }
                _ => panic!("expected a forward store"),
            }
        }
    }
}

#[test]
fn upstream_dns_defaults_port_53() {
    let config = Config {
        dns: upstreams(&["8.8.8.8"]),
        ..empty_config()
    }
    .normalize()
    .expect("config should parse");

    match &config.zones[0].zone_type_config {
        ZoneTypeConfig::External { stores } => match &stores[0] {
            ExternalStoreConfig::Forward(config) => {
                assert_eq!(config.name_servers[0].socket_addr, v4(8, 8, 8, 8, 53));
            }
            _ => panic!("expected a forward store"),
        },
    }
}

#[test]
fn rejects_mixing_zones_and_upstream_dns() {
    let server = parse_upstream_dns_address("8.8.8.8:53").unwrap();
    let err = Config {
        dns: upstreams(&["127.0.0.1:7874"]),
        zones: vec![zone(".", vec![forward(vec![server])])],
        ..empty_config()
    }
    .normalize()
    .expect_err("config should fail");

    assert!(err.contains("cannot configure both `zones` and `dns.upstream_dns`"));
}

#[test]
fn configurations_without_the_short_form_are_kept() {
    let config = Config {
        dns: upstreams(&[]),
        zones: vec![zone("a.", vec![])],
        ..empty_config()
    }
    .normalize()
    .unwrap();
    assert_eq!(config.zones.len(), 1);
    assert_eq!(config.zones[0].zone, "a.");
    assert!(empty_config().normalize().unwrap().zones.is_empty());
    let err = Config {
        dns: upstreams(&["8.8.8.8", "tcp://nowhere"]),
        ..empty_config()
    }
    .normalize()
    .unwrap_err();
    assert_eq!(
        err,
        "invalid upstream DNS address `nowhere`; expected `IP`, `IP:PORT`, `udp://IP:PORT`, or `tcp://IP:PORT`"
    );
}

#[test]
fn servers_upstream_are_read() {
    let udp = parse_upstream_dns_address("udp://1.2.3.4:5").unwrap();
    assert_eq!((udp.socket_addr, udp.protocol), (v4(1, 2, 3, 4, 5), Protocol::Udp));
    let tcp = parse_upstream_dns_address("tcp://1.2.3.4").unwrap();
    assert_eq!((tcp.socket_addr, tcp.protocol), (v4(1, 2, 3, 4, 53), Protocol::Tcp));
    assert!(tcp.tls_dns_name.is_none() && tcp.http_endpoint.is_none() && tcp.bind_addr.is_none());
    let v6 = parse_upstream_dns_address("::1").unwrap();
    assert_eq!(
        v6.socket_addr,
        SocketAddr {
            ip: IpAddr::V6(Ipv6Addr { bits: 1 }),
            port: 53,
            scope_id: 0
        }
    );
    let v6 = parse_upstream_dns_address("[::1]:5353").unwrap();
    assert_eq!(v6.socket_addr.port, 5353);
    assert!(parse_upstream_dns_address("https://dns.example").is_err());

    let detailed = UpstreamDnsConfig::Detailed(NameServerConfig {
        trust_negative_responses: true,
        tls_dns_name: Some("n".to_owned()),
        ..parse_upstream_dns_address("9.9.9.9").unwrap()
    });
    let server = detailed.name_server_config().unwrap();
    assert!(server.trust_negative_responses);
    assert_eq!(server.tls_dns_name.as_deref(), Some("n"));
}

#[test]
fn settings_have_defaults() {
    let config = empty_config();
    assert_eq!(config.listen_addrs_ipv4(), Ok(vec![]));
    assert_eq!(config.listen_port(), 53);
    assert_eq!(config.prometheus_listen_addr(), v4(127, 0, 0, 1, 9000));
    assert_eq!(config.tcp_request_timeout(), 5);
    assert_eq!(config.log_level(), LogLevel::Warn);
    assert!(!config.disable_tcp() && !config.disable_udp() && !config.disable_tls());
    assert!(!config.disable_https() && !config.disable_quic() && !config.disable_prometheus());
    assert!(config.zones().is_empty() && config.filters().is_empty());
    assert!(config.user_rules().is_empty() && config.filtering().rewrites.is_empty());
    assert!(config.adblock_runtime_config().is_none());

    let config = Config {
        listen_addrs_ipv4: vec!["127.0.0.1".to_owned(), "10.0.0.1".to_owned()],
        listen_addrs_ipv6: vec!["::1".to_owned(), "1.2.3.4".to_owned()],
        listen_port: Some(8053),
        prometheus_listen_addr: Some(v4(1, 1, 1, 1, 1)),
        disable_tcp: Some(true),
        disable_udp: Some(true),
        disable_tls: Some(true),
        disable_https: Some(true),
        disable_quic: Some(true),
        disable_prometheus: Some(true),
        tcp_request_timeout: Some(9),
        ..empty_config()
    };
    assert_eq!(
        config.listen_addrs_ipv4(),
        Ok(vec![Ipv4Addr::new(127, 0, 0, 1), Ipv4Addr::new(10, 0, 0, 1)])
    );
    assert_eq!(config.listen_addrs_ipv6(), Err(AddrParseError::Ipv6));
    assert_eq!(config.listen_port(), 8053);
    assert_eq!(config.prometheus_listen_addr(), v4(1, 1, 1, 1, 1));
    assert_eq!(config.tcp_request_timeout(), 9);
    assert!(config.disable_tcp() && config.disable_udp() && config.disable_tls());
    assert!(config.disable_https() && config.disable_quic() && config.disable_prometheus());
    let config = Config {
        listen_addrs_ipv4: vec!["::1".to_owned()],
        ..empty_config()
    };
    assert_eq!(config.listen_addrs_ipv4(), Err(AddrParseError::Ipv4));
}

#[test]
fn log_levels_are_read() {
    let level = |word: &str| {
        Config {
            log_level: Some(word.to_owned()),
            ..empty_config()
        }
        .log_level()
    };
    assert_eq!(level("Trace"), LogLevel::Trace);
    assert_eq!(level("DEBUG"), LogLevel::Debug);
    assert_eq!(level("Info"), LogLevel::Info);
    assert_eq!(level("warn"), LogLevel::Warn);
    assert_eq!(level("Error"), LogLevel::Error);
    assert_eq!(level("1"), LogLevel::Error);
    assert_eq!(level("+05"), LogLevel::Trace);
    for word in ["", "loud", "0", "6", "+", "warn ", "-1", "18446744073709551617"] {
        assert_eq!(level(word), LogLevel::Info, "{word:?}");
    }
}

#[test]
fn runtime_configuration_is_copied() {
    let config = Config {
        filters: vec![FilterConfig {
            enabled: false,
            url: "u".to_owned(),
            name: Some("n".to_owned()),
            id: Some(3),
        }],
        filtering: FilteringConfig {
            rewrites: vec![RewriteConfig {
                domain: Some("d".to_owned()),
                answer: RewriteAnswerConfig::Multiple(vec!["1.1.1.1".to_owned()]),
                ..RewriteConfig::default()
            }],
            ..FilteringConfig::default()
        },
        ..empty_config()
    };
    let runtime = config.adblock_runtime_config().unwrap();
    assert_eq!(runtime.filters[0].url, "u");
    assert_eq!(runtime.filters[0].id, Some(3));
    assert_eq!(runtime.filtering.rewrites[0].domain.as_deref(), Some("d"));
    assert_eq!(runtime.filtering.rewrites[0].answer.values().len(), 1);
}

fn rules(lines: &[&str]) -> CompiledRuleSets {
    CompiledRuleSets::validate(AdblockRuntimeConfig {
        filters: Vec::new(),
        user_rules: lines.iter().map(|line| line.to_string()).collect(),
        filtering: FilteringConfig {
            rewrites: vec![RewriteConfig {
                domain: Some("d.com".to_owned()),
                answer: RewriteAnswerConfig::Single("1.1.1.1".to_owned()),
                ..RewriteConfig::default()
            }],
            ..FilteringConfig::default()
        },
    })
    .unwrap()
}

fn kinds(chain: &[ChainLink]) -> Vec<&'static str> {
    let kind = |link: &ChainLink| match link {
        ChainLink::Override(_) => "override",
        ChainLink::Rewrite(_) => "rewrite",
        ChainLink::Block(_) => "block",
        ChainLink::Forward(_, _) => "forward",
    };
    chain.iter().map(kind).collect()
}

#[test]
fn zones_are_loaded() {
    let root = zone(".", vec![forward(vec![]), forward(vec![])]);
    assert_eq!(root.zone_type(), ZoneType::External);
    assert_eq!(root.forward_stores(), 2);
    assert_eq!(root.zone().unwrap(), DomainName::new(vec![], true).unwrap());
    assert_eq!(kinds(&root.load(None).unwrap()), vec!["forward", "forward"]);
    let compiled = rules(&["1.2.3.4 o.com", "||b.com^"]);
    let chain = ["override", "rewrite", "block", "forward"];
    assert_eq!(
        kinds(&root.load(Some(&compiled)).unwrap()),
        [chain, chain].concat()
    );
    let fewer = rules(&[]);
    let config = ForwardConfig {
        name_servers: vec![],
        options: None,
    };
    let origin = DomainName::new(vec![b"Example".to_vec()], true).unwrap();
    let links = build_authorities(&origin, &config, &fewer).unwrap();
    assert_eq!(kinds(&links), vec!["rewrite", "forward"]);
}

#[test]
fn links_are_of_their_zone() {
    let compiled = rules(&["1.2.3.4 o.com", "||b.com^"]);
    let config = ForwardConfig {
        name_servers: vec![],
        options: None,
    };
    for full in [true, false] {
        let zone_name = DomainName::new(vec![b"Example".to_vec()], full).unwrap();
        let small = DomainName::new(vec![b"example".to_vec()], full).unwrap();
        let links = build_authorities(&zone_name, &config, &compiled).unwrap();
        assert_eq!(links.len(), 4);
        for link in &links {
            match link {
                ChainLink::Override(authority) => assert_eq!(authority.origin, small),
                ChainLink::Rewrite(authority) => assert_eq!(authority.origin, small),
                ChainLink::Block(authority) => assert_eq!(authority.origin, small),
                ChainLink::Forward(origin, _) => assert_eq!(*origin, zone_name),
            }
        }
    }
}

#[test]
fn the_short_form_is_loaded() {
    let config = Config {
        dns: upstreams(&["127.0.0.1:7874", "8.8.8.8"]),
        ..empty_config()
    }
    .normalize()
    .unwrap();
    let plans = plan_zones(config.zones(), None, "p").unwrap();
    assert_eq!(plans.len(), 1);
    assert!(plans[0].name.labels().is_empty() && plans[0].name.is_fqdn());
    match &plans[0].chain[..] {
        [ChainLink::Forward(origin, forward)] => {
            assert_eq!(*origin, plans[0].name);
            assert_eq!(forward.name_servers.len(), 2);
        }
        _ => panic!("expected the servers upstream alone"),
    }
}

#[test]
fn zones_that_cannot_be_loaded() {
    let empty = zone("example.com", vec![forward(vec![]), ExternalStoreConfig::Default]);
    assert_eq!(empty.forward_stores(), 1);
    assert_eq!(empty.load(None).err(), Some("empty [[zones.stores]] in config".to_owned()));
    let zones = vec![zone(".", vec![forward(vec![])]), empty];
    assert_eq!(
        plan_zones(&zones, None, "\"c.yaml\"").err(),
        Some("could not load zone example.com.: empty [[zones.stores]] in config".to_owned())
    );
    assert_eq!(plan_zones(&zones[..1], None, "p").unwrap().len(), 1);
    let misnamed = vec![zone("a b", vec![])];
    let err = misnamed[0].zone().unwrap_err();
    assert_eq!(
        misnamed[0].load(None).err(),
        Some(format!("failed to read zone name: {err}"))
    );
    assert_eq!(
        plan_zones(&misnamed, None, "\"c.yaml\"").err(),
        Some(format!("failed to read zone name from \"c.yaml\": {err}"))
    );
    let long = "a".repeat(64);
    let compiled = rules(&[&format!("1.2.3.4 {long}")]);
    let zones = vec![zone(".", vec![forward(vec![])])];
    let err = plan_zones(&zones, Some(&compiled), "p").err().unwrap();
    assert!(
        err.starts_with(&format!("could not load zone .: invalid override domain {long}: ")),
        "{err}"
    );
    // the first store fails on the override before the second one is looked at
    let both = zone(".", vec![forward(vec![]), ExternalStoreConfig::Default]);
    let err = both.load(Some(&compiled)).err().unwrap();
    assert!(err.starts_with(&format!("invalid override domain {long}: ")), "{err}");
    let none_first = zone(".", vec![ExternalStoreConfig::Default, forward(vec![])]);
    assert_eq!(
        none_first.load(Some(&compiled)).err(),
        Some("empty [[zones.stores]] in config".to_owned())
    );
    let err: Result<(), String> = empty_stores_error();
    assert_eq!(err, Err("empty [[zones.stores]] in config".to_owned()));
    let stores: Vec<ExternalStoreConfig> = store_config_default();
    assert!(matches!(stores[..], [ExternalStoreConfig::Default]));
}
