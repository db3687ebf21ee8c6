use astra_dns::filtering::{AdblockRuntimeConfig, FilterConfig, FilteringConfig};
use astra_dns::ip::{IpAddr, Ipv4Addr};
use astra_dns::lifecycle::{Run, RunAction, RunEvent, RunState};
use astra_dns::server::{Config, Protocol};

fn config() -> Config {
    Config {
        listen_addrs_ipv4: vec!["127.0.0.1".to_owned()],
        listen_addrs_ipv6: Vec::new(),
        listen_port: Some(8053),
        prometheus_listen_addr: None,
        disable_tcp: None,
        disable_udp: None,
        disable_tls: None,
        disable_https: None,
        disable_quic: None,
        disable_prometheus: None,
        tcp_request_timeout: None,
        log_level: None,
        user: None,
        group: None,
        zones: Vec::new(),
        dns: None,
        filters: Vec::new(),
        user_rules: Vec::new(),
        filtering: FilteringConfig::default(),
    }
}

fn run(validate: bool) -> Run {
    Run::new(validate, "\"c.yaml\"".to_owned(), "0.25".to_owned())
}

fn loaded(config: Config) -> RunEvent {
    RunEvent::Loaded(Ok(config))
}

fn serving() -> Run {
    let mut run = run(false);
    run.step(loaded(config()));
    run.step(RunEvent::Bound(Ok(())));
    assert!(matches!(run.step(RunEvent::Bound(Ok(()))), RunAction::Serve));
    run
}

#[test]
fn sockets_are_bound_before_the_account_is_switched() {
    let mut run = run(false);
    let ip = IpAddr::V4(Ipv4Addr::new(127, 0, 0, 1));
    let action = run.step(loaded(Config {
        user: Some("u".to_owned()),
        group: Some("g".to_owned()),
        ..config()
    }));
    match action {
        RunAction::Bind(l) => assert_eq!((l.protocol, l.ip, l.port), (Protocol::Udp, ip, 8053)),
        other => panic!("{other:?}"),
    }
    match run.step(RunEvent::Bound(Ok(()))) {
        RunAction::Bind(l) => assert_eq!((l.protocol, l.ip, l.port), (Protocol::Tcp, ip, 8053)),
        other => panic!("{other:?}"),
    }
    match run.step(RunEvent::Bound(Ok(()))) {
        RunAction::Switch(user, group) => assert_eq!((user, group), ("u".into(), "g".into())),
        other => panic!("{other:?}"),
    }
    assert_eq!(run.bound(), 2);
    assert!(matches!(run.step(RunEvent::Switched(Ok(()))), RunAction::Serve));
    assert_eq!(run.state(), RunState::Serving);
}

#[test]
fn a_run_that_cannot_start_ends() {
    let end = |action: RunAction| match action {
        RunAction::Finish(result) => result,
        other => panic!("{other:?}"),
    };
    let failed = || Err("no".to_owned());
    assert_eq!(end(run(false).step(RunEvent::Loaded(Err("no".to_owned())))), failed());
    let unreadable = Config {
        listen_addrs_ipv6: vec!["x".to_owned()],
        ..config()
    };
    assert_eq!(
        end(run(false).step(loaded(unreadable))),
        Err("failed to parse IPv6 addresses from \"c.yaml\": invalid IPv6 address syntax".into())
    );
    let mut binding = run(false);
    binding.step(loaded(config()));
    assert_eq!(end(binding.step(RunEvent::Bound(failed()))), failed());
    assert_eq!(binding.state(), RunState::Over);
    let mut half = run(false);
    half.step(loaded(Config {
        user: Some("u".to_owned()),
        disable_tcp: Some(true),
        ..config()
    }));
    assert_eq!(
        end(half.step(RunEvent::Bound(Ok(())))),
        Err(
            "both 'user' and 'group' must be set together when requesting privilege drop"
                .to_owned()
        )
    );
    let mut switching = run(false);
    let silent = Config {
        user: Some("u".to_owned()),
        group: Some("g".to_owned()),
        disable_tcp: Some(true),
        disable_udp: Some(true),
        ..config()
    };
    assert!(matches!(switching.step(loaded(silent)), RunAction::Switch(_, _)));
    assert_eq!(end(switching.step(RunEvent::Switched(failed()))), failed());
}

#[test]
fn validation_ends_with_the_configuration() {
    let filter = |enabled: bool| FilterConfig {
        enabled,
        url: "http://127.0.0.1/list.txt".to_owned(),
        ..FilterConfig::default()
    };
    let lists = AdblockRuntimeConfig {
        filters: vec![filter(true), filter(false), filter(true)],
        user_rules: Vec::new(),
        filtering: FilteringConfig::default(),
    };
    assert!(run(false).fetches_lists());
    assert_eq!(run(false).lists_to_fetch(&lists).len(), 2);
    let mut run = run(true);
    assert!(!run.fetches_lists());
    assert!(run.lists_to_fetch(&lists).is_empty());
    assert!(matches!(run.step(loaded(config())), RunAction::Finish(Ok(()))));
    assert_eq!((run.state(), run.bound()), (RunState::Over, 0));
}

#[test]
fn a_reload_goes_on_serving() {
    let mut run = serving();
    assert!(matches!(run.step(RunEvent::HungUp), RunAction::Reload));
    let same = Config {
        user_rules: vec!["||ads.com^".to_owned()],
        ..config()
    };
    assert!(matches!(run.step(loaded(same)), RunAction::Replace));
    assert_eq!(run.state(), RunState::Serving);
    for refused in [
        RunEvent::Loaded(Err("no".to_owned())),
        loaded(Config {
            listen_port: Some(53),
            ..config()
        }),
        loaded(Config {
            listen_addrs_ipv4: vec!["x".to_owned()],
            ..config()
        }),
    ] {
        run.step(RunEvent::HungUp);
        assert!(matches!(run.step(refused), RunAction::Refuse(_)));
        assert_eq!(run.state(), RunState::Serving);
        assert_eq!(run.settings().unwrap().listen_port, 8053);
    }
}

#[test]
fn a_run_ends_as_the_server_does() {
    let mut stopped = serving();
    assert!(matches!(stopped.step(RunEvent::Terminated), RunAction::Stop));
    assert!(matches!(stopped.step(RunEvent::Ended(Ok(Ok(())))), RunAction::Finish(Ok(()))));
    match serving().step(RunEvent::Ended(Ok(Err("gone".to_owned())))) {
        RunAction::Finish(Err(e)) => {
            assert_eq!(e, "Hickory DNS 0.25 has encountered an error: gone")
        }
        other => panic!("{other:?}"),
    }
    match serving().step(RunEvent::Ended(Err("lost".to_owned()))) {
        RunAction::Finish(Err(e)) => assert_eq!(e, "server task failed: lost"),
        other => panic!("{other:?}"),
    }
}
