use std::collections::hash_map::DefaultHasher;
use std::hash::{Hash, Hasher};

use astra_dns::fetch::{
    cache_file_name, fetch_filter, start_fetch, FetchEvent, FetchState, FetchStep,
    FilterFetchMode, FilterFetchOptions, PathFault,
};
use astra_dns::filtering::{FilterConfig, FilteringConfig};
use astra_dns::ip::{IpAddr, Ipv4Addr, Ipv6Addr, SocketAddr};
use astra_dns::server::{Config, Protocol};
use astra_dns::settings::{prometheus_endpoint, sorted, ReloadSettings};
use astra_dns::startup::{
    banner, check_account_names, check_accounts, check_switch, drop_step, finish_server_run,
    log_line, must_drop_privileges, privilege_plan, DropAction, DropEvent, DropState, SpanText,
};

fn filter(id: Option<u64>) -> FilterConfig {
    FilterConfig {
        enabled: true,
        url: "http://127.0.0.1/grüße.txt".to_owned(),
        name: None,
        id,
    }
}

fn fault() -> PathFault {
    PathFault {
        path: "\"p\"".to_owned(),
        err: "full".to_owned(),
    }
}

#[test]
fn copies_have_paths() {
    let options = FilterFetchOptions::new("/var/cache".to_owned());
    assert_eq!(options.connect_timeout_secs, 10);
    assert_eq!(options.read_timeout_secs, 30);
    assert_eq!(options.cache_path_for(&filter(Some(7))), "/var/cache/7.txt");
    assert_ne!(cache_file_name(&filter(Some(70))), cache_file_name(&filter(Some(7))));
    let by_url = filter(None);
    let mut hasher = DefaultHasher::new();
    by_url.url.hash(&mut hasher);
    assert_eq!(cache_file_name(&by_url), format!("{:016x}.txt", hasher.finish()));
    for dir in ["", "/", "a/", "a"] {
        let options = FilterFetchOptions::new(dir.to_owned());
        assert_eq!(
            std::path::PathBuf::from(options.cache_path_for(&filter(Some(1)))),
            std::path::Path::new(dir).join("1.txt")
        );
    }
}

#[test]
fn cache_first_does_not_contact_remote_server() {
    let state = start_fetch(FilterFetchMode::CacheFirst);
    assert!(matches!(state, FetchState::ReadingCopy));
    let event = FetchEvent::Copy(Some("cached rule\n".to_owned()));
    match fetch_filter(&filter(Some(7)), state, event) {
        FetchStep::Done(result) => assert_eq!(result, Ok("cached rule\n".to_owned())),
        FetchStep::Next(state) => panic!("{state:?}"),
    }
}

fn next(state: FetchState, event: FetchEvent) -> FetchState {
    match fetch_filter(&filter(None), state, event) {
        FetchStep::Next(state) => state,
        FetchStep::Done(result) => panic!("{result:?}"),
    }
}

fn done(state: FetchState, event: FetchEvent) -> Result<String, String> {
    match fetch_filter(&filter(None), state, event) {
        FetchStep::Next(state) => panic!("{state:?}"),
        FetchStep::Done(result) => result,
    }
}

#[test]
fn a_download_is_kept() {
    let state = next(start_fetch(FilterFetchMode::CacheFirst), FetchEvent::Copy(None));
    assert!(matches!(state, FetchState::Downloading));
    let state = next(state, FetchEvent::Downloaded(Ok("new".to_owned())));
    let state = next(state, FetchEvent::Copy(Some("old".to_owned())));
    let state = next(state, FetchEvent::Directory(Ok(())));
    assert!(matches!(&state, FetchState::Writing(contents) if contents == "new"));
    assert_eq!(done(state, FetchEvent::Written(Ok(()))), Ok("new".to_owned()));

    let same = next(FetchState::Downloading, FetchEvent::Downloaded(Ok("new".to_owned())));
    assert_eq!(done(same, FetchEvent::Copy(Some("new".to_owned()))), Ok("new".to_owned()));
    let state = FetchState::MakingDirectory("new".to_owned());
    assert_eq!(
        done(state, FetchEvent::Directory(Err(fault()))),
        Err("failed to create filter cache directory \"p\": full".to_owned())
    );
    let state = FetchState::Writing("new".to_owned());
    assert_eq!(
        done(state, FetchEvent::Written(Err(fault()))),
        Err("failed to write filter cache \"p\": full".to_owned())
    );
}

#[test]
fn a_failed_download_falls_back() {
    let failed = || {
        next(
            start_fetch(FilterFetchMode::Refresh),
            FetchEvent::Downloaded(Err("down".to_owned())),
        )
    };
    assert_eq!(
        done(failed(), FetchEvent::Copy(Some("old".to_owned()))),
        Ok("old".to_owned())
    );
    assert_eq!(
        done(failed(), FetchEvent::Copy(None)),
        Err(format!(
            "failed to download filter {} and no cached copy was available: down",
            filter(None).url
        ))
    );
}

fn config() -> Config {
    Config {
        listen_addrs_ipv4: Vec::new(),
        listen_addrs_ipv6: Vec::new(),
        listen_port: None,
        prometheus_listen_addr: None,
        disable_tcp: None,
        disable_udp: None,
        disable_tls: None,
        disable_https: None,
        disable_quic: None,
        disable_prometheus: None,
        tcp_request_timeout: None,
        log_level: None,
        user: None,
        group: None,
        zones: Vec::new(),
        dns: None,
        filters: Vec::new(),
        user_rules: Vec::new(),
        filtering: FilteringConfig::default(),
    }
}

fn settings(config: &Config) -> ReloadSettings {
    ReloadSettings::from_effective_config(config, "\"c.yaml\"").unwrap()
}

#[test]
fn settings_come_from_the_configuration() {
    let default = settings(&config());
    let any4 = IpAddr::V4(Ipv4Addr { bits: 0 });
    let any6 = IpAddr::V6(Ipv6Addr { bits: 0 });
    assert_eq!(default.listen_addrs, vec![any4, any6]);
    assert_eq!(default.listen_port, 53);
    assert!(default.udp_enabled && default.tcp_enabled);
    assert_eq!(default.tcp_request_timeout_secs, 5);
    let given = settings(&Config {
        listen_addrs_ipv4: vec!["10.0.0.2".to_owned(), "10.0.0.1".to_owned()],
        listen_addrs_ipv6: vec!["::1".to_owned()],
        disable_udp: Some(true),
        ..config()
    });
    assert_eq!(
        given.listen_addrs,
        vec![
            IpAddr::V4(Ipv4Addr::new(10, 0, 0, 1)),
            IpAddr::V4(Ipv4Addr::new(10, 0, 0, 2)),
            IpAddr::V6(Ipv6Addr { bits: 1 })
        ]
    );
    assert_eq!(given.listeners().len(), 3);
    assert!(given.listeners().iter().all(|l| l.protocol == Protocol::Tcp && l.port == 53));
    let both: Vec<Protocol> = default.listeners().iter().map(|l| l.protocol).collect();
    assert_eq!(both, vec![Protocol::Udp, Protocol::Udp, Protocol::Tcp, Protocol::Tcp]);

    let bad = Config {
        listen_addrs_ipv4: vec!["x".to_owned()],
        listen_addrs_ipv6: vec!["x".to_owned()],
        ..config()
    };
    assert_eq!(
        ReloadSettings::from_effective_config(&bad, "\"c.yaml\"").unwrap_err(),
        "failed to parse IPv4 addresses from \"c.yaml\": invalid IPv4 address syntax"
    );
    let bad = Config {
        listen_addrs_ipv6: vec!["x".to_owned()],
        ..config()
    };
    assert_eq!(
        ReloadSettings::from_effective_config(&bad, "\"c.yaml\"").unwrap_err(),
        "failed to parse IPv6 addresses from \"c.yaml\": invalid IPv6 address syntax"
    );
}

#[test]
fn addresses_are_sorted() {
    let v4 = |d| IpAddr::V4(Ipv4Addr::new(1, 1, 1, d));
    let v6 = |bits| IpAddr::V6(Ipv6Addr { bits });
    assert_eq!(
        sorted(vec![v6(2), v4(9), v6(1), v4(3), v4(9)]),
        vec![v4(3), v4(9), v4(9), v6(1), v6(2)]
    );
}

#[test]
fn a_reload_keeps_the_settings() {
    let active = settings(&config());
    assert_eq!(active.ensure_reload_safe(&settings(&config())), Ok(()));
    let reordered = |first: &str, second: &str| {
        settings(&Config {
            listen_addrs_ipv4: vec![first.to_owned(), second.to_owned()],
            ..config()
        })
    };
    assert_eq!(
        reordered("10.0.0.1", "10.0.0.2").ensure_reload_safe(&reordered("10.0.0.2", "10.0.0.1")),
        Ok(())
    );
    let everything = settings(&Config {
        listen_addrs_ipv4: vec!["10.0.0.1".to_owned()],
        listen_port: Some(54),
        disable_udp: Some(true),
        disable_tcp: Some(true),
        tcp_request_timeout: Some(6),
        user: Some("u".to_owned()),
        group: Some("g".to_owned()),
        ..config()
    });
    assert_eq!(
        active.ensure_reload_safe(&everything).unwrap_err(),
        "hot reload only supports resolver and filtering changes; restart required because these \
         settings changed: listen addresses, listen port, UDP enable/disable state, TCP \
         enable/disable state, TCP request timeout, user, group"
    );
    let port = settings(&Config {
        listen_port: Some(54),
        ..config()
    });
    let other_rules = settings(&Config {
        filters: vec![filter(None)],
        user_rules: vec!["||ads.com^".to_owned()],
        log_level: Some("debug".to_owned()),
        ..config()
    });
    assert_eq!(active.ensure_reload_safe(&other_rules), Ok(()));
    assert!(active.ensure_reload_safe(&port).unwrap_err().ends_with("changed: listen port"));
}

#[test]
fn metrics_have_an_endpoint() {
    let given = SocketAddr {
        ip: IpAddr::V4(Ipv4Addr::new(1, 1, 1, 1)),
        port: 1,
        scope_id: 0,
    };
    let default = config().prometheus_listen_addr();
    assert_eq!(prometheus_endpoint(false, None, &config()), Some(default));
    assert_eq!(prometheus_endpoint(false, Some(given), &config()), Some(given));
    assert_eq!(prometheus_endpoint(true, Some(given), &config()), None);
    let off = Config {
        disable_prometheus: Some(true),
        ..config()
    };
    assert_eq!(prometheus_endpoint(false, Some(given), &off), None);
}

#[test]
fn privileges_are_decided() {
    let user = Some("u".to_owned());
    let group = Some("g".to_owned());
    assert_eq!(privilege_plan(&None, &None), Ok(None));
    assert!(matches!(privilege_plan(&user, &group), Ok(Some((u, g))) if u == "u" && g == "g"));
    for (user, group) in [(&user, &None), (&None, &group)] {
        assert_eq!(
            privilege_plan(user, group).unwrap_err(),
            "both 'user' and 'group' must be set together when requesting privilege drop"
        );
    }
    assert!(must_drop_privileges(0, 5) && must_drop_privileges(5, 0));
    assert!(!must_drop_privileges(5, 5));
    assert_eq!(check_account_names("u", "g"), Ok(()));
    assert_eq!(
        check_account_names("u\0", "g\0").unwrap_err(),
        "unable to create CString for user u\0"
    );
    assert_eq!(
        check_account_names("u", "g\0").unwrap_err(),
        "unable to create CString for group g\0. Exiting."
    );
    assert_eq!(check_accounts("u", "g", true, true), Ok(()));
    assert_eq!(
        check_accounts("u", "g", false, false).unwrap_err(),
        "unable to lookup user 'u'. Exiting."
    );
    assert_eq!(
        check_accounts("u", "g", true, false).unwrap_err(),
        "unable to lookup group 'g'. Exiting."
    );
    assert_eq!(check_switch(0, 0), Ok(()));
    assert_eq!(check_switch(-1, -1).unwrap_err(), "unable to set gid. Exiting.");
    assert_eq!(check_switch(0, -1).unwrap_err(), "unable to set uid. Exiting.");
}

/// What dropping privileges does and ends with.
fn dropped(
    user: &str,
    ids: (u32, u32),
    accounts: (Option<u32>, Option<u32>),
    returned: (i32, i32),
) -> (Vec<String>, Result<(), String>) {
    let mut done = Vec::new();
    let mut state = DropState::Asking;
    let mut event = DropEvent::Ids(ids.0, ids.1);
    loop {
        let (next, action) = drop_step(user, "g", state, event);
        state = next;
        event = match action {
            DropAction::LookUp => {
                done.push("look up".to_owned());
                DropEvent::Accounts(accounts.0, accounts.1)
            }
            DropAction::SwitchGroup(gid) => {
                done.push(format!("setgid {gid}"));
                DropEvent::Returned(returned.0)
            }
            DropAction::SwitchUser(uid) => {
                done.push(format!("setuid {uid}"));
                DropEvent::Returned(returned.1)
            }
            DropAction::Finish(result) => {
                assert_eq!(state, DropState::Over);
                return (done, result);
            }
        };
    }
}

#[test]
fn privileges_are_dropped_in_order() {
    let known = (Some(7), Some(8));
    let none: Vec<String> = Vec::new();
    assert_eq!(dropped("u", (5, 5), known, (0, 0)), (none.clone(), Ok(())));
    let all = vec!["look up".to_owned(), "setgid 8".to_owned(), "setuid 7".to_owned()];
    assert_eq!(dropped("u", (0, 5), known, (0, 0)), (all.clone(), Ok(())));
    assert_eq!(dropped("u", (5, 0), known, (0, 0)), (all.clone(), Ok(())));
    assert_eq!(
        dropped("u", (0, 0), known, (-1, 0)),
        (all.clone(), Err("unable to set gid. Exiting.".to_owned()))
    );
    assert_eq!(
        dropped("u", (0, 0), known, (0, -1)),
        (all, Err("unable to set uid. Exiting.".to_owned()))
    );
    let looked = vec!["look up".to_owned()];
    assert_eq!(
        dropped("u", (0, 0), (None, Some(8)), (0, 0)),
        (looked.clone(), Err("unable to lookup user 'u'. Exiting.".to_owned()))
    );
    assert_eq!(
        dropped("u", (0, 0), (Some(7), None), (0, 0)),
        (looked, Err("unable to lookup group 'g'. Exiting.".to_owned()))
    );
    assert_eq!(
        dropped("u\0", (0, 0), known, (0, 0)),
        (none, Err("unable to create CString for user u\0".to_owned()))
    );
}

#[test]
fn the_log_reads() {
    let spans = vec![
        SpanText {
            name: "outer".to_owned(),
            fields: "id=1".to_owned(),
        },
        SpanText {
            name: "inner".to_owned(),
            fields: String::new(),
        },
    ];
    assert_eq!(
        log_line(1700000000, "INFO", "astra_dns", Some(12), &spans, "hello"),
        "1700000000:INFO:astra_dns:12:outer{id=1}:inner:hello\n"
    );
    assert_eq!(log_line(-1, "WARN", "t", None, &vec![], ""), "-1:WARN:t:\n");
    assert_eq!(banner(), vec!["", " Hickory DNS", ""]);
    assert_eq!(finish_server_run("1.0", Ok(())), Ok(()));
    assert_eq!(
        finish_server_run("1.0", Err("gone".to_owned())),
        Err("Hickory DNS 1.0 has encountered an error: gone".to_owned())
    );
}
