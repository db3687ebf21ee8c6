use astra_dns::authority::{
    is_blocked, record_cname, record_ip, rule_matches_found, AnswerSet, Consultation, LastResult,
    Lookup, OverrideAuthority, Record, RecordData, RewriteAuthority, TYPE_A, TYPE_AAAA, TYPE_ANY,
};
use astra_dns::chain::{block_authority, override_authority, rewrite_authority};
use astra_dns::compiled::CompiledRuleSets;
use astra_dns::domain::suffix_match;
use astra_dns::filtering::{
    AdblockRuntimeConfig, BlockingMode, FilteringConfig, RewriteAnswerConfig, RewriteConfig,
};
use astra_dns::ip::{IpAddr, Ipv4Addr, Ipv6Addr};
use astra_dns::name::DomainName;
use astra_dns::overrides::{OverrideRule, OverrideTable};
use astra_dns::rule::parse_complex_rule;

fn name(labels: &[&str]) -> DomainName {
    let labels = labels.iter().map(|label| label.as_bytes().to_vec()).collect();
    DomainName::new(labels, true).expect("valid labels")
}

#[test]
fn suffix_matching_requires_label_boundary() {
    assert!(suffix_match("ads.example.com", "example.com"));
    assert!(suffix_match("example.com", "example.com"));
    assert!(!suffix_match("badexample.com", "example.com"));
}

#[test]
fn extracts_record_ip() {
    let record = Record {
        name: name(&["example", "com"]),
        ttl: 60,
        data: RecordData::A(Ipv4Addr::new(1, 2, 3, 4)),
    };
    assert_eq!(record_ip(&record), Some(IpAddr::V4(Ipv4Addr::new(1, 2, 3, 4))));
}

fn rules(lines: &[&str]) -> CompiledRuleSets {
    CompiledRuleSets::build(
        AdblockRuntimeConfig {
            filters: Vec::new(),
            user_rules: lines.iter().map(|line| line.to_string()).collect(),
            filtering: FilteringConfig::default(),
        },
        Vec::new(),
    )
    .unwrap()
}

fn rewriting(rewrites: Vec<RewriteConfig>) -> RewriteAuthority {
    let compiled = CompiledRuleSets::build(
        AdblockRuntimeConfig {
            filters: Vec::new(),
            user_rules: Vec::new(),
            filtering: FilteringConfig {
                rewrites,
                ..FilteringConfig::default()
            },
        },
        Vec::new(),
    )
    .unwrap();
    rewrite_authority(&name(&[]), &compiled).unwrap().unwrap()
}

fn blocks(lines: &[&str], domain: &str, rtype: u16) -> bool {
    let compiled = rules(lines);
    match block_authority(&name(&[]), &compiled).unwrap() {
        Some(authority) => !matches!(authority.lookup_domain(domain, rtype), Lookup::Skip),
        None => false,
    }
}

#[test]
fn overrides_are_looked_up() {
    let compiled = rules(&["1.2.3.4 Here.com", "::1 here.com"]);
    let authority = override_authority(&name(&[]), &compiled).unwrap().unwrap();
    match authority.lookup(&name(&["HERE", "com"]), TYPE_ANY) {
        Lookup::Answer(sets) => {
            assert_eq!(sets.len(), 2);
            assert!(matches!(&sets[0], AnswerSet::A(60, addrs)
                if *addrs == vec![Ipv4Addr::new(1, 2, 3, 4)]));
            assert!(matches!(&sets[1], AnswerSet::Aaaa(60, addrs)
                if *addrs == vec![Ipv6Addr { bits: 1 }]));
        }
        other => panic!("{other:?}"),
    }
    match authority.lookup(&name(&["here", "com"]), TYPE_A) {
        Lookup::Answer(sets) => assert_eq!(sets.len(), 1),
        other => panic!("{other:?}"),
    }
    // a type without addresses has an empty answer
    match authority.lookup(&name(&["here", "com"]), 16) {
        Lookup::Answer(sets) => assert!(sets.is_empty()),
        other => panic!("{other:?}"),
    }
    let other = name(&["x", "here", "com"]);
    assert!(matches!(authority.lookup(&other, TYPE_A), Lookup::Skip));
    let relative = DomainName::new(vec![b"here".to_vec(), b"com".to_vec()], false).unwrap();
    assert!(matches!(authority.lookup(&relative, TYPE_A), Lookup::Skip));
}

#[test]
fn an_override_of_no_name_is_refused() {
    let long = "a".repeat(64);
    let compiled = rules(&[&format!("1.2.3.4 {long}")]);
    let err = override_authority(&name(&[]), &compiled).unwrap_err();
    assert!(err.starts_with(&format!("invalid override domain {long}: ")), "{err}");
    let mut authority = OverrideAuthority::new(name(&[]), &OverrideTable::new()).unwrap();
    let rule = OverrideRule::default();
    assert_eq!(
        authority.insert("d", Err("why".to_owned()), &rule),
        Err("invalid override domain d: why".to_owned())
    );
    assert_eq!(authority.insert("d", Ok(name(&["D"])), &rule), Ok(()));
    assert!(matches!(authority.lookup(&name(&["d"]), TYPE_A), Lookup::Answer(_)));
}

#[test]
fn rewrites_are_looked_up() {
    let authority = rewriting(vec![
        RewriteConfig {
            domain: Some("*.a.com".to_owned()),
            answer: RewriteAnswerConfig::Single("1.1.1.1".to_owned()),
            ..RewriteConfig::default()
        },
        RewriteConfig {
            domain: Some("x.a.com".to_owned()),
            answer: RewriteAnswerConfig::Single("2.2.2.2".to_owned()),
            ..RewriteConfig::default()
        },
    ]);
    match authority.lookup(&name(&["X", "a", "com"]), TYPE_A) {
        Lookup::Answer(sets) => assert!(matches!(&sets[0], AnswerSet::A(60, addrs)
            if *addrs == vec![Ipv4Addr::new(1, 1, 1, 1)])),
        other => panic!("{other:?}"),
    }
    assert!(matches!(authority.lookup(&name(&["a", "com"]), TYPE_A), Lookup::Skip));
    assert!(matches!(authority.lookup_domain("b.com", TYPE_A), Lookup::Skip));
}

fn record(data: RecordData) -> Record {
    Record {
        name: name(&["q"]),
        ttl: 1,
        data,
    }
}

#[test]
fn answers_are_consulted_about() {
    let authority = rewriting(vec![
        RewriteConfig {
            cname: vec!["domain:cdn.cloudflare.net".to_owned()],
            answer: RewriteAnswerConfig::Single("9.9.9.9".to_owned()),
            ..RewriteConfig::default()
        },
        RewriteConfig {
            ip: vec!["1.1.1.0/24".to_owned()],
            answer: RewriteAnswerConfig::Single("8.8.8.8".to_owned()),
            ..RewriteConfig::default()
        },
    ]);
    let by_cname = record(RecordData::Cname(name(&["CDN", "cloudflare", "net"])));
    let by_ip = record(RecordData::A(Ipv4Addr::new(1, 1, 1, 200)));
    let neither = record(RecordData::A(Ipv4Addr::new(1, 1, 2, 0)));
    let first = |records: &[Record]| match authority.consult(LastResult::ContinueOk, records, TYPE_A)
    {
        Consultation::Replace(sets) => match &sets[0] {
            AnswerSet::A(_, addrs) => Some(addrs[0]),
            AnswerSet::Aaaa(_, _) => None,
        },
        _ => None,
    };
    assert_eq!(first(&[by_cname.clone()]), Some(Ipv4Addr::new(9, 9, 9, 9)));
    // addresses go before the domains that an answer leads through
    assert_eq!(first(&[by_cname.clone(), by_ip.clone()]), Some(Ipv4Addr::new(8, 8, 8, 8)));
    let kept = authority.consult(LastResult::BreakOk, &[neither, record(RecordData::Other)], TYPE_A);
    assert!(matches!(kept, Consultation::Keep));
    for last in [LastResult::BreakErr, LastResult::ContinueErr, LastResult::Skip] {
        let unchanged = authority.consult(last, &[by_ip.clone()], TYPE_A);
        assert!(matches!(unchanged, Consultation::Unchanged));
    }
    assert_eq!(record_cname(&by_cname), Some("cdn.cloudflare.net".to_owned()));
    assert_eq!(record_cname(&by_ip), None);
    let v6 = record(RecordData::Aaaa(Ipv6Addr { bits: 3 }));
    assert_eq!(record_ip(&v6), Some(IpAddr::V6(Ipv6Addr { bits: 3 })));
    assert_eq!(record_ip(&by_cname), None);
}

#[test]
fn rules_have_their_precedence() {
    assert!(blocks(&["||bad.com^"], "x.bad.com", TYPE_A));
    assert!(!blocks(&["||bad.com^"], "xbad.com", TYPE_A));
    assert!(!blocks(&["||bad.com^", "@@||*.bad.com^"], "x.bad.com", TYPE_A));
    assert!(blocks(
        &["@@||*.bad.com^", "||x.*.com^$important"],
        "x.bad.com",
        TYPE_A
    ));
    assert!(!blocks(
        &["@@||*.bad.com^$important", "||x.*.com^$important"],
        "x.bad.com",
        TYPE_A
    ));
    assert!(!blocks(&["@@||good.com^", "||g*d.com^"], "good.com", TYPE_A));
    assert!(!blocks(&["@@||good.com^"], "other.com", TYPE_A));
    let table = [
        (true, true, true, true, false),
        (true, false, false, true, false),
        (false, true, true, false, true),
        (false, false, true, true, false),
        (false, false, false, true, true),
        (false, false, false, false, false),
    ];
    for (important_allow, important_block, allowed, blocked, expected) in table {
        assert_eq!(is_blocked(important_allow, important_block, allowed, blocked), expected);
    }
}

#[test]
fn modifiers_narrow_rules() {
    let typed = ["||t*.com^$dnstype=A|AAAA"];
    assert!(blocks(&typed, "t.com", TYPE_A) && blocks(&typed, "t.com", TYPE_AAAA));
    assert!(!blocks(&typed, "t.com", 16));
    let untyped = ["||t*.com^$dnstype=~A"];
    assert!(!blocks(&untyped, "t.com", TYPE_A) && blocks(&untyped, "t.com", 16));
    let denied = ["||t*.com^$denyallow=tx.com|*.ty.com"];
    assert!(blocks(&denied, "t.com", TYPE_A) && blocks(&denied, "ty.com", TYPE_A));
    assert!(!blocks(&denied, "tx.com", TYPE_A) && !blocks(&denied, "a.ty.com", TYPE_A));
    let rule = parse_complex_rule("||t*.com^$dnstype=A").unwrap().unwrap();
    assert!(rule_matches_found(&rule, "anything", TYPE_A, true));
    assert!(!rule_matches_found(&rule, "anything", TYPE_A, false));
    assert!(!rule_matches_found(&rule, "anything", 16, true));
}

#[test]
fn blocked_queries_are_answered() {
    let mut compiled = rules(&["||bad.com^"]);
    let answer = |compiled: &CompiledRuleSets, rtype: u16| {
        let authority = block_authority(&name(&[]), compiled).unwrap().unwrap();
        authority.lookup(&name(&["Bad", "com"]), rtype)
    };
    match answer(&compiled, TYPE_ANY) {
        Lookup::Answer(sets) => {
            assert!(matches!(&sets[0], AnswerSet::A(60, addrs)
                if *addrs == vec![Ipv4Addr::new(0, 0, 0, 0)]));
            assert!(matches!(&sets[1], AnswerSet::Aaaa(60, addrs)
                if *addrs == vec![Ipv6Addr { bits: 0 }]));
        }
        other => panic!("{other:?}"),
    }
    assert!(matches!(answer(&compiled, 16), Lookup::Answer(sets) if sets.is_empty()));
    compiled.blocking_ipv4 = Some(Ipv4Addr::new(10, 0, 0, 1));
    assert!(matches!(answer(&compiled, TYPE_A), Lookup::Answer(sets)
        if matches!(&sets[0], AnswerSet::A(60, addrs)
            if *addrs == vec![Ipv4Addr::new(10, 0, 0, 1)])));
    compiled.blocking_mode = BlockingMode::Nxdomain;
    assert!(matches!(answer(&compiled, TYPE_A), Lookup::NxDomain));
}
