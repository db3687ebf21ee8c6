use astra_dns::compiled::{
    compile_answer_ip_rewrites, compile_cname_rewrites, compile_domain_rewrites, rewrite_net,
    CompiledRuleSets,
};
use astra_dns::domain::DomainPattern;
use astra_dns::filtering::{
    is_adblock_enabled, AdblockRuntimeConfig, BlockingMode, FilterConfig, FilteringConfig,
    LanHostsConfig, RewriteAnswerConfig, RewriteConfig,
};
use astra_dns::ip::{IpAddr, IpNet, Ipv4Addr, Ipv6Addr};
use astra_dns::overrides::{
    merge_override_rule, parse_override_answer, OverrideRule, OverrideTable,
};
use astra_dns::rule::{RuleDisposition, RuleOrigin};
use astra_dns::rule_sets::{
    add_domain_rule, add_override, apply_badfilters, covered, is_allowed, parse_rule_line,
    parse_rule_lines, remove_domain_rule, DisabledRules, RuleSets,
};

fn add(rules: &mut RuleSets, disabled: &mut DisabledRules, origin: RuleOrigin, line: &str) {
    parse_rule_line(line, origin, rules, disabled).unwrap();
}

fn config(user_rules: &[&str]) -> AdblockRuntimeConfig {
    AdblockRuntimeConfig {
        filters: Vec::new(),
        user_rules: user_rules.iter().map(|rule| rule.to_string()).collect(),
        filtering: FilteringConfig::default(),
    }
}

fn single(answer: &str) -> RewriteAnswerConfig {
    RewriteAnswerConfig::Single(answer.to_owned())
}

#[test]
fn hosts_lines_block_or_override() {
    let mut rules = RuleSets::default();
    let mut disabled = DisabledRules::new();
    add(&mut rules, &mut disabled, RuleOrigin::RemoteFilter, "0.0.0.0 a.com b.com");
    assert!(rules.block_exact.contains("a.com") && rules.block_exact.contains("b.com"));
    assert!(rules.block_subdomains.is_empty());
    assert!(rules.overrides.is_empty());
    add(&mut rules, &mut disabled, RuleOrigin::UserRule, "1.2.3.4 c.com");
    add(&mut rules, &mut disabled, RuleOrigin::UserRule, "1.2.3.4 c.com");
    add(&mut rules, &mut disabled, RuleOrigin::UserRule, "::1 c.com");
    let rule = rules.overrides.get("c.com").unwrap();
    assert_eq!(rule.ipv4, vec![Ipv4Addr::new(1, 2, 3, 4)]);
    assert_eq!(rule.ipv6, vec![Ipv6Addr { bits: 1 }]);
    assert!(!rules.block_exact.contains("c.com"));
}

#[test]
fn comments_and_plain_domains() {
    let mut rules = RuleSets::default();
    let mut disabled = DisabledRules::new();
    for line in ["", "   ", "# ads.com", "! ads.com"] {
        add(&mut rules, &mut disabled, RuleOrigin::RemoteFilter, line);
    }
    assert!(rules.block_exact.is_empty());
    add(&mut rules, &mut disabled, RuleOrigin::RemoteFilter, "  Ads.com ");
    assert!(rules.block_exact.contains("ads.com"));
    assert!(!rules.block_subdomains.contains("ads.com"));
}

#[test]
fn an_allowed_domain_stays_allowed() {
    let mut rules = RuleSets::default();
    let mut disabled = DisabledRules::new();
    add(&mut rules, &mut disabled, RuleOrigin::RemoteFilter, "||a.b.com^");
    add(&mut rules, &mut disabled, RuleOrigin::UserRule, "@@||b.com^");
    for line in ["||x.b.com^", "y.b.com", "0.0.0.0 z.b.com", "||b.com^"] {
        add(&mut rules, &mut disabled, RuleOrigin::RemoteFilter, line);
    }
    assert!(is_allowed("x.b.com", &rules));
    for domain in ["x.b.com", "y.b.com", "z.b.com", "b.com"] {
        assert!(!rules.block_exact.contains(domain), "{domain}");
    }
    // a rule from before is taken back only on the domain itself
    assert!(rules.block_exact.contains("a.b.com"));
}

#[test]
fn sets_cover_subdomains() {
    let mut rules = RuleSets::default();
    add_domain_rule(RuleDisposition::Block, "b.com", true, &mut rules);
    for domain in ["b.com", "a.b.com", "x.a.b.com"] {
        assert!(covered(&rules.block_subdomains, domain), "{domain}");
    }
    for domain in ["ab.com", "com", "b.com.org", ""] {
        assert!(!covered(&rules.block_subdomains, domain), "{domain}");
    }
    remove_domain_rule(RuleDisposition::Block, "b.com", true, &mut rules);
    assert!(rules.block_exact.is_empty() && rules.block_subdomains.is_empty());
    add_domain_rule(RuleDisposition::Allow, "c.com", true, &mut rules);
    remove_domain_rule(RuleDisposition::Allow, "c.com", false, &mut rules);
    assert!(!rules.allow_exact.contains("c.com") && rules.allow_subdomains.contains("c.com"));
    add_override(IpAddr::V4(Ipv4Addr::new(1, 1, 1, 1)), "d.com", &mut rules);
    assert_eq!(rules.overrides.len(), 1);
}

#[test]
fn bad_filters_work_in_any_order() {
    let mut rules = RuleSets::default();
    let mut disabled = DisabledRules::new();
    for line in [
        "||early.com^$badfilter",
        "||early.com^",
        "||w*.com^",
        "||w*.com^$badfilter",
        "||x*.com^,$badfilter",
        "||x*.com^",
        "@@||kept.com^",
        "@@||gone.com^",
        "@@||gone.com^$badfilter",
    ] {
        add(&mut rules, &mut disabled, RuleOrigin::RemoteFilter, line);
    }
    assert!(disabled.contains("||early.com^"));
    assert!(disabled.contains("||x*.com^"));
    apply_badfilters(&mut rules, &disabled);
    assert!(!rules.block_exact.contains("early.com"));
    assert!(!rules.block_subdomains.contains("early.com"));
    assert!(rules.allow_exact.contains("kept.com"));
    assert!(!rules.allow_exact.contains("gone.com"));
    assert!(rules.block_rules.is_empty());
    // in front of the words there is either a pattern or a comma behind one
    let line = "||w*.com^$important,$badfilter";
    assert_eq!(
        parse_rule_line(line, RuleOrigin::UserRule, &mut rules, &mut disabled),
        Err("unsupported modifier: $badfilter".to_owned())
    );
}

#[test]
fn without_bad_filters_nothing_is_removed() {
    let mut rules = RuleSets::default();
    let mut disabled = DisabledRules::new();
    for line in ["||a.com^", "@@||b.com^", "||c*.com^", "@@||d*.com^", "1.2.3.4 e.com"] {
        add(&mut rules, &mut disabled, RuleOrigin::UserRule, line);
    }
    apply_badfilters(&mut rules, &disabled);
    assert!(rules.block_exact.contains("a.com") && rules.block_subdomains.contains("a.com"));
    assert!(rules.allow_exact.contains("b.com") && rules.allow_subdomains.contains("b.com"));
    assert_eq!((rules.block_rules.len(), rules.allow_rules.len()), (1, 1));
    assert_eq!(rules.overrides.len(), 1);
}

#[test]
fn no_domain_is_both_blocked_and_allowed() {
    for lines in [["||a.com^", "@@||a.com^"], ["@@||a.com^", "||a.com^"]] {
        let built = CompiledRuleSets::validate(config(&lines)).unwrap();
        assert!(built.allow_exact.contains("a.com") && built.allow_subdomains.contains("a.com"));
        assert!(built.block_exact.is_empty() && built.block_subdomains.is_empty());
    }
}

#[test]
fn bad_filters_of_plain_domains() {
    let mut rules = RuleSets::default();
    add_domain_rule(RuleDisposition::Block, "a.com", true, &mut rules);
    add_domain_rule(RuleDisposition::Allow, "b.com", true, &mut rules);
    let mut disabled = DisabledRules::new();
    disabled.insert("a.com".to_owned());
    disabled.insert("b.com".to_owned());
    apply_badfilters(&mut rules, &disabled);
    assert!(rules.block_exact.is_empty() && rules.allow_exact.is_empty());
    assert!(rules.block_subdomains.contains("a.com") && rules.allow_subdomains.contains("b.com"));
}

#[test]
fn a_line_that_is_no_rule_stops_a_list() {
    let mut rules = RuleSets::default();
    let mut disabled = DisabledRules::new();
    let err = parse_rule_lines(
        "a.com\r\n||b.com^$third-party\nc.com\n",
        RuleOrigin::RemoteFilter,
        &mut rules,
        &mut disabled,
    )
    .unwrap_err();
    assert_eq!(err, "unsupported modifier: third-party");
    assert!(rules.block_exact.contains("a.com"));
    assert!(!rules.block_exact.contains("c.com"));
}

#[test]
fn overrides_are_merged() {
    let mut target = parse_override_answer("1.1.1.1").unwrap();
    let source = OverrideRule {
        ipv4: vec![Ipv4Addr::new(1, 1, 1, 1), Ipv4Addr::new(2, 2, 2, 2)],
        ipv6: vec![Ipv6Addr { bits: 7 }, Ipv6Addr { bits: 7 }],
    };
    merge_override_rule(&mut target, &source);
    merge_override_rule(&mut target, &source);
    assert_eq!(target.ipv4, source.ipv4);
    assert_eq!(target.ipv6, vec![Ipv6Addr { bits: 7 }]);
    assert_eq!(
        parse_override_answer("nope").unwrap_err(),
        "invalid rewrite answer nope: invalid IP address syntax"
    );
    let mut table = OverrideTable::new();
    assert!(table.is_empty());
    table.add(IpAddr::V4(Ipv4Addr::new(1, 2, 3, 4)), "a");
    table.add(IpAddr::V6(Ipv6Addr { bits: 1 }), "b");
    table.add(IpAddr::V4(Ipv4Addr::new(4, 3, 2, 1)), "a");
    assert_eq!(table.len(), 2);
    assert_eq!(table.entry(0).0, "a");
    assert_eq!(table.get("a").unwrap().ipv4.len(), 2);
    assert!(table.get("c").is_none());
}

#[test]
fn answers_have_values() {
    assert!(RewriteAnswerConfig::Empty.values().is_empty());
    assert_eq!(single("a").values().to_vec(), vec!["a".to_owned()]);
    let both = vec!["a".to_owned(), "b".to_owned()];
    assert_eq!(RewriteAnswerConfig::Multiple(both.clone()).values().to_vec(), both);
}

#[test]
fn domain_rewrites_are_compiled() {
    let rewrites = vec![
        RewriteConfig {
            domain: Some("*.a.com".to_owned()),
            answer: RewriteAnswerConfig::Multiple(vec!["1.1.1.1".to_owned(), "::1".to_owned()]),
            ..RewriteConfig::default()
        },
        RewriteConfig {
            ip: vec!["1.1.1.0/24".to_owned()],
            answer: single("2.2.2.2"),
            ..RewriteConfig::default()
        },
        RewriteConfig {
            domain: Some("a.com".to_owned()),
            answer: single("3.3.3.3"),
            ..RewriteConfig::default()
        },
    ];
    let compiled = compile_domain_rewrites(&rewrites).unwrap();
    assert_eq!(compiled.len(), 2);
    assert_eq!(compiled[0].pattern, DomainPattern::WildcardSuffix("a.com".to_owned()));
    assert_eq!(compiled[0].answer.ipv4, vec![Ipv4Addr::new(1, 1, 1, 1)]);
    assert_eq!(compiled[0].answer.ipv6, vec![Ipv6Addr { bits: 1 }]);
    assert_eq!(compiled[1].pattern, DomainPattern::Exact("a.com".to_owned()));

    let named = |domain: &str, answers: &[&str]| RewriteConfig {
        domain: Some(domain.to_owned()),
        answer: RewriteAnswerConfig::Multiple(answers.iter().map(|a| a.to_string()).collect()),
        ..RewriteConfig::default()
    };
    let merged = compile_domain_rewrites(&[
        named("B.com", &["1.1.1.1", "::1"]),
        named("c.com", &["9.9.9.9"]),
        named("b.com.", &["2.2.2.2", "1.1.1.1", "::2"]),
    ])
    .unwrap();
    assert_eq!(merged.len(), 2);
    assert_eq!(merged[0].pattern, DomainPattern::Exact("b.com".to_owned()));
    assert_eq!(
        merged[0].answer.ipv4,
        vec![Ipv4Addr::new(1, 1, 1, 1), Ipv4Addr::new(2, 2, 2, 2)]
    );
    assert_eq!(merged[0].answer.ipv6, vec![Ipv6Addr { bits: 1 }, Ipv6Addr { bits: 2 }]);
    assert_eq!(merged[1].answer.ipv4, vec![Ipv4Addr::new(9, 9, 9, 9)]);
    assert!(merged[1].answer.ipv6.is_empty());

    let unanswered = vec![RewriteConfig {
        domain: Some("a.com".to_owned()),
        ..RewriteConfig::default()
    }];
    assert_eq!(
        compile_domain_rewrites(&unanswered).err(),
        Some("invalid rewrite answer : invalid IP address syntax".to_owned())
    );
    let misnamed = vec![RewriteConfig {
        domain: Some("a/b".to_owned()),
        answer: single("1.1.1.1"),
        ..RewriteConfig::default()
    }];
    assert_eq!(
        compile_domain_rewrites(&misnamed).err(),
        Some("invalid rewrite domain pattern: a/b".to_owned())
    );
}

#[test]
fn answer_rewrites_are_compiled() {
    let rewrites = vec![
        RewriteConfig {
            domain: Some("a.com".to_owned()),
            answer: single("1.1.1.1"),
            ..RewriteConfig::default()
        },
        RewriteConfig {
            ip: vec!["1.1.1.7/24".to_owned(), "fd00::/8".to_owned()],
            cname: vec!["domain:cdn.cloudflare.net".to_owned(), "*.b.net".to_owned()],
            answer: single("2.2.2.2"),
            ..RewriteConfig::default()
        },
    ];
    let nets = compile_answer_ip_rewrites(&rewrites).unwrap();
    assert_eq!(nets.len(), 1);
    assert_eq!(
        nets[0].nets,
        vec![
            IpNet::V4(Ipv4Addr::new(1, 1, 1, 7), 24),
            IpNet::V6(Ipv6Addr { bits: 0xfd00 << 112 }, 8)
        ]
    );
    let cnames = compile_cname_rewrites(&rewrites).unwrap();
    assert_eq!(cnames.len(), 1);
    assert_eq!(
        cnames[0].patterns,
        vec![
            DomainPattern::Exact("cdn.cloudflare.net".to_owned()),
            DomainPattern::WildcardSuffix("b.net".to_owned())
        ]
    );
    for net in ["1.1.1.1", "1.1.1.0/33", "1.1.1.0/", "::/129", "x/8"] {
        let bad = vec![RewriteConfig {
            ip: vec![net.to_owned()],
            answer: single("1.1.1.1"),
            ..RewriteConfig::default()
        }];
        assert_eq!(
            compile_answer_ip_rewrites(&bad).err(),
            Some(format!("invalid rewrite IP network {net}: invalid IP address syntax"))
        );
    }
    let bad = vec![RewriteConfig {
        cname: vec!["domain:a b".to_owned()],
        answer: single("1.1.1.1"),
        ..RewriteConfig::default()
    }];
    assert_eq!(
        compile_cname_rewrites(&bad).err(),
        Some("invalid rewrite domain pattern: a b".to_owned())
    );
    let net = IpNet::V4(Ipv4Addr::new(1, 0, 0, 0), 8);
    assert_eq!(rewrite_net("n", Ok(net)), Ok(net));
    assert_eq!(
        rewrite_net("n", Err("e".to_owned())),
        Err("invalid rewrite IP network n: e".to_owned())
    );
}

#[test]
fn rule_sets_are_built() {
    let mut given = config(&["@@||good.com^", "1.2.3.4 here.com", "||pl.ua^$badfilter"]);
    given.filtering.blocking_mode = BlockingMode::Nxdomain;
    let fetched = vec![
        Ok("||bad.com^\n||good.com^\n||pl.ua^\n".to_owned()),
        Err("not had".to_owned()),
        Ok("0.0.0.0 worse.com".to_owned()),
    ];
    let built = CompiledRuleSets::build(given, fetched).unwrap();
    assert!(built.block_exact.contains("bad.com") && built.block_exact.contains("worse.com"));
    // the allow rule comes behind the list and takes its rule back
    assert!(!built.block_exact.contains("good.com"));
    assert!(built.allow_exact.contains("good.com"));
    assert!(!built.block_exact.contains("pl.ua"));
    assert!(built.overrides.get("here.com").is_some());
    assert_eq!(built.blocking_mode, BlockingMode::Nxdomain);
    assert_eq!(built.block_ttl, 60);
}

#[test]
fn validation_needs_no_lists() {
    let checked = CompiledRuleSets::validate(config(&["||bad.com^"])).unwrap();
    assert!(checked.block_exact.contains("bad.com"));
    assert_eq!(
        CompiledRuleSets::validate(config(&["||a^$nope"])).err(),
        Some("unsupported modifier: nope".to_owned())
    );
    let left_out = CompiledRuleSets::build(config(&["||bad.com^"]), vec![Err("e".to_owned())]);
    assert!(left_out.unwrap().block_exact.contains("bad.com"));
}

#[test]
fn filtering_is_on_or_off() {
    let mut lan_hosts = LanHostsConfig::default();
    assert!(lan_hosts.enabled && lan_hosts.include_unqualified);
    assert_eq!(lan_hosts.source, "/var/dhcp.leases");
    assert_eq!(lan_hosts.domain.as_deref(), Some("lan"));
    assert_eq!(lan_hosts.refresh_interval_secs, 60);
    let mut filtering = FilteringConfig::default();
    assert!(is_adblock_enabled(&[], &[], &filtering, &lan_hosts));
    lan_hosts.enabled = false;
    assert!(!is_adblock_enabled(&[], &[], &filtering, &lan_hosts));
    let mut filters = vec![FilterConfig::default()];
    assert!(!is_adblock_enabled(&filters, &[], &filtering, &lan_hosts));
    filters[0].enabled = true;
    assert!(is_adblock_enabled(&filters, &[], &filtering, &lan_hosts));
    assert!(is_adblock_enabled(&[], &["x".to_owned()], &filtering, &lan_hosts));
    filtering.rewrites.push(RewriteConfig::default());
    assert!(is_adblock_enabled(&[], &[], &filtering, &lan_hosts));
    let mut config = config(&[]);
    config.filters = vec![FilterConfig::default(), filters[0].clone()];
    let enabled = config.enabled_filters();
    assert_eq!(enabled.len(), 1);
    assert!(enabled[0].enabled);
}
