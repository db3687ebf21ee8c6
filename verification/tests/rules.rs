use astra_dns::compiled::compile_domain_rewrites;
use astra_dns::domain::{domain_pattern_matches, DomainPattern};
use astra_dns::filtering::{RewriteAnswerConfig, RewriteConfig};
use astra_dns::ip::Ipv4Addr;
use astra_dns::rule::{parse_complex_rule, Matcher, RuleOrigin, TypeConstraint};
use astra_dns::rule_sets::{apply_badfilters, parse_rule_line, DisabledRules, RuleSets};

#[test]
fn parses_adblock_and_hosts_rules() {
    let mut rules = RuleSets::default();
    let mut disabled = DisabledRules::new();

    parse_rule_line(
        "||ads.example.com^",
        RuleOrigin::RemoteFilter,
        &mut rules,
        &mut disabled,
    )
    .unwrap();
    parse_rule_line(
        "@@||good.example.com^",
        RuleOrigin::UserRule,
        &mut rules,
        &mut disabled,
    )
    .unwrap();
    parse_rule_line(
        "1.2.3.4 internal.example.com",
        RuleOrigin::UserRule,
        &mut rules,
        &mut disabled,
    )
    .unwrap();

    assert!(rules.block_exact.contains("ads.example.com"));
    assert!(rules.block_subdomains.contains("ads.example.com"));
    assert!(rules.allow_exact.contains("good.example.com"));
    assert!(rules.allow_subdomains.contains("good.example.com"));
    assert_eq!(
        rules
            .overrides
            .get("internal.example.com")
            .expect("override missing")
            .ipv4,
        vec![Ipv4Addr::new(1, 2, 3, 4)]
    );
}

#[test]
fn allowlist_prevents_later_block_rule() {
    let mut rules = RuleSets::default();
    let mut disabled = DisabledRules::new();

    parse_rule_line(
        "@@||video.example.com^",
        RuleOrigin::UserRule,
        &mut rules,
        &mut disabled,
    )
    .unwrap();
    parse_rule_line(
        "||video.example.com^",
        RuleOrigin::RemoteFilter,
        &mut rules,
        &mut disabled,
    )
    .unwrap();

    assert!(!rules.block_exact.contains("video.example.com"));
    assert!(rules.allow_subdomains.contains("video.example.com"));
}

#[test]
fn wildcard_rewrite_pattern_matches_only_subdomains() {
    let pattern = DomainPattern::WildcardSuffix("vrdesktop.net".to_string());
    assert!(domain_pattern_matches(&pattern, "a.vrdesktop.net"));
    assert!(!domain_pattern_matches(&pattern, "vrdesktop.net"));
}

#[test]
fn merges_duplicate_domain_rewrite_answers() {
    let rewrites = vec![
        RewriteConfig {
            domain: Some("its.pkupi.com".to_string()),
            answer: RewriteAnswerConfig::Single("198.41.198.152".to_string()),
            ..RewriteConfig::default()
        },
        RewriteConfig {
            domain: Some("its.pkupi.com".to_string()),
            answer: RewriteAnswerConfig::Single("104.27.105.80".to_string()),
            ..RewriteConfig::default()
        },
    ];

    let compiled = compile_domain_rewrites(&rewrites).expect("compile failed");
    assert_eq!(compiled.len(), 1);
    assert_eq!(compiled[0].answer.ipv4.len(), 2);
}

#[test]
fn parses_complex_rule_with_modifiers() {
    let rule = parse_complex_rule(r"||*serror*.wo.com.cn^$dnstype=A|CNAME")
        .expect("parse failed")
        .expect("missing rule");
    assert!(matches!(rule.dnstypes, Some(TypeConstraint::Include(_))));
}

#[test]
fn parses_regex_rule_with_modifiers() {
    let rule = parse_complex_rule(r"/^(\S+\.)?9377[a-z0-9]{2}\.com$/$dnstype=A")
        .expect("parse failed")
        .expect("missing rule");
    assert!(matches!(rule.dnstypes, Some(TypeConstraint::Include(_))));
}

#[test]
fn badfilter_disables_simple_rule() {
    let mut rules = RuleSets::default();
    let mut disabled = DisabledRules::new();

    parse_rule_line(
        "||pl.ua^",
        RuleOrigin::RemoteFilter,
        &mut rules,
        &mut disabled,
    )
    .unwrap();
    parse_rule_line(
        "||pl.ua^$badfilter",
        RuleOrigin::RemoteFilter,
        &mut rules,
        &mut disabled,
    )
    .unwrap();
    apply_badfilters(&mut rules, &disabled);

    assert!(!rules.block_subdomains.contains("pl.ua"));
}

#[test]
fn preserves_hash_inside_regex_rule() {
    let rule = parse_complex_rule(r"/\.(gif|jpe?g|png|webp)#(\/?.+)?(\/(ad)s?\/|\/ad-)/")
        .expect("parse failed")
        .expect("missing rule");
    assert!(matches!(rule.matcher, Matcher::Regex(_)));
}
