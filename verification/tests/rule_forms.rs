use astra_dns::domain::suffix_match;
use astra_dns::ip::{IpAddr, Ipv4Addr};
use astra_dns::rule::{
    add_dnstype, adblock_pattern_to_regex, adblock_regex_text, parse_complex_rule,
    parse_dnstype_modifier, parse_hosts_rule, parse_modifiers, parse_simple_adblock_domain_rule,
    rule_with_expression, split_pattern_and_modifiers, strip_comments, Matcher, ParsedModifiers,
    RuleDisposition, TypeConstraint, LONGEST_LITERAL,
};
use astra_dns::text::{chars_of, string_of};

fn expression(pattern: &str) -> String {
    string_of(&adblock_regex_text(&chars_of(pattern)))
}

fn matches(pattern: &str, domain: &str) -> bool {
    let rule = parse_complex_rule(pattern).unwrap().unwrap();
    match rule.matcher {
        Matcher::Regex(regex) => regex.is_match(domain),
    }
}

#[test]
fn comments_are_stripped() {
    assert_eq!(strip_comments("# a"), "");
    assert_eq!(strip_comments("  ! a"), "");
    assert_eq!(strip_comments("a # b"), "a # b");
    assert_eq!(strip_comments(" a"), " a");
}

#[test]
fn simple_rules_are_read() {
    assert_eq!(
        parse_simple_adblock_domain_rule("||Ads.Example.com^"),
        Some((RuleDisposition::Block, "ads.example.com".to_owned(), true))
    );
    assert_eq!(
        parse_simple_adblock_domain_rule("@@||good.example.com|^"),
        Some((RuleDisposition::Allow, "good.example.com".to_owned(), true))
    );
    for line in ["||a$important", "||a*b^", "/a/", "a.b", "|a.b", "||", "||a/b^", "||a^|"] {
        assert_eq!(parse_simple_adblock_domain_rule(line), None, "{line}");
    }
}

#[test]
fn hosts_rules_are_read() {
    assert_eq!(
        parse_hosts_rule("0.0.0.0\tads.example.com  *.Track.example.com a/b"),
        Some((
            IpAddr::V4(Ipv4Addr::new(0, 0, 0, 0)),
            vec!["ads.example.com".to_owned(), "track.example.com".to_owned()]
        ))
    );
    assert_eq!(parse_hosts_rule("1.2.3.4"), None);
    assert_eq!(parse_hosts_rule("1.2.3.4 a/b"), None);
    assert_eq!(parse_hosts_rule("localhost a.b"), None);
    assert_eq!(parse_hosts_rule(""), None);
}

#[test]
fn rules_are_split() {
    assert_eq!(split_pattern_and_modifiers("||a^$x,y"), Ok(("||a^", Some("x,y"))));
    assert_eq!(split_pattern_and_modifiers("||a^"), Ok(("||a^", None)));
    assert_eq!(split_pattern_and_modifiers("a$b$c"), Ok(("a", Some("b$c"))));
    assert_eq!(split_pattern_and_modifiers("/a$/$x"), Ok(("/a$/", Some("x"))));
    assert_eq!(split_pattern_and_modifiers(r"/a\/$x/"), Ok((r"/a\/$x/", None)));
    assert_eq!(split_pattern_and_modifiers("/a/b/"), Ok(("/a/b/", None)));
    for line in ["/", "/a", r"/a\/", r"/a\"] {
        assert_eq!(
            split_pattern_and_modifiers(line),
            Err(format!("unterminated regex rule: {line}")),
        );
    }
    for line in ["", "a", "||grüße^$dnstype=A", "/ä/$b"] {
        let (pattern, modifiers) = split_pattern_and_modifiers(line).unwrap();
        match modifiers {
            Some(modifiers) => assert_eq!(format!("{pattern}${modifiers}"), line),
            None => assert_eq!(pattern, line),
        }
    }
}

#[test]
fn modifiers_are_read() {
    let none = parse_modifiers(None).unwrap();
    assert!(!none.important && none.dnstypes.is_none() && none.denyallow.is_empty());
    let some = parse_modifiers(Some(" important , ,denyallow=a.b|*.c.d")).unwrap();
    assert!(some.important);
    assert_eq!(some.denyallow.len(), 2);
    assert!(!parse_modifiers(Some("important,badfilter")).unwrap().important);
    assert!(parse_modifiers(Some("badfilter,important")).unwrap().important);
    assert_eq!(
        parse_modifiers(Some("important,third-party,x")).err(),
        Some("unsupported modifier: third-party".to_owned())
    );
    assert_eq!(
        parse_modifiers(Some("denyallow=a|")).err(),
        Some("invalid rewrite domain pattern: ".to_owned())
    );
    assert_eq!(
        parse_modifiers(Some("dnstype=A|~AAAA")).err(),
        Some("mixed include/exclude dnstype modifier is unsupported: A|~AAAA".to_owned())
    );
}

#[test]
fn record_types_are_named() {
    match parse_dnstype_modifier("a||cname|AAAA").unwrap() {
        TypeConstraint::Include(types) => {
            assert_eq!(types.len(), 3);
            assert!(types.contains(&1) && types.contains(&5) && types.contains(&28));
        }
        TypeConstraint::Exclude(_) => panic!("expected the types that the rule is for"),
    }
    match parse_dnstype_modifier("~any|~~TXT").unwrap() {
        TypeConstraint::Exclude(types) => {
            assert_eq!(types.len(), 2);
            assert!(types.contains(&255) && types.contains(&16));
        }
        TypeConstraint::Include(_) => panic!("expected the types that the rule is not for"),
    }
    match parse_dnstype_modifier("").unwrap() {
        TypeConstraint::Exclude(types) => assert!(types.is_empty()),
        TypeConstraint::Include(_) => panic!("expected no type that the rule is not for"),
    }
    assert_eq!(
        parse_dnstype_modifier("A|bogus").err(),
        Some("invalid dnstype value: BOGUS".to_owned())
    );
    let mut types = std::collections::HashSet::new();
    assert_eq!(add_dnstype(&mut types, "A", Some(1)), Ok(()));
    assert_eq!(
        add_dnstype(&mut types, "B", None),
        Err("invalid dnstype value: B".to_owned())
    );
    assert_eq!(types.len(), 1);
}

#[test]
fn patterns_become_expressions() {
    assert_eq!(expression("||ac*.786ip.com^"), r"^(?:^|.*\.)ac.*\.786ip\.com$");
    assert_eq!(expression("|load.gtm."), r"^load\.gtm\..*$");
    assert_eq!(expression("|c.blue.*.com^|"), r"^c\.blue\..*\.com$$");
    assert_eq!(expression(".bbelements.com^"), r"^(?:.*\.)?bbelements\.com$");
    assert_eq!(expression("a|b"), r"^.*a\|b.*$");
    assert_eq!(expression(""), "^.*.*$");
    assert_eq!(expression("|"), "^.*$");
    assert_eq!(expression("||"), r"^(?:^|.*\.).*$");
    assert_eq!(expression("?+()[]{}\\"), r"^.*\?\+\(\)\[\]\{\}\\.*$");
}

#[test]
fn expressions_match_domains() {
    assert!(matches("||ac*.786ip.com^", "ac1.786ip.com"));
    assert!(matches("||ac*.786ip.com^", "x.ac1.786ip.com"));
    assert!(!matches("||ac*.786ip.com^", "xac1.786ip.com"));
    assert!(!matches("||ac*.786ip.com^", "ac1.786ip.com.org"));
    assert!(matches("||ping.*.sogou.com^", "ping.a.sogou.com"));
    assert!(matches("|load.gtm.", "load.gtm.example.com"));
    assert!(!matches("|load.gtm.", "x.load.gtm.example.com"));
    assert!(matches(".bbelements.com^", "bbelements.com"));
    assert!(matches(".bbelements.com^", "a.bbelements.com"));
    assert!(!matches(".bbelements.com^", "xbbelements.com"));
    assert!(matches(r"/^(\S+\.)?analytics(\-|\.)/", "www.analytics.example.com"));
    assert!(!matches(r"/^(\S+\.)?analytics(\-|\.)/", "myanalytics.example.com"));
}

#[test]
fn a_domain_pattern_matches_the_domain_and_its_subdomains() {
    let long = "a-b_c.".repeat(1000) + "d";
    for d in ["b", "ads.example.com", "a_b-c.d", "-x", "1.2.3.4", "a..b", ".b", "b.", &long] {
        let regex = adblock_pattern_to_regex(&format!("||{d}^")).unwrap();
        for x in [
            d.to_owned(),
            format!("x.{d}"),
            format!(".{d}"),
            format!("grüße..{d}"),
            format!("x{d}"),
            format!("{d}x"),
            format!("{d}.x"),
            format!("x.{d}."),
            d.replace('.', "x"),
            d.to_uppercase(),
            String::new(),
        ] {
            assert_eq!(regex.is_match(&x), suffix_match(&x, d), "{d:?} {x:?}");
        }
    }
}

#[test]
fn a_domain_pattern_can_be_long() {
    for c in ["a", ".", "-", "_", "9"] {
        let d = c.repeat(LONGEST_LITERAL);
        assert!(adblock_pattern_to_regex(&format!("||{d}^")).is_ok());
    }
    let d = "a".repeat(LONGEST_LITERAL);
    let regex = adblock_pattern_to_regex(&format!("||{d}^")).unwrap();
    assert!(regex.is_match(&d));
    assert!(regex.is_match(&format!("x.{d}")));
    assert!(!regex.is_match(&format!("x{d}")));
    assert!(!regex.is_match(&d[1..]));
    // where pointers take 64 bits, one character more is too many
    assert_eq!(
        adblock_pattern_to_regex(&format!("||{d}a^")).is_err(),
        usize::BITS == 64
    );
}

#[test]
fn a_domain_rule_matches_the_domain_and_its_subdomains() {
    let rule = "@@||ads.example^$important";
    assert_eq!(expression("||ads.example^"), r"^(?:^|.*\.)ads\.example$");
    assert!(matches(rule, "ads.example"));
    assert!(matches(rule, "x.ads.example"));
    assert!(!matches(rule, "xads.example"));
    assert!(!matches(rule, "adsxexample"));
    assert!(!matches(rule, "ads.example.x"));
}

#[test]
fn bad_expressions_are_refused() {
    let err = parse_complex_rule("/a(/").err().unwrap();
    assert!(err.starts_with("invalid regex rule /a(/: regex parse error:"), "{err}");
    assert!(adblock_pattern_to_regex("||a^").is_ok());
    let modifiers = || ParsedModifiers {
        important: true,
        dnstypes: None,
        denyallow: Vec::new(),
    };
    let rule = rule_with_expression("raw", "a", modifiers(), regex::Regex::new("a").map_err(|e| e.to_string()))
        .unwrap();
    assert!(rule.important);
    assert_eq!(rule.raw_text, "raw");
    assert_eq!(
        rule_with_expression("raw", "a", modifiers(), Err("why".to_owned())).err(),
        Some("invalid generated regex for a: why".to_owned())
    );
    assert_eq!(
        rule_with_expression("raw", "/a/", modifiers(), Err("why".to_owned())).err(),
        Some("invalid regex rule /a/: why".to_owned())
    );
}
