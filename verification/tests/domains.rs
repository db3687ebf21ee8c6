use astra_dns::domain::{
    any_pattern_matches, domain_pattern_matches, normalize_domain, parse_domain_pattern,
    suffix_match, DomainPattern,
};

#[test]
fn domains_are_normalized() {
    assert_eq!(normalize_domain("  Ads.Example.COM. "), Some("ads.example.com".to_owned()));
    assert_eq!(normalize_domain("*.*.a.b"), Some("a.b".to_owned()));
    assert_eq!(normalize_domain("..a_b-c.."), Some("a_b-c".to_owned()));
    for t in ["", "...", "a b", "a/b", "a:b", "grüße.de", "a*b", "||a^", "*."] {
        assert_eq!(normalize_domain(t), None, "{t:?}");
    }
}

#[test]
fn a_normal_domain_is_stable() {
    let once = normalize_domain(" *.Foo.Bar. ").unwrap();
    assert_eq!(normalize_domain(&once), Some(once.clone()));
    // a dot that `*.` uncovers is kept, and trimmed the next time
    assert_eq!(normalize_domain("*..foo"), Some(".foo".to_owned()));
    assert_eq!(normalize_domain(".foo"), Some("foo".to_owned()));
}

#[test]
fn suffixes_end_at_labels() {
    assert!(suffix_match("a.b.c", "b.c"));
    assert!(suffix_match(".b.c", "b.c"));
    assert!(!suffix_match("b.c", "a.b.c"));
    assert!(!suffix_match("xb.c", "b.c"));
    assert!(suffix_match("a.", ""));
    assert!(suffix_match("", ""));
    assert!(!suffix_match("a", ""));
}

#[test]
fn patterns_are_read() {
    assert_eq!(
        parse_domain_pattern("Time.Facebook.com"),
        Ok(DomainPattern::Exact("time.facebook.com".to_owned()))
    );
    assert_eq!(
        parse_domain_pattern(" *.VRdesktop.net"),
        Ok(DomainPattern::WildcardSuffix("vrdesktop.net".to_owned()))
    );
    assert_eq!(
        parse_domain_pattern("a b"),
        Err("invalid rewrite domain pattern: a b".to_owned())
    );
}

#[test]
fn patterns_cover_domains() {
    let list = vec![
        DomainPattern::Exact("a.b".to_owned()),
        DomainPattern::WildcardSuffix("c.d".to_owned()),
    ];
    assert!(domain_pattern_matches(&list[0], "a.b"));
    assert!(!domain_pattern_matches(&list[0], "x.a.b"));
    assert!(any_pattern_matches(&list, "a.b"));
    assert!(any_pattern_matches(&list, "x.y.c.d"));
    assert!(!any_pattern_matches(&list, "c.d"));
    assert!(!any_pattern_matches(&list, "xc.d"));
}
