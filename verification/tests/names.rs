use astra_dns::name::{domain_of_text, normalized_query_name, DomainName};

fn labels(parts: &[&[u8]]) -> Vec<Vec<u8>> {
    parts.iter().map(|part| part.to_vec()).collect()
}

#[test]
fn labels_have_to_be_valid() {
    assert!(DomainName::new(labels(&[b"a", b"b"]), true).is_some());
    assert!(DomainName::new(labels(&[]), true).is_some());
    assert!(DomainName::new(labels(&[b""]), true).is_none());
    assert!(DomainName::new(vec![vec![b'a'; 63]], true).is_some());
    assert!(DomainName::new(vec![vec![b'a'; 64]], true).is_none());
    assert!(DomainName::new(vec![vec![b'a'; 1]; 127], true).is_some());
    assert!(DomainName::new(vec![vec![b'a'; 1]; 128], true).is_none());
}

#[test]
fn names_say_domains() {
    let name = DomainName::new(labels(&[b"WWW", b"Example", b"com"]), true).unwrap();
    assert_eq!(normalized_query_name(&name), "www.example.com");
    let relative = DomainName::new(labels(&[b"www", b"_tcp"]), false).unwrap();
    assert_eq!(normalized_query_name(&relative), "www._tcp");
    assert_eq!(normalized_query_name(&DomainName::new(labels(&[]), true).unwrap()), "");
    let odd = DomainName::new(labels(&[b"a.b", b"\x07"]), true).unwrap();
    assert_eq!(normalized_query_name(&odd), "a\\.b.\\007");
    assert_eq!(domain_of_text("Foo.BAR.."), "foo.bar");
}

#[test]
fn names_are_compared_by_their_labels() {
    let a = DomainName::new(labels(&[b"A", b"b"]), true).unwrap();
    let b = DomainName::new(labels(&[b"a", b"b"]), false).unwrap();
    assert!(!a.same_labels(&b));
    assert!(a.lowered(true).same_labels(&b));
    assert!(a.lowered(true).is_fqdn());
    assert!(!a.lowered(false).is_fqdn());
    assert_eq!(a.clone(), a);
    assert_eq!(a.labels(), &labels(&[b"A", b"b"]));
    assert!(!a.same_labels(&DomainName::new(labels(&[b"A"]), true).unwrap()));
}
