//! Who answers a query in place of the servers upstream: overrides, rewrites
//! and the block list.
use vstd::prelude::*;

use std::sync::Arc;

use vstd::hash_set::StringHashSet;

use crate::compiled;
use crate::compiled::{
    AnswerIpRewriteRule, AnswerIpRewriteView, CnameRewriteRule, CnameRewriteView,
    DomainRewriteRule, DomainRewriteView,
};
use crate::domain;
use crate::filtering::BlockingMode;
use crate::ip::{IpAddr, IpNet, Ipv4Addr, Ipv6Addr};
use crate::name;
use crate::name::{DomainName, NameView};
use crate::overrides::{OverrideRule, OverrideTable, OverrideView};
use crate::rule;
use crate::rule::{CompiledMatchRule, Matcher, RuleView, TypeConstraint, TypesView};
use crate::rule_sets;

verus! {

broadcast use vstd::std_specs::hash::group_hash_axioms;

/// The codes of the record types that answers are made of.
pub const TYPE_A: u16 = 1;

pub const TYPE_AAAA: u16 = 28;

/// The code of a query for records of every type.
pub const TYPE_ANY: u16 = 255;

/// How many seconds an answer with the addresses of a rule may be kept.
pub const OVERRIDE_TTL: u32 = 60;

/// Records of one type for the name of a query: how many seconds they may be
/// kept, and their addresses.
#[derive(Debug)]
pub enum AnswerSet {
    A(u32, Vec<Ipv4Addr>),
    Aaaa(u32, Vec<Ipv6Addr>),
}

/// What an `AnswerSet` holds.
pub enum AnswerView {
    A(u32, Seq<Ipv4Addr>),
    Aaaa(u32, Seq<Ipv6Addr>),
}

impl View for AnswerSet {
    type V = AnswerView;

    open spec fn view(&self) -> AnswerView {
        match *self {
            AnswerSet::A(ttl, addrs) => AnswerView::A(ttl, addrs@),
            AnswerSet::Aaaa(ttl, addrs) => AnswerView::Aaaa(ttl, addrs@),
        }
    }
}

/// What the sets of `v` hold.
pub open spec fn answers(v: Seq<AnswerSet>) -> Seq<AnswerView> {
    v.map_values(|a: AnswerSet| a@)
}

/// What comes of asking: the next one is to be asked, or the query is
/// answered with records, or with the word that there is no such domain.
#[derive(Debug)]
pub enum Lookup {
    Skip,
    Answer(Vec<AnswerSet>),
    NxDomain,
}

/// What a `Lookup` says.
pub enum LookupView {
    Skip,
    Answer(Seq<AnswerView>),
    NxDomain,
}

impl View for Lookup {
    type V = LookupView;

    open spec fn view(&self) -> LookupView {
        match *self {
            Lookup::Skip => LookupView::Skip,
            Lookup::Answer(sets) => LookupView::Answer(answers(sets@)),
            Lookup::NxDomain => LookupView::NxDomain,
        }
    }
}

/// A query for the type `rtype` asks for records of type `wanted`.
pub open spec fn asks_for(rtype: u16, wanted: u16) -> bool {
    rtype == wanted || rtype == TYPE_ANY
}

/// The records that a rule has for a query.
pub open spec fn override_answer(rule: OverrideView, rtype: u16) -> Seq<AnswerView> {
    (if asks_for(rtype, TYPE_A) && rule.ipv4.len() > 0 {
        seq![AnswerView::A(OVERRIDE_TTL, rule.ipv4)]
    } else {
        Seq::empty()
    }) + (if asks_for(rtype, TYPE_AAAA) && rule.ipv6.len() > 0 {
        seq![AnswerView::Aaaa(OVERRIDE_TTL, rule.ipv6)]
    } else {
        Seq::empty()
    })
}

/// The records that a rule has for a query.
pub fn override_lookup_records(rule: &OverrideRule, rtype: u16) -> (r: Vec<AnswerSet>)
    ensures
        answers(r@) == override_answer(rule@, rtype),
{
    let mut sets: Vec<AnswerSet> = Vec::new();
    let copy = rule.clone();
    if (rtype == TYPE_A || rtype == TYPE_ANY) && rule.ipv4.len() > 0 {
        sets.push(AnswerSet::A(OVERRIDE_TTL, copy.ipv4));
    }
    if (rtype == TYPE_AAAA || rtype == TYPE_ANY) && rule.ipv6.len() > 0 {
        sets.push(AnswerSet::Aaaa(OVERRIDE_TTL, copy.ipv6));
    }
    assert(answers(sets@) =~= override_answer(rule@, rtype));
    sets
}

/// The records that lead nowhere, for a query that is blocked.
pub open spec fn block_answer(
    rtype: u16,
    blocking_ipv4: Ipv4Addr,
    blocking_ipv6: Ipv6Addr,
    ttl: u32,
) -> Seq<AnswerView> {
    (if asks_for(rtype, TYPE_A) {
        seq![AnswerView::A(ttl, seq![blocking_ipv4])]
    } else {
        Seq::empty()
    }) + (if asks_for(rtype, TYPE_AAAA) {
        seq![AnswerView::Aaaa(ttl, seq![blocking_ipv6])]
    } else {
        Seq::empty()
    })
}

/// The records that lead nowhere, for a query that is blocked.
pub fn block_lookup_records(
    rtype: u16,
    blocking_ipv4: Ipv4Addr,
    blocking_ipv6: Ipv6Addr,
    ttl: u32,
) -> (r: Vec<AnswerSet>)
    ensures
        answers(r@) == block_answer(rtype, blocking_ipv4, blocking_ipv6, ttl),
{
    let mut sets: Vec<AnswerSet> = Vec::new();
    if rtype == TYPE_A || rtype == TYPE_ANY {
        let addrs = vec![blocking_ipv4];
        assert(addrs@ =~= seq![blocking_ipv4]);
        sets.push(AnswerSet::A(ttl, addrs));
    }
    if rtype == TYPE_AAAA || rtype == TYPE_ANY {
        let addrs = vec![blocking_ipv6];
        assert(addrs@ =~= seq![blocking_ipv6]);
        sets.push(AnswerSet::Aaaa(ttl, addrs));
    }
    assert(answers(sets@) =~= block_answer(rtype, blocking_ipv4, blocking_ipv6, ttl));
    sets
}

/// A name and the rule for it.
#[derive(Debug)]
pub struct NamedOverride {
    pub name: DomainName,
    pub rule: OverrideRule,
}

/// The rules of `entries` by the labels of their names; of two rules for one
/// name the later one.
pub open spec fn named_map(entries: Seq<NamedOverride>) -> Map<Seq<Seq<u8>>, OverrideView>
    decreases entries.len(),
{
    if entries.len() == 0 {
        Map::empty()
    } else {
        named_map(entries.drop_last()).insert(
            entries.last().name.label_view(),
            entries.last().rule@,
        )
    }
}

/// The labels that an override of `domain` is for, where `parsed` is what
/// `Name::from_ascii` makes of the domain.
pub open spec fn named_labels(parsed: Result<(Seq<Seq<u8>>, bool), Seq<char>>) -> Option<
    Seq<Seq<u8>>,
> {
    match parsed {
        Ok((labels, _)) => Some(name::lower_labels(labels)),
        Err(_) => None,
    }
}

/// The labels that an override of `domain` is for.
pub open spec fn override_labels(domain: Seq<char>) -> Option<Seq<Seq<u8>>> {
    named_labels(name::name_from_ascii(domain))
}

/// The words about a domain that is no name.
pub open spec fn bad_override_text(domain: Seq<char>, err: Seq<char>) -> Seq<char> {
    "invalid override domain "@ + domain + ": "@ + err
}

/// Whether `named` are the rules of `overrides` by the names that the domains
/// are. Every domain is a name, and one without a dot at its end that of what
/// stands between its dots; of two domains that are the same name, one has its
/// rule.
pub open spec fn names_overrides(
    named: Map<Seq<Seq<u8>>, OverrideView>,
    overrides: Map<Seq<char>, OverrideView>,
) -> bool {
    &&& forall|d: Seq<char>| #[trigger]
        overrides.contains_key(d) ==> override_labels(d) is Some && named.contains_key(
            override_labels(d).unwrap(),
        ) && (name::dotted_text(d) ==> override_labels(d) == Some(
            name::lower_labels(name::domain_labels(d)),
        ))
    &&& forall|labels: Seq<Seq<u8>>| #[trigger]
        named.contains_key(labels) ==> exists|d: Seq<char>| #[trigger]
            overrides.contains_key(d) && override_labels(d) == Some(labels) && overrides[d]
                == named[labels]
}

/// Whether one of the domains is no name. A plain domain is one.
pub open spec fn has_bad_override(overrides: Map<Seq<char>, OverrideView>) -> bool {
    exists|d: Seq<char>| #[trigger]
        overrides.contains_key(d) && name::name_from_ascii(d) is Err && !name::plain_domain(d)
}

/// Whether `message` tells of one of the domains that it is no name. A plain
/// domain is one.
pub open spec fn bad_override(
    overrides: Map<Seq<char>, OverrideView>,
    message: Seq<char>,
) -> bool {
    exists|d: Seq<char>| #[trigger]
        overrides.contains_key(d) && name::name_from_ascii(d) is Err && !name::plain_domain(d)
            && message == bad_override_text(d, name::name_from_ascii(d)->Err_0)
}

/// Answers the names that have overrides.
#[derive(Debug)]
pub struct OverrideAuthority {
    pub origin: DomainName,
    pub overrides: Vec<NamedOverride>,
}

/// What an `OverrideAuthority` says: the zone that it is for, and its rules by
/// the labels of their names.
#[verifier::ext_equal]
pub struct OverrideAuthorityView {
    pub origin: NameView,
    pub named: Map<Seq<Seq<u8>>, OverrideView>,
}

impl View for OverrideAuthority {
    type V = OverrideAuthorityView;

    open spec fn view(&self) -> OverrideAuthorityView {
        OverrideAuthorityView { origin: self.origin@, named: named_map(self.overrides@) }
    }
}

/// What the overrides say to a query for the name with these labels, in small
/// letters.
pub open spec fn override_lookup(
    overrides: Map<Seq<Seq<u8>>, OverrideView>,
    labels: Seq<Seq<u8>>,
    fqdn: bool,
    rtype: u16,
) -> LookupView {
    if fqdn && overrides.contains_key(labels) {
        LookupView::Answer(override_answer(overrides[labels], rtype))
    } else {
        LookupView::Skip
    }
}

impl OverrideAuthority {
    /// The overrides of `overrides` by the names that the domains are. Fails
    /// on a domain that is no name.
    pub fn new(origin: DomainName, overrides: &OverrideTable) -> (r: Result<
        OverrideAuthority,
        String,
    >)
        ensures
            match r {
                Ok(authority) => {
                    &&& authority@.origin == origin@.lowered()
                    &&& names_overrides(authority@.named, overrides@)
                },
                Err(e) => bad_override(overrides@, e@),
            },
    {
        let fqdn = origin.is_fqdn();
        let mut authority = OverrideAuthority {
            origin: origin.lowered(fqdn),
            overrides: Vec::new(),
        };
        let ghost domains = overrides.domains();
        let mut i: usize = 0;
        while i < overrides.len()
            invariant
                i <= domains.len(),
                domains == overrides.domains(),
                authority@.origin == origin@.lowered(),
                forall|k: int|
                    0 <= k < i ==> override_labels(#[trigger] domains[k]) is Some
                        && authority@.named.contains_key(override_labels(domains[k]).unwrap()) && (
                    name::dotted_text(domains[k]) ==> override_labels(domains[k]) == Some(
                        name::lower_labels(name::domain_labels(domains[k])),
                    )),
                forall|labels: Seq<Seq<u8>>| #[trigger]
                    authority@.named.contains_key(labels) ==> exists|d: Seq<char>| #[trigger]
                        overrides@.contains_key(d) && override_labels(d) == Some(labels)
                            && overrides@[d] == authority@.named[labels],
            decreases domains.len() - i,
        {
            let (domain, rule) = overrides.entry(i);
            let ghost before = authority@.named;
            match authority.insert(domain.as_str(), name::read_ascii_name(domain.as_str()), rule) {
                Ok(()) => {},
                Err(e) => return Err(e),
            }
            proof {
                let added = override_labels(domain@).unwrap();
                assert forall|labels: Seq<Seq<u8>>| #[trigger]
                    authority@.named.contains_key(labels) implies exists|d: Seq<char>| #[trigger]
                    overrides@.contains_key(d) && override_labels(d) == Some(labels)
                        && overrides@[d] == authority@.named[labels] by {
                    if labels == added {
                        assert(overrides@.contains_key(domain@));
                    } else {
                        assert(before.contains_key(labels));
                    }
                }
            }
            i = i + 1;
        }
        proof {
            overrides.lemma_domains();
            assert forall|d: Seq<char>| #[trigger] overrides@.contains_key(d) implies
                override_labels(d) is Some && authority@.named.contains_key(
                override_labels(d).unwrap(),
            ) && (name::dotted_text(d) ==> override_labels(d) == Some(
                name::lower_labels(name::domain_labels(d)),
            )) by {
                let k = choose|k: int| 0 <= k < domains.len() && domains[k] == d;
                assert(override_labels(domains[k]) is Some);
            }
        }
        Ok(authority)
    }

    /// Adds an override of `domain`, where `parsed` is the name that the
    /// domain is.
    pub fn insert(
        &mut self,
        domain: &str,
        parsed: Result<DomainName, String>,
        rule: &OverrideRule,
    ) -> (r: Result<(), String>)
        ensures
            final(self)@.origin == old(self)@.origin,
            match (parsed, r) {
                (Ok(name), Ok(())) => final(self)@.named == old(self)@.named.insert(
                    name::lower_labels(name.label_view()),
                    rule@,
                ),
                (Err(err), Err(e)) => final(self)@.named == old(self)@.named && e@ == bad_override_text(
                    domain@,
                    err@,
                ),
                _ => false,
            },
    {
        match parsed {
            Ok(name) => {
                let entry = NamedOverride { name: name.lowered(true), rule: rule.clone() };
                self.overrides.push(entry);
                assert(self.overrides@.drop_last() =~= old(self).overrides@);
                Ok(())
            },
            Err(err) => {
                let mut message = "invalid override domain ".to_owned();
                message.append(domain);
                message.append(": ");
                message.append(err.as_str());
                Err(message)
            },
        }
    }

    /// Answers a query for `name`, unless it has no override.
    pub fn lookup(&self, name: &DomainName, rtype: u16) -> (r: Lookup)
        ensures
            r@ == override_lookup(
                self@.named,
                name::lower_labels(name.label_view()),
                name.is_full(),
                rtype,
            ),
    {
        if !name.is_fqdn() {
            return Lookup::Skip;
        }
        let key = name.lowered(true);
        let ghost all = self.overrides@;
        let ghost labels = key.label_view();
        let mut i: usize = self.overrides.len();
        assert(all.take(all.len() as int) =~= all);
        while i > 0
            invariant
                i <= all.len(),
                all == self.overrides@,
                labels == key.label_view(),
                labels == name::lower_labels(name.label_view()),
                name.is_full(),
                named_map(all).contains_key(labels) == named_map(
                    all.take(i as int),
                ).contains_key(labels),
                named_map(all).contains_key(labels) ==> named_map(all)[labels] == named_map(
                    all.take(i as int),
                )[labels],
            decreases i,
        {
            i = i - 1;
            assert(all.take(i + 1).drop_last() =~= all.take(i as int));
            if self.overrides[i].name.same_labels(&key) {
                return Lookup::Answer(override_lookup_records(&self.overrides[i].rule, rtype));
            }
        }
        assert(all.take(0) =~= Seq::<NamedOverride>::empty());
        Lookup::Skip
    }
}

/// Where the first rule at or behind `i` covers the domain; the number of
/// rules where there is none.
pub open spec fn rewrite_place(rules: Seq<DomainRewriteView>, domain: Seq<char>, i: int) -> int
    decreases rules.len() - i,
{
    if i >= rules.len() {
        rules.len() as int
    } else if rules[i].pattern.covers(domain) {
        i
    } else {
        rewrite_place(rules, domain, i + 1)
    }
}

/// What the rewrites say to a query for `domain`: the first one that covers
/// it answers.
pub open spec fn rewrite_lookup(
    rules: Seq<DomainRewriteView>,
    domain: Seq<char>,
    rtype: u16,
) -> LookupView {
    let i = rewrite_place(rules, domain, 0);
    if i < rules.len() {
        LookupView::Answer(override_answer(rules[i].answer, rtype))
    } else {
        LookupView::Skip
    }
}

/// A record of an answer.
#[derive(Clone, Debug)]
pub struct Record {
    pub name: DomainName,
    pub ttl: u32,
    pub data: RecordData,
}

/// What a record holds, as far as rewrites look at it.
#[derive(Clone, Debug)]
pub enum RecordData {
    A(Ipv4Addr),
    Aaaa(Ipv6Addr),
    Cname(DomainName),
    Other,
}

/// The address that a record holds.
pub open spec fn record_address(record: Record) -> Option<IpAddr> {
    match record.data {
        RecordData::A(addr) => Some(IpAddr::V4(addr)),
        RecordData::Aaaa(addr) => Some(IpAddr::V6(addr)),
        _ => None,
    }
}

/// The domain that a record leads to.
pub open spec fn record_target(record: Record) -> Option<Seq<char>> {
    match record.data {
        RecordData::Cname(target) => Some(
            name::query_domain(target.label_view(), target.is_full()),
        ),
        _ => None,
    }
}

/// The address that a record holds.
pub fn record_ip(record: &Record) -> (r: Option<IpAddr>)
    ensures
        r == record_address(*record),
{
    match &record.data {
        RecordData::A(addr) => Some(IpAddr::V4(*addr)),
        RecordData::Aaaa(addr) => Some(IpAddr::V6(*addr)),
        _ => None,
    }
}

/// The domain that a record leads to.
pub fn record_cname(record: &Record) -> (r: Option<String>)
    ensures
        match r {
            Some(target) => record_target(*record) == Some(target@),
            None => record_target(*record) is None,
        },
        record.data matches RecordData::Cname(target) ==> (name::plain_labels(
            name::label_texts(target.label_view()),
        ) ==> r is Some && r.unwrap()@ == name::plain_query_domain(target.label_view())),
{
    match &record.data {
        RecordData::Cname(target) => Some(name::normalized_query_name(target)),
        _ => None,
    }
}

/// Whether one of `nets` holds the address.
pub open spec fn any_net_holds(nets: Seq<IpNet>, addr: IpAddr) -> bool {
    exists|i: int| 0 <= i < nets.len() && (#[trigger] nets[i]).holds(addr)
}

/// Whether one of the records holds an address of one of the networks.
pub open spec fn answer_ip_hits(rule: AnswerIpRewriteView, records: Seq<Record>) -> bool {
    exists|i: int|
        0 <= i < records.len() && record_address(#[trigger] records[i]) is Some && any_net_holds(
            rule.nets,
            record_address(records[i]).unwrap(),
        )
}

/// Whether one of the records leads to a domain of one of the patterns.
pub open spec fn cname_hits(rule: CnameRewriteView, records: Seq<Record>) -> bool {
    exists|i: int|
        0 <= i < records.len() && record_target(#[trigger] records[i]) is Some
            && domain::any_covers(rule.patterns, record_target(records[i]).unwrap())
}

/// Where the first rule at or behind `i` is about one of the records; the
/// number of rules where there is none.
pub open spec fn answer_ip_place(
    rules: Seq<AnswerIpRewriteView>,
    records: Seq<Record>,
    i: int,
) -> int
    decreases rules.len() - i,
{
    if i >= rules.len() {
        rules.len() as int
    } else if answer_ip_hits(rules[i], records) {
        i
    } else {
        answer_ip_place(rules, records, i + 1)
    }
}

/// Where the first rule at or behind `i` is about one of the records; the
/// number of rules where there is none.
pub open spec fn cname_place(rules: Seq<CnameRewriteView>, records: Seq<Record>, i: int) -> int
    decreases rules.len() - i,
{
    if i >= rules.len() {
        rules.len() as int
    } else if cname_hits(rules[i], records) {
        i
    } else {
        cname_place(rules, records, i + 1)
    }
}

fn net_holds(nets: &Vec<IpNet>, addr: &IpAddr) -> (r: bool)
    ensures
        r == any_net_holds(nets@, *addr),
{
    let mut i: usize = 0;
    while i < nets.len()
        invariant
            i <= nets@.len(),
            forall|k: int| 0 <= k < i ==> !(#[trigger] nets@[k]).holds(*addr),
        decreases nets@.len() - i,
    {
        if nets[i].contains(addr) {
            return true;
        }
        i = i + 1;
    }
    false
}

fn answer_ip_matches(rule: &AnswerIpRewriteRule, records: &[Record]) -> (r: bool)
    ensures
        r == answer_ip_hits(rule@, records@),
{
    let mut i: usize = 0;
    while i < records.len()
        invariant
            i <= records@.len(),
            forall|k: int|
                0 <= k < i ==> !(record_address(#[trigger] records@[k]) is Some && any_net_holds(
                    rule@.nets,
                    record_address(records@[k]).unwrap(),
                )),
        decreases records@.len() - i,
    {
        match record_ip(&records[i]) {
            Some(addr) => {
                if net_holds(&rule.nets, &addr) {
                    return true;
                }
            },
            None => {},
        }
        i = i + 1;
    }
    false
}

fn cname_matches(rule: &CnameRewriteRule, records: &[Record]) -> (r: bool)
    ensures
        r == cname_hits(rule@, records@),
{
    let mut i: usize = 0;
    while i < records.len()
        invariant
            i <= records@.len(),
            forall|k: int|
                0 <= k < i ==> !(record_target(#[trigger] records@[k]) is Some
                    && domain::any_covers(
                    rule@.patterns,
                    record_target(records@[k]).unwrap(),
                )),
        decreases records@.len() - i,
    {
        match record_cname(&records[i]) {
            Some(target) => {
                if domain::any_pattern_matches(&rule.patterns, target.as_str()) {
                    return true;
                }
            },
            None => {},
        }
        i = i + 1;
    }
    false
}

/// What an answer that is being consulted about has come to so far: it stands
/// or may still be replaced, with records or with an error, or there is none.
#[derive(Clone, Copy, Debug, PartialEq, Eq, Structural)]
pub enum LastResult {
    BreakOk,
    BreakErr,
    ContinueOk,
    ContinueErr,
    Skip,
}

/// What becomes of an answer: other records stand in its place, or it is kept
/// and may still be replaced, or nothing changes.
#[derive(Debug)]
pub enum Consultation {
    Replace(Vec<AnswerSet>),
    Keep,
    Unchanged,
}

/// What a `Consultation` says.
pub enum ConsultationView {
    Replace(Seq<AnswerView>),
    Keep,
    Unchanged,
}

impl View for Consultation {
    type V = ConsultationView;

    open spec fn view(&self) -> ConsultationView {
        match *self {
            Consultation::Replace(sets) => ConsultationView::Replace(answers(sets@)),
            Consultation::Keep => ConsultationView::Keep,
            Consultation::Unchanged => ConsultationView::Unchanged,
        }
    }
}

/// What becomes of an answer with these records: the first rule on its
/// addresses replaces it, or else the first one on the domains that it leads
/// through.
pub open spec fn consultation(
    answer_ip_rules: Seq<AnswerIpRewriteView>,
    cname_rules: Seq<CnameRewriteView>,
    last_result: LastResult,
    records: Seq<Record>,
    rtype: u16,
) -> ConsultationView {
    let i = answer_ip_place(answer_ip_rules, records, 0);
    let j = cname_place(cname_rules, records, 0);
    if last_result != LastResult::BreakOk && last_result != LastResult::ContinueOk {
        ConsultationView::Unchanged
    } else if i < answer_ip_rules.len() {
        ConsultationView::Replace(override_answer(answer_ip_rules[i].answer, rtype))
    } else if j < cname_rules.len() {
        ConsultationView::Replace(override_answer(cname_rules[j].answer, rtype))
    } else {
        ConsultationView::Keep
    }
}

/// Answers the domains that have rewrites, and replaces answers.
pub struct RewriteAuthority {
    pub origin: DomainName,
    pub domain_rewrites: Arc<Vec<DomainRewriteRule>>,
    pub answer_ip_rewrites: Arc<Vec<AnswerIpRewriteRule>>,
    pub cname_rewrites: Arc<Vec<CnameRewriteRule>>,
}

/// What a `RewriteAuthority` says.
#[verifier::ext_equal]
pub struct RewriteAuthorityView {
    pub origin: NameView,
    pub domain_rewrites: Seq<DomainRewriteView>,
    pub answer_ip_rewrites: Seq<AnswerIpRewriteView>,
    pub cname_rewrites: Seq<CnameRewriteView>,
}

impl View for RewriteAuthority {
    type V = RewriteAuthorityView;

    open spec fn view(&self) -> RewriteAuthorityView {
        RewriteAuthorityView {
            origin: self.origin@,
            domain_rewrites: compiled::domain_rewrite_views(self.domain_rewrites@),
            answer_ip_rewrites: compiled::answer_ip_rewrite_views(self.answer_ip_rewrites@),
            cname_rewrites: compiled::cname_rewrite_views(self.cname_rewrites@),
        }
    }
}

impl RewriteAuthority {
    pub fn new(
        origin: DomainName,
        domain_rewrites: Arc<Vec<DomainRewriteRule>>,
        answer_ip_rewrites: Arc<Vec<AnswerIpRewriteRule>>,
        cname_rewrites: Arc<Vec<CnameRewriteRule>>,
    ) -> (r: Result<RewriteAuthority, String>)
        ensures
            r matches Ok(authority) && authority@ == (RewriteAuthorityView {
                origin: origin@.lowered(),
                domain_rewrites: compiled::domain_rewrite_views(domain_rewrites@),
                answer_ip_rewrites: compiled::answer_ip_rewrite_views(answer_ip_rewrites@),
                cname_rewrites: compiled::cname_rewrite_views(cname_rewrites@),
            }),
    {
        let fqdn = origin.is_fqdn();
        Ok(
            RewriteAuthority {
                origin: origin.lowered(fqdn),
                domain_rewrites,
                answer_ip_rewrites,
                cname_rewrites,
            },
        )
    }

    /// Answers a query for `domain`, unless no rewrite covers it.
    pub fn lookup_domain(&self, domain: &str, rtype: u16) -> (r: Lookup)
        ensures
            r@ == rewrite_lookup(self@.domain_rewrites, domain@, rtype),
    {
        let ghost all = self@.domain_rewrites;
        let mut i: usize = 0;
        while i < self.domain_rewrites.len()
            invariant
                i <= self.domain_rewrites@.len(),
                all == compiled::domain_rewrite_views(self.domain_rewrites@),
                rewrite_place(all, domain@, 0) == rewrite_place(all, domain@, i as int),
            decreases self.domain_rewrites@.len() - i,
        {
            assert(all[i as int] == self.domain_rewrites@[i as int]@);
            if domain::domain_pattern_matches(&self.domain_rewrites[i].pattern, domain) {
                return Lookup::Answer(
                    override_lookup_records(&self.domain_rewrites[i].answer, rtype),
                );
            }
            i = i + 1;
        }
        Lookup::Skip
    }

    /// Answers a query for `name`, unless no rewrite covers it.
    pub fn lookup(&self, name: &DomainName, rtype: u16) -> (r: Lookup)
        ensures
            r@ == rewrite_lookup(
                self@.domain_rewrites,
                name::query_domain(name.label_view(), name.is_full()),
                rtype,
            ),
            name::plain_labels(name::label_texts(name.label_view())) ==> r@ == rewrite_lookup(
                self@.domain_rewrites,
                name::plain_query_domain(name.label_view()),
                rtype,
            ),
    {
        let domain = name::normalized_query_name(name);
        self.lookup_domain(domain.as_str(), rtype)
    }

    /// The first rule on the addresses of the records.
    pub fn match_answer_ip_rewrite(&self, records: &[Record]) -> (r: Option<&AnswerIpRewriteRule>)
        ensures
            match r {
                Some(rule) => answer_ip_place(self@.answer_ip_rewrites, records@, 0)
                    < self@.answer_ip_rewrites.len() && rule@
                    == self@.answer_ip_rewrites[answer_ip_place(
                    self@.answer_ip_rewrites,
                    records@,
                    0,
                )],
                None => answer_ip_place(self@.answer_ip_rewrites, records@, 0)
                    == self@.answer_ip_rewrites.len(),
            },
    {
        let ghost all = self@.answer_ip_rewrites;
        let mut i: usize = 0;
        while i < self.answer_ip_rewrites.len()
            invariant
                i <= self.answer_ip_rewrites@.len(),
                all == compiled::answer_ip_rewrite_views(self.answer_ip_rewrites@),
                answer_ip_place(all, records@, 0) == answer_ip_place(all, records@, i as int),
            decreases self.answer_ip_rewrites@.len() - i,
        {
            assert(all[i as int] == self.answer_ip_rewrites@[i as int]@);
            if answer_ip_matches(&self.answer_ip_rewrites[i], records) {
                return Some(&self.answer_ip_rewrites[i]);
            }
            i = i + 1;
        }
        None
    }

    /// The first rule on the domains that the records lead to.
    pub fn match_cname_rewrite(&self, records: &[Record]) -> (r: Option<&CnameRewriteRule>)
        ensures
            match r {
                Some(rule) => cname_place(self@.cname_rewrites, records@, 0)
                    < self@.cname_rewrites.len() && rule@ == self@.cname_rewrites[cname_place(
                    self@.cname_rewrites,
                    records@,
                    0,
                )],
                None => cname_place(self@.cname_rewrites, records@, 0)
                    == self@.cname_rewrites.len(),
            },
    {
        let ghost all = self@.cname_rewrites;
        let mut i: usize = 0;
        while i < self.cname_rewrites.len()
            invariant
                i <= self.cname_rewrites@.len(),
                all == compiled::cname_rewrite_views(self.cname_rewrites@),
                cname_place(all, records@, 0) == cname_place(all, records@, i as int),
            decreases self.cname_rewrites@.len() - i,
        {
            assert(all[i as int] == self.cname_rewrites@[i as int]@);
            if cname_matches(&self.cname_rewrites[i], records) {
                return Some(&self.cname_rewrites[i]);
            }
            i = i + 1;
        }
        None
    }

    /// Decides what becomes of an answer with these records.
    pub fn consult(&self, last_result: LastResult, records: &[Record], rtype: u16) -> (r:
        Consultation)
        ensures
            r@ == consultation(
                self@.answer_ip_rewrites,
                self@.cname_rewrites,
                last_result,
                records@,
                rtype,
            ),
    {
        if last_result != LastResult::BreakOk && last_result != LastResult::ContinueOk {
            return Consultation::Unchanged;
        }
        match self.match_answer_ip_rewrite(records) {
            Some(rule) => {
                return Consultation::Replace(override_lookup_records(&rule.answer, rtype));
            },
            None => {},
        }
        match self.match_cname_rewrite(records) {
            Some(rule) => Consultation::Replace(override_lookup_records(&rule.answer, rtype)),
            None => Consultation::Keep,
        }
    }
}

/// Whether a rule for these types is for the type `rtype`.
pub open spec fn types_allow(dnstypes: Option<TypesView>, rtype: u16) -> bool {
    match dnstypes {
        None => true,
        Some(TypesView::Include(types)) => types.contains(rtype),
        Some(TypesView::Exclude(types)) => !types.contains(rtype),
    }
}

/// Whether a rule is about a query, where `found` says whether its expression
/// matches the domain.
pub open spec fn rule_applies(
    rule: RuleView,
    domain: Seq<char>,
    rtype: u16,
    found: bool,
) -> bool {
    types_allow(rule.dnstypes, rtype) && !domain::any_covers(rule.denyallow, domain) && found
}

/// Whether a rule is about a query.
pub open spec fn rule_hits(rule: RuleView, domain: Seq<char>, rtype: u16) -> bool {
    rule_applies(rule, domain, rtype, rule::regex_is_match(rule.regex, domain))
}

/// Whether one of the rules is about a query.
pub open spec fn any_rule_hits(rules: Seq<RuleView>, domain: Seq<char>, rtype: u16) -> bool {
    exists|i: int| 0 <= i < rules.len() && rule_hits(#[trigger] rules[i], domain, rtype)
}

/// Whether one of the important rules is about a query.
pub open spec fn any_important_hits(rules: Seq<RuleView>, domain: Seq<char>, rtype: u16) -> bool {
    exists|i: int|
        0 <= i < rules.len() && (#[trigger] rules[i]).important && rule_hits(
            rules[i],
            domain,
            rtype,
        )
}

/// Whether a query is blocked: important rules go before the others, and
/// those that allow before those that block.
pub open spec fn verdict(
    important_allow: bool,
    important_block: bool,
    allowed: bool,
    blocked: bool,
) -> bool {
    !important_allow && (important_block || (blocked && !allowed))
}

/// Whether a query is blocked.
pub fn is_blocked(
    important_allow: bool,
    important_block: bool,
    allowed: bool,
    blocked: bool,
) -> (r: bool)
    ensures
        r == verdict(important_allow, important_block, allowed, blocked),
{
    if important_allow {
        return false;
    }
    if important_block {
        return true;
    }
    blocked && !allowed
}

/// Whether a rule is for the type `rtype`.
pub fn rule_allows_type(rule: &CompiledMatchRule, rtype: u16) -> (r: bool)
    ensures
        r == types_allow(rule@.dnstypes, rtype),
{
    match &rule.dnstypes {
        None => true,
        Some(TypeConstraint::Include(types)) => types.contains(&rtype),
        Some(TypeConstraint::Exclude(types)) => !types.contains(&rtype),
    }
}

/// Whether a rule is about a query, where `found` says whether its expression
/// matches the domain.
pub fn rule_matches_found(
    rule: &CompiledMatchRule,
    domain: &str,
    rtype: u16,
    found: bool,
) -> (r: bool)
    ensures
        r == rule_applies(rule@, domain@, rtype, found),
{
    if !rule_allows_type(rule, rtype) {
        return false;
    }
    if domain::any_pattern_matches(&rule.denyallow, domain) {
        return false;
    }
    found
}

/// Whether a rule is about a query.
pub fn complex_rule_matches(rule: &CompiledMatchRule, domain: &str, rtype: u16) -> (r: bool)
    ensures
        r == rule_hits(rule@, domain@, rtype),
{
    match &rule.matcher {
        Matcher::Regex(regex) => rule_matches_found(rule, domain, rtype, regex.is_match(domain)),
    }
}

/// Whether one of the rules is about a query.
pub fn matches_rule_list(rules: &Vec<CompiledMatchRule>, domain: &str, rtype: u16) -> (r: bool)
    ensures
        r == any_rule_hits(rule::rule_views(rules@), domain@, rtype),
{
    let ghost all = rule::rule_views(rules@);
    let mut i: usize = 0;
    while i < rules.len()
        invariant
            i <= rules@.len(),
            all == rule::rule_views(rules@),
            forall|k: int| 0 <= k < i ==> !rule_hits(#[trigger] all[k], domain@, rtype),
        decreases rules@.len() - i,
    {
        assert(all[i as int] == rules@[i as int]@);
        if complex_rule_matches(&rules[i], domain, rtype) {
            return true;
        }
        i = i + 1;
    }
    false
}

/// Whether one of the important rules is about a query.
pub fn matches_important(rules: &Vec<CompiledMatchRule>, domain: &str, rtype: u16) -> (r: bool)
    ensures
        r == any_important_hits(rule::rule_views(rules@), domain@, rtype),
{
    let ghost all = rule::rule_views(rules@);
    let mut i: usize = 0;
    while i < rules.len()
        invariant
            i <= rules@.len(),
            all == rule::rule_views(rules@),
            forall|k: int|
                0 <= k < i ==> !((#[trigger] all[k]).important && rule_hits(
                    all[k],
                    domain@,
                    rtype,
                )),
        decreases rules@.len() - i,
    {
        assert(all[i as int] == rules@[i as int]@);
        if rules[i].important && complex_rule_matches(&rules[i], domain, rtype) {
            return true;
        }
        i = i + 1;
    }
    false
}

/// Answers the queries that are blocked.
pub struct BlockAuthority {
    pub origin: DomainName,
    pub block_exact: Arc<StringHashSet>,
    pub block_subdomains: Arc<StringHashSet>,
    pub allow_exact: Arc<StringHashSet>,
    pub allow_subdomains: Arc<StringHashSet>,
    pub block_rules: Arc<Vec<CompiledMatchRule>>,
    pub allow_rules: Arc<Vec<CompiledMatchRule>>,
    pub blocking_mode: BlockingMode,
    pub blocking_ipv4: Ipv4Addr,
    pub blocking_ipv6: Ipv6Addr,
    pub ttl: u32,
}

/// What a `BlockAuthority` says.
#[verifier::ext_equal]
pub struct BlockView {
    pub origin: NameView,
    pub block_exact: Set<Seq<char>>,
    pub block_subdomains: Set<Seq<char>>,
    pub allow_exact: Set<Seq<char>>,
    pub allow_subdomains: Set<Seq<char>>,
    pub block_rules: Seq<RuleView>,
    pub allow_rules: Seq<RuleView>,
    pub blocking_mode: BlockingMode,
    pub blocking_ipv4: Ipv4Addr,
    pub blocking_ipv6: Ipv6Addr,
    pub ttl: u32,
}

impl View for BlockAuthority {
    type V = BlockView;

    open spec fn view(&self) -> BlockView {
        BlockView {
            origin: self.origin@,
            block_exact: self.block_exact@,
            block_subdomains: self.block_subdomains@,
            allow_exact: self.allow_exact@,
            allow_subdomains: self.allow_subdomains@,
            block_rules: rule::rule_views(self.block_rules@),
            allow_rules: rule::rule_views(self.allow_rules@),
            blocking_mode: self.blocking_mode,
            blocking_ipv4: self.blocking_ipv4,
            blocking_ipv6: self.blocking_ipv6,
            ttl: self.ttl,
        }
    }
}

impl BlockView {
    /// Whether a domain is a member of the allow list or under one.
    pub open spec fn allow_listed(self, domain: Seq<char>) -> bool {
        self.allow_exact.contains(domain) || rule_sets::any_under(self.allow_subdomains, domain)
    }

    /// Whether a domain is a member of the block list or under one.
    pub open spec fn block_listed(self, domain: Seq<char>) -> bool {
        self.block_exact.contains(domain) || rule_sets::any_under(self.block_subdomains, domain)
    }

    /// Whether a query is blocked.
    pub open spec fn blocks(self, domain: Seq<char>, rtype: u16) -> bool {
        verdict(
            any_important_hits(self.allow_rules, domain, rtype),
            any_important_hits(self.block_rules, domain, rtype),
            self.allow_listed(domain) || any_rule_hits(self.allow_rules, domain, rtype),
            self.block_listed(domain) || any_rule_hits(self.block_rules, domain, rtype),
        )
    }

    /// How a blocked query is answered.
    pub open spec fn response(self, rtype: u16) -> LookupView {
        match self.blocking_mode {
            BlockingMode::Default => LookupView::Answer(
                block_answer(rtype, self.blocking_ipv4, self.blocking_ipv6, self.ttl),
            ),
            BlockingMode::Nxdomain => LookupView::NxDomain,
        }
    }

    /// What the block list says to a query.
    pub open spec fn lookup(self, domain: Seq<char>, rtype: u16) -> LookupView {
        if self.blocks(domain, rtype) {
            self.response(rtype)
        } else {
            LookupView::Skip
        }
    }
}

impl BlockAuthority {
    pub fn new(
        origin: DomainName,
        block_exact: Arc<StringHashSet>,
        block_subdomains: Arc<StringHashSet>,
        allow_exact: Arc<StringHashSet>,
        allow_subdomains: Arc<StringHashSet>,
        block_rules: Arc<Vec<CompiledMatchRule>>,
        allow_rules: Arc<Vec<CompiledMatchRule>>,
        blocking_mode: BlockingMode,
        blocking_ipv4: Ipv4Addr,
        blocking_ipv6: Ipv6Addr,
        ttl: u32,
    ) -> (r: Result<BlockAuthority, String>)
        ensures
            r matches Ok(authority) && authority@ == (BlockView {
                origin: origin@.lowered(),
                block_exact: block_exact@,
                block_subdomains: block_subdomains@,
                allow_exact: allow_exact@,
                allow_subdomains: allow_subdomains@,
                block_rules: rule::rule_views(block_rules@),
                allow_rules: rule::rule_views(allow_rules@),
                blocking_mode,
                blocking_ipv4,
                blocking_ipv6,
                ttl,
            }),
    {
        let fqdn = origin.is_fqdn();
        Ok(
            BlockAuthority {
                origin: origin.lowered(fqdn),
                block_exact,
                block_subdomains,
                allow_exact,
                allow_subdomains,
                block_rules,
                allow_rules,
                blocking_mode,
                blocking_ipv4,
                blocking_ipv6,
                ttl,
            },
        )
    }

    /// Whether a domain is a member of the allow list or under one.
    pub fn matches_allowlist(&self, domain: &str) -> (r: bool)
        ensures
            r == self@.allow_listed(domain@),
    {
        self.allow_exact.contains(domain) || rule_sets::covered(&self.allow_subdomains, domain)
    }

    /// Whether a domain is a member of the block list or under one.
    pub fn matches_blocklist(&self, domain: &str) -> (r: bool)
        ensures
            r == self@.block_listed(domain@),
    {
        self.block_exact.contains(domain) || rule_sets::covered(&self.block_subdomains, domain)
    }

    /// Whether an important rule allows a query.
    pub fn matches_allowlist_important(&self, domain: &str, rtype: u16) -> (r: bool)
        ensures
            r == any_important_hits(self@.allow_rules, domain@, rtype),
    {
        matches_important(&self.allow_rules, domain, rtype)
    }

    /// Whether an important rule blocks a query.
    pub fn matches_blocklist_important(&self, domain: &str, rtype: u16) -> (r: bool)
        ensures
            r == any_important_hits(self@.block_rules, domain@, rtype),
    {
        matches_important(&self.block_rules, domain, rtype)
    }

    /// How a blocked query is answered.
    pub fn block_response(&self, rtype: u16) -> (r: Lookup)
        ensures
            r@ == self@.response(rtype),
    {
        match self.blocking_mode {
            BlockingMode::Default => Lookup::Answer(
                block_lookup_records(rtype, self.blocking_ipv4, self.blocking_ipv6, self.ttl),
            ),
            BlockingMode::Nxdomain => Lookup::NxDomain,
        }
    }

    /// Answers a query for `domain`, if it is blocked.
    pub fn lookup_domain(&self, domain: &str, rtype: u16) -> (r: Lookup)
        ensures
            r@ == self@.lookup(domain@, rtype),
    {
        let important_allow = self.matches_allowlist_important(domain, rtype);
        let important_block = !important_allow && self.matches_blocklist_important(
            domain,
            rtype,
        );
        // Where an important rule decides, the others are not asked.
        let decided = important_allow || important_block;
        let allowed = !decided && (self.matches_allowlist(domain) || matches_rule_list(
            &self.allow_rules,
            domain,
            rtype,
        ));
        let blocked = !decided && !allowed && (self.matches_blocklist(domain)
            || matches_rule_list(&self.block_rules, domain, rtype));
        if is_blocked(important_allow, important_block, allowed, blocked) {
            self.block_response(rtype)
        } else {
            Lookup::Skip
        }
    }

    /// Answers a query for `name`, if it is blocked.
    pub fn lookup(&self, name: &DomainName, rtype: u16) -> (r: Lookup)
        ensures
            r@ == self@.lookup(name::query_domain(name.label_view(), name.is_full()), rtype),
            name::plain_labels(name::label_texts(name.label_view())) ==> r@ == self@.lookup(
                name::plain_query_domain(name.label_view()),
                rtype,
            ),
    {
        let domain = name::normalized_query_name(name);
        self.lookup_domain(domain.as_str(), rtype)
    }
}

} // verus!
