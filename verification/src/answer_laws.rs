//! What holds of the answers to queries: which records a rule gives, which
//! rules are about a query, and which answers are replaced.
use vstd::prelude::*;

use crate::authority;
use crate::authority::{
    AnswerView, BlockView, ConsultationView, LastResult, LookupView, Record, RecordData,
};
use crate::compiled::{AnswerIpRewriteView, CnameRewriteView, DomainRewriteView};
use crate::domain;
use crate::domain::PatternView;
use crate::filtering::BlockingMode;
use crate::ip::{IpAddr, IpNet, Ipv4Addr, Ipv6Addr};
use crate::laws;
use crate::name;
use crate::overrides::OverrideView;
use crate::rule;
use crate::rule::{RuleView, TypesView};
use crate::rule_sets;

verus! {

/// What the addresses of a rule answer, by the type that is asked for. A query
/// for A gets all IPv4 addresses in their order, one for AAAA all IPv6
/// addresses, one for ANY both, IPv4 first, and any other type nothing; a kind
/// of which there are none is left out. Answers may be kept for 60 seconds.
pub proof fn law_answers_by_type(rule: OverrideView, rtype: u16)
    ensures
        ({
            let a = AnswerView::A(60, rule.ipv4);
            let aaaa = AnswerView::Aaaa(60, rule.ipv6);
            let none = Seq::<AnswerView>::empty();
            let got = authority::override_answer(rule, rtype);
            &&& rtype == 1 ==> got == if rule.ipv4.len() > 0 {
                seq![a]
            } else {
                none
            }
            &&& rtype == 28 ==> got == if rule.ipv6.len() > 0 {
                seq![aaaa]
            } else {
                none
            }
            &&& rtype == 255 ==> got == if rule.ipv4.len() > 0 && rule.ipv6.len() > 0 {
                seq![a, aaaa]
            } else if rule.ipv4.len() > 0 {
                seq![a]
            } else if rule.ipv6.len() > 0 {
                seq![aaaa]
            } else {
                none
            }
            &&& rtype != 1 && rtype != 28 && rtype != 255 ==> got == none
        }),
{
    let a = AnswerView::A(60, rule.ipv4);
    let aaaa = AnswerView::Aaaa(60, rule.ipv6);
    let got = authority::override_answer(rule, rtype);
    let first = (rtype == 1 || rtype == 255) && rule.ipv4.len() > 0;
    let second = (rtype == 28 || rtype == 255) && rule.ipv6.len() > 0;
    if first && second {
        assert(got =~= seq![a, aaaa]);
    } else if first {
        assert(got =~= seq![a]);
    } else if second {
        assert(got =~= seq![aaaa]);
    } else {
        assert(got =~= Seq::<AnswerView>::empty());
    }
}

/// What a query for ANY is answered with is what one for A and one for AAAA
/// are answered with together.
pub proof fn law_any_is_both(rule: OverrideView, ipv4: Ipv4Addr, ipv6: Ipv6Addr, ttl: u32)
    ensures
        authority::override_answer(rule, 255) == authority::override_answer(rule, 1)
            + authority::override_answer(rule, 28),
        authority::block_answer(255, ipv4, ipv6, ttl) == authority::block_answer(
            1,
            ipv4,
            ipv6,
            ttl,
        ) + authority::block_answer(28, ipv4, ipv6, ttl),
{
    assert(authority::override_answer(rule, 255) =~= authority::override_answer(rule, 1)
        + authority::override_answer(rule, 28));
    assert(authority::block_answer(255, ipv4, ipv6, ttl) =~= authority::block_answer(
        1,
        ipv4,
        ipv6,
        ttl,
    ) + authority::block_answer(28, ipv4, ipv6, ttl));
}

/// How a blocked query is answered: with the word that there is no such domain
/// in the one mode; in the other with the address of the kind that is asked
/// for, both to a query for ANY, and no record to any other.
pub proof fn law_blocked_answers(b: BlockView, rtype: u16)
    ensures
        b.blocking_mode == BlockingMode::Nxdomain ==> b.response(rtype) == LookupView::NxDomain,
        b.blocking_mode == BlockingMode::Default ==> b.response(rtype) == LookupView::Answer(
            if rtype == 1 {
                seq![AnswerView::A(b.ttl, seq![b.blocking_ipv4])]
            } else if rtype == 28 {
                seq![AnswerView::Aaaa(b.ttl, seq![b.blocking_ipv6])]
            } else if rtype == 255 {
                seq![
                    AnswerView::A(b.ttl, seq![b.blocking_ipv4]),
                    AnswerView::Aaaa(b.ttl, seq![b.blocking_ipv6]),
                ]
            } else {
                Seq::empty()
            },
        ),
{
    let got = authority::block_answer(rtype, b.blocking_ipv4, b.blocking_ipv6, b.ttl);
    if rtype == 1 {
        assert(got =~= seq![AnswerView::A(b.ttl, seq![b.blocking_ipv4])]);
    } else if rtype == 28 {
        assert(got =~= seq![AnswerView::Aaaa(b.ttl, seq![b.blocking_ipv6])]);
    } else if rtype == 255 {
        assert(got =~= seq![
            AnswerView::A(b.ttl, seq![b.blocking_ipv4]),
            AnswerView::Aaaa(b.ttl, seq![b.blocking_ipv6]),
        ]);
    } else {
        assert(got =~= Seq::<AnswerView>::empty());
    }
}

/// A pattern without a wildcard covers its domain alone; one with a wildcard
/// covers whatever ends in a dot and its domain, and nothing else.
pub proof fn law_patterns_cover(d: Seq<char>, domain: Seq<char>)
    ensures
        PatternView::Exact(d).covers(domain) == (domain == d),
        PatternView::WildcardSuffix(d).covers(domain) == exists|prefix: Seq<char>|
            domain == #[trigger] (prefix + "."@) + d,
{
    laws::law_suffix_needs_label_boundary(domain, d);
    reveal_strlit(".");
    if exists|prefix: Seq<char>| domain == #[trigger] (prefix + "."@) + d {
        let prefix = choose|prefix: Seq<char>| domain == #[trigger] (prefix + "."@) + d;
        assert(domain.len() == prefix.len() + 1 + d.len());
    }
}

/// A rule with a pattern is about a query just where three things hold: it is
/// for the type that is asked for, which it is unless it names types; none of
/// the domains that it leaves out covers the domain; and its expression
/// matches the domain.
pub proof fn law_rule_is_about(r: RuleView, domain: Seq<char>, rtype: u16)
    ensures
        authority::rule_hits(r, domain, rtype) == ((match r.dnstypes {
            None => true,
            Some(TypesView::Include(types)) => types.contains(rtype),
            Some(TypesView::Exclude(types)) => !types.contains(rtype),
        }) && (forall|k: int|
            0 <= k < r.denyallow.len() ==> !(#[trigger] r.denyallow[k]).covers(domain))
            && rule::regex_is_match(r.regex, domain)),
        forall|found: bool| #[trigger]
            authority::rule_applies(r, domain, rtype, found) == (found && (match r.dnstypes {
                None => true,
                Some(TypesView::Include(types)) => types.contains(rtype),
                Some(TypesView::Exclude(types)) => !types.contains(rtype),
            }) && (forall|k: int|
                0 <= k < r.denyallow.len() ==> !(#[trigger] r.denyallow[k]).covers(domain))),
{
}

/// A list of rules is about a query just where one of its rules is, wherever
/// that stands.
pub proof fn law_every_rule_is_asked(
    before: Seq<RuleView>,
    r: RuleView,
    behind: Seq<RuleView>,
    domain: Seq<char>,
    rtype: u16,
)
    ensures
        !authority::any_rule_hits(Seq::empty(), domain, rtype),
        authority::any_rule_hits(before + seq![r] + behind, domain, rtype) == (
        authority::any_rule_hits(before, domain, rtype) || authority::rule_hits(r, domain, rtype)
            || authority::any_rule_hits(behind, domain, rtype)),
        !authority::any_important_hits(Seq::empty(), domain, rtype),
        authority::any_important_hits(before + seq![r] + behind, domain, rtype) == (
        authority::any_important_hits(before, domain, rtype) || (r.important
            && authority::rule_hits(r, domain, rtype)) || authority::any_important_hits(
            behind,
            domain,
            rtype,
        )),
{
    let all = before + seq![r] + behind;
    let n = before.len() as int;
    assert(all[n] == r);
    assert forall|i: int| 0 <= i < before.len() implies #[trigger] before[i] == all[i] by {}
    assert forall|i: int| 0 <= i < behind.len() implies #[trigger] behind[i] == all[n + 1 + i] by {}
    if authority::any_rule_hits(all, domain, rtype) {
        let i = choose|i: int|
            0 <= i < all.len() && authority::rule_hits(#[trigger] all[i], domain, rtype);
        if i < n {
            assert(before[i] == all[i]);
        } else if i > n {
            assert(behind[i - n - 1] == all[i]);
        }
    }
    if authority::any_important_hits(all, domain, rtype) {
        let i = choose|i: int|
            0 <= i < all.len() && (#[trigger] all[i]).important && authority::rule_hits(
                all[i],
                domain,
                rtype,
            );
        if i < n {
            assert(before[i] == all[i]);
        } else if i > n {
            assert(behind[i - n - 1] == all[i]);
        }
    }
}

/// For every rule of a list: where it is for the type, leaves the domain in
/// and has an expression that matches it, the list is about the query; and
/// where there is no such rule, it is not.
pub proof fn law_rule_list(rules: Seq<RuleView>, domain: Seq<char>, rtype: u16)
    ensures
        authority::any_rule_hits(rules, domain, rtype) == exists|i: int|
            0 <= i < rules.len() && (match (#[trigger] rules[i]).dnstypes {
                None => true,
                Some(TypesView::Include(types)) => types.contains(rtype),
                Some(TypesView::Exclude(types)) => !types.contains(rtype),
            }) && !(exists|k: int|
                0 <= k < rules[i].denyallow.len() && (#[trigger] rules[i].denyallow[k]).covers(
                    domain,
                )) && rule::regex_is_match(rules[i].regex, domain),
        authority::any_important_hits(rules, domain, rtype) == exists|i: int|
            0 <= i < rules.len() && (#[trigger] rules[i]).important && (match rules[i].dnstypes {
                None => true,
                Some(TypesView::Include(types)) => types.contains(rtype),
                Some(TypesView::Exclude(types)) => !types.contains(rtype),
            }) && !(exists|k: int|
                0 <= k < rules[i].denyallow.len() && (#[trigger] rules[i].denyallow[k]).covers(
                    domain,
                )) && rule::regex_is_match(rules[i].regex, domain),
{
}

/// A set of domains with their subdomains holds a domain just where a member is
/// the domain, or a dot and a member are its end.
pub proof fn law_members_hold_subdomains(set: Set<Seq<char>>, domain: Seq<char>)
    ensures
        rule_sets::any_under(set, domain) == (set.contains(domain) || exists|
            prefix: Seq<char>,
            s: Seq<char>,
        |
            set.contains(s) && domain == #[trigger] ((prefix + "."@) + s)),
{
    if rule_sets::any_under(set, domain) {
        let s = choose|s: Seq<char>| #[trigger] set.contains(s) && domain::under(domain, s);
        laws::law_suffix_needs_label_boundary(domain, s);
    }
    if set.contains(domain) {
        assert(domain::under(domain, domain));
    }
    if exists|prefix: Seq<char>, s: Seq<char>|
        set.contains(s) && domain == #[trigger] ((prefix + "."@) + s) {
        let (prefix, s) = choose|prefix: Seq<char>, s: Seq<char>|
            set.contains(s) && domain == #[trigger] ((prefix + "."@) + s);
        laws::law_suffix_needs_label_boundary(domain, s);
    }
}

/// What the block list says to a query. An important rule that allows it goes
/// before all others, then an important one that blocks it, then what else
/// allows it, be it a domain or a rule with a pattern, then what else blocks
/// it. What is not blocked is passed over.
pub proof fn law_block_list_decides(b: BlockView, domain: Seq<char>, rtype: u16)
    ensures
        ({
            let important_allow = exists|i: int|
                0 <= i < b.allow_rules.len() && (#[trigger] b.allow_rules[i]).important
                    && authority::rule_hits(b.allow_rules[i], domain, rtype);
            let important_block = exists|i: int|
                0 <= i < b.block_rules.len() && (#[trigger] b.block_rules[i]).important
                    && authority::rule_hits(b.block_rules[i], domain, rtype);
            let allowed = b.allow_exact.contains(domain) || rule_sets::any_under(
                b.allow_subdomains,
                domain,
            ) || exists|i: int|
                0 <= i < b.allow_rules.len() && authority::rule_hits(
                    #[trigger] b.allow_rules[i],
                    domain,
                    rtype,
                );
            let blocked = b.block_exact.contains(domain) || rule_sets::any_under(
                b.block_subdomains,
                domain,
            ) || exists|i: int|
                0 <= i < b.block_rules.len() && authority::rule_hits(
                    #[trigger] b.block_rules[i],
                    domain,
                    rtype,
                );
            b.lookup(domain, rtype) == if important_allow {
                LookupView::Skip
            } else if important_block {
                b.response(rtype)
            } else if allowed {
                LookupView::Skip
            } else if blocked {
                b.response(rtype)
            } else {
                LookupView::Skip
            }
        }),
{
}

/// One more rule that blocks never lets a query through, and one more that
/// allows, unless it is the other way round important, never blocks one.
pub proof fn law_more_rules(b: BlockView, r: RuleView, domain: Seq<char>, rtype: u16)
    ensures
        b.blocks(domain, rtype) ==> (BlockView {
            block_rules: b.block_rules.push(r),
            ..b
        }).blocks(domain, rtype),
        !b.blocks(domain, rtype) ==> !(BlockView {
            allow_rules: b.allow_rules.push(r),
            ..b
        }).blocks(domain, rtype),
{
    let none = Seq::<RuleView>::empty();
    assert(b.block_rules + seq![r] + none =~= b.block_rules.push(r));
    assert(b.allow_rules + seq![r] + none =~= b.allow_rules.push(r));
    law_every_rule_is_asked(b.block_rules, r, none, domain, rtype);
    law_every_rule_is_asked(b.allow_rules, r, none, domain, rtype);
}

/// A fully qualified name that has an override is answered with its addresses,
/// whatever type is asked for; any other name is passed over.
pub proof fn law_overrides_answer(
    overrides: Map<Seq<Seq<u8>>, OverrideView>,
    labels: Seq<Seq<u8>>,
    fqdn: bool,
    rtype: u16,
)
    ensures
        fqdn && overrides.contains_key(labels) ==> authority::override_lookup(
            overrides,
            labels,
            fqdn,
            rtype,
        ) == LookupView::Answer(authority::override_answer(overrides[labels], rtype)),
        !fqdn || !overrides.contains_key(labels) ==> authority::override_lookup(
            overrides,
            labels,
            fqdn,
            rtype,
        ) == LookupView::Skip,
{
}

proof fn lemma_rewrite_place(rules: Seq<DomainRewriteView>, domain: Seq<char>, i: int)
    requires
        0 <= i <= rules.len(),
    ensures
        i <= authority::rewrite_place(rules, domain, i) <= rules.len(),
        authority::rewrite_place(rules, domain, i) < rules.len() ==> rules[authority::rewrite_place(
            rules,
            domain,
            i,
        )].pattern.covers(domain),
        forall|k: int|
            i <= k < authority::rewrite_place(rules, domain, i) ==> !(
            #[trigger] rules[k]).pattern.covers(domain),
    decreases rules.len() - i,
{
    if i < rules.len() && !rules[i].pattern.covers(domain) {
        lemma_rewrite_place(rules, domain, i + 1);
    }
}

/// A domain is answered by the first rewrite that covers it, with that one's
/// addresses; one that no rewrite covers is passed over.
pub proof fn law_first_rewrite_answers(
    rules: Seq<DomainRewriteView>,
    domain: Seq<char>,
    rtype: u16,
    i: int,
)
    ensures
        0 <= i < rules.len() && rules[i].pattern.covers(domain) && (forall|k: int|
            0 <= k < i ==> !(#[trigger] rules[k]).pattern.covers(domain))
            ==> authority::rewrite_lookup(rules, domain, rtype) == LookupView::Answer(
            authority::override_answer(rules[i].answer, rtype),
        ),
        (forall|k: int| 0 <= k < rules.len() ==> !(#[trigger] rules[k]).pattern.covers(domain))
            ==> authority::rewrite_lookup(rules, domain, rtype) == LookupView::Skip,
{
    lemma_rewrite_place(rules, domain, 0);
}

/// A rule on addresses is about an answer just where a record of the answer
/// holds an address, of either kind, that one of its networks holds.
pub proof fn law_address_rule_hits(rule: AnswerIpRewriteView, records: Seq<Record>)
    ensures
        authority::answer_ip_hits(rule, records) == exists|r: int, n: int|
            0 <= r < records.len() && 0 <= n < rule.nets.len() && (match (
            #[trigger] records[r]).data {
                RecordData::A(addr) => (#[trigger] rule.nets[n]).holds(IpAddr::V4(addr)),
                RecordData::Aaaa(addr) => rule.nets[n].holds(IpAddr::V6(addr)),
                RecordData::Cname(_) => false,
                RecordData::Other => false,
            }),
{
    if authority::answer_ip_hits(rule, records) {
        let r = choose|i: int|
            0 <= i < records.len() && authority::record_address(#[trigger] records[i]) is Some
                && authority::any_net_holds(
                rule.nets,
                authority::record_address(records[i]).unwrap(),
            );
        let addr = authority::record_address(records[r]).unwrap();
        let n = choose|n: int| 0 <= n < rule.nets.len() && (#[trigger] rule.nets[n]).holds(addr);
        assert(rule.nets[n].holds(addr));
        assert(records[r] == records[r]);
    }
    if exists|r: int, n: int|
        0 <= r < records.len() && 0 <= n < rule.nets.len() && (match (
        #[trigger] records[r]).data {
            RecordData::A(addr) => (#[trigger] rule.nets[n]).holds(IpAddr::V4(addr)),
            RecordData::Aaaa(addr) => rule.nets[n].holds(IpAddr::V6(addr)),
            RecordData::Cname(_) => false,
            RecordData::Other => false,
        }) {
        let (r, n) = choose|r: int, n: int|
            0 <= r < records.len() && 0 <= n < rule.nets.len() && (match (
            #[trigger] records[r]).data {
                RecordData::A(addr) => (#[trigger] rule.nets[n]).holds(IpAddr::V4(addr)),
                RecordData::Aaaa(addr) => rule.nets[n].holds(IpAddr::V6(addr)),
                RecordData::Cname(_) => false,
                RecordData::Other => false,
            });
        let addr = authority::record_address(records[r]).unwrap();
        assert(rule.nets[n].holds(addr));
        assert(authority::any_net_holds(rule.nets, addr));
    }
}

/// A rule on names is about an answer just where a record of the answer leads
/// to a name whose domain one of its patterns covers.
pub proof fn law_name_rule_hits(rule: CnameRewriteView, records: Seq<Record>)
    ensures
        authority::cname_hits(rule, records) == exists|r: int, n: int|
            0 <= r < records.len() && 0 <= n < rule.patterns.len() && (match (
            #[trigger] records[r]).data {
                RecordData::Cname(target) => (#[trigger] rule.patterns[n]).covers(
                    name::query_domain(target.label_view(), target.is_full()),
                ),
                RecordData::A(_) => false,
                RecordData::Aaaa(_) => false,
                RecordData::Other => false,
            }),
{
    if authority::cname_hits(rule, records) {
        let r = choose|i: int|
            0 <= i < records.len() && authority::record_target(#[trigger] records[i]) is Some
                && domain::any_covers(
                rule.patterns,
                authority::record_target(records[i]).unwrap(),
            );
        let target = authority::record_target(records[r]).unwrap();
        let n = choose|n: int|
            0 <= n < rule.patterns.len() && (#[trigger] rule.patterns[n]).covers(target);
        assert(rule.patterns[n].covers(target));
        assert(records[r] == records[r]);
    }
    if exists|r: int, n: int|
        0 <= r < records.len() && 0 <= n < rule.patterns.len() && (match (
        #[trigger] records[r]).data {
            RecordData::Cname(target) => (#[trigger] rule.patterns[n]).covers(
                name::query_domain(target.label_view(), target.is_full()),
            ),
            RecordData::A(_) => false,
            RecordData::Aaaa(_) => false,
            RecordData::Other => false,
        }) {
        let (r, n) = choose|r: int, n: int|
            0 <= r < records.len() && 0 <= n < rule.patterns.len() && (match (
            #[trigger] records[r]).data {
                RecordData::Cname(target) => (#[trigger] rule.patterns[n]).covers(
                    name::query_domain(target.label_view(), target.is_full()),
                ),
                RecordData::A(_) => false,
                RecordData::Aaaa(_) => false,
                RecordData::Other => false,
            });
        let target = authority::record_target(records[r]).unwrap();
        assert(rule.patterns[n].covers(target));
        assert(domain::any_covers(rule.patterns, target));
    }
}

/// Which rule replaces an answer. An answer that has come is replaced with the
/// addresses of the first rule on addresses that is about it; for want of such
/// a rule, with those of the first rule on names that is; and otherwise it is
/// kept. One that has not come stays as it is.
pub proof fn law_first_rule_replaces(
    address_rules: Seq<AnswerIpRewriteView>,
    name_rules: Seq<CnameRewriteView>,
    last_result: LastResult,
    records: Seq<Record>,
    rtype: u16,
    i: int,
)
    ensures
        ({
            let got = authority::consultation(
                address_rules,
                name_rules,
                last_result,
                records,
                rtype,
            );
            let came = last_result == LastResult::BreakOk || last_result
                == LastResult::ContinueOk;
            let no_address_rule = forall|k: int|
                0 <= k < address_rules.len() ==> !authority::answer_ip_hits(
                    #[trigger] address_rules[k],
                    records,
                );
            &&& !came ==> got == ConsultationView::Unchanged
            &&& came && 0 <= i < address_rules.len() && authority::answer_ip_hits(
                address_rules[i],
                records,
            ) && (forall|k: int|
                0 <= k < i ==> !authority::answer_ip_hits(#[trigger] address_rules[k], records))
                ==> got == ConsultationView::Replace(
                authority::override_answer(address_rules[i].answer, rtype),
            )
            &&& came && no_address_rule && 0 <= i < name_rules.len() && authority::cname_hits(
                name_rules[i],
                records,
            ) && (forall|k: int|
                0 <= k < i ==> !authority::cname_hits(#[trigger] name_rules[k], records)) ==> got
                == ConsultationView::Replace(
                authority::override_answer(name_rules[i].answer, rtype),
            )
            &&& came && no_address_rule && (forall|k: int|
                0 <= k < name_rules.len() ==> !authority::cname_hits(
                    #[trigger] name_rules[k],
                    records,
                )) ==> got == ConsultationView::Keep
        }),
{
    laws::lemma_answer_ip_place(address_rules, records, 0);
    laws::lemma_cname_place(name_rules, records, 0);
}

/// Where an answer is replaced because of its addresses, a rule is behind it:
/// one of its networks holds the address of a record, no rule before it is
/// about the answer, and its own addresses stand in place of the answer.
pub proof fn law_replaced_by_its_rule(
    address_rules: Seq<AnswerIpRewriteView>,
    name_rules: Seq<CnameRewriteView>,
    last_result: LastResult,
    records: Seq<Record>,
    rtype: u16,
)
    requires
        last_result == LastResult::BreakOk || last_result == LastResult::ContinueOk,
        exists|k: int|
            0 <= k < address_rules.len() && authority::answer_ip_hits(
                #[trigger] address_rules[k],
                records,
            ),
    ensures
        exists|i: int|
            0 <= i < address_rules.len() && authority::answer_ip_hits(
                #[trigger] address_rules[i],
                records,
            ) && (forall|k: int|
                0 <= k < i ==> !authority::answer_ip_hits(#[trigger] address_rules[k], records))
                && authority::consultation(address_rules, name_rules, last_result, records, rtype)
                == ConsultationView::Replace(
                authority::override_answer(address_rules[i].answer, rtype),
            ),
{
    laws::lemma_answer_ip_place(address_rules, records, 0);
    let i = authority::answer_ip_place(address_rules, records, 0);
    assert(authority::answer_ip_hits(address_rules[i], records));
}

/// A network holds an address of its own kind just where both are in the same
/// block: of the blocks that the addresses of the kind fall into, each as long
/// as the bits leave open that the network shares.
pub proof fn law_networks_hold_blocks(a: Ipv4Addr, b: Ipv4Addr, c: Ipv6Addr, d: Ipv6Addr, n: u8)
    ensures
        n <= 32 ==> IpNet::V4(a, n).holds(IpAddr::V4(b)) == (exists|k: nat|
            in_block(k, vstd::arithmetic::power2::pow2((32 - n) as nat), a.bits as nat)
                && #[trigger] in_block(
                k,
                vstd::arithmetic::power2::pow2((32 - n) as nat),
                b.bits as nat,
            )),
        n <= 128 ==> IpNet::V6(c, n).holds(IpAddr::V6(d)) == (exists|k: nat|
            in_block(k, vstd::arithmetic::power2::pow2((128 - n) as nat), c.bits as nat)
                && #[trigger] in_block(
                k,
                vstd::arithmetic::power2::pow2((128 - n) as nat),
                d.bits as nat,
            )),
        !IpNet::V4(a, n).holds(IpAddr::V6(d)),
        !IpNet::V6(c, n).holds(IpAddr::V4(b)),
{
    if n <= 32 {
        lemma_same_block((32 - n) as nat, a.bits as nat, b.bits as nat);
    }
    if n <= 128 {
        lemma_same_block((128 - n) as nat, c.bits as nat, d.bits as nat);
    }
}

/// Whether a number is in the block number `k`, where blocks are `size` long.
pub open spec fn in_block(k: nat, size: nat, x: nat) -> bool {
    k * size <= x < k * size + size
}

proof fn lemma_same_block(shift: nat, x: nat, y: nat)
    ensures
        ({
            let size = vstd::arithmetic::power2::pow2(shift);
            (x / size == y / size) == (exists|k: nat|
                in_block(k, size, x) && #[trigger] in_block(k, size, y))
        }),
{
    let size = vstd::arithmetic::power2::pow2(shift);
    vstd::arithmetic::power2::lemma_pow2_pos(shift);
    lemma_block(x / size, size, x);
    lemma_block(y / size, size, y);
    if x / size == y / size {
        assert(in_block(x / size, size, x) && in_block(x / size, size, y));
    }
    if exists|k: nat| in_block(k, size, x) && #[trigger] in_block(k, size, y) {
        let k = choose|k: nat| in_block(k, size, x) && #[trigger] in_block(k, size, y);
        lemma_block(k, size, x);
        lemma_block(k, size, y);
    }
}

proof fn lemma_block(k: nat, size: nat, x: nat)
    requires
        size > 0,
    ensures
        in_block(k, size, x) == (x / size == k),
{
    vstd::arithmetic::div_mod::lemma_fundamental_div_mod(x as int, size as int);
    vstd::arithmetic::div_mod::lemma_mod_bound(x as int, size as int);
    let q = x / size;
    vstd::arithmetic::mul::lemma_mul_is_commutative(q as int, size as int);
    if in_block(k, size, x) {
        vstd::arithmetic::div_mod::lemma_fundamental_div_mod_converse(
            x as int,
            size as int,
            k as int,
            x - k * size,
        );
    }
}

} // verus!
