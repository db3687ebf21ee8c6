//! What holds of values: each of their parts counts, and none stands for
//! another.
use vstd::prelude::*;

use crate::authority::{
    AnswerSet, AnswerView, BlockAuthority, Consultation, ConsultationView, Lookup, LookupView,
    OverrideAuthority, RewriteAuthority,
};
use crate::chain;
use crate::chain::{ChainLink, LinkView, ZonePlan};
use crate::compiled::{
    AnswerIpRewriteRule, CnameRewriteRule, CompiledRuleSets, CompiledView, DomainRewriteRule,
};
use crate::domain;
use crate::domain::{DomainPattern, PatternView};
use crate::fetch::{
    EventView, FetchEvent, FetchState, FetchStep, PathFault, StateView, StepView,
};
use crate::filtering::{AdblockRuntimeConfig, FilterConfig, FilteringConfig};
use crate::ip::{Ipv4Addr, Ipv6Addr};
use crate::lifecycle::{RunAction, RunActionView, RunEvent, RunEventView};
use crate::name;
use crate::name::NameView;
use crate::overrides::OverrideRule;
use crate::rule;
use crate::rule::{CompiledMatchRule, ParsedModifiers, TypeConstraint};
use crate::rule_sets::{DisabledRules, RuleSets};
use crate::server;
use crate::server::{Config, NameServerConfig, ZoneConfig};
use crate::settings::{Listener, ReloadSettings};
use crate::startup::{DropAction, DropActionView};
use crate::text;
use crate::text::CharClass;

verus! {

/// A rule holds its line, its expression, whether it is important, its types
/// and the domains that it leaves alone.
pub proof fn law_values_of_rules(r: CompiledMatchRule, m: ParsedModifiers, i: int)
    ensures
        r@.raw_text == r.raw_text@,
        r.matcher == rule::Matcher::Regex(r@.regex),
        r@.important == r.important,
        r@.dnstypes == rule::types_view(r.dnstypes),
        r@.denyallow.len() == r.denyallow@.len(),
        0 <= i < r.denyallow@.len() ==> r@.denyallow[i] == r.denyallow@[i]@,
        m@.important == m.important,
        m@.dnstypes == rule::types_view(m.dnstypes),
        m@.denyallow.len() == m.denyallow@.len(),
        0 <= i < m.denyallow@.len() ==> m@.denyallow[i] == m.denyallow@[i]@,
{
}

/// The types of a rule are those that it holds, to be in or to be out.
pub proof fn law_values_of_types(t: TypeConstraint, code: u16)
    ensures
        rule::types_view(None) is None,
        rule::types_view(Some(t)) == Some(t@),
        t is Include ==> t@ is Include && t@->Include_0.contains(code) == t->Include_0@.contains(
            code,
        ),
        t is Exclude ==> t@ is Exclude && t@->Exclude_0.contains(code) == t->Exclude_0@.contains(
            code,
        ),
{
}

/// A list of rules holds each of them at its place.
pub proof fn law_lists_of_rules(v: Seq<CompiledMatchRule>, p: Seq<DomainPattern>, i: int)
    ensures
        rule::rule_views(v).len() == v.len(),
        0 <= i < v.len() ==> rule::rule_views(v)[i] == v[i]@,
        domain::patterns(p).len() == p.len(),
        0 <= i < p.len() ==> domain::patterns(p)[i] == p[i]@,
        0 <= i < p.len() && p[i] is Exact ==> p[i]@ == PatternView::Exact(p[i]->Exact_0@),
        0 <= i < p.len() && p[i] is WildcardSuffix ==> p[i]@ == PatternView::WildcardSuffix(
            p[i]->WildcardSuffix_0@,
        ),
{
}

/// The sets of rules hold their domains and their rules.
pub proof fn law_values_of_rule_sets(r: RuleSets, c: CompiledRuleSets, d: DisabledRules)
    ensures
        r@.overrides == r.overrides@,
        r@.block_exact == r.block_exact@,
        r@.block_subdomains == r.block_subdomains@,
        r@.allow_exact == r.allow_exact@,
        r@.allow_subdomains == r.allow_subdomains@,
        r@.block_rules == rule::rule_views(r.block_rules@),
        r@.allow_rules == rule::rule_views(r.allow_rules@),
        c@.rules.overrides == c.overrides@,
        c@.rules.block_exact == c.block_exact@,
        c@.rules.block_subdomains == c.block_subdomains@,
        c@.rules.allow_exact == c.allow_exact@,
        c@.rules.allow_subdomains == c.allow_subdomains@,
        c@.rules.block_rules == rule::rule_views(c.block_rules@),
        c@.rules.allow_rules == rule::rule_views(c.allow_rules@),
        c@.domain_rewrites.len() == c.domain_rewrites@.len(),
        c@.answer_ip_rewrites.len() == c.answer_ip_rewrites@.len(),
        c@.cname_rewrites.len() == c.cname_rewrites@.len(),
        forall|i: int|
            0 <= i < c.domain_rewrites@.len() ==> c@.domain_rewrites[i]
                == #[trigger] c.domain_rewrites@[i]@,
        forall|i: int|
            0 <= i < c.answer_ip_rewrites@.len() ==> c@.answer_ip_rewrites[i]
                == #[trigger] c.answer_ip_rewrites@[i]@,
        forall|i: int|
            0 <= i < c.cname_rewrites@.len() ==> c@.cname_rewrites[i]
                == #[trigger] c.cname_rewrites@[i]@,
        c@.blocking_mode == c.blocking_mode,
        c@.blocking_ipv4 == c.blocking_ipv4,
        c@.blocking_ipv6 == c.blocking_ipv6,
        c@.block_ttl == c.block_ttl,
        forall|i: int| 0 <= i < d.items@.len() ==> d@.contains((#[trigger] d.items@[i])@),
{
    assert forall|i: int| 0 <= i < d.items@.len() implies d@.contains(
        (#[trigger] d.items@[i])@,
    ) by {
        let t = text::texts(d.items@);
        assert(t[i] == d.items@[i]@);
        assert(t.contains(t[i]));
    }
}

/// Rewrites hold their patterns, their networks and their answers.
pub proof fn law_values_of_rewrites(
    d: DomainRewriteRule,
    a: AnswerIpRewriteRule,
    c: CnameRewriteRule,
    o: OverrideRule,
)
    ensures
        d@.pattern == d.pattern@,
        d@.answer == d.answer@,
        a@.nets == a.nets@,
        a@.answer == a.answer@,
        c@.patterns == domain::patterns(c.patterns@),
        c@.answer == c.answer@,
        o@.ipv4 == o.ipv4@,
        o@.ipv6 == o.ipv6@,
{
}

/// What is answered holds its sets of records, each with its time and all its
/// addresses.
pub proof fn law_values_of_answers(
    ttl: u32,
    v4: Vec<Ipv4Addr>,
    v6: Vec<Ipv6Addr>,
    sets: Vec<AnswerSet>,
    i: int,
)
    ensures
        AnswerSet::A(ttl, v4)@ == AnswerView::A(ttl, v4@),
        AnswerSet::Aaaa(ttl, v6)@ == AnswerView::Aaaa(ttl, v6@),
        Lookup::Skip@ == LookupView::Skip,
        Lookup::NxDomain@ == LookupView::NxDomain,
        Lookup::Answer(sets)@ is Answer,
        Lookup::Answer(sets)@->Answer_0.len() == sets@.len(),
        0 <= i < sets@.len() ==> Lookup::Answer(sets)@->Answer_0[i] == sets@[i]@,
        Consultation::Keep@ == ConsultationView::Keep,
        Consultation::Unchanged@ == ConsultationView::Unchanged,
        Consultation::Replace(sets)@ is Replace,
        Consultation::Replace(sets)@->Replace_0.len() == sets@.len(),
        0 <= i < sets@.len() ==> Consultation::Replace(sets)@->Replace_0[i] == sets@[i]@,
{
}

/// The authorities hold what they answer from.
pub proof fn law_values_of_authorities(
    o: OverrideAuthority,
    r: RewriteAuthority,
    b: BlockAuthority,
)
    ensures
        o@.origin == o.origin@,
        o@.named == crate::authority::named_map(o.overrides@),
        r@.origin == r.origin@,
        r@.domain_rewrites.len() == r.domain_rewrites@.len(),
        r@.answer_ip_rewrites.len() == r.answer_ip_rewrites@.len(),
        r@.cname_rewrites.len() == r.cname_rewrites@.len(),
        forall|i: int|
            0 <= i < r.domain_rewrites@.len() ==> r@.domain_rewrites[i]
                == #[trigger] r.domain_rewrites@[i]@,
        forall|i: int|
            0 <= i < r.answer_ip_rewrites@.len() ==> r@.answer_ip_rewrites[i]
                == #[trigger] r.answer_ip_rewrites@[i]@,
        forall|i: int|
            0 <= i < r.cname_rewrites@.len() ==> r@.cname_rewrites[i]
                == #[trigger] r.cname_rewrites@[i]@,
        b@.origin == b.origin@,
        b@.block_exact == b.block_exact@,
        b@.block_subdomains == b.block_subdomains@,
        b@.allow_exact == b.allow_exact@,
        b@.allow_subdomains == b.allow_subdomains@,
        b@.block_rules == rule::rule_views(b.block_rules@),
        b@.allow_rules == rule::rule_views(b.allow_rules@),
        b@.blocking_mode == b.blocking_mode,
        b@.blocking_ipv4 == b.blocking_ipv4,
        b@.blocking_ipv6 == b.blocking_ipv6,
        b@.ttl == b.ttl,
{
}

/// A chain holds its links, each at its place.
pub proof fn law_values_of_chains<'a>(v: Seq<ChainLink<'a>>, i: int)
    ensures
        chain::links(v).len() == v.len(),
        0 <= i < v.len() ==> chain::links(v)[i] == match v[i] {
            ChainLink::Override(o) => LinkView::Override(o@),
            ChainLink::Rewrite(r) => LinkView::Rewrite(r@),
            ChainLink::Block(b) => LinkView::Block(b@),
            ChainLink::Forward(origin, config) => LinkView::Forward(origin@, *config),
        },
{
}

/// A server upstream and the settings hold what they are made of.
pub proof fn law_values_of_settings(s: NameServerConfig, r: ReloadSettings, config: Config)
    ensures
        s@.socket_addr == s.socket_addr,
        s@.protocol == s.protocol,
        s.tls_dns_name is Some ==> s@.tls_dns_name == Some(s.tls_dns_name.unwrap()@),
        s.tls_dns_name is None ==> s@.tls_dns_name is None,
        s.http_endpoint is Some ==> s@.http_endpoint == Some(s.http_endpoint.unwrap()@),
        s.http_endpoint is None ==> s@.http_endpoint is None,
        s@.trust_negative_responses == s.trust_negative_responses,
        s@.bind_addr == s.bind_addr,
        r@.listen_addrs == r.listen_addrs@,
        r@.listen_port == r.listen_port,
        r@.udp_enabled == r.udp_enabled,
        r@.tcp_enabled == r.tcp_enabled,
        r@.tcp_request_timeout_secs == r.tcp_request_timeout_secs,
        r.user is Some ==> r@.user == Some(r.user.unwrap()@),
        r.user is None ==> r@.user is None,
        r.group is Some ==> r@.group == Some(r.group.unwrap()@),
        r.group is None ==> r@.group is None,
        config.dns is Some ==> config.upstreams() == config.dns.unwrap().upstream_dns@,
        config.dns is None ==> config.upstreams().len() == 0,
{
}

/// A list of servers upstream holds each of them at its place.
pub proof fn law_lists_of_servers(v: Seq<NameServerConfig>, t: Seq<String>, i: int)
    ensures
        server::name_servers(v).len() == v.len(),
        0 <= i < v.len() ==> server::name_servers(v)[i] == v[i]@,
        text::texts(t).len() == t.len(),
        0 <= i < t.len() ==> text::texts(t)[i] == t[i]@,
{
}

/// What rules are compiled from holds its filters, its local rules and what
/// is said of answers.
pub proof fn law_values_of_filtering(
    c: AdblockRuntimeConfig,
    f: FilterConfig,
    s: FilteringConfig,
    i: int,
)
    ensures
        c@.filters.len() == c.filters@.len(),
        0 <= i < c.filters@.len() ==> c@.filters[i] == c.filters@[i]@,
        c@.user_rules == text::texts(c.user_rules@),
        c@.filtering == c.filtering@,
        f@.enabled == f.enabled,
        f@.url == f.url@,
        f.name is Some ==> f@.name == Some(f.name.unwrap()@),
        f.name is None ==> f@.name is None,
        f@.id == f.id,
        s@.blocking_ipv4 == s.blocking_ipv4,
        s@.blocking_ipv6 == s.blocking_ipv6,
        s@.blocking_mode == s.blocking_mode,
        s@.rewrites.len() == s.rewrites@.len(),
        0 <= i < s.rewrites@.len() ==> s@.rewrites[i] == s.rewrites@[i]@,
{
}

/// The steps of a fetch hold their texts.
pub proof fn law_values_of_fetches(t: String, fault: PathFault, state: FetchState)
    ensures
        FetchState::ReadingCopy@ == StateView::ReadingCopy,
        FetchState::Downloading@ == StateView::Downloading,
        FetchState::Comparing(t)@ == StateView::Comparing(t@),
        FetchState::MakingDirectory(t)@ == StateView::MakingDirectory(t@),
        FetchState::Writing(t)@ == StateView::Writing(t@),
        FetchState::FallingBack(t)@ == StateView::FallingBack(t@),
        FetchEvent::Copy(Some(t))@ == EventView::Copy(Some(t@)),
        FetchEvent::Copy(None)@ == EventView::Copy(None),
        FetchEvent::Downloaded(Ok(t))@ == EventView::Downloaded(Ok(t@)),
        FetchEvent::Downloaded(Err(t))@ == EventView::Downloaded(Err(t@)),
        FetchEvent::Directory(Ok(()))@ == EventView::Directory(None),
        FetchEvent::Directory(Err(fault))@ is Directory,
        FetchEvent::Directory(Err(fault))@->Directory_0 is Some,
        FetchEvent::Directory(Err(fault))@->Directory_0.unwrap().path == fault.path@,
        FetchEvent::Directory(Err(fault))@->Directory_0.unwrap().err == fault.err@,
        FetchEvent::Written(Ok(()))@ == EventView::Written(None),
        FetchEvent::Written(Err(fault))@ is Written,
        FetchEvent::Written(Err(fault))@->Written_0 is Some,
        FetchEvent::Written(Err(fault))@->Written_0.unwrap().path == fault.path@,
        FetchEvent::Written(Err(fault))@->Written_0.unwrap().err == fault.err@,
        FetchStep::Next(state)@ == StepView::Next(state@),
        FetchStep::Done(Ok(t))@ == StepView::Done(Ok(t@)),
        FetchStep::Done(Err(t))@ == StepView::Done(Err(t@)),
{
}

/// The events and the actions of a run hold what they are about.
pub proof fn law_values_of_runs(
    t: String,
    u: String,
    config: Config,
    n: u32,
    listener: Listener,
)
    ensures
        RunEvent::Loaded(Ok(config))@ == RunEventView::Loaded(Ok(config)),
        RunEvent::Loaded(Err(t))@ == RunEventView::Loaded(Err(t@)),
        RunEvent::Bound(Ok(()))@ == RunEventView::Bound(None),
        RunEvent::Bound(Err(t))@ == RunEventView::Bound(Some(t@)),
        RunEvent::Switched(Ok(()))@ == RunEventView::Switched(None),
        RunEvent::Switched(Err(t))@ == RunEventView::Switched(Some(t@)),
        RunEvent::Terminated@ == RunEventView::Terminated,
        RunEvent::HungUp@ == RunEventView::HungUp,
        RunEvent::Ended(Ok(Ok(())))@ == RunEventView::Ended(Ok(None)),
        RunEvent::Ended(Ok(Err(t)))@ == RunEventView::Ended(Ok(Some(t@))),
        RunEvent::Ended(Err(t))@ == RunEventView::Ended(Err(t@)),
        RunAction::Switch(t, u)@ == RunActionView::Switch(t@, u@),
        RunAction::Serve@ == RunActionView::Serve,
        RunAction::Reload@ == RunActionView::Reload,
        RunAction::Replace@ == RunActionView::Replace,
        RunAction::Refuse(t)@ == RunActionView::Refuse(t@),
        RunAction::Stop@ == RunActionView::Stop,
        RunAction::Finish(Ok(()))@ == RunActionView::Finish(None),
        RunAction::Finish(Err(t))@ == RunActionView::Finish(Some(t@)),
        DropAction::LookUp@ == DropActionView::LookUp,
        DropAction::Finish(Ok(()))@ == DropActionView::Finish(None),
        DropAction::Finish(Err(t))@ == DropActionView::Finish(Some(t@)),
        DropAction::SwitchGroup(n)@ == DropActionView::SwitchGroup(n),
        DropAction::SwitchUser(n)@ == DropActionView::SwitchUser(n),
        RunAction::Bind(listener)@ == RunActionView::Bind(listener),
{
}

/// A name is made of labels of 1 to 63 bytes, which with one more byte for each
/// and one for the end are no more than 255.
pub proof fn law_values_of_names(labels: Seq<Seq<u8>>, last: Seq<u8>, i: int)
    ensures
        name::labels_size(Seq::empty()) == 0,
        name::labels_size(labels.push(last)) == name::labels_size(labels) + last.len() + 1,
        name::valid_labels(labels) ==> name::labels_size(labels) <= 254,
        name::valid_labels(labels) && 0 <= i < labels.len() ==> 1 <= labels[i].len() <= 63,
        (forall|k: int| 0 <= k < labels.len() ==> 1 <= (#[trigger] labels[k]).len() <= 63)
            && name::labels_size(labels) <= 254 ==> name::valid_labels(labels),
{
    assert(labels.push(last).drop_last() =~= labels);
}

/// The domain of a name is what its ASCII form says without the dots at its
/// end, in small letters; and a name in small letters keeps the rest.
pub proof fn law_domain_of_a_name(n: NameView)
    ensures
        name::query_domain(n.labels, n.fqdn) == text::lower(
            text::trim_back(name::name_to_ascii(n.labels, n.fqdn), CharClass::Is('.')),
        ),
        n.lowered().labels == name::lower_labels(n.labels),
        n.lowered().fqdn == n.fqdn,
{
}

/// A download may take 10 seconds to connect and 30 to read.
pub proof fn law_default_times()
    ensures
        crate::fetch::DEFAULT_FILTER_CONNECT_TIMEOUT_SECS == 10,
        crate::fetch::DEFAULT_FILTER_READ_TIMEOUT_SECS == 30,
        server::DEFAULT_TCP_REQUEST_TIMEOUT == 5,
        server::DEFAULT_PORT == 53,
{
}

/// The plan of a zone holds the zone's name and its chain.
pub proof fn law_values_of_plans<'a>(
    plan: ZonePlan<'a>,
    zone: ZoneConfig,
    compiled: Option<CompiledView>,
)
    ensures
        chain::is_zone_plan(plan, zone, compiled) ==> name::name_parse(zone.zone@) == Ok::<
            (Seq<Seq<u8>>, bool),
            Seq<char>,
        >((plan.name@.labels, plan.name@.fqdn)) && chain::is_zone_chain(
            chain::links(plan.chain@),
            zone.zone_type_config->stores@,
            compiled,
            plan.name@,
        ),
{
}

} // verus!
