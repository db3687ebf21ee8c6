//! What holds of how queries are served: the links of a chain and who answers,
//! servers upstream, where the server listens, and how filters are fetched.
use vstd::prelude::*;

use crate::authority;
use crate::authority::{LookupView, NamedOverride};
use crate::chain;
use crate::chain::{AnswererView, LinkView, QueryView};
use crate::compiled::CompiledView;
use crate::fetch;
use crate::fetch::{EventView, FilterFetchMode, OutsideView, StateView};
use crate::filtering;
use crate::filtering::{FilterConfig, FilterView, RewriteAnswerConfig, RewriteConfig};
use crate::ip;
use crate::ip::{IpAddr, Ipv4Addr, Ipv6Addr, SocketAddr};
use crate::name;
use crate::name::NameView;
use crate::number;
use crate::overrides::OverrideView;
use crate::server;
use crate::server::{
    Config, ExternalStoreConfig, ForwardConfig, LogLevel, NameServerView, Protocol,
    UpstreamDnsConfig, ZoneConfig,
};
use crate::settings;
use crate::settings::{Listener, SettingsView};
use crate::text;

verus! {

/// The links that rules give a zone: the overrides where there are any, behind
/// them the rewrites where there is one of any of the three kinds, behind them
/// the block list where it has a domain that is blocked or a rule with a
/// pattern of either kind, and at the end the servers upstream.
pub proof fn law_links_of_a_chain(
    named: Map<Seq<Seq<u8>>, OverrideView>,
    compiled: CompiledView,
    forward: ForwardConfig,
    origin: NameView,
)
    ensures
        ({
            let links = chain::chain_of(named, compiled, forward, origin);
            let has_overrides = exists|d: Seq<char>| #[trigger]
                compiled.rules.overrides.contains_key(d);
            let has_rewrites = compiled.domain_rewrites.len() > 0
                || compiled.answer_ip_rewrites.len() > 0 || compiled.cname_rewrites.len() > 0;
            let has_blocks = (exists|d: Seq<char>| #[trigger]
                compiled.rules.block_exact.contains(d)) || (exists|d: Seq<char>| #[trigger]
                compiled.rules.block_subdomains.contains(d)) || compiled.rules.block_rules.len() > 0
                || compiled.rules.allow_rules.len() > 0;
            let o: int = if has_overrides {
                1
            } else {
                0
            };
            let w: int = if has_rewrites {
                1
            } else {
                0
            };
            let b: int = if has_blocks {
                1
            } else {
                0
            };
            &&& links.len() == o + w + b + 1
            &&& links[o + w + b] == LinkView::Forward(origin, forward)
            &&& has_overrides ==> links[0] is Override && links[0]->Override_0.named == named
                && links[0]->Override_0.origin == origin.lowered()
            &&& has_rewrites ==> links[o] is Rewrite && links[o]->Rewrite_0.domain_rewrites
                == compiled.domain_rewrites && links[o]->Rewrite_0.answer_ip_rewrites
                == compiled.answer_ip_rewrites && links[o]->Rewrite_0.cname_rewrites
                == compiled.cname_rewrites && links[o]->Rewrite_0.origin == origin.lowered()
            &&& has_blocks ==> links[o + w] is Block && ({
                let list = links[o + w]->Block_0;
                &&& list.origin == origin.lowered()
                &&& list.block_exact == compiled.rules.block_exact
                &&& list.block_subdomains == compiled.rules.block_subdomains
                &&& list.allow_exact == compiled.rules.allow_exact
                &&& list.allow_subdomains == compiled.rules.allow_subdomains
                &&& list.block_rules == compiled.rules.block_rules
                &&& list.allow_rules == compiled.rules.allow_rules
                &&& list.blocking_mode == compiled.blocking_mode
                &&& list.ttl == compiled.block_ttl
                &&& compiled.blocking_ipv4 is Some ==> list.blocking_ipv4
                    == compiled.blocking_ipv4.unwrap()
                &&& compiled.blocking_ipv4 is None ==> list.blocking_ipv4.bits == 0
                &&& compiled.blocking_ipv6 is Some ==> list.blocking_ipv6
                    == compiled.blocking_ipv6.unwrap()
                &&& compiled.blocking_ipv6 is None ==> list.blocking_ipv6.bits == 0
            })
        }),
{
    let table = compiled.rules.overrides;
    let has_overrides = exists|d: Seq<char>| #[trigger] table.contains_key(d);
    assert(chain::has_overrides(compiled) == has_overrides) by {
        if !has_overrides {
            assert(table =~= Map::<Seq<char>, OverrideView>::empty());
        }
    }
    lemma_empty_set(compiled.rules.block_exact);
    lemma_empty_set(compiled.rules.block_subdomains);
}

proof fn lemma_empty_set(s: Set<Seq<char>>)
    ensures
        s.is_empty() == !exists|d: Seq<char>| #[trigger] s.contains(d),
{
    if s.is_empty() {
    } else {
        if !exists|d: Seq<char>| #[trigger] s.contains(d) {
            assert(s =~= Set::<Seq<char>>::empty());
        }
    }
}

/// What the links say to a query: the overrides by its labels in small letters,
/// the rewrites and the block list by its domain; a link to servers upstream
/// says nothing itself.
pub proof fn law_links_are_asked(link: LinkView, query: QueryView)
    ensures
        link is Override ==> link.lookup(query) == authority::override_lookup(
            link->Override_0.named,
            name::lower_labels(query.labels),
            query.fqdn,
            query.rtype,
        ),
        link is Rewrite ==> link.lookup(query) == authority::rewrite_lookup(
            link->Rewrite_0.domain_rewrites,
            name::query_domain(query.labels, query.fqdn),
            query.rtype,
        ),
        link is Block ==> link.lookup(query) == link->Block_0.lookup(
            name::query_domain(query.labels, query.fqdn),
            query.rtype,
        ),
        link is Forward ==> link.lookup(query) == LookupView::Skip,
{
}

/// A query is answered by the first link of a chain that has something to say
/// to it, where a link to servers upstream always has; and by nobody where
/// there is no such link.
pub proof fn law_first_link_answers(links: Seq<LinkView>, query: QueryView, k: int)
    requires
        0 <= k <= links.len(),
        forall|i: int|
            0 <= i < k ==> !((#[trigger] links[i]) is Forward) && links[i].lookup(query)
                == LookupView::Skip,
    ensures
        k == links.len() ==> chain::answerer(links, query, 0) == AnswererView::Nobody,
        k < links.len() && links[k] is Forward ==> chain::answerer(links, query, 0)
            == AnswererView::Upstream(links[k]->Forward_1),
        k < links.len() && !(links[k] is Forward) && links[k].lookup(query) != LookupView::Skip
            ==> chain::answerer(links, query, 0) == AnswererView::Link(links[k].lookup(query)),
{
    lemma_answerer(links, query, 0, k);
}

proof fn lemma_answerer(links: Seq<LinkView>, query: QueryView, i: int, k: int)
    requires
        0 <= i <= k <= links.len(),
        forall|j: int|
            0 <= j < k ==> !((#[trigger] links[j]) is Forward) && links[j].lookup(query)
                == LookupView::Skip,
    ensures
        chain::answerer(links, query, i) == chain::answerer(links, query, k),
    decreases k - i,
{
    if i < k {
        assert(!(links[i] is Forward) && links[i].lookup(query) == LookupView::Skip);
        lemma_answerer(links, query, i + 1, k);
    }
}

/// The chain of a zone is made of the chains of its stores, one behind the
/// other.
pub proof fn law_stores_are_chained(
    links: Seq<LinkView>,
    stores: Seq<ExternalStoreConfig>,
    part: Seq<LinkView>,
    store: ExternalStoreConfig,
    compiled: Option<CompiledView>,
    origin: NameView,
)
    ensures
        chain::is_zone_chain(Seq::empty(), Seq::empty(), compiled, origin),
        chain::is_zone_chain(links, stores, compiled, origin) && chain::is_part(
            part,
            store,
            compiled,
            origin,
        ) ==> chain::is_zone_chain(links + part, stores.push(store), compiled, origin),
        chain::is_zone_chain(links, stores.push(store), compiled, origin) ==> exists|k: int|
            0 <= k <= links.len() && #[trigger] chain::is_part(
                links.skip(k),
                store,
                compiled,
                origin,
            ) && chain::is_zone_chain(links.take(k), stores, compiled, origin),
        chain::is_zone_chain(links, Seq::empty(), compiled, origin) ==> links.len() == 0,
{
    let all = stores.push(store);
    assert(all.drop_last() =~= stores);
    assert(all.last() == store);
    if chain::is_zone_chain(links, stores, compiled, origin) && chain::is_part(
        part,
        store,
        compiled,
        origin,
    ) {
        let whole = links + part;
        let k = links.len() as int;
        assert(whole.skip(k) =~= part);
        assert(whole.take(k) =~= links);
        assert(chain::is_part(whole.skip(k), all.last(), compiled, origin));
    }
}

/// The chain of one store: what it is forwarded to, behind the links of the
/// rules where there are any. A store that is no such one has no chain.
pub proof fn law_chain_of_a_store(
    part: Seq<LinkView>,
    config: ForwardConfig,
    compiled: CompiledView,
    origin: NameView,
)
    ensures
        chain::is_part(part, ExternalStoreConfig::Forward(config), None, origin) == (part.len() == 1
            && part[0] == LinkView::Forward(origin, config)),
        chain::is_part(part, ExternalStoreConfig::Forward(config), Some(compiled), origin) == (
        exists|named: Map<Seq<Seq<u8>>, OverrideView>| #[trigger]
            authority::names_overrides(named, compiled.rules.overrides) && part == chain::chain_of(
                named,
                compiled,
                config,
                origin,
            )),
        !chain::is_part(part, ExternalStoreConfig::Default, None, origin),
        !chain::is_part(part, ExternalStoreConfig::Default, Some(compiled), origin),
{
    if part.len() == 1 && part[0] == LinkView::Forward(origin, config) {
        assert(part =~= seq![LinkView::Forward(origin, config)]);
    }
}

/// Of two overrides under one name the last is asked, and others stay.
pub proof fn law_last_override_of_a_name(
    entries: Seq<NamedOverride>,
    added: NamedOverride,
    labels: Seq<Seq<u8>>,
)
    ensures
        ({
            let before = authority::named_map(entries);
            let after = authority::named_map(entries.push(added));
            &&& after.contains_key(added.name.label_view())
            &&& after[added.name.label_view()] == added.rule@
            &&& labels != added.name.label_view() ==> after.contains_key(labels)
                == before.contains_key(labels) && (before.contains_key(labels) ==> after[labels]
                == before[labels])
        }),
        !authority::named_map(Seq::empty()).contains_key(labels),
{
    assert(entries.push(added).drop_last() =~= entries);
}

/// The labels that an override is asked under: those of its domain, in small
/// letters.
pub proof fn law_labels_of_an_override(domain: Seq<char>)
    ensures
        match name::name_from_ascii(domain) {
            Ok(parsed) => authority::override_labels(domain) == Some(name::lower_labels(parsed.0)),
            Err(_) => authority::override_labels(domain) is None,
        },
{
}

/// How much is logged: by a word in letters of either case, or by a number
/// from 1 to 5, which a plus sign may stand before.
pub proof fn law_levels(s: Seq<char>, n: nat)
    requires
        number::numeral(
            if s.len() > 0 && s[0] == '+' {
                s.skip(1)
            } else {
                s
            },
            10,
            5,
        ) == Some(n) || (n == 0 && number::numeral(
            if s.len() > 0 && s[0] == '+' {
                s.skip(1)
            } else {
                s
            },
            10,
            5,
        ) is None),
    ensures
        (server::level_text(s) == Some(LogLevel::Error)) == (n == 1 || text::lower(s) == "error"@),
        (server::level_text(s) == Some(LogLevel::Warn)) == (n == 2 || text::lower(s) == "warn"@),
        (server::level_text(s) == Some(LogLevel::Info)) == (n == 3 || text::lower(s) == "info"@),
        (server::level_text(s) == Some(LogLevel::Debug)) == (n == 4 || text::lower(s) == "debug"@),
        (server::level_text(s) == Some(LogLevel::Trace)) == (n == 5 || text::lower(s) == "trace"@),
        (server::level_text(s) is None) == (n == 0 && text::lower(s) != "error"@ && text::lower(s)
            != "warn"@ && text::lower(s) != "info"@ && text::lower(s) != "debug"@ && text::lower(s)
            != "trace"@),
{
    reveal_strlit("error");
    reveal_strlit("warn");
    reveal_strlit("info");
    reveal_strlit("debug");
    reveal_strlit("trace");
    let word = text::lower(s);
    let digits = if s.len() > 0 && s[0] == '+' {
        s.skip(1)
    } else {
        s
    };
    if word == "error"@ || word == "warn"@ || word == "info"@ || word == "debug"@ || word
        == "trace"@ {
        assert(word.len() == s.len());
        let last = s.len() - 1;
        assert(word[last] == text::lower_char(s[last]));
        assert(digits.last() == s[last]);
        assert(!('0' <= s[last] <= '9'));
        assert(number::digits_value(digits, 10) is None);
        assert(n == 0);
    }
    assert(word == "error"@ ==> word[0] == 'e');
    assert(word == "warn"@ ==> word[0] == 'w');
    assert(word == "info"@ ==> word[0] == 'i');
    assert(word == "debug"@ ==> word[0] == 'd');
    assert(word == "trace"@ ==> word[0] == 't');
}

/// What an upstream is written as: an address, at port 53 unless a port is
/// given, behind `udp://` or `tcp://` or nothing, which is the same as UDP.
/// What is no address is named in the error.
pub proof fn law_upstreams_are_read(a: Seq<char>, scheme: Seq<char>, protocol: Protocol)
    requires
        ({
            ||| scheme == "udp://"@ && protocol == Protocol::Udp
            ||| scheme == "tcp://"@ && protocol == Protocol::Tcp
            ||| scheme.len() == 0 && protocol == Protocol::Udp && !("udp://"@).is_prefix_of(a)
                && !("tcp://"@).is_prefix_of(a)
        }),
    ensures
        ({
            let got = server::upstream_text(scheme + a);
            let said = got->Ok_0;
            &&& got is Ok <==> ip::socket_text(a) is Some || ip::ip_text(a) is Some
            &&& got is Ok ==> said.protocol == protocol && said.tls_dns_name is None
                && said.http_endpoint is None && !said.trust_negative_responses
                && said.bind_addr is None
            &&& ip::socket_text(a) is Some ==> said.socket_addr == ip::socket_text(a).unwrap()
            &&& ip::socket_text(a) is None && ip::ip_text(a) is Some ==> said.socket_addr.ip
                == ip::ip_text(a).unwrap() && said.socket_addr.port == 53
                && said.socket_addr.scope_id == 0
            &&& got is Err ==> got->Err_0 == "invalid upstream DNS address `"@ + a
                + "`; expected `IP`, `IP:PORT`, `udp://IP:PORT`, or `tcp://IP:PORT`"@
        }),
{
    reveal_strlit("udp://");
    reveal_strlit("tcp://");
    let s = scheme + a;
    if scheme.len() == 0 {
        assert(s =~= a);
    } else {
        assert(scheme =~= s.subrange(0, 6));
        assert(s.skip(6) =~= a);
        if scheme == "tcp://"@ {
            assert(s[0] == 't');
            if ("udp://"@).is_prefix_of(s) {
                assert(s.subrange(0, 6)[0] == 'u');
            }
        }
    }
}

/// Upstreams are read one by one, those that are written out as they are, and
/// the first that cannot be read says why.
pub proof fn law_upstream_lists(upstreams: Seq<UpstreamDnsConfig>, i: int)
    ensures
        server::upstream_list(upstreams) is Ok <==> (forall|j: int|
            0 <= j < upstreams.len() ==> server::upstream_server(#[trigger] upstreams[j]) is Ok),
        server::upstream_list(upstreams) is Ok ==> server::upstream_list(upstreams)->Ok_0.len()
            == upstreams.len(),
        server::upstream_list(upstreams) is Ok && 0 <= i < upstreams.len()
            ==> server::upstream_server(upstreams[i]) == Ok::<NameServerView, Seq<char>>(
            server::upstream_list(upstreams)->Ok_0[i],
        ),
        0 <= i < upstreams.len() && server::upstream_server(upstreams[i]) is Err && (forall|j: int|
            0 <= j < i ==> server::upstream_server(#[trigger] upstreams[j]) is Ok)
            ==> server::upstream_list(upstreams) == Err::<Seq<NameServerView>, Seq<char>>(
            server::upstream_server(upstreams[i])->Err_0,
        ),
        0 <= i < upstreams.len() && upstreams[i] is Detailed ==> server::upstream_server(
            upstreams[i],
        ) == Ok::<NameServerView, Seq<char>>(upstreams[i]->Detailed_0@),
        0 <= i < upstreams.len() && upstreams[i] is Address ==> server::upstream_server(
            upstreams[i],
        ) == server::upstream_text(upstreams[i]->Address_0@),
    decreases upstreams.len(),
{
    if upstreams.len() > 0 {
        let front = upstreams.drop_last();
        let last = upstreams.len() - 1;
        law_upstream_lists(front, i);
        assert forall|j: int| 0 <= j < front.len() implies #[trigger] front[j] == upstreams[j] by {}
        if forall|j: int|
            0 <= j < upstreams.len() ==> server::upstream_server(#[trigger] upstreams[j]) is Ok {
            assert(server::upstream_server(upstreams[last]) is Ok);
            assert forall|j: int| 0 <= j < front.len() implies server::upstream_server(
                #[trigger] front[j],
            ) is Ok by {
                assert(server::upstream_server(upstreams[j]) is Ok);
            }
        }
        if server::upstream_list(front) is Ok && server::upstream_server(upstreams[last]) is Ok {
            assert forall|j: int| 0 <= j < upstreams.len() implies server::upstream_server(
                #[trigger] upstreams[j],
            ) is Ok by {
                if j < last {
                    assert(server::upstream_server(front[j]) is Ok);
                }
            }
        }
    }
}

/// The zone that upstreams alone stand for: the root, with one store, which
/// forwards to all of them in order and has no options.
pub proof fn law_upstreams_make_a_root_zone(
    zone: ZoneConfig,
    upstreams: Seq<UpstreamDnsConfig>,
    i: int,
)
    requires
        server::is_root_forward(zone, upstreams),
    ensures
        zone.zone@ == seq!['.'],
        ({
            let stores = zone.zone_type_config->stores@;
            let forward = stores[0]->Forward_0;
            &&& stores.len() == 1
            &&& stores[0] is Forward
            &&& forward.options is None
            &&& forward.name_servers@.len() == upstreams.len()
            &&& 0 <= i < upstreams.len() ==> server::upstream_server(upstreams[i]) == Ok::<
                NameServerView,
                Seq<char>,
            >(forward.name_servers@[i]@)
            &&& zone.stores() == stores
        }),
{
    reveal_strlit(".");
    assert("."@ =~= seq!['.']);
    law_upstream_lists(upstreams, i);
    let stores = zone.zone_type_config->stores@;
    let forward = stores[0]->Forward_0;
    let list = server::name_servers(forward.name_servers@);
    assert(server::upstream_list(upstreams) == Ok::<Seq<NameServerView>, Seq<char>>(list));
    assert(list.len() == forward.name_servers@.len());
}

/// The addresses of a configuration can be read where each of them can.
pub proof fn law_lists_of_addresses(list: Seq<Seq<char>>, i: int)
    requires
        0 <= i < list.len(),
    ensures
        server::all_ipv4(list) ==> ip::ipv4_text(list[i]) == Some(server::ipv4_list(list)[i])
            && server::ipv4_list(list).len() == list.len(),
        server::all_ipv6(list) ==> ip::ipv6_text(list[i]) == Some(server::ipv6_list(list)[i])
            && server::ipv6_list(list).len() == list.len(),
        ip::ipv4_text(list[i]) is None ==> !server::all_ipv4(list),
        ip::ipv6_text(list[i]) is None ==> !server::all_ipv6(list),
{
}

/// Where the server listens: at the addresses that are configured, those of
/// IPv4 first, and at all addresses of both kinds where none is.
pub proof fn law_addresses_to_listen_on(ipv4: Seq<Ipv4Addr>, ipv6: Seq<Ipv6Addr>, i: int)
    ensures
        ({
            let addrs = settings::configured_addrs(ipv4, ipv6);
            &&& ipv4.len() == 0 && ipv6.len() == 0 ==> addrs.len() == 2 && addrs[0] == IpAddr::V4(
                (Ipv4Addr { bits: 0 }),
            ) && addrs[1] == IpAddr::V6((Ipv6Addr { bits: 0 }))
            &&& ipv4.len() > 0 || ipv6.len() > 0 ==> addrs.len() == ipv4.len() + ipv6.len()
            &&& 0 <= i < ipv4.len() ==> addrs[i] == IpAddr::V4(ipv4[i])
            &&& 0 <= i < ipv6.len() ==> addrs[ipv4.len() + i] == IpAddr::V6(ipv6[i])
        }),
{
}

/// What the settings of a configuration are: its port, or 53; UDP and TCP
/// unless they are switched off; its time for requests over TCP, or 5 seconds;
/// its user and its group; and all its addresses, in order.
pub proof fn law_settings_of_a_configuration(s: SettingsView, config: Config, i: int, j: int)
    requires
        settings::are_settings_of(s, config),
    ensures
        config.listen_port is Some ==> s.listen_port == config.listen_port.unwrap(),
        config.listen_port is None ==> s.listen_port == 53,
        s.udp_enabled == (config.disable_udp != Some(true)),
        s.tcp_enabled == (config.disable_tcp != Some(true)),
        config.tcp_request_timeout is Some ==> s.tcp_request_timeout_secs
            == config.tcp_request_timeout.unwrap(),
        config.tcp_request_timeout is None ==> s.tcp_request_timeout_secs == 5,
        config.user is Some ==> s.user == Some(config.user.unwrap()@),
        config.user is None ==> s.user is None,
        config.group is Some ==> s.group == Some(config.group.unwrap()@),
        config.group is None ==> s.group is None,
        s.listen_addrs.to_multiset() == settings::configured_addrs(
            server::ipv4_list(text::texts(config.listen_addrs_ipv4@)),
            server::ipv6_list(text::texts(config.listen_addrs_ipv6@)),
        ).to_multiset(),
        0 <= i < j < s.listen_addrs.len() ==> match (s.listen_addrs[i], s.listen_addrs[j]) {
            (IpAddr::V4(a), IpAddr::V4(b)) => a.bits <= b.bits,
            (IpAddr::V6(a), IpAddr::V6(b)) => a.bits <= b.bits,
            (IpAddr::V4(_), IpAddr::V6(_)) => true,
            (IpAddr::V6(_), IpAddr::V4(_)) => false,
        },
{
    if 0 <= i < j < s.listen_addrs.len() {
        assert(settings::ip_le(s.listen_addrs[i], s.listen_addrs[j]));
    }
}

/// The sockets to listen on: one for UDP at each address where UDP is on,
/// behind them one for TCP at each address where TCP is on, all at one port.
pub proof fn law_sockets_to_listen_on(s: SettingsView, i: int)
    ensures
        ({
            let n = s.listen_addrs.len();
            let udp: int = if s.udp_enabled {
                n as int
            } else {
                0
            };
            let tcp: int = if s.tcp_enabled {
                n as int
            } else {
                0
            };
            &&& s.listeners().len() == udp + tcp
            &&& s.udp_enabled && 0 <= i < n ==> s.listeners()[i] == (Listener {
                protocol: Protocol::Udp,
                ip: s.listen_addrs[i],
                port: s.listen_port,
            })
            &&& s.tcp_enabled && 0 <= i < n ==> s.listeners()[udp + i] == (Listener {
                protocol: Protocol::Tcp,
                ip: s.listen_addrs[i],
                port: s.listen_port,
            })
        }),
{
}

/// What a reload is refused for: each setting that is changed, by its name.
pub proof fn law_changed_settings_are_named(a: SettingsView, b: SettingsView)
    ensures
        ({
            let if_changed = |changed: bool, name: Seq<char>|
                if changed {
                    seq![name]
                } else {
                    Seq::<Seq<char>>::empty()
                };
            settings::changed_settings(a, b) == if_changed(
                a.listen_addrs != b.listen_addrs,
                "listen addresses"@,
            ) + if_changed(a.listen_port != b.listen_port, "listen port"@) + if_changed(
                a.udp_enabled != b.udp_enabled,
                "UDP enable/disable state"@,
            ) + if_changed(
                a.tcp_enabled != b.tcp_enabled,
                "TCP enable/disable state"@,
            ) + if_changed(
                a.tcp_request_timeout_secs != b.tcp_request_timeout_secs,
                "TCP request timeout"@,
            ) + if_changed(a.user != b.user, "user"@) + if_changed(a.group != b.group, "group"@)
        }),
        settings::changed_settings(a, a).len() == 0,
{
}

/// The words that a reload is refused with name the settings between commas.
pub proof fn law_words_of_a_refusal(first: Seq<char>, more: Seq<Seq<char>>, last: Seq<char>)
    requires
        more.len() > 0,
    ensures
        settings::refused_reload_text(seq![first])
            == "hot reload only supports resolver and filtering changes; restart required because these settings changed: "@
            + first,
        settings::refused_reload_text(more.push(last)) == settings::refused_reload_text(more)
            + ", "@ + last,
{
    let all = more.push(last);
    assert(all.drop_last() =~= more);
    let start =
        "hot reload only supports resolver and filtering changes; restart required because these settings changed: "@;
    assert(text::join(seq![first], ", "@) == first);
    assert(text::join(all, ", "@) == text::join(more, ", "@) + ", "@ + last);
    assert(start + text::join(all, ", "@) =~= start + text::join(more, ", "@) + ", "@ + last);
}

/// What a fetch gives. A kept copy will do where that is asked for. Otherwise
/// the downloaded list is taken, once it is kept where it is new; for want of
/// a download the kept copy is; and without either, or where the list cannot be
/// kept, the fetch fails.
pub proof fn law_what_a_fetch_gives(url: Seq<char>, mode: FilterFetchMode, outside: OutsideView)
    ensures
        ({
            let got = fetch::course(url, fetch::first_state(mode), outside, 5).1;
            let near = mode == FilterFetchMode::CacheFirst && outside.copy is Some;
            &&& near ==> got == Some(Ok::<Seq<char>, Seq<char>>(outside.copy.unwrap()))
            &&& !near && outside.download is Ok ==> ({
                let list = outside.download->Ok_0;
                &&& outside.copy == Some(list) ==> got == Some(Ok::<Seq<char>, Seq<char>>(list))
                &&& outside.copy != Some(list) && outside.directory is Some ==> got == Some(
                    Err::<Seq<char>, Seq<char>>(
                        "failed to create filter cache directory "@
                            + outside.directory.unwrap().path + ": "@
                            + outside.directory.unwrap().err,
                    ),
                )
                &&& outside.copy != Some(list) && outside.directory is None && outside.written is Some
                    ==> got == Some(
                    Err::<Seq<char>, Seq<char>>(
                        "failed to write filter cache "@ + outside.written.unwrap().path + ": "@
                            + outside.written.unwrap().err,
                    ),
                )
                &&& outside.copy != Some(list) && outside.directory is None && outside.written is None
                    ==> got == Some(Ok::<Seq<char>, Seq<char>>(list))
            })
            &&& !near && outside.download is Err && outside.copy is Some ==> got == Some(
                Ok::<Seq<char>, Seq<char>>(outside.copy.unwrap()),
            )
            &&& !near && outside.download is Err && outside.copy is None ==> got == Some(
                Err::<Seq<char>, Seq<char>>(
                    "failed to download filter "@ + url
                        + " and no cached copy was available: "@ + outside.download->Err_0,
                ),
            )
        }),
{
    reveal_with_fuel(fetch::course, 6);
}

/// A list that is new is kept: the directory is made, then the copy is written,
/// with the downloaded text.
pub proof fn law_new_lists_are_kept(url: Seq<char>, outside: OutsideView, list: Seq<char>)
    requires
        outside.download == Ok::<Seq<char>, Seq<char>>(list),
        outside.copy != Some(list),
        outside.directory is None,
    ensures
        fetch::course(url, fetch::first_state(FilterFetchMode::Refresh), outside, 5).0 == seq![
            StateView::Downloading,
            StateView::Comparing(list),
            StateView::MakingDirectory(list),
            StateView::Writing(list),
        ],
{
    reveal_with_fuel(fetch::course, 6);
    let all = fetch::course(url, StateView::Downloading, outside, 5).0;
    assert(all =~= seq![
        StateView::Downloading,
        StateView::Comparing(list),
        StateView::MakingDirectory(list),
        StateView::Writing(list),
    ]);
}

/// What a fetch waits for is the one kind of event that it goes on with.
pub proof fn law_what_a_fetch_waits_for(state: StateView, outside: OutsideView)
    ensures
        state.awaits(outside.event(state)),
        state is Downloading ==> outside.event(state) == EventView::Downloaded(outside.download),
        state is MakingDirectory ==> outside.event(state) == EventView::Directory(
            outside.directory,
        ),
        state is Writing ==> outside.event(state) == EventView::Written(outside.written),
        state is ReadingCopy || state is Comparing || state is FallingBack ==> outside.event(state)
            == EventView::Copy(outside.copy),
{
}

/// The file that a filter is kept in: its number and `.txt`, or where it has
/// none 16 digits of its address.
pub proof fn law_files_of_filters(filter: FilterView)
    ensures
        filter.id is Some ==> fetch::cache_file(filter) == number::decimal(
            filter.id.unwrap() as nat,
        ) + seq!['.', 't', 'x', 't'],
        filter.id is None ==> fetch::cache_file(filter) == number::hex(
            fetch::url_hash(filter.url) as nat,
            16,
        ) + seq!['.', 't', 'x', 't'],
{
    reveal_strlit(".txt");
    assert(".txt"@ =~= seq!['.', 't', 'x', 't']);
}

/// A file in a directory: a slash stands between them, and one alone.
pub proof fn law_paths(dir: Seq<char>, file: Seq<char>)
    ensures
        fetch::joined_path(Seq::empty(), file) == file,
        fetch::joined_path(dir.push('/'), file) == dir.push('/') + file,
        dir.len() > 0 && dir.last() != '/' ==> fetch::joined_path(dir, file) == dir.push('/') + file,
{
    reveal_strlit("/");
    assert(Seq::<char>::empty() + file =~= file);
    assert(dir + "/"@ =~= dir.push('/'));
}

/// The answers that a configuration gives a rewrite.
pub proof fn law_answers_of_a_configuration(one: String, many: Vec<String>, i: int)
    ensures
        RewriteAnswerConfig::Empty.value_texts().len() == 0,
        RewriteAnswerConfig::Single(one).value_texts() == seq![one@],
        RewriteAnswerConfig::Multiple(many).value_texts().len() == many@.len(),
        0 <= i < many@.len() ==> RewriteAnswerConfig::Multiple(many).value_texts()[i] == many@[i]@,
{
}

/// What is read of a rewrite of a configuration.
pub proof fn law_rewrites_of_a_configuration(r: RewriteConfig, i: int)
    ensures
        r.domain is Some ==> r@.domain == Some(r.domain.unwrap()@),
        r.domain is None ==> r@.domain is None,
        r@.ip.len() == r.ip@.len(),
        0 <= i < r.ip@.len() ==> r@.ip[i] == r.ip@[i]@,
        r@.cname.len() == r.cname@.len(),
        0 <= i < r.cname@.len() ==> r@.cname[i] == r.cname@[i]@,
        r@.answers == r.answer.value_texts(),
{
}

/// Metrics are served at port 9000 of 127.0.0.1 unless a configuration says
/// otherwise.
pub proof fn law_default_metrics()
    ensures
        server::default_prometheus_addr().port == 9000,
        server::default_prometheus_addr().ip == IpAddr::V4((Ipv4Addr { bits: 2130706433 })),
        server::or_false(None) == false,
        server::or_false(Some(true)),
        !server::or_false(Some(false)),
{
}

/// Whether any filter is on.
pub proof fn law_any_filter(a: Seq<FilterConfig>, f: FilterConfig, b: Seq<FilterConfig>)
    ensures
        filtering::any_enabled(a + seq![f] + b) == (filtering::any_enabled(a) || f.enabled
            || filtering::any_enabled(b)),
        !filtering::any_enabled(Seq::empty()),
{
    let all = a + seq![f] + b;
    if filtering::any_enabled(a) {
        let i = choose|i: int| 0 <= i < a.len() && (#[trigger] a[i]).enabled;
        assert(all[i] == a[i]);
    }
    if f.enabled {
        assert(all[a.len() as int] == f);
    }
    if filtering::any_enabled(b) {
        let i = choose|i: int| 0 <= i < b.len() && (#[trigger] b[i]).enabled;
        assert(all[a.len() + 1 + i] == b[i]);
    }
    if filtering::any_enabled(all) {
        let i = choose|i: int| 0 <= i < all.len() && (#[trigger] all[i]).enabled;
        if i < a.len() {
            assert(all[i] == a[i]);
        } else if i > a.len() {
            assert(all[i] == b[i - a.len() - 1]);
        }
    }
}

/// What overrides by name are: each override stands under the labels of its
/// domain in small letters, and what stands under a name is one of the
/// overrides of that name.
pub proof fn law_named_overrides(
    named: Map<Seq<Seq<u8>>, OverrideView>,
    table: Map<Seq<char>, OverrideView>,
    d: Seq<char>,
    labels: Seq<Seq<u8>>,
)
    requires
        authority::names_overrides(named, table),
    ensures
        table.contains_key(d) ==> name::name_from_ascii(d) is Ok && named.contains_key(
            name::lower_labels(name::name_from_ascii(d)->Ok_0.0),
        ),
        named.contains_key(labels) ==> exists|x: Seq<char>| #[trigger]
            table.contains_key(x) && name::name_from_ascii(x) is Ok && name::lower_labels(
                name::name_from_ascii(x)->Ok_0.0,
            ) == labels && table[x] == named[labels],
{
    if named.contains_key(labels) {
        let x = choose|x: Seq<char>| #[trigger]
            table.contains_key(x) && authority::override_labels(x) == Some(labels) && table[x]
                == named[labels];
        law_labels_of_an_override(x);
    }
    law_labels_of_an_override(d);
}

/// An override whose domain is no name is an error, in words that name the
/// domain.
pub proof fn law_bad_overrides(table: Map<Seq<char>, OverrideView>, message: Seq<char>)
    ensures
        authority::bad_override(table, message) ==> exists|d: Seq<char>| #[trigger]
            table.contains_key(d) && name::name_from_ascii(d) is Err && message
                == "invalid override domain "@ + d + ": "@ + name::name_from_ascii(d)->Err_0,
        authority::bad_override(table, message) ==> authority::has_bad_override(table),
        authority::has_bad_override(table) == exists|d: Seq<char>| #[trigger]
            table.contains_key(d) && name::name_from_ascii(d) is Err && !name::plain_domain(d),
{
}

/// A zone cannot be loaded without a store of its own, and with rules not with
/// an override whose domain is no name; there is no other error of its stores.
pub proof fn law_errors_of_stores(
    stores: Seq<ExternalStoreConfig>,
    compiled: Option<CompiledView>,
    message: Seq<char>,
)
    requires
        chain::is_store_error(stores, compiled, message),
    ensures
        message == "empty [[zones.stores]] in config"@ && (exists|i: int|
            0 <= i < stores.len() && (#[trigger] stores[i]) is Default) || (compiled is Some
            && stores.len() > 0 && stores[0] is Forward && authority::bad_override(
            compiled.unwrap().rules.overrides,
            message,
        )),
        compiled is None || stores.len() == 0 || stores[0] is Default
            || !authority::has_bad_override(compiled.unwrap().rules.overrides) ==> message
            == "empty [[zones.stores]] in config"@,
{
}

/// The words about a zone that cannot be planned: its name, where that can be
/// read, and what is wrong with its stores.
pub proof fn law_errors_of_zones(
    zone: ZoneConfig,
    compiled: Option<CompiledView>,
    shown_path: Seq<char>,
    message: Seq<char>,
)
    requires
        chain::is_zone_error(zone, compiled, shown_path, message),
    ensures
        name::name_parse(zone.zone@) is Err ==> message == "failed to read zone name from "@
            + shown_path + ": "@ + name::name_parse(zone.zone@)->Err_0,
        name::name_parse(zone.zone@) is Ok ==> exists|e: Seq<char>| #[trigger]
            chain::is_store_error(zone.stores(), compiled, e) && message == "could not load zone "@
                + name::name_display(
                name::name_parse(zone.zone@)->Ok_0.0,
                name::name_parse(zone.zone@)->Ok_0.1,
            ) + ": "@ + e,
        chain::bad_zone_text(message) == "failed to read zone name: "@ + message,
        server::mixed_styles_text()
            == "cannot configure both `zones` and `dns.upstream_dns`; use one style"@,
{
}

/// Without a word about it warnings are logged; a word that names no level
/// stands for `Info`, and one that does for its level.
pub proof fn law_level_by_a_word(s: Seq<char>)
    ensures
        server::level_of(None) == LogLevel::Warn,
        server::level_text(s) is None ==> server::level_of(Some(s)) == LogLevel::Info,
        server::level_text(s) is Some ==> server::level_of(Some(s)) == server::level_text(
            s,
        ).unwrap(),
{
}

/// There are rules where a filter is on, or a local rule or a rewrite is there.
pub proof fn law_there_are_rules(config: Config, i: int)
    ensures
        config.has_rules() <==> (exists|k: int|
            0 <= k < config.filters@.len() && (#[trigger] config.filters@[k]).enabled)
            || config.user_rules@.len() > 0 || config.filtering.rewrites@.len() > 0,
        0 <= i < config.filters@.len() && config.filters@[i].enabled ==> config.has_rules(),
{
}

/// The short form and zones are not for one configuration. Without servers the
/// short form says nothing, and alone it stands for its servers.
pub proof fn law_short_forms(zones: nat, upstreams: Seq<UpstreamDnsConfig>)
    ensures
        upstreams.len() == 0 ==> server::short_form(zones, upstreams) == Ok::<
            Option<Seq<NameServerView>>,
            Seq<char>,
        >(None),
        upstreams.len() > 0 && zones > 0 ==> server::short_form(zones, upstreams) == Err::<
            Option<Seq<NameServerView>>,
            Seq<char>,
        >("cannot configure both `zones` and `dns.upstream_dns`; use one style"@),
        upstreams.len() > 0 && zones == 0 && server::upstream_list(upstreams) is Ok
            ==> server::short_form(zones, upstreams) == Ok::<
            Option<Seq<NameServerView>>,
            Seq<char>,
        >(Some(server::upstream_list(upstreams)->Ok_0)),
        upstreams.len() > 0 && zones == 0 && server::upstream_list(upstreams) is Err
            ==> server::short_form(zones, upstreams) == Err::<
            Option<Seq<NameServerView>>,
            Seq<char>,
        >(server::upstream_list(upstreams)->Err_0),
{
}

/// Metrics are not served where the command line or the configuration says so;
/// else they are at the address of the command line, for want of that at the
/// one of the configuration.
pub proof fn law_where_metrics_are(
    disabled: bool,
    told: Option<SocketAddr>,
    off: Option<bool>,
    configured: Option<SocketAddr>,
)
    ensures
        ({
            let got = settings::metrics_addr(disabled, told, off, configured);
            let none = disabled || off == Some(true);
            &&& none ==> got is None
            &&& !none && told is Some ==> got == told
            &&& !none && told is None && configured is Some ==> got == configured
            &&& !none && told is None && configured is None ==> got == Some(
                (SocketAddr {
                    ip: IpAddr::V4((Ipv4Addr { bits: 2130706433 })),
                    port: 9000,
                    scope_id: 0,
                }),
            )
        }),
{
}

} // verus!
