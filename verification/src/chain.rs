//! The chain of those who are asked about the names of a zone, in turn.
use vstd::prelude::*;

use crate::authority;
use crate::authority::{
    BlockAuthority, BlockView, LookupView, OverrideAuthority, OverrideAuthorityView,
    RewriteAuthority, RewriteAuthorityView,
};
use crate::compiled::{CompiledRuleSets, CompiledView};
use crate::ip::{Ipv4Addr, Ipv6Addr};
use crate::name;
use crate::name::{DomainName, NameView};
use crate::overrides::OverrideView;
use crate::server;
use crate::server::{ExternalStoreConfig, ForwardConfig, ZoneConfig, ZoneTypeConfig};

verus! {

/// One of those who are asked: the overrides, the rewrites, the block list,
/// or the servers upstream.
pub enum ChainLink<'a> {
    Override(OverrideAuthority),
    Rewrite(RewriteAuthority),
    Block(BlockAuthority),
    /// The name of the zone, and what queries are forwarded to.
    Forward(DomainName, &'a ForwardConfig),
}

/// What a `ChainLink` says.
pub enum LinkView {
    Override(OverrideAuthorityView),
    Rewrite(RewriteAuthorityView),
    Block(BlockView),
    Forward(NameView, ForwardConfig),
}

impl<'a> View for ChainLink<'a> {
    type V = LinkView;

    open spec fn view(&self) -> LinkView {
        match *self {
            ChainLink::Override(authority) => LinkView::Override(authority@),
            ChainLink::Rewrite(authority) => LinkView::Rewrite(authority@),
            ChainLink::Block(authority) => LinkView::Block(authority@),
            ChainLink::Forward(origin, config) => LinkView::Forward(origin@, *config),
        }
    }
}

/// What the links of `v` say.
pub open spec fn links<'a>(v: Seq<ChainLink<'a>>) -> Seq<LinkView> {
    v.map_values(|l: ChainLink<'a>| l@)
}

/// Whether there is an override.
pub open spec fn has_overrides(compiled: CompiledView) -> bool {
    compiled.rules.overrides != Map::<Seq<char>, OverrideView>::empty()
}

/// Whether there is a rewrite.
pub open spec fn has_rewrites(compiled: CompiledView) -> bool {
    compiled.domain_rewrites.len() > 0 || compiled.answer_ip_rewrites.len() > 0
        || compiled.cname_rewrites.len() > 0
}

/// Whether there is a rule that may block.
pub open spec fn has_blocks(compiled: CompiledView) -> bool {
    !compiled.rules.block_exact.is_empty() || !compiled.rules.block_subdomains.is_empty()
        || compiled.rules.block_rules.len() > 0 || compiled.rules.allow_rules.len() > 0
}

/// The overrides by name, for the zone `origin`.
pub open spec fn overrides_of(
    named: Map<Seq<Seq<u8>>, OverrideView>,
    origin: NameView,
) -> OverrideAuthorityView {
    OverrideAuthorityView { origin: origin.lowered(), named }
}

/// The rewrites of the compiled rules, for the zone `origin`.
pub open spec fn rewrites_of(compiled: CompiledView, origin: NameView) -> RewriteAuthorityView {
    RewriteAuthorityView {
        origin: origin.lowered(),
        domain_rewrites: compiled.domain_rewrites,
        answer_ip_rewrites: compiled.answer_ip_rewrites,
        cname_rewrites: compiled.cname_rewrites,
    }
}

/// The block list of the compiled rules, for the zone `origin`. A blocked query is answered with the
/// configured addresses, or with those of no host.
pub open spec fn block_list_of(compiled: CompiledView, origin: NameView) -> BlockView {
    BlockView {
        origin: origin.lowered(),
        block_exact: compiled.rules.block_exact,
        block_subdomains: compiled.rules.block_subdomains,
        allow_exact: compiled.rules.allow_exact,
        allow_subdomains: compiled.rules.allow_subdomains,
        block_rules: compiled.rules.block_rules,
        allow_rules: compiled.rules.allow_rules,
        blocking_mode: compiled.blocking_mode,
        blocking_ipv4: match compiled.blocking_ipv4 {
            Some(addr) => addr,
            None => Ipv4Addr { bits: 0 },
        },
        blocking_ipv6: match compiled.blocking_ipv6 {
            Some(addr) => addr,
            None => Ipv6Addr { bits: 0 },
        },
        ttl: compiled.block_ttl,
    }
}

/// The chain for a forward store of the zone `origin`: the overrides by name, the rewrites and the
/// block list, each only where there is anything in it, and then the servers
/// upstream.
pub open spec fn chain_of(
    named: Map<Seq<Seq<u8>>, OverrideView>,
    compiled: CompiledView,
    forward: ForwardConfig,
    origin: NameView,
) -> Seq<LinkView> {
    (if has_overrides(compiled) {
        seq![LinkView::Override(overrides_of(named, origin))]
    } else {
        Seq::empty()
    }) + (if has_rewrites(compiled) {
        seq![LinkView::Rewrite(rewrites_of(compiled, origin))]
    } else {
        Seq::empty()
    }) + (if has_blocks(compiled) {
        seq![LinkView::Block(block_list_of(compiled, origin))]
    } else {
        Seq::empty()
    }) + seq![LinkView::Forward(origin, forward)]
}

/// Whether `chain` is the chain for a forward store, with the overrides by
/// the names that their domains are.
pub open spec fn is_chain(
    chain: Seq<LinkView>,
    compiled: CompiledView,
    forward: ForwardConfig,
    origin: NameView,
) -> bool {
    exists|named: Map<Seq<Seq<u8>>, OverrideView>| #[trigger]
        authority::names_overrides(named, compiled.rules.overrides) && chain == chain_of(
            named,
            compiled,
            forward,
            origin,
        )
}

/// The overrides, where there are any.
pub fn override_authority(origin: &DomainName, compiled: &CompiledRuleSets) -> (r: Result<
    Option<OverrideAuthority>,
    String,
>)
    ensures
        match r {
            Ok(Some(authority)) => has_overrides(compiled@) && authority::names_overrides(
                authority@.named,
                compiled@.rules.overrides,
            ) && authority@ == overrides_of(authority@.named, origin@),
            Ok(None) => !has_overrides(compiled@),
            Err(e) => authority::bad_override(compiled@.rules.overrides, e@),
        },
{
    if compiled.overrides.is_empty() {
        return Ok(None);
    }
    match OverrideAuthority::new(origin.clone(), &compiled.overrides) {
        Ok(authority) => Ok(Some(authority)),
        Err(e) => Err(e),
    }
}

/// The rewrites, where there are any.
pub fn rewrite_authority(origin: &DomainName, compiled: &CompiledRuleSets) -> (r: Result<
    Option<RewriteAuthority>,
    String,
>)
    ensures
        match r {
            Ok(Some(authority)) => has_rewrites(compiled@) && authority@ == rewrites_of(
                compiled@,
                origin@,
            ),
            Ok(None) => !has_rewrites(compiled@),
            Err(_) => false,
        },
{
    assert(compiled@.domain_rewrites.len() == compiled.domain_rewrites@.len());
    assert(compiled@.answer_ip_rewrites.len() == compiled.answer_ip_rewrites@.len());
    assert(compiled@.cname_rewrites.len() == compiled.cname_rewrites@.len());
    if compiled.domain_rewrites.len() == 0 && compiled.answer_ip_rewrites.len() == 0
        && compiled.cname_rewrites.len() == 0 {
        return Ok(None);
    }
    match RewriteAuthority::new(
        origin.clone(),
        compiled.domain_rewrites.clone(),
        compiled.answer_ip_rewrites.clone(),
        compiled.cname_rewrites.clone(),
    ) {
        Ok(authority) => Ok(Some(authority)),
        Err(e) => Err(e),
    }
}

/// The block list, where there is one.
pub fn block_authority(origin: &DomainName, compiled: &CompiledRuleSets) -> (r: Result<
    Option<BlockAuthority>,
    String,
>)
    ensures
        match r {
            Ok(Some(authority)) => has_blocks(compiled@) && authority@ == block_list_of(
                compiled@,
                origin@,
            ),
            Ok(None) => !has_blocks(compiled@),
            Err(_) => false,
        },
{
    assert(compiled@.rules.block_rules.len() == compiled.block_rules@.len());
    assert(compiled@.rules.allow_rules.len() == compiled.allow_rules@.len());
    if compiled.block_exact.is_empty() && compiled.block_subdomains.is_empty()
        && compiled.block_rules.len() == 0 && compiled.allow_rules.len() == 0 {
        return Ok(None);
    }
    let blocking_ipv4 = match compiled.blocking_ipv4 {
        Some(addr) => addr,
        None => Ipv4Addr { bits: 0 },
    };
    let blocking_ipv6 = match compiled.blocking_ipv6 {
        Some(addr) => addr,
        None => Ipv6Addr { bits: 0 },
    };
    match BlockAuthority::new(
        origin.clone(),
        compiled.block_exact.clone(),
        compiled.block_subdomains.clone(),
        compiled.allow_exact.clone(),
        compiled.allow_subdomains.clone(),
        compiled.block_rules.clone(),
        compiled.allow_rules.clone(),
        compiled.blocking_mode,
        blocking_ipv4,
        blocking_ipv6,
        compiled.block_ttl,
    ) {
        Ok(authority) => Ok(Some(authority)),
        Err(e) => Err(e),
    }
}

/// Makes the chain for a forward store. Fails on an override of a domain that
/// is no name.
pub fn build_authorities<'a>(
    origin: &DomainName,
    forward_config: &'a ForwardConfig,
    compiled: &CompiledRuleSets,
) -> (r: Result<Vec<ChainLink<'a>>, String>)
    ensures
        match r {
            Ok(chain) => is_chain(links(chain@), compiled@, *forward_config, origin@),
            Err(e) => authority::bad_override(compiled@.rules.overrides, e@),
        },
{
    let mut chain: Vec<ChainLink<'a>> = Vec::new();
    let ghost mut named = Map::<Seq<Seq<u8>>, OverrideView>::empty();
    match override_authority(origin, compiled) {
        Ok(Some(authority)) => {
            proof {
                named = authority@.named;
            }
            chain.push(ChainLink::Override(authority));
        },
        Ok(None) => {},
        Err(e) => return Err(e),
    }
    match rewrite_authority(origin, compiled) {
        Ok(Some(authority)) => chain.push(ChainLink::Rewrite(authority)),
        Ok(None) => {},
        Err(e) => return Err(e),
    }
    match block_authority(origin, compiled) {
        Ok(Some(authority)) => chain.push(ChainLink::Block(authority)),
        Ok(None) => {},
        Err(e) => return Err(e),
    }
    chain.push(ChainLink::Forward(origin.clone(), forward_config));
    proof {
        assert(authority::names_overrides(named, compiled@.rules.overrides));
        assert(links(chain@) =~= chain_of(named, compiled@, *forward_config, origin@));
    }
    Ok(chain)
}

pub open spec fn compiled_view(compiled: Option<&CompiledRuleSets>) -> Option<CompiledView> {
    match compiled {
        Some(c) => Some(c@),
        None => None,
    }
}

/// Whether `part` is what a store adds to the chain of its zone `origin`: with rules
/// the chain for it, without rules the servers upstream alone.
pub open spec fn is_part(
    part: Seq<LinkView>,
    store: ExternalStoreConfig,
    compiled: Option<CompiledView>,
    origin: NameView,
) -> bool {
    match store {
        ExternalStoreConfig::Forward(config) => match compiled {
            Some(c) => is_chain(part, c, config, origin),
            None => part == seq![LinkView::Forward(origin, config)],
        },
        ExternalStoreConfig::Default => false,
    }
}

/// Whether `chain` is made of what the stores add to it, in their order.
pub open spec fn is_zone_chain(
    chain: Seq<LinkView>,
    stores: Seq<ExternalStoreConfig>,
    compiled: Option<CompiledView>,
    origin: NameView,
) -> bool
    decreases stores.len(),
{
    if stores.len() == 0 {
        chain.len() == 0
    } else {
        exists|k: int|
            0 <= k <= chain.len() && #[trigger] is_part(
                chain.skip(k),
                stores.last(),
                compiled,
                origin,
            ) && is_zone_chain(chain.take(k), stores.drop_last(), compiled, origin)
    }
}

/// Whether loading the stores fails with `message`. With rules, an override of
/// a domain that is no name fails the first store, if that forwards; otherwise
/// a store of the default kind is no store.
pub open spec fn is_store_error(
    stores: Seq<ExternalStoreConfig>,
    compiled: Option<CompiledView>,
    message: Seq<char>,
) -> bool {
    if stores.len() > 0 && stores[0] is Forward && compiled is Some
        && authority::has_bad_override(compiled.unwrap().rules.overrides) {
        authority::bad_override(compiled.unwrap().rules.overrides, message)
    } else {
        message == server::empty_stores_text() && exists|i: int|
            0 <= i < stores.len() && (#[trigger] stores[i]) is Default
    }
}

/// The words about a zone whose name cannot be read.
pub open spec fn bad_zone_text(err: Seq<char>) -> Seq<char> {
    "failed to read zone name: "@ + err
}

proof fn lemma_one_more_store(
    chain: Seq<LinkView>,
    part: Seq<LinkView>,
    stores: Seq<ExternalStoreConfig>,
    store: ExternalStoreConfig,
    compiled: Option<CompiledView>,
    origin: NameView,
)
    requires
        is_zone_chain(chain, stores, compiled, origin),
        is_part(part, store, compiled, origin),
    ensures
        is_zone_chain(chain + part, stores.push(store), compiled, origin),
{
    let all = chain + part;
    let k = chain.len() as int;
    assert(all.skip(k) =~= part);
    assert(all.take(k) =~= chain);
    assert(stores.push(store).drop_last() =~= stores);
    assert(is_part(all.skip(k), stores.push(store).last(), compiled, origin));
}

impl ZoneConfig {
    /// Makes the chain of those who are asked about the names of the zone. The
    /// stores of a zone have to forward.
    pub fn load<'a>(&'a self, adblock_rules: Option<&CompiledRuleSets>) -> (r: Result<
        Vec<ChainLink<'a>>,
        String,
    >)
        ensures
            match r {
                Ok(chain) => match name::name_parse(self.zone@) {
                    Ok((labels, fqdn)) => is_zone_chain(
                        links(chain@),
                        self.stores(),
                        compiled_view(adblock_rules),
                        (NameView { labels, fqdn }),
                    ),
                    Err(_) => false,
                },
                Err(e) => match name::name_parse(self.zone@) {
                    Err(err) => e@ == bad_zone_text(err),
                    Ok(_) => is_store_error(self.stores(), compiled_view(adblock_rules), e@),
                },
            },
    {
        let zone_name = match self.zone() {
            Ok(name) => name,
            Err(err) => {
                let mut message = "failed to read zone name: ".to_owned();
                message.append(err.as_str());
                return Err(message);
            },
        };
        self.load_named(&zone_name, adblock_rules)
    }

    /// Makes the chain of those who are asked about the names of the zone,
    /// whose name is `zone_name`.
    pub fn load_named<'a>(
        &'a self,
        zone_name: &DomainName,
        adblock_rules: Option<&CompiledRuleSets>,
    ) -> (r: Result<Vec<ChainLink<'a>>, String>)
        ensures
            match r {
                Ok(chain) => is_zone_chain(
                    links(chain@),
                    self.stores(),
                    compiled_view(adblock_rules),
                    zone_name@,
                ),
                Err(e) => is_store_error(self.stores(), compiled_view(adblock_rules), e@),
            },
    {
        let ghost rules = compiled_view(adblock_rules);
        match &self.zone_type_config {
            ZoneTypeConfig::External { stores } => {
                let mut chain: Vec<ChainLink<'a>> = Vec::new();
                let mut i: usize = 0;
                assert(stores@.take(0) =~= Seq::<ExternalStoreConfig>::empty());
                assert(links(chain@) =~= Seq::<LinkView>::empty());
                while i < stores.len()
                    invariant
                        i <= stores@.len(),
                        stores@ == self.stores(),
                        rules == compiled_view(adblock_rules),
                        forall|k: int| 0 <= k < i ==> stores@[k] is Forward,
                        is_zone_chain(links(chain@), stores@.take(i as int), rules, zone_name@),
                        i > 0 && rules is Some ==> !authority::has_bad_override(
                            rules.unwrap().rules.overrides,
                        ),
                    decreases stores@.len() - i,
                {
                    let ghost before = links(chain@);
                    let ghost store = stores@[i as int];
                    match &stores[i] {
                        ExternalStoreConfig::Forward(config) => {
                            let ghost mut part = Seq::<LinkView>::empty();
                            match adblock_rules {
                                Some(compiled) => {
                                    match build_authorities(zone_name, config, compiled) {
                                        Ok(mut chained) => {
                                            proof {
                                                part = links(chained@);
                                            }
                                            chain.append(&mut chained);
                                        },
                                        Err(e) => return Err(e),
                                    }
                                },
                                None => {
                                    proof {
                                        part = seq![LinkView::Forward(zone_name@, *config)];
                                    }
                                    chain.push(ChainLink::Forward(zone_name.clone(), config));
                                },
                            }
                            proof {
                                assert(links(chain@) =~= before + part);
                                lemma_one_more_store(
                                    before,
                                    part,
                                    stores@.take(i as int),
                                    store,
                                    rules,
                                    zone_name@,
                                );
                                assert(stores@.take(i + 1) =~= stores@.take(i as int).push(
                                    store,
                                ));
                            }
                        },
                        ExternalStoreConfig::Default => return server::empty_stores_error(),
                    }
                    i = i + 1;
                }
                assert(stores@.take(stores@.len() as int) =~= stores@);
                Ok(chain)
            },
        }
    }
}

/// A zone with its name and the chain of those who are asked about its names.
pub struct ZonePlan<'a> {
    pub name: DomainName,
    pub chain: Vec<ChainLink<'a>>,
}

/// Whether `plan` is that of a zone.
pub open spec fn is_zone_plan<'a>(
    plan: ZonePlan<'a>,
    zone: ZoneConfig,
    compiled: Option<CompiledView>,
) -> bool {
    &&& name::name_parse(zone.zone@) == Ok::<(Seq<Seq<u8>>, bool), Seq<char>>(
        (plan.name.label_view(), plan.name.is_full()),
    )
    &&& is_zone_chain(links(plan.chain@), zone.stores(), compiled, plan.name@)
}

/// The words about a zone that cannot be loaded.
pub open spec fn unloaded_zone_text(shown_name: Seq<char>, err: Seq<char>) -> Seq<char> {
    "could not load zone "@ + shown_name + ": "@ + err
}

/// The words about a configuration with a zone whose name cannot be read.
pub open spec fn bad_zone_name_text(shown_path: Seq<char>, err: Seq<char>) -> Seq<char> {
    "failed to read zone name from "@ + shown_path + ": "@ + err
}

/// Whether planning a zone fails with `message`.
pub open spec fn is_zone_error(
    zone: ZoneConfig,
    compiled: Option<CompiledView>,
    shown_path: Seq<char>,
    message: Seq<char>,
) -> bool {
    match name::name_parse(zone.zone@) {
        Err(err) => message == bad_zone_name_text(shown_path, err),
        Ok((labels, fqdn)) => exists|err: Seq<char>| #[trigger]
            is_store_error(zone.stores(), compiled, err) && message == unloaded_zone_text(
                name::name_display(labels, fqdn),
                err,
            ),
    }
}

/// Whether a zone can be planned.
pub open spec fn can_be_planned(zone: ZoneConfig, compiled: Option<CompiledView>) -> bool {
    exists|chain: Seq<LinkView>, origin: NameView| #[trigger]
        is_zone_chain(chain, zone.stores(), compiled, origin) && name::name_parse(zone.zone@)
            == Ok::<(Seq<Seq<u8>>, bool), Seq<char>>((origin.labels, origin.fqdn))
}

/// Plans the zones of a configuration, which is shown as `shown_path`, up to
/// the first one that cannot be.
pub fn plan_zones<'a>(
    zones: &'a [ZoneConfig],
    adblock_rules: Option<&CompiledRuleSets>,
    shown_path: &str,
) -> (r: Result<Vec<ZonePlan<'a>>, String>)
    ensures
        match r {
            Ok(plans) => plans@.len() == zones@.len() && forall|i: int|
                0 <= i < zones@.len() ==> is_zone_plan(
                    #[trigger] plans@[i],
                    zones@[i],
                    compiled_view(adblock_rules),
                ),
            Err(e) => exists|i: int|
                0 <= i < zones@.len() && is_zone_error(
                    #[trigger] zones@[i],
                    compiled_view(adblock_rules),
                    shown_path@,
                    e@,
                ) && forall|k: int|
                    0 <= k < i ==> can_be_planned(
                        #[trigger] zones@[k],
                        compiled_view(adblock_rules),
                    ),
        },
{
    let mut plans: Vec<ZonePlan<'a>> = Vec::new();
    let mut i: usize = 0;
    while i < zones.len()
        invariant
            i <= zones@.len(),
            plans@.len() == i,
            forall|k: int|
                0 <= k < i ==> is_zone_plan(
                    #[trigger] plans@[k],
                    zones@[k],
                    compiled_view(adblock_rules),
                ),
        decreases zones@.len() - i,
    {
        let zone = &zones[i];
        assert forall|k: int| 0 <= k < i implies can_be_planned(
            #[trigger] zones@[k],
            compiled_view(adblock_rules),
        ) by {
            assert(is_zone_plan(plans@[k], zones@[k], compiled_view(adblock_rules)));
        }
        let zone_name = match zone.zone() {
            Ok(name) => name,
            Err(err) => {
                let mut message = "failed to read zone name from ".to_owned();
                message.append(shown_path);
                message.append(": ");
                message.append(err.as_str());
                assert(is_zone_error(
                    zones@[i as int],
                    compiled_view(adblock_rules),
                    shown_path@,
                    message@,
                ));
                return Err(message);
            },
        };
        match zone.load_named(&zone_name, adblock_rules) {
            Ok(chain) => plans.push(ZonePlan { name: zone_name, chain }),
            Err(err) => {
                let mut message = "could not load zone ".to_owned();
                let shown_name = name::show_name(&zone_name);
                message.append(shown_name.as_str());
                message.append(": ");
                message.append(err.as_str());
                assert(is_zone_error(
                    zones@[i as int],
                    compiled_view(adblock_rules),
                    shown_path@,
                    message@,
                ));
                return Err(message);
            },
        }
        i = i + 1;
    }
    Ok(plans)
}

/// A query: the labels of its name, whether the name is fully qualified, and
/// the type that it asks for.
pub struct QueryView {
    pub labels: Seq<Seq<u8>>,
    pub fqdn: bool,
    pub rtype: u16,
}

/// Who answers a query: one of the links with what it says, or the servers
/// upstream, or nobody.
pub enum AnswererView {
    Link(LookupView),
    Upstream(ForwardConfig),
    Nobody,
}

impl LinkView {
    /// What a link says to a query before the servers upstream are asked.
    pub open spec fn lookup(self, query: QueryView) -> LookupView {
        let domain = name::query_domain(query.labels, query.fqdn);
        match self {
            LinkView::Override(overrides) => authority::override_lookup(
                overrides.named,
                name::lower_labels(query.labels),
                query.fqdn,
                query.rtype,
            ),
            LinkView::Rewrite(rewrites) => authority::rewrite_lookup(
                rewrites.domain_rewrites,
                domain,
                query.rtype,
            ),
            LinkView::Block(block_list) => block_list.lookup(domain, query.rtype),
            LinkView::Forward(_, _) => LookupView::Skip,
        }
    }
}

/// Who of the links from `i` on answers a query: the first one that does not
/// pass it over.
pub open spec fn answerer(chain: Seq<LinkView>, query: QueryView, i: int) -> AnswererView
    decreases chain.len() - i,
{
    if i >= chain.len() {
        AnswererView::Nobody
    } else {
        match chain[i] {
            LinkView::Forward(_, config) => AnswererView::Upstream(config),
            _ => match chain[i].lookup(query) {
                LookupView::Skip => answerer(chain, query, i + 1),
                lookup => AnswererView::Link(lookup),
            },
        }
    }
}

proof fn lemma_unasked(compiled: CompiledView, origin: NameView, query: QueryView)
    ensures
        !has_rewrites(compiled) ==> LinkView::Rewrite(rewrites_of(compiled, origin)).lookup(
            query,
        )
            == LookupView::Skip,
        !has_blocks(compiled) ==> LinkView::Block(block_list_of(compiled, origin)).lookup(
            query,
        )
            == LookupView::Skip,
{
}

/// The precedence of the rules. A query is answered by its override; without
/// one by the first rewrite that covers it; and otherwise an important rule
/// that allows it goes before an important one that blocks it, that before
/// the other rules that allow it, those before the other rules that block it,
/// and what is left is for the servers upstream.
pub proof fn law_precedence(
    named: Map<Seq<Seq<u8>>, OverrideView>,
    compiled: CompiledView,
    forward: ForwardConfig,
    origin: NameView,
    query: QueryView,
)
    requires
        authority::names_overrides(named, compiled.rules.overrides),
    ensures
        ({
            let domain = name::query_domain(query.labels, query.fqdn);
            let labels = name::lower_labels(query.labels);
            let rtype = query.rtype;
            let block_list = block_list_of(compiled, origin);
            let rewrite = authority::rewrite_place(compiled.domain_rewrites, domain, 0);
            let upstream = AnswererView::Upstream(forward);
            let blocked = AnswererView::Link(block_list.response(rtype));
            answerer(chain_of(named, compiled, forward, origin), query, 0) == (if query.fqdn
                && named.contains_key(labels) {
                AnswererView::Link(
                    LookupView::Answer(authority::override_answer(named[labels], rtype)),
                )
            } else if rewrite < compiled.domain_rewrites.len() {
                AnswererView::Link(
                    LookupView::Answer(
                        authority::override_answer(
                            compiled.domain_rewrites[rewrite].answer,
                            rtype,
                        ),
                    ),
                )
            } else if authority::any_important_hits(
                compiled.rules.allow_rules,
                domain,
                rtype,
            ) {
                upstream
            } else if authority::any_important_hits(
                compiled.rules.block_rules,
                domain,
                rtype,
            ) {
                blocked
            } else if compiled.rules.allows(domain) || authority::any_rule_hits(
                compiled.rules.allow_rules,
                domain,
                rtype,
            ) {
                upstream
            } else if compiled.rules.blocks(domain) || authority::any_rule_hits(
                compiled.rules.block_rules,
                domain,
                rtype,
            ) {
                blocked
            } else {
                upstream
            })
        }),
{
    let chain = chain_of(named, compiled, forward, origin);
    let o: int = if has_overrides(compiled) {
        1
    } else {
        0
    };
    let w: int = if has_rewrites(compiled) {
        1
    } else {
        0
    };
    let b: int = if has_blocks(compiled) {
        1
    } else {
        0
    };
    lemma_unasked(compiled, origin, query);
    assert(chain.len() == o + w + b + 1);
    assert(chain[o + w + b] == LinkView::Forward(origin, forward));
    if !has_overrides(compiled) {
        assert forall|labels: Seq<Seq<u8>>| !named.contains_key(labels) by {}
    }
    reveal_with_fuel(answerer, 4);
}

} // verus!
