//! What a configuration says about filtering.
use vstd::prelude::*;

use crate::ip::{Ipv4Addr, Ipv6Addr};
use crate::text;

verus! {

/// A remote list of rules.
#[derive(Debug, Default)]
pub struct FilterConfig {
    pub enabled: bool,
    pub url: String,
    pub name: Option<String>,
    pub id: Option<u64>,
}

/// How a blocked query is answered.
#[derive(Clone, Copy, Debug, Default, PartialEq, Eq, Structural)]
pub enum BlockingMode {
    /// With an address that leads nowhere.
    #[default]
    Default,
    /// With the word that there is no such domain.
    Nxdomain,
}

/// The addresses that a rewrite answers with.
#[derive(Debug, Default)]
pub enum RewriteAnswerConfig {
    #[default]
    Empty,
    Single(String),
    Multiple(Vec<String>),
}

/// A rewrite: of a domain, of answers that hold an address of `ip`, or of
/// answers that lead through a domain of `cname`.
#[derive(Debug, Default)]
pub struct RewriteConfig {
    pub domain: Option<String>,
    pub ip: Vec<String>,
    pub cname: Vec<String>,
    pub answer: RewriteAnswerConfig,
}

#[derive(Debug, Default)]
pub struct FilteringConfig {
    pub blocking_ipv4: Option<Ipv4Addr>,
    pub blocking_ipv6: Option<Ipv6Addr>,
    pub blocking_mode: BlockingMode,
    pub rewrites: Vec<RewriteConfig>,
}

/// How the hosts of the local network get names.
#[derive(Clone, Debug)]
pub struct LanHostsConfig {
    pub enabled: bool,
    /// The file that lists the hosts.
    pub source: String,
    /// The domain that the hosts are under.
    pub domain: Option<String>,
    pub include_unqualified: bool,
    pub refresh_interval_secs: u64,
}

/// What the filters and rules of a configuration are compiled from.
#[derive(Debug)]
pub struct AdblockRuntimeConfig {
    pub filters: Vec<FilterConfig>,
    pub user_rules: Vec<String>,
    pub filtering: FilteringConfig,
}

/// What a `RewriteConfig` says.
#[verifier::ext_equal]
pub struct RewriteView {
    pub domain: Option<Seq<char>>,
    pub ip: Seq<Seq<char>>,
    pub cname: Seq<Seq<char>>,
    pub answers: Seq<Seq<char>>,
}

pub open spec fn text_view(t: Option<String>) -> Option<Seq<char>> {
    match t {
        Some(t) => Some(t@),
        None => None,
    }
}

impl View for RewriteConfig {
    type V = RewriteView;

    open spec fn view(&self) -> RewriteView {
        RewriteView {
            domain: text_view(self.domain),
            ip: text::texts(self.ip@),
            cname: text::texts(self.cname@),
            answers: self.answer.value_texts(),
        }
    }
}

/// What the rewrites of `v` say.
pub open spec fn rewrite_views(v: Seq<RewriteConfig>) -> Seq<RewriteView> {
    v.map_values(|r: RewriteConfig| r@)
}

/// What a `FilterConfig` says.
#[verifier::ext_equal]
pub struct FilterView {
    pub enabled: bool,
    pub url: Seq<char>,
    pub name: Option<Seq<char>>,
    pub id: Option<u64>,
}

impl View for FilterConfig {
    type V = FilterView;

    open spec fn view(&self) -> FilterView {
        FilterView {
            enabled: self.enabled,
            url: self.url@,
            name: text_view(self.name),
            id: self.id,
        }
    }
}

/// What the filters of `v` say.
pub open spec fn filter_views(v: Seq<FilterConfig>) -> Seq<FilterView> {
    v.map_values(|f: FilterConfig| f@)
}

/// What a `FilteringConfig` says.
#[verifier::ext_equal]
pub struct FilteringView {
    pub blocking_ipv4: Option<Ipv4Addr>,
    pub blocking_ipv6: Option<Ipv6Addr>,
    pub blocking_mode: BlockingMode,
    pub rewrites: Seq<RewriteView>,
}

impl View for FilteringConfig {
    type V = FilteringView;

    open spec fn view(&self) -> FilteringView {
        FilteringView {
            blocking_ipv4: self.blocking_ipv4,
            blocking_ipv6: self.blocking_ipv6,
            blocking_mode: self.blocking_mode,
            rewrites: rewrite_views(self.rewrites@),
        }
    }
}

/// What an `AdblockRuntimeConfig` says.
#[verifier::ext_equal]
pub struct AdblockView {
    pub filters: Seq<FilterView>,
    pub user_rules: Seq<Seq<char>>,
    pub filtering: FilteringView,
}

impl View for AdblockRuntimeConfig {
    type V = AdblockView;

    open spec fn view(&self) -> AdblockView {
        AdblockView {
            filters: filter_views(self.filters@),
            user_rules: text::texts(self.user_rules@),
            filtering: self.filtering@,
        }
    }
}

/// A copy of the text, where there is one.
pub fn copied_text(t: &Option<String>) -> (r: Option<String>)
    ensures
        text_view(r) == text_view(*t),
{
    match t {
        Some(t) => Some(t.clone()),
        None => None,
    }
}

/// A copy of the texts.
pub fn copied_texts(v: &Vec<String>) -> (r: Vec<String>)
    ensures
        text::texts(r@) == text::texts(v@),
{
    let mut out: Vec<String> = Vec::new();
    let mut i: usize = 0;
    while i < v.len()
        invariant
            i <= v@.len(),
            out@.len() == i,
            forall|k: int| 0 <= k < i ==> #[trigger] out@[k]@ == v@[k]@,
        decreases v@.len() - i,
    {
        out.push(v[i].clone());
        i = i + 1;
    }
    assert(text::texts(out@) =~= text::texts(v@));
    out
}

impl Clone for FilterConfig {
    fn clone(&self) -> (r: FilterConfig)
        ensures
            r@ == self@,
    {
        FilterConfig {
            enabled: self.enabled,
            url: self.url.clone(),
            name: copied_text(&self.name),
            id: self.id,
        }
    }
}

impl Clone for RewriteAnswerConfig {
    fn clone(&self) -> (r: RewriteAnswerConfig)
        ensures
            r.value_texts() == self.value_texts(),
    {
        match self {
            RewriteAnswerConfig::Empty => RewriteAnswerConfig::Empty,
            RewriteAnswerConfig::Single(value) => RewriteAnswerConfig::Single(value.clone()),
            RewriteAnswerConfig::Multiple(values) => RewriteAnswerConfig::Multiple(
                copied_texts(values),
            ),
        }
    }
}

impl Clone for RewriteConfig {
    fn clone(&self) -> (r: RewriteConfig)
        ensures
            r@ == self@,
    {
        RewriteConfig {
            domain: copied_text(&self.domain),
            ip: copied_texts(&self.ip),
            cname: copied_texts(&self.cname),
            answer: self.answer.clone(),
        }
    }
}

impl Clone for FilteringConfig {
    fn clone(&self) -> (r: FilteringConfig)
        ensures
            r@ == self@,
    {
        let mut rewrites: Vec<RewriteConfig> = Vec::new();
        let mut i: usize = 0;
        while i < self.rewrites.len()
            invariant
                i <= self.rewrites@.len(),
                rewrites@.len() == i,
                forall|k: int| 0 <= k < i ==> #[trigger] rewrites@[k]@ == self.rewrites@[k]@,
            decreases self.rewrites@.len() - i,
        {
            rewrites.push(self.rewrites[i].clone());
            i = i + 1;
        }
        assert(rewrite_views(rewrites@) =~= rewrite_views(self.rewrites@));
        FilteringConfig {
            blocking_ipv4: self.blocking_ipv4,
            blocking_ipv6: self.blocking_ipv6,
            blocking_mode: self.blocking_mode,
            rewrites,
        }
    }
}

/// A copy of the filters.
pub fn copied_filters(v: &Vec<FilterConfig>) -> (r: Vec<FilterConfig>)
    ensures
        filter_views(r@) == filter_views(v@),
{
    let mut out: Vec<FilterConfig> = Vec::new();
    let mut i: usize = 0;
    while i < v.len()
        invariant
            i <= v@.len(),
            out@.len() == i,
            forall|k: int| 0 <= k < i ==> #[trigger] out@[k]@ == v@[k]@,
        decreases v@.len() - i,
    {
        out.push(v[i].clone());
        i = i + 1;
    }
    assert(filter_views(out@) =~= filter_views(v@));
    out
}

/// The slice that holds what `s` refers to: `std::slice::from_ref`.
pub assume_specification<T>[ std::slice::from_ref::<T> ](s: &T) -> (r: &[T])
    ensures
        r@ == seq![*s],
;

impl RewriteAnswerConfig {
    /// The texts of the answers.
    pub open spec fn value_texts(self) -> Seq<Seq<char>> {
        match self {
            RewriteAnswerConfig::Empty => Seq::empty(),
            RewriteAnswerConfig::Single(value) => seq![value@],
            RewriteAnswerConfig::Multiple(values) => text::texts(values@),
        }
    }

    /// The answers: none, one or several.
    pub fn values(&self) -> (r: &[String])
        ensures
            text::texts(r@) == self.value_texts(),
            self matches RewriteAnswerConfig::Multiple(values) ==> r@ == values@,
    {
        match self {
            RewriteAnswerConfig::Empty => {
                let none: &[String] = &[];
                assert(text::texts(none@) =~= self.value_texts());
                none
            },
            RewriteAnswerConfig::Single(value) => {
                let one = std::slice::from_ref(value);
                assert(text::texts(one@) =~= self.value_texts());
                one
            },
            RewriteAnswerConfig::Multiple(values) => values.as_slice(),
        }
    }
}

impl Default for LanHostsConfig {
    fn default() -> (r: LanHostsConfig)
        ensures
            r.enabled,
            r.source@ == "/var/dhcp.leases"@,
            r.domain matches Some(d) && d@ == "lan"@,
            r.include_unqualified,
            r.refresh_interval_secs == 60,
    {
        LanHostsConfig {
            enabled: true,
            source: "/var/dhcp.leases".to_owned(),
            domain: Some("lan".to_owned()),
            include_unqualified: true,
            refresh_interval_secs: 60,
        }
    }
}

/// Whether one of `filters` is enabled.
pub open spec fn any_enabled(filters: Seq<FilterConfig>) -> bool {
    exists|i: int| 0 <= i < filters.len() && (#[trigger] filters[i]).enabled
}

/// Whether queries have to pass through rules: a filter is enabled, or there
/// are rules or rewrites, or the hosts of the local network get names.
pub fn is_adblock_enabled(
    filters: &[FilterConfig],
    user_rules: &[String],
    filtering: &FilteringConfig,
    lan_hosts: &LanHostsConfig,
) -> (r: bool)
    ensures
        r == (any_enabled(filters@) || user_rules@.len() > 0 || filtering.rewrites@.len() > 0
            || lan_hosts.enabled),
{
    let mut i: usize = 0;
    while i < filters.len()
        invariant
            i <= filters@.len(),
            forall|k: int| 0 <= k < i ==> !(#[trigger] filters@[k]).enabled,
        decreases filters@.len() - i,
    {
        if filters[i].enabled {
            return true;
        }
        i = i + 1;
    }
    user_rules.len() > 0 || filtering.rewrites.len() > 0 || lan_hosts.enabled
}

impl AdblockRuntimeConfig {
    /// The enabled filters, in the order of the configuration.
    pub fn enabled_filters(&self) -> (r: Vec<&FilterConfig>)
        ensures
            r@.map_values(|f: &FilterConfig| *f) == self.filters@.filter(
                |f: FilterConfig| f.enabled,
            ),
    {
        let ghost enabled = |f: FilterConfig| f.enabled;
        let ghost bare = |f: &FilterConfig| *f;
        let mut out: Vec<&FilterConfig> = Vec::new();
        let mut i: usize = 0;
        proof {
            reveal(Seq::filter);
            assert(self.filters@.take(0) =~= Seq::<FilterConfig>::empty());
            assert(out@.map_values(bare) =~= self.filters@.take(0).filter(enabled));
        }
        while i < self.filters.len()
            invariant
                i <= self.filters@.len(),
                enabled == (|f: FilterConfig| f.enabled),
                bare == (|f: &FilterConfig| *f),
                out@.map_values(bare) == self.filters@.take(i as int).filter(enabled),
            decreases self.filters@.len() - i,
        {
            let ghost out0 = out@;
            proof {
                reveal(Seq::filter);
                assert(self.filters@.take(i + 1).drop_last() =~= self.filters@.take(i as int));
            }
            if self.filters[i].enabled {
                out.push(&self.filters[i]);
                assert(out@.map_values(bare) =~= out0.map_values(bare).push(
                    self.filters@[i as int],
                ));
            }
            i = i + 1;
        }
        assert(self.filters@.take(self.filters@.len() as int) =~= self.filters@);
        out
    }
}

} // verus!
