//! The rules and rewrites of a configuration, ready to be asked.
use vstd::prelude::*;

use std::sync::Arc;

use vstd::hash_set::StringHashSet;

use crate::domain;
use crate::domain::{DomainPattern, PatternView};
use crate::filtering;
use crate::filtering::{AdblockRuntimeConfig, AdblockView, BlockingMode, RewriteConfig, RewriteView};
use crate::ip;
use crate::ip::{IpNet, Ipv4Addr, Ipv6Addr};
use crate::overrides;
use crate::overrides::{OverrideRule, OverrideTable, OverrideView};
use crate::rule;
use crate::rule::{CompiledMatchRule, RuleOrigin};
use crate::rule_sets;
use crate::rule_sets::{DisabledRules, ParseView, RuleSets, SetsView};
use crate::text;

verus! {

/// Answers the domains of a pattern.
#[derive(Debug)]
pub struct DomainRewriteRule {
    pub pattern: DomainPattern,
    pub answer: OverrideRule,
}

/// Replaces answers that hold an address of one of the networks.
#[derive(Debug)]
pub struct AnswerIpRewriteRule {
    pub nets: Vec<IpNet>,
    pub answer: OverrideRule,
}

/// Replaces answers that lead through a domain of one of the patterns.
#[derive(Debug)]
pub struct CnameRewriteRule {
    pub patterns: Vec<DomainPattern>,
    pub answer: OverrideRule,
}

/// What a `DomainRewriteRule` says.
#[verifier::ext_equal]
pub struct DomainRewriteView {
    pub pattern: PatternView,
    pub answer: OverrideView,
}

/// What an `AnswerIpRewriteRule` says.
#[verifier::ext_equal]
pub struct AnswerIpRewriteView {
    pub nets: Seq<IpNet>,
    pub answer: OverrideView,
}

/// What a `CnameRewriteRule` says.
#[verifier::ext_equal]
pub struct CnameRewriteView {
    pub patterns: Seq<PatternView>,
    pub answer: OverrideView,
}

impl View for DomainRewriteRule {
    type V = DomainRewriteView;

    open spec fn view(&self) -> DomainRewriteView {
        DomainRewriteView { pattern: self.pattern@, answer: self.answer@ }
    }
}

impl View for AnswerIpRewriteRule {
    type V = AnswerIpRewriteView;

    open spec fn view(&self) -> AnswerIpRewriteView {
        AnswerIpRewriteView { nets: self.nets@, answer: self.answer@ }
    }
}

impl View for CnameRewriteRule {
    type V = CnameRewriteView;

    open spec fn view(&self) -> CnameRewriteView {
        CnameRewriteView { patterns: domain::patterns(self.patterns@), answer: self.answer@ }
    }
}

pub open spec fn domain_rewrite_views(v: Seq<DomainRewriteRule>) -> Seq<DomainRewriteView> {
    v.map_values(|r: DomainRewriteRule| r@)
}

pub open spec fn answer_ip_rewrite_views(v: Seq<AnswerIpRewriteRule>) -> Seq<AnswerIpRewriteView> {
    v.map_values(|r: AnswerIpRewriteRule| r@)
}

pub open spec fn cname_rewrite_views(v: Seq<CnameRewriteRule>) -> Seq<CnameRewriteView> {
    v.map_values(|r: CnameRewriteRule| r@)
}

/// Where the first rule at or behind `i` has the pattern; the number of rules
/// where there is none.
pub open spec fn pattern_place(
    rules: Seq<DomainRewriteView>,
    pattern: PatternView,
    i: int,
) -> int
    decreases rules.len() - i,
{
    if i >= rules.len() {
        rules.len() as int
    } else if rules[i].pattern == pattern {
        i
    } else {
        pattern_place(rules, pattern, i + 1)
    }
}

/// The rules with `answer` added to the one that has the pattern, or with a
/// new one for it.
pub open spec fn with_rewrite(
    rules: Seq<DomainRewriteView>,
    pattern: PatternView,
    answer: OverrideView,
) -> Seq<DomainRewriteView> {
    let i = pattern_place(rules, pattern, 0);
    if i < rules.len() {
        rules.update(i, DomainRewriteView { pattern, answer: rules[i].answer.merged(answer) })
    } else {
        rules.push(
            DomainRewriteView { pattern, answer: overrides::no_addresses().merged(answer) },
        )
    }
}

/// The rules with that of one more rewrite, if it is one of a domain.
#[verifier::opaque]
pub open spec fn with_domain_rewrite(
    rules: Seq<DomainRewriteView>,
    rewrite: RewriteView,
) -> Result<Seq<DomainRewriteView>, Seq<char>> {
    match rewrite.domain {
        None => Ok(rules),
        Some(domain) => match overrides::answers_text(rewrite.answers) {
            Err(e) => Err(e),
            Ok(answer) => match domain::pattern_text(domain) {
                Err(e) => Err(e),
                Ok(pattern) => Ok(with_rewrite(rules, pattern, answer)),
            },
        },
    }
}

/// The rules for the rewrites of a domain; the error of the first rewrite
/// whose answer or domain cannot be read.
pub open spec fn domain_rewrites(rewrites: Seq<RewriteView>) -> Result<
    Seq<DomainRewriteView>,
    Seq<char>,
>
    decreases rewrites.len(),
{
    if rewrites.len() == 0 {
        Ok(Seq::empty())
    } else {
        match domain_rewrites(rewrites.drop_last()) {
            Err(e) => Err(e),
            Ok(rules) => with_domain_rewrite(rules, rewrites.last()),
        }
    }
}

proof fn lemma_domain_rewrites_err(rewrites: Seq<RewriteView>, i: int)
    requires
        0 <= i <= rewrites.len(),
        domain_rewrites(rewrites.take(i)) is Err,
    ensures
        domain_rewrites(rewrites) == domain_rewrites(rewrites.take(i)),
    decreases rewrites.len() - i,
{
    if i < rewrites.len() {
        assert(rewrites.take(i + 1).drop_last() =~= rewrites.take(i));
        lemma_domain_rewrites_err(rewrites, i + 1);
    } else {
        assert(rewrites.take(i) =~= rewrites);
    }
}

fn same_pattern(a: &DomainPattern, b: &DomainPattern) -> (r: bool)
    ensures
        r == (a@ == b@),
{
    match (a, b) {
        (DomainPattern::Exact(x), DomainPattern::Exact(y)) => text::same_text(
            x.as_str(),
            y.as_str(),
        ),
        (DomainPattern::WildcardSuffix(x), DomainPattern::WildcardSuffix(y)) => text::same_text(
            x.as_str(),
            y.as_str(),
        ),
        _ => false,
    }
}

/// Adds a rewrite of the domains of `pattern`.
fn add_rewrite(
    rules: &mut Vec<DomainRewriteRule>,
    pattern: DomainPattern,
    answer: &OverrideRule,
)
    ensures
        domain_rewrite_views(final(rules)@) == with_rewrite(
            domain_rewrite_views(old(rules)@),
            pattern@,
            answer@,
        ),
{
    let ghost before = domain_rewrite_views(rules@);
    let mut i: usize = 0;
    while i < rules.len()
        invariant
            i <= rules@.len(),
            rules@ == old(rules)@,
            before == domain_rewrite_views(rules@),
            pattern_place(before, pattern@, 0) == pattern_place(before, pattern@, i as int),
        decreases rules@.len() - i,
    {
        assert(before[i as int] == rules@[i as int]@);
        if same_pattern(&rules[i].pattern, &pattern) {
            let mut merged = rules[i].answer.clone();
            overrides::merge_override_rule(&mut merged, answer);
            rules[i] = DomainRewriteRule { pattern, answer: merged };
            assert(domain_rewrite_views(rules@) =~= with_rewrite(before, pattern@, answer@));
            return;
        }
        i = i + 1;
    }
    let mut first = OverrideRule::default();
    overrides::merge_override_rule(&mut first, answer);
    rules.push(DomainRewriteRule { pattern, answer: first });
    assert(domain_rewrite_views(rules@) =~= with_rewrite(before, pattern@, answer@));
}

/// Adds the rule of a rewrite, if it is one of a domain.
fn add_domain_rewrite(rules: &mut Vec<DomainRewriteRule>, rewrite: &RewriteConfig) -> (r: Result<
    (),
    String,
>)
    ensures
        match r {
            Ok(()) => with_domain_rewrite(domain_rewrite_views(old(rules)@), rewrite@) == Ok::<
                Seq<DomainRewriteView>,
                Seq<char>,
            >(domain_rewrite_views(final(rules)@)),
            Err(e) => with_domain_rewrite(domain_rewrite_views(old(rules)@), rewrite@) == Err::<
                Seq<DomainRewriteView>,
                Seq<char>,
            >(e@),
        },
{
    reveal(with_domain_rewrite);
    match &rewrite.domain {
        None => Ok(()),
        Some(domain) => match overrides::parse_override_answers(rewrite.answer.values()) {
            Err(e) => Err(e),
            Ok(answer) => match domain::parse_domain_pattern(domain.as_str()) {
                Err(e) => Err(e),
                Ok(pattern) => {
                    add_rewrite(rules, pattern, &answer);
                    Ok(())
                },
            },
        },
    }
}

/// Compiles the rewrites of a domain. Rewrites of one pattern become one rule
/// with the addresses of all of them; the rules stand in the order in which
/// their patterns first occur.
pub fn compile_domain_rewrites(rewrites: &[RewriteConfig]) -> (r: Result<
    Vec<DomainRewriteRule>,
    String,
>)
    ensures
        match r {
            Ok(rules) => domain_rewrites(filtering::rewrite_views(rewrites@)) == Ok::<
                Seq<DomainRewriteView>,
                Seq<char>,
            >(domain_rewrite_views(rules@)),
            Err(e) => domain_rewrites(filtering::rewrite_views(rewrites@)) == Err::<
                Seq<DomainRewriteView>,
                Seq<char>,
            >(e@),
        },
{
    let ghost all = filtering::rewrite_views(rewrites@);
    let mut compiled: Vec<DomainRewriteRule> = Vec::new();
    let mut i: usize = 0;
    proof {
        assert(all.take(0) =~= Seq::<RewriteView>::empty());
        assert(domain_rewrite_views(compiled@) =~= Seq::<DomainRewriteView>::empty());
    }
    while i < rewrites.len()
        invariant
            i <= rewrites@.len(),
            all == filtering::rewrite_views(rewrites@),
            domain_rewrites(all.take(i as int)) == Ok::<Seq<DomainRewriteView>, Seq<char>>(
                domain_rewrite_views(compiled@),
            ),
        decreases rewrites@.len() - i,
    {
        proof {
            assert(all.take(i + 1).drop_last() =~= all.take(i as int));
            assert(all.take(i + 1).last() == rewrites@[i as int]@);
        }
        match add_domain_rewrite(&mut compiled, &rewrites[i]) {
            Ok(()) => {},
            Err(e) => {
                proof {
                    lemma_domain_rewrites_err(all, i + 1);
                }
                return Err(e);
            },
        }
        i = i + 1;
    }
    assert(all.take(all.len() as int) =~= all);
    Ok(compiled)
}

/// No two rules have the same pattern.
pub open spec fn distinct_patterns(rules: Seq<DomainRewriteView>) -> bool {
    forall|i: int, j: int|
        0 <= i < j < rules.len() ==> (#[trigger] rules[i]).pattern != (
        #[trigger] rules[j]).pattern
}

proof fn lemma_pattern_place(rules: Seq<DomainRewriteView>, pattern: PatternView, i: int)
    requires
        0 <= i <= rules.len(),
    ensures
        i <= pattern_place(rules, pattern, i) <= rules.len(),
        pattern_place(rules, pattern, i) < rules.len() ==> rules[pattern_place(
            rules,
            pattern,
            i,
        )].pattern == pattern,
        forall|k: int|
            i <= k < pattern_place(rules, pattern, i) ==> (#[trigger] rules[k]).pattern
                != pattern,
    decreases rules.len() - i,
{
    if i < rules.len() && rules[i].pattern != pattern {
        lemma_pattern_place(rules, pattern, i + 1);
    }
}

/// Whether one of the rules has the pattern.
pub open spec fn has_pattern(rules: Seq<DomainRewriteView>, pattern: PatternView) -> bool {
    exists|i: int| 0 <= i < rules.len() && (#[trigger] rules[i]).pattern == pattern
}

/// Whether a rewrite is one of a domain that is read as the pattern.
#[verifier::opaque]
pub open spec fn is_of_pattern(rewrite: RewriteView, pattern: PatternView) -> bool {
    rewrite.domain is Some && domain::pattern_text(rewrite.domain.unwrap()) == Ok::<
        PatternView,
        Seq<char>,
    >(pattern)
}

/// Whether one of the rewrites has the pattern.
pub open spec fn is_rewritten(rewrites: Seq<RewriteView>, pattern: PatternView) -> bool {
    exists|j: int| 0 <= j < rewrites.len() && is_of_pattern(#[trigger] rewrites[j], pattern)
}

/// Whether a rewrite answers with this IPv4 address.
#[verifier::opaque]
pub open spec fn answers_ipv4(rewrite: RewriteView, a: Ipv4Addr) -> bool {
    overrides::answers_text(rewrite.answers) matches Ok(answer) && answer.ipv4.contains(a)
}

/// Whether a rewrite answers with this IPv6 address.
#[verifier::opaque]
pub open spec fn answers_ipv6(rewrite: RewriteView, a: Ipv6Addr) -> bool {
    overrides::answers_text(rewrite.answers) matches Ok(answer) && answer.ipv6.contains(a)
}

/// Whether one of the rewrites that have the pattern answers with this IPv4
/// address.
pub open spec fn is_rewritten_to_ipv4(
    rewrites: Seq<RewriteView>,
    pattern: PatternView,
    a: Ipv4Addr,
) -> bool {
    exists|j: int|
        0 <= j < rewrites.len() && is_of_pattern(#[trigger] rewrites[j], pattern) && answers_ipv4(
            rewrites[j],
            a,
        )
}

/// Whether one of the rewrites that have the pattern answers with this IPv6
/// address.
pub open spec fn is_rewritten_to_ipv6(
    rewrites: Seq<RewriteView>,
    pattern: PatternView,
    a: Ipv6Addr,
) -> bool {
    exists|j: int|
        0 <= j < rewrites.len() && is_of_pattern(#[trigger] rewrites[j], pattern) && answers_ipv6(
            rewrites[j],
            a,
        )
}

/// Whether a rewrite, if it is one of a domain, has an answer and a domain that
/// can be read.
pub open spec fn is_readable(rewrite: RewriteView) -> bool {
    rewrite.domain is Some ==> overrides::answers_text(rewrite.answers) is Ok
        && domain::pattern_text(rewrite.domain.unwrap()) is Ok
}

/// Whether the rules are those of the rewrites: one for each pattern, with the
/// addresses of the rewrites that have it, each once.
pub open spec fn are_merged(rules: Seq<DomainRewriteView>, rewrites: Seq<RewriteView>) -> bool {
    &&& distinct_patterns(rules)
    &&& forall|pattern: PatternView| #[trigger]
        has_pattern(rules, pattern) == is_rewritten(rewrites, pattern)
    &&& forall|i: int| 0 <= i < rules.len() ==> (#[trigger] rules[i]).answer.distinct()
    &&& forall|i: int, a: Ipv4Addr|
        0 <= i < rules.len() ==> #[trigger] rules[i].answer.ipv4.contains(a)
            == is_rewritten_to_ipv4(rewrites, rules[i].pattern, a)
    &&& forall|i: int, a: Ipv6Addr|
        0 <= i < rules.len() ==> #[trigger] rules[i].answer.ipv6.contains(a)
            == is_rewritten_to_ipv6(rewrites, rules[i].pattern, a)
}

/// What one more rewrite adds to those that have a pattern.
proof fn lemma_one_more_rewrite(rewrites: Seq<RewriteView>, pattern: PatternView)
    requires
        rewrites.len() > 0,
    ensures
        is_rewritten(rewrites, pattern) == (is_rewritten(rewrites.drop_last(), pattern)
            || is_of_pattern(rewrites.last(), pattern)),
        forall|a: Ipv4Addr| #[trigger]
            is_rewritten_to_ipv4(rewrites, pattern, a) == (is_rewritten_to_ipv4(
                rewrites.drop_last(),
                pattern,
                a,
            ) || (is_of_pattern(rewrites.last(), pattern) && answers_ipv4(rewrites.last(), a))),
        forall|a: Ipv6Addr| #[trigger]
            is_rewritten_to_ipv6(rewrites, pattern, a) == (is_rewritten_to_ipv6(
                rewrites.drop_last(),
                pattern,
                a,
            ) || (is_of_pattern(rewrites.last(), pattern) && answers_ipv6(rewrites.last(), a))),
{
    let before = rewrites.drop_last();
    assert(rewrites[rewrites.len() - 1] == rewrites.last());
    assert(forall|j: int| 0 <= j < before.len() ==> #[trigger] before[j] == rewrites[j]);
    assert(forall|j: int| 0 <= j < before.len() ==> #[trigger] rewrites[j] == before[j]);
}

proof fn lemma_rewrite_is_merged(
    before: Seq<DomainRewriteView>,
    rewrites: Seq<RewriteView>,
    pattern: PatternView,
    answer: OverrideView,
)
    requires
        rewrites.len() > 0,
        are_merged(before, rewrites.drop_last()),
        is_of_pattern(rewrites.last(), pattern),
        overrides::answers_text(rewrites.last().answers) == Ok::<OverrideView, Seq<char>>(answer),
    ensures
        are_merged(with_rewrite(before, pattern, answer), rewrites),
{
    reveal(is_of_pattern);
    reveal(answers_ipv4);
    reveal(answers_ipv6);
    let after = with_rewrite(before, pattern, answer);
    let n = pattern_place(before, pattern, 0);
    lemma_pattern_place(before, pattern, 0);
    lemma_one_more_rewrite(rewrites, pattern);
    let own = if n < before.len() {
        before[n].answer
    } else {
        overrides::no_addresses()
    };
    overrides::law_merge(own, answer);
    assert(after[n] == DomainRewriteView { pattern, answer: own.merged(answer) });
    assert forall|p: PatternView| #[trigger] has_pattern(after, p) == is_rewritten(rewrites, p) by {
        lemma_one_more_rewrite(rewrites, p);
        assert(has_pattern(before, p) == is_rewritten(rewrites.drop_last(), p));
        if has_pattern(before, p) {
            let i = choose|i: int| 0 <= i < before.len() && (#[trigger] before[i]).pattern == p;
            assert(after[i].pattern == p);
        }
        if has_pattern(after, p) && p != pattern {
            let i = choose|i: int| 0 <= i < after.len() && (#[trigger] after[i]).pattern == p;
            assert(before[i].pattern == p);
        }
    }
    if n == before.len() {
        assert(!has_pattern(before, pattern));
        assert(!is_rewritten(rewrites.drop_last(), pattern));
    }
    assert forall|i: int, a: Ipv4Addr| 0 <= i < after.len() implies #[trigger]
        after[i].answer.ipv4.contains(a) == is_rewritten_to_ipv4(
        rewrites,
        after[i].pattern,
        a,
    ) by {
        lemma_one_more_rewrite(rewrites, after[i].pattern);
        if i != n {
            assert(after[i] == before[i]);
        }
    }
    assert forall|i: int, a: Ipv6Addr| 0 <= i < after.len() implies #[trigger]
        after[i].answer.ipv6.contains(a) == is_rewritten_to_ipv6(
        rewrites,
        after[i].pattern,
        a,
    ) by {
        lemma_one_more_rewrite(rewrites, after[i].pattern);
        if i != n {
            assert(after[i] == before[i]);
        }
    }
}

/// Compiling merges the rewrites of one pattern. It succeeds just where every
/// rewrite of a domain can be read. Then there is one rule for each pattern of
/// theirs and no other, with just the addresses that the rewrites with that
/// pattern answer with, and no address stands in it twice.
pub proof fn law_rewrites_are_merged(rewrites: Seq<RewriteView>)
    ensures
        domain_rewrites(rewrites) is Ok == (forall|j: int|
            0 <= j < rewrites.len() ==> is_readable(#[trigger] rewrites[j])),
        domain_rewrites(rewrites) matches Ok(rules) ==> are_merged(rules, rewrites),
    decreases rewrites.len(),
{
    if rewrites.len() > 0 {
        let front = rewrites.drop_last();
        let last = rewrites.last();
        law_rewrites_are_merged(front);
        reveal(with_domain_rewrite);
        reveal(is_of_pattern);
        assert(rewrites[rewrites.len() - 1] == last);
        assert(forall|j: int| 0 <= j < front.len() ==> #[trigger] front[j] == rewrites[j]);
        assert(forall|j: int| 0 <= j < front.len() ==> #[trigger] rewrites[j] == front[j]);
        if domain_rewrites(rewrites) is Ok {
            let before = domain_rewrites(front)->Ok_0;
            if last.domain is Some {
                let answer = overrides::answers_text(last.answers)->Ok_0;
                let pattern = domain::pattern_text(last.domain.unwrap())->Ok_0;
                lemma_rewrite_is_merged(before, rewrites, pattern, answer);
            } else {
                assert forall|pattern: PatternView| #[trigger]
                    has_pattern(before, pattern) == is_rewritten(rewrites, pattern) by {
                    lemma_one_more_rewrite(rewrites, pattern);
                }
                assert forall|i: int, a: Ipv4Addr| 0 <= i < before.len() implies #[trigger]
                    before[i].answer.ipv4.contains(a) == is_rewritten_to_ipv4(
                    rewrites,
                    before[i].pattern,
                    a,
                ) by {
                    lemma_one_more_rewrite(rewrites, before[i].pattern);
                }
                assert forall|i: int, a: Ipv6Addr| 0 <= i < before.len() implies #[trigger]
                    before[i].answer.ipv6.contains(a) == is_rewritten_to_ipv6(
                    rewrites,
                    before[i].pattern,
                    a,
                ) by {
                    lemma_one_more_rewrite(rewrites, before[i].pattern);
                }
            }
        }
    }
}

/// The words about a text that writes no network.
pub open spec fn bad_net_text(net: Seq<char>) -> Seq<char> {
    "invalid rewrite IP network "@ + net + ": "@ + ip::addr_error_text(ip::AddrParseError::Ip)
}

/// The networks that `list` writes; the error of the first text that writes
/// none.
pub open spec fn net_list(list: Seq<Seq<char>>) -> Result<Seq<IpNet>, Seq<char>>
    decreases list.len(),
{
    if list.len() == 0 {
        Ok(Seq::empty())
    } else {
        match net_list(list.drop_last()) {
            Err(e) => Err(e),
            Ok(nets) => match ip::ip_net_parse(list.last()) {
                Some(net) => Ok(nets.push(net)),
                None => Err(bad_net_text(list.last())),
            },
        }
    }
}

/// Whether a text is an address, a slash and a number of bits.
#[verifier::opaque]
pub open spec fn is_plain_net(net: Seq<char>) -> bool {
    ip::cidr_text(net) is Some
}

/// Whether a text, if it is an address, a slash and a number of bits, is read
/// as the network that it writes.
#[verifier::opaque]
pub open spec fn net_reads_plainly(net: Seq<char>) -> bool {
    ip::cidr_text(net) is Some ==> ip::ip_net_parse(net) == ip::cidr_text(net)
}

/// Whether every text is an address, a slash and a number of bits.
pub open spec fn plain_nets(list: Seq<Seq<char>>) -> bool {
    forall|i: int| 0 <= i < list.len() ==> is_plain_net(#[trigger] list[i])
}

/// Whether every text that is an address, a slash and a number of bits is
/// read as the network that it writes.
pub open spec fn nets_read_plainly(list: Seq<Seq<char>>) -> bool {
    forall|i: int| 0 <= i < list.len() ==> net_reads_plainly(#[trigger] list[i])
}

proof fn lemma_net_list_err(list: Seq<Seq<char>>, i: int)
    requires
        0 <= i <= list.len(),
        net_list(list.take(i)) is Err,
    ensures
        net_list(list) == net_list(list.take(i)),
    decreases list.len() - i,
{
    if i < list.len() {
        assert(list.take(i + 1).drop_last() =~= list.take(i));
        lemma_net_list_err(list, i + 1);
    } else {
        assert(list.take(i) =~= list);
    }
}

/// The network that `net` writes, where `parsed` is what reading it gives.
pub fn rewrite_net(net: &str, parsed: Result<IpNet, String>) -> (r: Result<IpNet, String>)
    ensures
        match (parsed, r) {
            (Ok(n), Ok(got)) => got == n,
            (Err(err), Err(e)) => e@ == "invalid rewrite IP network "@ + net@ + ": "@ + err@,
            _ => false,
        },
{
    match parsed {
        Ok(n) => Ok(n),
        Err(err) => {
            let mut message = "invalid rewrite IP network ".to_owned();
            message.append(net);
            message.append(": ");
            message.append(err.as_str());
            Err(message)
        },
    }
}

fn read_net(net: &str) -> (r: Result<IpNet, String>)
    ensures
        match r {
            Ok(n) => ip::ip_net_parse(net@) == Some(n),
            Err(e) => ip::ip_net_parse(net@) is None && e@ == bad_net_text(net@),
        },
        net_reads_plainly(net@),
        is_plain_net(net@) ==> r is Ok,
{
    proof {
        reveal(is_plain_net);
        reveal(net_reads_plainly);
    }
    rewrite_net(net, ip::parse_ip_net(net))
}

fn read_nets(list: &Vec<String>) -> (r: Result<Vec<IpNet>, String>)
    ensures
        match r {
            Ok(nets) => net_list(text::texts(list@)) == Ok::<Seq<IpNet>, Seq<char>>(nets@),
            Err(e) => net_list(text::texts(list@)) == Err::<Seq<IpNet>, Seq<char>>(e@),
        },
        r is Ok ==> nets_read_plainly(text::texts(list@)),
        plain_nets(text::texts(list@)) ==> r is Ok,
{
    let ghost all = text::texts(list@);
    let mut nets: Vec<IpNet> = Vec::new();
    let mut i: usize = 0;
    assert(all.take(0) =~= Seq::<Seq<char>>::empty());
    while i < list.len()
        invariant
            i <= list@.len(),
            all == text::texts(list@),
            net_list(all.take(i as int)) == Ok::<Seq<IpNet>, Seq<char>>(nets@),
            nets_read_plainly(all.take(i as int)),
        decreases list@.len() - i,
    {
        proof {
            assert(all.take(i + 1).drop_last() =~= all.take(i as int));
            assert(all.take(i + 1).last() == list@[i as int]@);
        }
        match read_net(list[i].as_str()) {
            Ok(net) => nets.push(net),
            Err(e) => {
                proof {
                    lemma_net_list_err(all, i + 1);
                }
                return Err(e);
            },
        }
        i = i + 1;
    }
    assert(all.take(all.len() as int) =~= all);
    Ok(nets)
}

/// The rules with that of one more rewrite, if it is one of answers with an
/// address.
#[verifier::opaque]
pub open spec fn with_answer_ip_rewrite(
    rules: Seq<AnswerIpRewriteView>,
    rewrite: RewriteView,
) -> Result<Seq<AnswerIpRewriteView>, Seq<char>> {
    if rewrite.ip.len() == 0 {
        Ok(rules)
    } else {
        match overrides::answers_text(rewrite.answers) {
            Err(e) => Err(e),
            Ok(answer) => match net_list(rewrite.ip) {
                Err(e) => Err(e),
                Ok(nets) => Ok(rules.push(AnswerIpRewriteView { nets, answer })),
            },
        }
    }
}

/// The rules for the rewrites of answers with an address; the error of the
/// first rewrite whose answer or networks cannot be read.
pub open spec fn answer_ip_rewrites(rewrites: Seq<RewriteView>) -> Result<
    Seq<AnswerIpRewriteView>,
    Seq<char>,
>
    decreases rewrites.len(),
{
    if rewrites.len() == 0 {
        Ok(Seq::empty())
    } else {
        match answer_ip_rewrites(rewrites.drop_last()) {
            Err(e) => Err(e),
            Ok(rules) => with_answer_ip_rewrite(rules, rewrites.last()),
        }
    }
}

proof fn lemma_answer_ip_rewrites_err(rewrites: Seq<RewriteView>, i: int)
    requires
        0 <= i <= rewrites.len(),
        answer_ip_rewrites(rewrites.take(i)) is Err,
    ensures
        answer_ip_rewrites(rewrites) == answer_ip_rewrites(rewrites.take(i)),
    decreases rewrites.len() - i,
{
    if i < rewrites.len() {
        assert(rewrites.take(i + 1).drop_last() =~= rewrites.take(i));
        lemma_answer_ip_rewrites_err(rewrites, i + 1);
    } else {
        assert(rewrites.take(i) =~= rewrites);
    }
}

/// Whether a rewrite, if it is one of answers with an address, has an answer
/// that can be read and networks of an address, a slash and a number of bits.
pub open spec fn plainly_readable(rewrite: RewriteView) -> bool {
    plain_nets(rewrite.ip) && (rewrite.ip.len() > 0 ==> overrides::answers_text(
        rewrite.answers,
    ) is Ok)
}

/// Adds the rule of a rewrite, if it is one of answers with an address.
fn add_answer_ip_rewrite(
    rules: &mut Vec<AnswerIpRewriteRule>,
    rewrite: &RewriteConfig,
) -> (r: Result<(), String>)
    ensures
        match r {
            Ok(()) => with_answer_ip_rewrite(answer_ip_rewrite_views(old(rules)@), rewrite@)
                == Ok::<Seq<AnswerIpRewriteView>, Seq<char>>(
                answer_ip_rewrite_views(final(rules)@),
            ),
            Err(e) => with_answer_ip_rewrite(answer_ip_rewrite_views(old(rules)@), rewrite@)
                == Err::<Seq<AnswerIpRewriteView>, Seq<char>>(e@),
        },
        r is Ok ==> nets_read_plainly(rewrite@.ip),
        plainly_readable(rewrite@) ==> r is Ok,
{
    reveal(with_answer_ip_rewrite);
    assert(rewrite@.ip.len() == rewrite.ip@.len());
    if rewrite.ip.len() == 0 {
        return Ok(());
    }
    match overrides::parse_override_answers(rewrite.answer.values()) {
        Err(e) => Err(e),
        Ok(answer) => match read_nets(&rewrite.ip) {
            Err(e) => Err(e),
            Ok(nets) => {
                let added = AnswerIpRewriteRule { nets, answer };
                let ghost said = added@;
                rules.push(added);
                assert(answer_ip_rewrite_views(rules@) =~= answer_ip_rewrite_views(
                    old(rules)@,
                ).push(said));
                Ok(())
            },
        },
    }
}

/// Compiles the rewrites of answers with an address. Those whose networks are
/// written as an address, a slash and a number of bits are for those networks.
pub fn compile_answer_ip_rewrites(rewrites: &[RewriteConfig]) -> (r: Result<
    Vec<AnswerIpRewriteRule>,
    String,
>)
    ensures
        match r {
            Ok(rules) => answer_ip_rewrites(filtering::rewrite_views(rewrites@)) == Ok::<
                Seq<AnswerIpRewriteView>,
                Seq<char>,
            >(answer_ip_rewrite_views(rules@)),
            Err(e) => answer_ip_rewrites(filtering::rewrite_views(rewrites@)) == Err::<
                Seq<AnswerIpRewriteView>,
                Seq<char>,
            >(e@),
        },
        r is Ok ==> forall|i: int|
            0 <= i < rewrites@.len() ==> nets_read_plainly((#[trigger] rewrites@[i])@.ip),
        (forall|i: int| 0 <= i < rewrites@.len() ==> plainly_readable((#[trigger] rewrites@[i])@))
            ==> r is Ok,
{
    let ghost all = filtering::rewrite_views(rewrites@);
    let mut compiled: Vec<AnswerIpRewriteRule> = Vec::new();
    let mut i: usize = 0;
    proof {
        assert(all.take(0) =~= Seq::<RewriteView>::empty());
        assert(answer_ip_rewrite_views(compiled@) =~= Seq::<AnswerIpRewriteView>::empty());
    }
    while i < rewrites.len()
        invariant
            i <= rewrites@.len(),
            all == filtering::rewrite_views(rewrites@),
            answer_ip_rewrites(all.take(i as int)) == Ok::<Seq<AnswerIpRewriteView>, Seq<char>>(
                answer_ip_rewrite_views(compiled@),
            ),
            forall|k: int|
                0 <= k < i ==> nets_read_plainly((#[trigger] rewrites@[k])@.ip),
        decreases rewrites@.len() - i,
    {
        proof {
            assert(all.take(i + 1).drop_last() =~= all.take(i as int));
            assert(all.take(i + 1).last() == rewrites@[i as int]@);
        }
        match add_answer_ip_rewrite(&mut compiled, &rewrites[i]) {
            Ok(()) => {},
            Err(e) => {
                proof {
                    lemma_answer_ip_rewrites_err(all, i + 1);
                }
                return Err(e);
            },
        }
        i = i + 1;
    }
    assert(all.take(all.len() as int) =~= all);
    Ok(compiled)
}

/// The pattern that an entry of `cname` writes, behind `domain:` where it
/// starts so.
pub open spec fn cname_entry(item: Seq<char>) -> Seq<char> {
    if ("domain:"@).is_prefix_of(item) {
        item.skip(("domain:"@).len() as int)
    } else {
        item
    }
}

pub open spec fn cname_entries(list: Seq<Seq<char>>) -> Seq<Seq<char>> {
    list.map_values(|item: Seq<char>| cname_entry(item))
}

/// The rules with that of one more rewrite, if it is one of answers that lead
/// through a domain.
#[verifier::opaque]
pub open spec fn with_cname_rewrite(rules: Seq<CnameRewriteView>, rewrite: RewriteView) -> Result<
    Seq<CnameRewriteView>,
    Seq<char>,
> {
    if rewrite.cname.len() == 0 {
        Ok(rules)
    } else {
        match overrides::answers_text(rewrite.answers) {
            Err(e) => Err(e),
            Ok(answer) => match rule::pattern_list(cname_entries(rewrite.cname)) {
                Err(e) => Err(e),
                Ok(patterns) => Ok(rules.push(CnameRewriteView { patterns, answer })),
            },
        }
    }
}

/// The rules for the rewrites of answers that lead through a domain; the
/// error of the first rewrite whose answer or patterns cannot be read.
pub open spec fn cname_rewrites(rewrites: Seq<RewriteView>) -> Result<
    Seq<CnameRewriteView>,
    Seq<char>,
>
    decreases rewrites.len(),
{
    if rewrites.len() == 0 {
        Ok(Seq::empty())
    } else {
        match cname_rewrites(rewrites.drop_last()) {
            Err(e) => Err(e),
            Ok(rules) => with_cname_rewrite(rules, rewrites.last()),
        }
    }
}

proof fn lemma_cname_rewrites_err(rewrites: Seq<RewriteView>, i: int)
    requires
        0 <= i <= rewrites.len(),
        cname_rewrites(rewrites.take(i)) is Err,
    ensures
        cname_rewrites(rewrites) == cname_rewrites(rewrites.take(i)),
    decreases rewrites.len() - i,
{
    if i < rewrites.len() {
        assert(rewrites.take(i + 1).drop_last() =~= rewrites.take(i));
        lemma_cname_rewrites_err(rewrites, i + 1);
    } else {
        assert(rewrites.take(i) =~= rewrites);
    }
}

/// The texts of the patterns that the entries of `cname` write.
fn read_cname_entries(list: &Vec<String>) -> (r: Vec<Vec<char>>)
    ensures
        text::rows(r@) == cname_entries(text::texts(list@)),
{
    proof {
        reveal_strlit("domain:");
    }
    let mut out: Vec<Vec<char>> = Vec::new();
    let mut i: usize = 0;
    while i < list.len()
        invariant
            i <= list@.len(),
            ("domain:"@).len() == 7,
            out@.len() == i,
            forall|k: int| 0 <= k < i ==> #[trigger] out@[k]@ == cname_entry(list@[k]@),
        decreases list@.len() - i,
    {
        let item = text::chars_of(list[i].as_str());
        if text::starts(&item, "domain:") {
            out.push(text::owned(text::after(&item, 7)));
        } else {
            out.push(item);
        }
        i = i + 1;
    }
    assert(text::rows(out@) =~= cname_entries(text::texts(list@)));
    out
}

/// Adds the rule of a rewrite, if it is one of answers that lead through a
/// domain.
fn add_cname_rewrite(rules: &mut Vec<CnameRewriteRule>, rewrite: &RewriteConfig) -> (r: Result<
    (),
    String,
>)
    ensures
        match r {
            Ok(()) => with_cname_rewrite(cname_rewrite_views(old(rules)@), rewrite@) == Ok::<
                Seq<CnameRewriteView>,
                Seq<char>,
            >(cname_rewrite_views(final(rules)@)),
            Err(e) => with_cname_rewrite(cname_rewrite_views(old(rules)@), rewrite@) == Err::<
                Seq<CnameRewriteView>,
                Seq<char>,
            >(e@),
        },
{
    reveal(with_cname_rewrite);
    assert(rewrite@.cname.len() == rewrite.cname@.len());
    if rewrite.cname.len() == 0 {
        return Ok(());
    }
    match overrides::parse_override_answers(rewrite.answer.values()) {
        Err(e) => Err(e),
        Ok(answer) => {
            let entries = read_cname_entries(&rewrite.cname);
            match rule::read_patterns(&entries) {
                Err(e) => Err(e),
                Ok(patterns) => {
                    let added = CnameRewriteRule { patterns, answer };
                    let ghost said = added@;
                    rules.push(added);
                    assert(cname_rewrite_views(rules@) =~= cname_rewrite_views(old(rules)@).push(
                        said,
                    ));
                    Ok(())
                },
            }
        },
    }
}

/// Compiles the rewrites of answers that lead through a domain.
pub fn compile_cname_rewrites(rewrites: &[RewriteConfig]) -> (r: Result<
    Vec<CnameRewriteRule>,
    String,
>)
    ensures
        match r {
            Ok(rules) => cname_rewrites(filtering::rewrite_views(rewrites@)) == Ok::<
                Seq<CnameRewriteView>,
                Seq<char>,
            >(cname_rewrite_views(rules@)),
            Err(e) => cname_rewrites(filtering::rewrite_views(rewrites@)) == Err::<
                Seq<CnameRewriteView>,
                Seq<char>,
            >(e@),
        },
{
    let ghost all = filtering::rewrite_views(rewrites@);
    let mut compiled: Vec<CnameRewriteRule> = Vec::new();
    let mut i: usize = 0;
    proof {
        assert(all.take(0) =~= Seq::<RewriteView>::empty());
        assert(cname_rewrite_views(compiled@) =~= Seq::<CnameRewriteView>::empty());
    }
    while i < rewrites.len()
        invariant
            i <= rewrites@.len(),
            all == filtering::rewrite_views(rewrites@),
            cname_rewrites(all.take(i as int)) == Ok::<Seq<CnameRewriteView>, Seq<char>>(
                cname_rewrite_views(compiled@),
            ),
        decreases rewrites@.len() - i,
    {
        proof {
            assert(all.take(i + 1).drop_last() =~= all.take(i as int));
            assert(all.take(i + 1).last() == rewrites@[i as int]@);
        }
        match add_cname_rewrite(&mut compiled, &rewrites[i]) {
            Ok(()) => {},
            Err(e) => {
                proof {
                    lemma_cname_rewrites_err(all, i + 1);
                }
                return Err(e);
            },
        }
        i = i + 1;
    }
    assert(all.take(all.len() as int) =~= all);
    Ok(compiled)
}

/// The rules and rewrites of a configuration. Those who ask them share them.
pub struct CompiledRuleSets {
    pub overrides: Arc<OverrideTable>,
    pub block_exact: Arc<StringHashSet>,
    pub block_subdomains: Arc<StringHashSet>,
    pub allow_exact: Arc<StringHashSet>,
    pub allow_subdomains: Arc<StringHashSet>,
    pub block_rules: Arc<Vec<CompiledMatchRule>>,
    pub allow_rules: Arc<Vec<CompiledMatchRule>>,
    pub domain_rewrites: Arc<Vec<DomainRewriteRule>>,
    pub answer_ip_rewrites: Arc<Vec<AnswerIpRewriteRule>>,
    pub cname_rewrites: Arc<Vec<CnameRewriteRule>>,
    pub blocking_mode: BlockingMode,
    pub blocking_ipv4: Option<Ipv4Addr>,
    pub blocking_ipv6: Option<Ipv6Addr>,
    /// How many seconds the answer to a blocked query may be kept.
    pub block_ttl: u32,
}

/// What `CompiledRuleSets` say.
#[verifier::ext_equal]
pub struct CompiledView {
    pub rules: SetsView,
    pub domain_rewrites: Seq<DomainRewriteView>,
    pub answer_ip_rewrites: Seq<AnswerIpRewriteView>,
    pub cname_rewrites: Seq<CnameRewriteView>,
    pub blocking_mode: BlockingMode,
    pub blocking_ipv4: Option<Ipv4Addr>,
    pub blocking_ipv6: Option<Ipv6Addr>,
    pub block_ttl: u32,
}

impl View for CompiledRuleSets {
    type V = CompiledView;

    open spec fn view(&self) -> CompiledView {
        CompiledView {
            rules: SetsView {
                overrides: self.overrides@,
                block_exact: self.block_exact@,
                block_subdomains: self.block_subdomains@,
                allow_exact: self.allow_exact@,
                allow_subdomains: self.allow_subdomains@,
                block_rules: rule::rule_views(self.block_rules@),
                allow_rules: rule::rule_views(self.allow_rules@),
            },
            domain_rewrites: domain_rewrite_views(self.domain_rewrites@),
            answer_ip_rewrites: answer_ip_rewrite_views(self.answer_ip_rewrites@),
            cname_rewrites: cname_rewrite_views(self.cname_rewrites@),
            blocking_mode: self.blocking_mode,
            blocking_ipv4: self.blocking_ipv4,
            blocking_ipv6: self.blocking_ipv6,
            block_ttl: self.block_ttl,
        }
    }
}

/// The lists among `fetched` that could be had.
pub open spec fn bodies(fetched: Seq<Result<String, String>>) -> Seq<Seq<char>>
    decreases fetched.len(),
{
    if fetched.len() == 0 {
        Seq::empty()
    } else {
        match fetched.last() {
            Ok(body) => bodies(fetched.drop_last()).push(body@),
            Err(_) => bodies(fetched.drop_last()),
        }
    }
}

/// The rules with those of the remote lists, up to the first line that is no
/// rule, and the error of that line.
pub open spec fn with_bodies(state: ParseView, bodies: Seq<Seq<char>>) -> (
    ParseView,
    Option<Seq<char>>,
)
    decreases bodies.len(),
{
    if bodies.len() == 0 {
        (state, None)
    } else {
        let (before, err) = with_bodies(state, bodies.drop_last());
        if err is Some {
            (before, err)
        } else {
            before.with_lines(text::lines(bodies.last()), RuleOrigin::RemoteFilter)
        }
    }
}

/// The rules of the remote lists and then of the local lines.
pub open spec fn parsed(bodies: Seq<Seq<char>>, user_rules: Seq<Seq<char>>) -> Result<
    ParseView,
    Seq<char>,
> {
    let start = ParseView { rules: rule_sets::no_rules(), disabled: Set::empty() };
    let (remote, remote_err) = with_bodies(start, bodies);
    if remote_err is Some {
        Err(remote_err.unwrap())
    } else {
        let (all, err) = remote.with_lines(user_rules, RuleOrigin::UserRule);
        if err is Some {
            Err(err.unwrap())
        } else {
            Ok(all)
        }
    }
}

/// What the lists and a configuration are compiled to: the rules without
/// those that are disabled, and the rewrites.
pub open spec fn compiled(config: AdblockView, bodies: Seq<Seq<char>>) -> Result<
    CompiledView,
    Seq<char>,
> {
    let rewrites = config.filtering.rewrites;
    match parsed(bodies, config.user_rules) {
        Err(e) => Err(e),
        Ok(state) => match domain_rewrites(rewrites) {
            Err(e) => Err(e),
            Ok(domain_rewrites) => match answer_ip_rewrites(rewrites) {
                Err(e) => Err(e),
                Ok(answer_ip_rewrites) => match cname_rewrites(rewrites) {
                    Err(e) => Err(e),
                    Ok(cname_rewrites) => Ok(
                        CompiledView {
                            rules: state.rules.without_disabled(state.disabled),
                            domain_rewrites,
                            answer_ip_rewrites,
                            cname_rewrites,
                            blocking_mode: config.filtering.blocking_mode,
                            blocking_ipv4: config.filtering.blocking_ipv4,
                            blocking_ipv6: config.filtering.blocking_ipv6,
                            block_ttl: 60,
                        },
                    ),
                },
            },
        },
    }
}

proof fn lemma_bodies_err(state: ParseView, lists: Seq<Seq<char>>, i: int)
    requires
        0 <= i <= lists.len(),
        with_bodies(state, lists.take(i)).1 is Some,
    ensures
        with_bodies(state, lists) == with_bodies(state, lists.take(i)),
    decreases lists.len() - i,
{
    if i < lists.len() {
        assert(lists.take(i + 1).drop_last() =~= lists.take(i));
        lemma_bodies_err(state, lists, i + 1);
    } else {
        assert(lists.take(i) =~= lists);
    }
}

proof fn lemma_bodies_prefix(fetched: Seq<Result<String, String>>, i: int)
    requires
        0 <= i <= fetched.len(),
    ensures
        bodies(fetched.take(i)).is_prefix_of(bodies(fetched)),
    decreases fetched.len() - i,
{
    if i < fetched.len() {
        assert(fetched.take(i + 1).drop_last() =~= fetched.take(i));
        lemma_bodies_prefix(fetched, i + 1);
    } else {
        assert(fetched.take(i) =~= fetched);
    }
}

/// Adds the rules of the remote lists that could be had, up to the first line
/// that is no rule.
fn parse_fetched(
    fetched: &Vec<Result<String, String>>,
    rules: &mut RuleSets,
    disabled_rules: &mut DisabledRules,
) -> (r: Result<(), String>)
    ensures
        with_bodies(rule_sets::parse_view(*old(rules), *old(disabled_rules)), bodies(fetched@))
            == (
            rule_sets::parse_view(*final(rules), *final(disabled_rules)),
            match r {
                Ok(()) => None::<Seq<char>>,
                Err(e) => Some(e@),
            },
        ),
{
    let ghost start = rule_sets::parse_view(*rules, *disabled_rules);
    let mut i: usize = 0;
    assert(fetched@.take(0) =~= Seq::<Result<String, String>>::empty());
    while i < fetched.len()
        invariant
            i <= fetched@.len(),
            start == rule_sets::parse_view(*old(rules), *old(disabled_rules)),
            with_bodies(start, bodies(fetched@.take(i as int))) == (
                rule_sets::parse_view(*rules, *disabled_rules),
                None::<Seq<char>>,
            ),
        decreases fetched@.len() - i,
    {
        proof {
            assert(fetched@.take(i + 1).drop_last() =~= fetched@.take(i as int));
        }
        match &fetched[i] {
            Err(_) => {},
            Ok(contents) => {
                proof {
                    let before = bodies(fetched@.take(i as int));
                    assert(before.push(contents@).drop_last() =~= before);
                }
                match rule_sets::parse_rule_lines(
                    contents.as_str(),
                    RuleOrigin::RemoteFilter,
                    rules,
                    disabled_rules,
                ) {
                    Ok(()) => {},
                    Err(e) => {
                        proof {
                            let upto = bodies(fetched@.take(i + 1));
                            lemma_bodies_prefix(fetched@, i + 1);
                            assert(bodies(fetched@).take(upto.len() as int) =~= upto);
                            lemma_bodies_err(start, bodies(fetched@), upto.len() as int);
                        }
                        return Err(e);
                    },
                }
            },
        }
        i = i + 1;
    }
    assert(fetched@.take(fetched@.len() as int) =~= fetched@);
    Ok(())
}

impl CompiledRuleSets {
    /// Compiles a configuration with what was fetched for its enabled
    /// filters. A list that could not be had is left out.
    pub fn build(config: AdblockRuntimeConfig, fetched: Vec<Result<String, String>>) -> (r: Result<
        CompiledRuleSets,
        String,
    >)
        ensures
            match r {
                Ok(c) => compiled(config@, bodies(fetched@)) == Ok::<CompiledView, Seq<char>>(c@),
                Err(e) => compiled(config@, bodies(fetched@)) == Err::<CompiledView, Seq<char>>(
                    e@,
                ),
            },
    {
        let mut rules = RuleSets::default();
        let mut disabled_rules = DisabledRules::new();
        match parse_fetched(&fetched, &mut rules, &mut disabled_rules) {
            Ok(()) => {},
            Err(e) => return Err(e),
        }
        match rule_sets::parse_user_rules(&config.user_rules, &mut rules, &mut disabled_rules) {
            Ok(()) => {},
            Err(e) => return Err(e),
        }
        rule_sets::apply_badfilters(&mut rules, &disabled_rules);
        let domain_rewrites = match compile_domain_rewrites(&config.filtering.rewrites) {
            Ok(rules) => rules,
            Err(e) => return Err(e),
        };
        let answer_ip_rewrites = match compile_answer_ip_rewrites(&config.filtering.rewrites) {
            Ok(rules) => rules,
            Err(e) => return Err(e),
        };
        let cname_rewrites = match compile_cname_rewrites(&config.filtering.rewrites) {
            Ok(rules) => rules,
            Err(e) => return Err(e),
        };
        Ok(
            CompiledRuleSets {
                overrides: Arc::new(rules.overrides),
                block_exact: Arc::new(rules.block_exact),
                block_subdomains: Arc::new(rules.block_subdomains),
                allow_exact: Arc::new(rules.allow_exact),
                allow_subdomains: Arc::new(rules.allow_subdomains),
                block_rules: Arc::new(rules.block_rules),
                allow_rules: Arc::new(rules.allow_rules),
                domain_rewrites: Arc::new(domain_rewrites),
                answer_ip_rewrites: Arc::new(answer_ip_rewrites),
                cname_rewrites: Arc::new(cname_rewrites),
                blocking_mode: config.filtering.blocking_mode,
                blocking_ipv4: config.filtering.blocking_ipv4,
                blocking_ipv6: config.filtering.blocking_ipv6,
                block_ttl: 60,
            },
        )
    }

    /// Compiles a configuration without its remote lists.
    pub fn validate(config: AdblockRuntimeConfig) -> (r: Result<CompiledRuleSets, String>)
        ensures
            match r {
                Ok(c) => compiled(config@, Seq::empty()) == Ok::<CompiledView, Seq<char>>(c@),
                Err(e) => compiled(config@, Seq::empty()) == Err::<CompiledView, Seq<char>>(e@),
            },
    {
        Self::build(config, Vec::new())
    }
}

} // verus!
