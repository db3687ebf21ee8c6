//! What holds of rules, patterns and answers whatever the lists and the
//! configuration say.
use vstd::prelude::*;

use crate::authority;
use crate::authority::{
    AnswerView, LastResult, LookupView, Record, RewriteAuthorityView, TYPE_A, TYPE_AAAA, TYPE_ANY,
};
use crate::chain;
use crate::chain::{AnswererView, QueryView};
use crate::compiled;
use crate::compiled::{AnswerIpRewriteView, CnameRewriteView, CompiledView};
use crate::domain;
use crate::domain::PatternView;
use crate::fetch;
use crate::filtering::{AdblockView, BlockingMode, FilterView};
use crate::ip::{IpAddr, IpNet, Ipv4Addr, Ipv6Addr};
use crate::name;
use crate::name::NameView;
use crate::number;
use crate::overrides;
use crate::overrides::OverrideView;
use crate::rule;
use crate::rule::{RuleDisposition, RuleOrigin, RuleView};
use crate::rule_sets;
use crate::rule_sets::{ParseView, SetsView};
use crate::server;
use crate::server::{ForwardConfig, UpstreamDnsConfig, ZoneConfig};
use crate::text;
use crate::text::CharClass;

verus! {

/// A domain is under another one just where it is that one, or a text, a dot
/// and that one.
pub proof fn law_suffix_needs_label_boundary(domain: Seq<char>, suffix: Seq<char>)
    ensures
        domain::under(domain, suffix) == (domain == suffix || exists|prefix: Seq<char>|
            domain == #[trigger] (prefix + "."@) + suffix),
{
    reveal_strlit(".");
    if domain::under(domain, suffix) && domain != suffix {
        let n = domain.len() - suffix.len() - 1;
        let prefix = domain.take(n);
        assert(domain =~= (prefix + "."@) + suffix);
    }
    if exists|prefix: Seq<char>| domain == #[trigger] (prefix + "."@) + suffix {
        let prefix = choose|prefix: Seq<char>| domain == #[trigger] (prefix + "."@) + suffix;
        assert(suffix.is_suffix_of(domain)) by {
            assert(suffix =~= domain.subrange(domain.len() - suffix.len(), domain.len() as int));
        }
        assert(domain[domain.len() - suffix.len() - 1] == '.');
    }
}

/// A wildcard covers every subdomain of its domain, and not the domain.
pub proof fn law_wildcard_covers_only_subdomains(d: Seq<char>, prefix: Seq<char>)
    ensures
        !PatternView::WildcardSuffix(d).covers(d),
        PatternView::WildcardSuffix(d).covers((prefix + "."@) + d),
{
    reveal_strlit(".");
    let sub = (prefix + "."@) + d;
    law_suffix_needs_label_boundary(sub, d);
    assert(sub.len() > d.len());
}

/// Splitting a rule loses nothing but the `$` between its parts.
pub proof fn law_split_rule_keeps_the_text(line: Seq<char>)
    ensures
        match rule::split_rule(line) {
            Ok((pattern, Some(modifiers))) => line == pattern + seq!['$'] + modifiers,
            Ok((pattern, None)) => line == pattern,
            Err(_) => line.len() > 0 && line[0] == '/',
        },
{
    if line.len() == 0 || line[0] != '/' {
        lemma_index(line, '$', 0);
        let at = text::index_from(line, '$', 0);
        if at < line.len() {
            assert(line =~= line.take(at) + seq!['$'] + line.skip(at + 1));
        }
    } else {
        lemma_regex_end(line, 1);
        if let Some(i) = rule::regex_end(line, 1) {
            if i + 1 < line.len() {
                assert(line =~= line.take(i + 1) + seq!['$'] + line.skip(i + 2));
            }
        }
    }
}

proof fn lemma_index(s: Seq<char>, c: char, i: int)
    requires
        0 <= i <= s.len(),
    ensures
        i <= text::index_from(s, c, i) <= s.len(),
        text::index_from(s, c, i) < s.len() ==> s[text::index_from(s, c, i)] == c,
    decreases s.len() - i,
{
    if i < s.len() && s[i] != c {
        lemma_index(s, c, i + 1);
    }
}

proof fn lemma_regex_end(line: Seq<char>, i: int)
    requires
        0 <= i,
    ensures
        rule::regex_end(line, i) matches Some(k) ==> i <= k < line.len() && line[k] == '/' && (k
            + 1 == line.len() || line[k + 1] == '$'),
    decreases line.len() + 1 - i,
{
    if i < line.len() {
        if line[i] == '\\' {
            lemma_regex_end(line, i + 2);
        } else if !(line[i] == '/' && (i + 1 == line.len() || line[i + 1] == '$')) {
            lemma_regex_end(line, i + 1);
        }
    }
}

/// A comment and an empty line change nothing.
pub proof fn law_comments_say_nothing(state: ParseView, line: Seq<char>, origin: RuleOrigin)
    requires
        rule::is_comment(line) || line.len() == 0,
    ensures
        state.with_line(line, origin) == Ok::<ParseView, Seq<char>>(state),
{
    if !rule::is_comment(line) {
        assert(line =~= Seq::<char>::empty());
    }
    assert(text::trim(Seq::<char>::empty(), CharClass::White).len() == 0);
}

/// A rule that blocks a domain which is allowed changes nothing.
pub proof fn law_allowed_domain_is_not_blocked(
    rules: SetsView,
    domain: Seq<char>,
    include_subdomains: bool,
)
    requires
        rules.allows(domain),
    ensures
        rules.with_domain_rule(RuleDisposition::Block, domain, include_subdomains) == rules,
{
}

/// Whether nothing that allowed a domain is gone in `after`, and nothing
/// under `d` is blocked that was not.
spec fn stays_allowed(before: SetsView, after: SetsView, d: Seq<char>) -> bool {
    &&& before.allow_exact.subset_of(after.allow_exact)
    &&& before.allow_subdomains.subset_of(after.allow_subdomains)
    &&& forall|x: Seq<char>|
        domain::under(x, d) && #[trigger] after.block_exact.contains(x)
            ==> before.block_exact.contains(x)
    &&& forall|x: Seq<char>|
        domain::under(x, d) && #[trigger] after.block_subdomains.contains(x)
            ==> before.block_subdomains.contains(x)
}

proof fn lemma_domain_rule_stays_allowed(
    rules: SetsView,
    disposition: RuleDisposition,
    domain: Seq<char>,
    include_subdomains: bool,
    d: Seq<char>,
)
    requires
        rules.allow_subdomains.contains(d),
    ensures
        stays_allowed(
            rules,
            rules.with_domain_rule(disposition, domain, include_subdomains),
            d,
        ),
{
    if domain::under(domain, d) {
        assert(rules.allows(domain));
    }
}

proof fn lemma_hosts_stay_allowed(
    rules: SetsView,
    origin: RuleOrigin,
    addr: IpAddr,
    domains: Seq<Seq<char>>,
    d: Seq<char>,
)
    requires
        rules.allow_subdomains.contains(d),
    ensures
        stays_allowed(rules, rules.with_hosts(origin, addr, domains), d),
    decreases domains.len(),
{
    if domains.len() > 0 {
        lemma_hosts_stay_allowed(rules, origin, addr, domains.drop_last(), d);
        let before = rules.with_hosts(origin, addr, domains.drop_last());
        lemma_domain_rule_stays_allowed(
            before,
            RuleDisposition::Block,
            domains.last(),
            false,
            d,
        );
    }
}

proof fn lemma_rule_stays_allowed(
    state: ParseView,
    line: Seq<char>,
    origin: RuleOrigin,
    d: Seq<char>,
)
    requires
        state.rules.allow_subdomains.contains(d),
        state.with_rule(line, origin) is Ok,
    ensures
        stays_allowed(state.rules, state.with_rule(line, origin)->Ok_0.rules, d),
{
    if line.len() == 0 {
    } else if rule::simple_rule(line) is Some {
        let (disposition, domain, include_subdomains) = rule::simple_rule(line).unwrap();
        lemma_domain_rule_stays_allowed(state.rules, disposition, domain, include_subdomains, d);
    } else if rule::hosts_rule(line) is Some {
        let (addr, domains) = rule::hosts_rule(line).unwrap();
        lemma_hosts_stay_allowed(state.rules, origin, addr, domains, d);
    } else if domain::normal_domain(line) is Some {
        lemma_domain_rule_stays_allowed(
            state.rules,
            RuleDisposition::Block,
            domain::normal_domain(line).unwrap(),
            false,
            d,
        );
    }
}

/// Once a domain and its subdomains are allowed, whatever lines follow, they
/// stay allowed and no rule on a domain of them that blocks is added.
pub proof fn law_allowlist_prevents_later_blocks(
    state: ParseView,
    lines: Seq<Seq<char>>,
    origin: RuleOrigin,
    d: Seq<char>,
)
    requires
        state.rules.allow_subdomains.contains(d),
    ensures
        ({
            let after = state.with_lines(lines, origin).0.rules;
            &&& after.allow_subdomains.contains(d)
            &&& forall|x: Seq<char>|
                domain::under(x, d) && #[trigger] after.block_exact.contains(x)
                    ==> state.rules.block_exact.contains(x)
            &&& forall|x: Seq<char>|
                domain::under(x, d) && #[trigger] after.block_subdomains.contains(x)
                    ==> state.rules.block_subdomains.contains(x)
        }),
    decreases lines.len(),
{
    if lines.len() > 0 {
        law_allowlist_prevents_later_blocks(state, lines.drop_last(), origin, d);
        let (before, err) = state.with_lines(lines.drop_last(), origin);
        if err is None && before.with_line(lines.last(), origin) is Ok {
            lemma_rule_stays_allowed(before, rule_sets::rule_line(lines.last()), origin, d);
        }
    }
}

/// A rule of the form `@@||domain^` allows the domain and its subdomains, and
/// takes back a rule that blocks the domain.
pub proof fn law_allow_rule(state: ParseView, line: Seq<char>, origin: RuleOrigin, d: Seq<char>)
    requires
        rule::simple_rule(rule_sets::rule_line(line)) == Some((RuleDisposition::Allow, d, true)),
    ensures
        state.with_line(line, origin) matches Ok(after) && after.rules.allow_subdomains.contains(d)
            && !after.rules.block_exact.contains(d) && !after.rules.block_subdomains.contains(d)
            && forall|x: Seq<char>| domain::under(x, d) ==> #[trigger] after.rules.allows(x),
{
    reveal_strlit("||");
    reveal_strlit("@@");
    let said = rule_sets::rule_line(line);
    assert(rule::disposition_of(said).1.len() >= 2);
    assert(said.len() > 0);
    let after = state.with_line(line, origin)->Ok_0;
    assert forall|x: Seq<char>| domain::under(x, d) implies #[trigger] after.rules.allows(x) by {
        assert(after.rules.allow_subdomains.contains(d));
    }
}

/// A rule of the form `||domain^` blocks the domain and its subdomains, unless
/// the domain is allowed.
pub proof fn law_block_rule(state: ParseView, line: Seq<char>, origin: RuleOrigin, d: Seq<char>)
    requires
        rule::simple_rule(rule_sets::rule_line(line)) == Some((RuleDisposition::Block, d, true)),
        !state.rules.allows(d),
    ensures
        state.with_line(line, origin) matches Ok(after) && (forall|x: Seq<char>|
            domain::under(x, d) ==> #[trigger] after.rules.blocks(x)),
{
    reveal_strlit("||");
    reveal_strlit("@@");
    let said = rule_sets::rule_line(line);
    assert(rule::disposition_of(said).1.len() >= 2);
    assert(said.len() > 0);
    let after = state.with_line(line, origin)->Ok_0;
    assert forall|x: Seq<char>| domain::under(x, d) implies #[trigger] after.rules.blocks(x) by {
        assert(after.rules.block_subdomains.contains(d));
    }
}

/// A line that is a domain blocks the domain, unless it is allowed, and
/// nothing else.
pub proof fn law_plain_domain_line(
    state: ParseView,
    line: Seq<char>,
    origin: RuleOrigin,
    d: Seq<char>,
)
    requires
        rule::simple_rule(rule_sets::rule_line(line)) is None,
        rule::hosts_rule(rule_sets::rule_line(line)) is None,
        domain::normal_domain(rule_sets::rule_line(line)) == Some(d),
        !state.rules.allows(d),
    ensures
        state.with_line(line, origin) == Ok::<ParseView, Seq<char>>(
            ParseView {
                rules: SetsView {
                    block_exact: state.rules.block_exact.insert(d),
                    ..state.rules
                },
                ..state
            },
        ),
{
    reveal_strlit("*.");
    let said = rule_sets::rule_line(line);
    if said.len() == 0 {
        assert(said =~= Seq::<char>::empty());
        assert(text::drop_prefixes(said, "*."@) == said);
        assert(domain::domain_candidate(said).len() == 0);
    }
}

proof fn lemma_allow_line_wins(
    state: ParseView,
    lines: Seq<Seq<char>>,
    origin: RuleOrigin,
    i: int,
    d: Seq<char>,
)
    requires
        0 <= i < lines.len(),
        rule::simple_rule(rule_sets::rule_line(lines[i])) == Some(
            (RuleDisposition::Allow, d, true),
        ),
        state.with_lines(lines, origin).1 is None,
    ensures
        ({
            let after = state.with_lines(lines, origin).0.rules;
            &&& after.allow_subdomains.contains(d)
            &&& !after.block_exact.contains(d)
            &&& !after.block_subdomains.contains(d)
        }),
    decreases lines.len(),
{
    let (before, err) = state.with_lines(lines.drop_last(), origin);
    assert(err is None);
    if i == lines.len() - 1 {
        law_allow_rule(before, lines.last(), origin, d);
    } else {
        lemma_allow_line_wins(state, lines.drop_last(), origin, i, d);
        lemma_rule_stays_allowed(before, rule_sets::rule_line(lines.last()), origin, d);
    }
}

/// A local rule of the form `@@||domain^` goes before all that the remote
/// lists and the other local rules say of the domain, wherever it stands: the
/// domain is allowed and not blocked.
pub proof fn law_local_allow_rule_wins(
    bodies: Seq<Seq<char>>,
    user_rules: Seq<Seq<char>>,
    i: int,
    d: Seq<char>,
)
    requires
        0 <= i < user_rules.len(),
        rule::simple_rule(rule_sets::rule_line(user_rules[i])) == Some(
            (RuleDisposition::Allow, d, true),
        ),
    ensures
        compiled::parsed(bodies, user_rules) matches Ok(state)
            ==> state.rules.allow_subdomains.contains(d) && !state.rules.block_exact.contains(d)
            && !state.rules.block_subdomains.contains(d),
{
    let start = ParseView { rules: rule_sets::no_rules(), disabled: Set::empty() };
    let (remote, err) = compiled::with_bodies(start, bodies);
    if compiled::parsed(bodies, user_rules) is Ok {
        lemma_allow_line_wins(remote, user_rules, RuleOrigin::UserRule, i, d);
    }
}

/// What a name of the sets of domains is: not empty, of the characters of
/// domains, without capital letters and without a dot at its end.
pub open spec fn is_normal(d: Seq<char>) -> bool {
    &&& d.len() > 0
    &&& d.last() != '.'
    &&& forall|i: int|
        0 <= i < d.len() ==> domain::is_domain_char(#[trigger] d[i]) && !text::is_upper(d[i])
}

pub open spec fn all_normal(s: Set<Seq<char>>) -> bool {
    forall|d: Seq<char>| #[trigger] s.contains(d) ==> is_normal(d)
}

/// All domains are normal, and no override names an address twice.
pub open spec fn normal_overrides(overrides: Map<Seq<char>, OverrideView>) -> bool {
    forall|d: Seq<char>| #[trigger]
        overrides.contains_key(d) ==> is_normal(d) && overrides[d].distinct()
}

impl SetsView {
    /// What lines keep of the rules. A domain is not both blocked and
    /// allowed; one whose subdomains are blocked or allowed is so itself; all
    /// domains are normal; and no override names an address twice.
    pub open spec fn consistent(self) -> bool {
        &&& self.block_exact.disjoint(self.allow_exact)
        &&& self.block_subdomains.subset_of(self.block_exact)
        &&& self.allow_subdomains.subset_of(self.allow_exact)
        &&& all_normal(self.block_exact)
        &&& all_normal(self.allow_exact)
        &&& normal_overrides(self.overrides)
    }
}

proof fn lemma_lower_has_no_capital(c: char)
    ensures
        !text::is_upper(text::lower_char(c)),
{
}

proof fn lemma_normal_domain(s: Seq<char>)
    ensures
        domain::normal_domain(s) matches Some(d) ==> is_normal(d),
{
    if domain::normal_domain(s) is Some {
        let d = domain::normal_domain(s).unwrap();
        let inner = text::trim(s, CharClass::White);
        let trimmed = text::trim(inner, CharClass::Is('.'));
        let bare = text::drop_prefixes(trimmed, "*."@);
        assert(d == text::lower(bare));
        assert forall|i: int| 0 <= i < d.len() implies domain::is_domain_char(#[trigger] d[i])
            && !text::is_upper(d[i]) by {
            assert(d[i] == text::lower_char(bare[i]));
            lemma_lower_has_no_capital(bare[i]);
        }
        lemma_trim_back_last(text::trim_front(inner, CharClass::Is('.')), CharClass::Is('.'));
        lemma_drop_prefixes_last(trimmed, "*."@);
        assert(d.last() == text::lower_char(bare.last()));
    }
}

proof fn lemma_normal_domains(list: Seq<Seq<char>>)
    ensures
        forall|i: int|
            0 <= i < rule::normal_domains(list).len() ==> is_normal(
                #[trigger] rule::normal_domains(list)[i],
            ),
    decreases list.len(),
{
    if list.len() > 0 {
        lemma_normal_domains(list.drop_last());
        lemma_normal_domain(list.last());
        let before = rule::normal_domains(list.drop_last());
        assert forall|i: int| 0 <= i < rule::normal_domains(list).len() implies is_normal(
            #[trigger] rule::normal_domains(list)[i],
        ) by {
            if i < before.len() {
                assert(rule::normal_domains(list)[i] == before[i]);
            }
        }
    }
}

proof fn lemma_domain_rule_consistent(
    rules: SetsView,
    disposition: RuleDisposition,
    domain: Seq<char>,
    include_subdomains: bool,
)
    requires
        rules.consistent(),
        is_normal(domain),
    ensures
        rules.with_domain_rule(disposition, domain, include_subdomains).consistent(),
{
}

proof fn lemma_override_consistent(rules: SetsView, addr: IpAddr, domain: Seq<char>)
    requires
        rules.consistent(),
        is_normal(domain),
    ensures
        (SetsView {
            overrides: overrides::with_override(rules.overrides, addr, domain),
            ..rules
        }).consistent(),
{
}

proof fn lemma_hosts_consistent(
    rules: SetsView,
    origin: RuleOrigin,
    addr: IpAddr,
    domains: Seq<Seq<char>>,
)
    requires
        rules.consistent(),
        forall|i: int| 0 <= i < domains.len() ==> is_normal(#[trigger] domains[i]),
    ensures
        rules.with_hosts(origin, addr, domains).consistent(),
    decreases domains.len(),
{
    if domains.len() > 0 {
        lemma_hosts_consistent(rules, origin, addr, domains.drop_last());
        let before = rules.with_hosts(origin, addr, domains.drop_last());
        let last = domains.last();
        assert(is_normal(domains[domains.len() - 1]));
        lemma_domain_rule_consistent(before, RuleDisposition::Block, last, false);
        lemma_override_consistent(before, addr, last);
    }
}

/// A line keeps the rules consistent.
pub proof fn law_line_keeps_rules_consistent(
    state: ParseView,
    line: Seq<char>,
    origin: RuleOrigin,
)
    requires
        state.rules.consistent(),
    ensures
        state.with_line(line, origin) matches Ok(after) ==> after.rules.consistent(),
{
    let said = rule_sets::rule_line(line);
    if said.len() == 0 {
    } else if rule::simple_rule(said) is Some {
        let (disposition, domain, include_subdomains) = rule::simple_rule(said).unwrap();
        let rest = rule::disposition_of(said).1;
        lemma_normal_domain(
            text::trim(
                text::trim_back(
                    text::trim_back(rest.skip(2), CharClass::Is('^')),
                    CharClass::Is('|'),
                ),
                CharClass::White,
            ),
        );
        lemma_domain_rule_consistent(state.rules, disposition, domain, include_subdomains);
    } else if rule::hosts_rule(said) is Some {
        let (addr, domains) = rule::hosts_rule(said).unwrap();
        lemma_normal_domains(text::words(said).skip(1));
        lemma_hosts_consistent(state.rules, origin, addr, domains);
    } else if domain::normal_domain(said) is Some {
        lemma_normal_domain(said);
        lemma_domain_rule_consistent(
            state.rules,
            RuleDisposition::Block,
            domain::normal_domain(said).unwrap(),
            false,
        );
    }
}

proof fn lemma_lines_keep_rules_consistent(
    state: ParseView,
    lines: Seq<Seq<char>>,
    origin: RuleOrigin,
)
    requires
        state.rules.consistent(),
    ensures
        state.with_lines(lines, origin).0.rules.consistent(),
    decreases lines.len(),
{
    if lines.len() > 0 {
        lemma_lines_keep_rules_consistent(state, lines.drop_last(), origin);
        let (before, err) = state.with_lines(lines.drop_last(), origin);
        if err is None {
            law_line_keeps_rules_consistent(before, lines.last(), origin);
        }
    }
}

proof fn lemma_bodies_keep_rules_consistent(state: ParseView, bodies: Seq<Seq<char>>)
    requires
        state.rules.consistent(),
    ensures
        compiled::with_bodies(state, bodies).0.rules.consistent(),
    decreases bodies.len(),
{
    if bodies.len() > 0 {
        lemma_bodies_keep_rules_consistent(state, bodies.drop_last());
        let (before, err) = compiled::with_bodies(state, bodies.drop_last());
        if err is None {
            lemma_lines_keep_rules_consistent(
                before,
                text::lines(bodies.last()),
                RuleOrigin::RemoteFilter,
            );
        }
    }
}

/// The rules of all lists together are consistent.
pub proof fn law_parsed_rules_are_consistent(bodies: Seq<Seq<char>>, user_rules: Seq<Seq<char>>)
    ensures
        compiled::parsed(bodies, user_rules) matches Ok(state) ==> state.rules.consistent(),
{
    let start = ParseView { rules: rule_sets::no_rules(), disabled: Set::empty() };
    assert(start.rules.consistent());
    lemma_bodies_keep_rules_consistent(start, bodies);
    let (remote, err) = compiled::with_bodies(start, bodies);
    if err is None {
        lemma_lines_keep_rules_consistent(remote, user_rules, RuleOrigin::UserRule);
    }
}

/// In compiled rules no domain is both blocked and allowed.
pub proof fn law_compiled_lists_are_disjoint(config: AdblockView, bodies: Seq<Seq<char>>)
    ensures
        compiled::compiled(config, bodies) matches Ok(c) ==> c.rules.block_exact.disjoint(
            c.rules.allow_exact,
        ),
{
    law_parsed_rules_are_consistent(bodies, config.user_rules);
}

/// The domains of compiled overrides are normal, and none names an address
/// twice.
pub proof fn law_compiled_overrides_are_normal(config: AdblockView, bodies: Seq<Seq<char>>)
    ensures
        compiled::compiled(config, bodies) matches Ok(c) ==> normal_overrides(c.rules.overrides),
{
    law_parsed_rules_are_consistent(bodies, config.user_rules);
}

/// Whether a line says a rule with a pattern and `$badfilter` at its end.
pub open spec fn is_badfilter_line(line: Seq<char>) -> bool {
    let said = rule_sets::rule_line(line);
    &&& ("$badfilter"@).is_suffix_of(said)
    &&& rule::simple_rule(said) is None
    &&& rule::hosts_rule(said) is None
    &&& domain::normal_domain(said) is None
}

proof fn lemma_line_disables(state: ParseView, line: Seq<char>, origin: RuleOrigin)
    ensures
        state.with_line(line, origin) matches Ok(after) ==> state.disabled.subset_of(
            after.disabled,
        ) && (is_badfilter_line(line) ==> after.disabled.contains(
            rule_sets::disabled_text(rule_sets::rule_line(line)),
        )),
{
    reveal_strlit("$badfilter");
}

/// A line with `$badfilter` disables its rule wherever it stands among lines
/// that are all rules.
pub proof fn law_badfilter_works_anywhere(
    state: ParseView,
    lines: Seq<Seq<char>>,
    origin: RuleOrigin,
    i: int,
)
    requires
        0 <= i < lines.len(),
        is_badfilter_line(lines[i]),
        state.with_lines(lines, origin).1 is None,
    ensures
        state.with_lines(lines, origin).0.disabled.contains(
            rule_sets::disabled_text(rule_sets::rule_line(lines[i])),
        ),
    decreases lines.len(),
{
    let (before, err) = state.with_lines(lines.drop_last(), origin);
    assert(err is None);
    lemma_line_disables(before, lines.last(), origin);
    if i < lines.len() - 1 {
        law_badfilter_works_anywhere(state, lines.drop_last(), origin, i);
    }
}

/// A rule and `$badfilter` behind it, or a comma and that, disable the rule.
pub proof fn law_badfilter_names_its_rule(t: Seq<char>)
    requires
        !("$badfilter"@).is_suffix_of(t),
        t.len() > 0,
        t.last() != ',',
    ensures
        rule_sets::disabled_text(t + "$badfilter"@) == t,
        rule_sets::disabled_text(t + ","@ + "$badfilter"@) == t,
{
    reveal_strlit("$badfilter");
    reveal_strlit(",");
    let mark = "$badfilter"@;
    let comma = t + ","@;
    assert((t + mark).take(t.len() as int) =~= t);
    assert(mark.is_suffix_of(t + mark));
    assert(text::drop_suffixes(t + mark, mark) == text::drop_suffixes(t, mark));
    assert((comma + mark).take(comma.len() as int) =~= comma);
    assert(mark.is_suffix_of(comma + mark));
    if mark.is_suffix_of(comma) {
        assert(comma.subrange(comma.len() - mark.len(), comma.len() as int).last() == ',');
    }
    assert(text::drop_suffixes(comma + mark, mark) == text::drop_suffixes(comma, mark));
    assert(comma.drop_last() =~= t);
}

/// Whether the rules hold nothing of the rule with the text `t`: not its
/// domain, where it is of the form `||domain^` or `@@||domain^`, and no rule
/// with a pattern that has this text.
pub open spec fn is_gone(rules: SetsView, t: Seq<char>) -> bool {
    &&& rule::simple_rule(t) matches Some((disposition, d, _)) ==> match disposition {
        RuleDisposition::Block => !rules.block_exact.contains(d)
            && !rules.block_subdomains.contains(d),
        RuleDisposition::Allow => !rules.allow_exact.contains(d)
            && !rules.allow_subdomains.contains(d),
    }
    &&& forall|i: int|
        0 <= i < rules.block_rules.len() ==> (#[trigger] rules.block_rules[i]).raw_text != t
    &&& forall|i: int|
        0 <= i < rules.allow_rules.len() ==> (#[trigger] rules.allow_rules[i]).raw_text != t
}

/// Of the rules that are left, none is disabled.
pub proof fn law_disabled_rules_are_gone(rules: SetsView, disabled: Set<Seq<char>>, t: Seq<char>)
    requires
        disabled.contains(t),
    ensures
        is_gone(rules.without_disabled(disabled), t),
{
    let enabled = |r: RuleView| !disabled.contains(r.raw_text);
    assert forall|i: int| 0 <= i < rules.block_rules.filter(enabled).len() implies (
    #[trigger] rules.block_rules.filter(enabled)[i]).raw_text != t by {
        rules.block_rules.lemma_filter_pred(enabled, i);
    }
    assert forall|i: int| 0 <= i < rules.allow_rules.filter(enabled).len() implies (
    #[trigger] rules.allow_rules.filter(enabled)[i]).raw_text != t by {
        rules.allow_rules.lemma_filter_pred(enabled, i);
    }
    if rule::simple_rule(t) is Some {
        let (disposition, d, sub) = rule::simple_rule(t).unwrap();
        assert(sub);
        assert(rule_sets::disables_domain(t, disposition, d));
        assert(rule_sets::disables_subdomains(t, disposition, d));
    }
}

proof fn lemma_lines_keep_disabled(state: ParseView, lines: Seq<Seq<char>>, origin: RuleOrigin)
    ensures
        state.disabled.subset_of(state.with_lines(lines, origin).0.disabled),
    decreases lines.len(),
{
    if lines.len() > 0 {
        lemma_lines_keep_disabled(state, lines.drop_last(), origin);
        let (before, err) = state.with_lines(lines.drop_last(), origin);
        lemma_line_disables(before, lines.last(), origin);
    }
}

proof fn lemma_list_disables(state: ParseView, bodies: Seq<Seq<char>>, k: int, i: int)
    requires
        0 <= k < bodies.len(),
        0 <= i < text::lines(bodies[k]).len(),
        is_badfilter_line(text::lines(bodies[k])[i]),
        compiled::with_bodies(state, bodies).1 is None,
    ensures
        compiled::with_bodies(state, bodies).0.disabled.contains(
            rule_sets::disabled_text(rule_sets::rule_line(text::lines(bodies[k])[i])),
        ),
    decreases bodies.len(),
{
    let (before, err) = compiled::with_bodies(state, bodies.drop_last());
    let lines = text::lines(bodies.last());
    assert(err is None);
    if k == bodies.len() - 1 {
        law_badfilter_works_anywhere(before, lines, RuleOrigin::RemoteFilter, i);
    } else {
        lemma_list_disables(state, bodies.drop_last(), k, i);
        lemma_lines_keep_disabled(before, lines, RuleOrigin::RemoteFilter);
    }
}

/// A rule that a line with `$badfilter` disables is not among the compiled
/// ones, in whatever list the line stands.
pub proof fn law_badfilter_of_a_list(
    config: AdblockView,
    bodies: Seq<Seq<char>>,
    k: int,
    i: int,
)
    requires
        0 <= k < bodies.len(),
        0 <= i < text::lines(bodies[k]).len(),
        is_badfilter_line(text::lines(bodies[k])[i]),
    ensures
        compiled::compiled(config, bodies) matches Ok(c) ==> is_gone(
            c.rules,
            rule_sets::disabled_text(rule_sets::rule_line(text::lines(bodies[k])[i])),
        ),
{
    if compiled::compiled(config, bodies) is Ok {
        let start = ParseView { rules: rule_sets::no_rules(), disabled: Set::empty() };
        let remote = compiled::with_bodies(start, bodies).0;
        let state = compiled::parsed(bodies, config.user_rules)->Ok_0;
        lemma_list_disables(start, bodies, k, i);
        lemma_lines_keep_disabled(remote, config.user_rules, RuleOrigin::UserRule);
        law_disabled_rules_are_gone(
            state.rules,
            state.disabled,
            rule_sets::disabled_text(rule_sets::rule_line(text::lines(bodies[k])[i])),
        );
    }
}

/// A rule that a local line with `$badfilter` disables is not among the
/// compiled ones, whether it stands in a remote list or among the local rules.
pub proof fn law_badfilter_among_local_rules(
    config: AdblockView,
    bodies: Seq<Seq<char>>,
    i: int,
)
    requires
        0 <= i < config.user_rules.len(),
        is_badfilter_line(config.user_rules[i]),
    ensures
        compiled::compiled(config, bodies) matches Ok(c) ==> is_gone(
            c.rules,
            rule_sets::disabled_text(rule_sets::rule_line(config.user_rules[i])),
        ),
{
    if compiled::compiled(config, bodies) is Ok {
        let start = ParseView { rules: rule_sets::no_rules(), disabled: Set::empty() };
        let remote = compiled::with_bodies(start, bodies).0;
        let state = compiled::parsed(bodies, config.user_rules)->Ok_0;
        law_badfilter_works_anywhere(remote, config.user_rules, RuleOrigin::UserRule, i);
        law_disabled_rules_are_gone(
            state.rules,
            state.disabled,
            rule_sets::disabled_text(rule_sets::rule_line(config.user_rules[i])),
        );
    }
}

/// Where nothing is disabled, all rules are left.
pub proof fn law_nothing_disabled(rules: SetsView)
    ensures
        rules.without_disabled(Set::empty()) == rules,
{
    let left = rules.without_disabled(Set::empty());
    let enabled = |r: RuleView| !Set::<Seq<char>>::empty().contains(r.raw_text);
    lemma_filter_all(rules.block_rules, enabled);
    lemma_filter_all(rules.allow_rules, enabled);
    assert(left =~= rules);
}

proof fn lemma_filter_all(rules: Seq<RuleView>, enabled: spec_fn(RuleView) -> bool)
    requires
        forall|r: RuleView| #[trigger] enabled(r),
    ensures
        rules.filter(enabled) == rules,
    decreases rules.len(),
{
    reveal(Seq::filter);
    if rules.len() > 0 {
        lemma_filter_all(rules.drop_last(), enabled);
        assert(rules.drop_last().push(rules.last()) =~= rules);
    }
}

/// A line of a hosts file in a remote list blocks its domains, but for those
/// that are allowed.
pub proof fn law_remote_hosts_block(
    rules: SetsView,
    addr: IpAddr,
    domains: Seq<Seq<char>>,
    i: int,
)
    requires
        0 <= i < domains.len(),
    ensures
        ({
            let after = rules.with_hosts(RuleOrigin::RemoteFilter, addr, domains);
            &&& after.block_exact.contains(domains[i]) || after.allows(domains[i])
            &&& after.overrides == rules.overrides
            &&& after.allow_exact == rules.allow_exact
            &&& after.allow_subdomains == rules.allow_subdomains
        }),
    decreases domains.len(),
{
    lemma_remote_hosts_keep(rules, addr, domains);
    lemma_remote_hosts_keep(rules, addr, domains.drop_last());
    let before = rules.with_hosts(RuleOrigin::RemoteFilter, addr, domains.drop_last());
    let after = rules.with_hosts(RuleOrigin::RemoteFilter, addr, domains);
    if i < domains.len() - 1 {
        law_remote_hosts_block(rules, addr, domains.drop_last(), i);
        assert(before.block_exact.subset_of(after.block_exact));
        assert(before.allows(domains[i]) ==> after.allows(domains[i]));
    }
}

proof fn lemma_remote_hosts_keep(rules: SetsView, addr: IpAddr, domains: Seq<Seq<char>>)
    ensures
        ({
            let after = rules.with_hosts(RuleOrigin::RemoteFilter, addr, domains);
            &&& after.overrides == rules.overrides
            &&& after.allow_exact == rules.allow_exact
            &&& after.allow_subdomains == rules.allow_subdomains
        }),
    decreases domains.len(),
{
    if domains.len() > 0 {
        lemma_remote_hosts_keep(rules, addr, domains.drop_last());
    }
}

/// Whether a rule names an address.
pub open spec fn names_address(rule: OverrideView, addr: IpAddr) -> bool {
    match addr {
        IpAddr::V4(a) => rule.ipv4.contains(a),
        IpAddr::V6(a) => rule.ipv6.contains(a),
    }
}

proof fn lemma_with_ip(rule: OverrideView, addr: IpAddr, other: IpAddr)
    ensures
        names_address(rule.with_ip(addr), addr),
        names_address(rule, other) ==> names_address(rule.with_ip(addr), other),
{
    match addr {
        IpAddr::V4(a) => {
            vstd::seq_lib::lemma_seq_contains_after_push(rule.ipv4, a, a);
            if let IpAddr::V4(b) = other {
                vstd::seq_lib::lemma_seq_contains_after_push(rule.ipv4, a, b);
            }
        },
        IpAddr::V6(a) => {
            vstd::seq_lib::lemma_seq_contains_after_push(rule.ipv6, a, a);
            if let IpAddr::V6(b) = other {
                vstd::seq_lib::lemma_seq_contains_after_push(rule.ipv6, a, b);
            }
        },
    }
}

/// A line of a hosts file among the local rules gives each of its domains an
/// override with the address, and blocks and allows nothing.
pub proof fn law_local_hosts_override(
    rules: SetsView,
    addr: IpAddr,
    domains: Seq<Seq<char>>,
    i: int,
)
    requires
        0 <= i < domains.len(),
    ensures
        ({
            let after = rules.with_hosts(RuleOrigin::UserRule, addr, domains);
            &&& after.overrides.contains_key(domains[i])
            &&& names_address(after.overrides[domains[i]], addr)
            &&& after == (SetsView { overrides: after.overrides, ..rules })
        }),
    decreases domains.len(),
{
    let before = rules.with_hosts(RuleOrigin::UserRule, addr, domains.drop_last());
    let last = domains.last();
    let had = if before.overrides.contains_key(last) {
        before.overrides[last]
    } else {
        overrides::no_addresses()
    };
    lemma_with_ip(had, addr, addr);
    if domains.len() > 1 {
        law_local_hosts_override(rules, addr, domains.drop_last(), 0);
        if i < domains.len() - 1 {
            law_local_hosts_override(rules, addr, domains.drop_last(), i);
        }
    } else {
        assert(domains.drop_last() =~= Seq::<Seq<char>>::empty());
    }
}

/// What stands between the dots of a domain, in small letters, as labels.
spec fn small_labels(s: Seq<char>) -> Seq<Seq<u8>> {
    name::lower_labels(name::domain_labels(s))
}

/// How the labels of a text come from those of the text without its last
/// character.
proof fn lemma_small_labels(s: Seq<char>)
    ensures
        small_labels(s).len() > 0,
        s.len() == 0 ==> small_labels(s) == seq![Seq::<u8>::empty()],
        s.len() > 0 && s.last() == '.' ==> small_labels(s) == small_labels(s.drop_last()).push(
            Seq::<u8>::empty(),
        ),
        s.len() > 0 && s.last() != '.' ==> small_labels(s) == small_labels(
            s.drop_last(),
        ).drop_last().push(
            small_labels(s.drop_last()).last().push(name::lower_byte(s.last() as u8)),
        ),
{
    let dot = CharClass::Is('.');
    text::lemma_split_nonempty(s, dot);
    if s.len() == 0 {
        assert(small_labels(s) =~~= seq![Seq::<u8>::empty()]);
    } else {
        text::lemma_split_nonempty(s.drop_last(), dot);
        if s.last() == '.' {
            assert(small_labels(s) =~~= small_labels(s.drop_last()).push(Seq::<u8>::empty()));
        } else {
            assert(small_labels(s) =~~= small_labels(s.drop_last()).drop_last().push(
                small_labels(s.drop_last()).last().push(name::lower_byte(s.last() as u8)),
            ));
        }
    }
}

/// A domain without capital letters is known by its labels.
proof fn lemma_small_labels_differ(a: Seq<char>, b: Seq<char>)
    requires
        small_labels(a) == small_labels(b),
        forall|i: int|
            0 <= i < a.len() ==> domain::is_domain_char(#[trigger] a[i]) && !text::is_upper(a[i]),
        forall|i: int|
            0 <= i < b.len() ==> domain::is_domain_char(#[trigger] b[i]) && !text::is_upper(b[i]),
    ensures
        a == b,
    decreases a.len(),
{
    lemma_small_labels(a);
    lemma_small_labels(b);
    if a.len() > 0 {
        lemma_small_labels(a.drop_last());
        assert(domain::is_domain_char(a[a.len() - 1]));
    }
    if b.len() > 0 {
        lemma_small_labels(b.drop_last());
        assert(domain::is_domain_char(b[b.len() - 1]));
    }
    if a.len() == 0 || b.len() == 0 {
        if a.len() > 0 {
            assert(small_labels(a).len() == 1);
            assert(small_labels(a).last().len() == 0);
        }
        if b.len() > 0 {
            assert(small_labels(b).len() == 1);
            assert(small_labels(b).last().len() == 0);
        }
        assert(a =~= b);
    } else {
        let x = small_labels(a.drop_last());
        let y = small_labels(b.drop_last());
        assert((a.last() == '.') == (small_labels(a).last().len() == 0));
        assert((b.last() == '.') == (small_labels(b).last().len() == 0));
        if a.last() == '.' {
            assert(x =~= small_labels(a).drop_last());
            assert(y =~= small_labels(b).drop_last());
        } else {
            assert(x.last() =~= small_labels(a).last().drop_last());
            assert(y.last() =~= small_labels(b).last().drop_last());
            assert(x.drop_last() =~= small_labels(a).drop_last());
            assert(y.drop_last() =~= small_labels(b).drop_last());
            assert(x =~= x.drop_last().push(x.last()));
            assert(y =~= y.drop_last().push(y.last()));
            assert(small_labels(a).last().last() == name::lower_byte(a.last() as u8));
            assert(small_labels(b).last().last() == name::lower_byte(b.last() as u8));
        }
        assert(a.last() == b.last());
        lemma_small_labels_differ(a.drop_last(), b.drop_last());
        assert(a =~= a.drop_last().push(a.last()));
        assert(b =~= b.drop_last().push(b.last()));
    }
}

/// A query for a domain that has an override, in letters of either case, is
/// answered with the addresses of it, whatever else is said of the domain.
pub proof fn law_override_is_answered(
    named: Map<Seq<Seq<u8>>, OverrideView>,
    compiled: CompiledView,
    forward: ForwardConfig,
    origin: NameView,
    query: QueryView,
    d: Seq<char>,
)
    requires
        authority::names_overrides(named, compiled.rules.overrides),
        normal_overrides(compiled.rules.overrides),
        compiled.rules.overrides.contains_key(d),
        query.fqdn,
        name::lower_labels(query.labels) == name::lower_labels(name::domain_labels(d)),
    ensures
        chain::answerer(chain::chain_of(named, compiled, forward, origin), query, 0)
            == AnswererView::Link(
            LookupView::Answer(
                authority::override_answer(compiled.rules.overrides[d], query.rtype),
            ),
        ),
{
    chain::law_precedence(named, compiled, forward, origin, query);
    let labels = name::lower_labels(query.labels);
    assert(is_normal(d) && name::dotted_text(d));
    assert(named.contains_key(labels));
    let other = choose|other: Seq<char>| #[trigger]
        compiled.rules.overrides.contains_key(other) && authority::override_labels(other)
            == Some(labels) && compiled.rules.overrides[other] == named[labels];
    assert(is_normal(other) && name::dotted_text(other));
    lemma_small_labels_differ(other, d);
}

/// How a blocked query is answered. In the one mode it is the word that there
/// is no such domain; in the other the configured addresses, or those of no
/// host, to a query for addresses, and no record to any other.
pub proof fn law_blocking_modes(compiled: CompiledView, origin: NameView, rtype: u16)
    ensures
        ({
            let response = chain::block_list_of(compiled, origin).response(rtype);
            let a = match compiled.blocking_ipv4 {
                Some(addr) => addr,
                None => Ipv4Addr { bits: 0 },
            };
            let aaaa = match compiled.blocking_ipv6 {
                Some(addr) => addr,
                None => Ipv6Addr { bits: 0 },
            };
            let a_set = AnswerView::A(compiled.block_ttl, seq![a]);
            let aaaa_set = AnswerView::Aaaa(compiled.block_ttl, seq![aaaa]);
            match compiled.blocking_mode {
                BlockingMode::Nxdomain => response == LookupView::NxDomain,
                BlockingMode::Default => response == LookupView::Answer(
                    if rtype == TYPE_ANY {
                        seq![a_set, aaaa_set]
                    } else if rtype == TYPE_A {
                        seq![a_set]
                    } else if rtype == TYPE_AAAA {
                        seq![aaaa_set]
                    } else {
                        Seq::empty()
                    },
                ),
            }
        }),
{
    if compiled.blocking_mode == BlockingMode::Default {
        let block_list = chain::block_list_of(compiled, origin);
        let got = authority::block_answer(
            rtype,
            block_list.blocking_ipv4,
            block_list.blocking_ipv6,
            block_list.ttl,
        );
        let a_set = AnswerView::A(block_list.ttl, seq![block_list.blocking_ipv4]);
        let aaaa_set = AnswerView::Aaaa(block_list.ttl, seq![block_list.blocking_ipv6]);
        if rtype == TYPE_ANY {
            assert(got =~= seq![a_set, aaaa_set]);
        } else if rtype == TYPE_A {
            assert(got =~= seq![a_set]);
        } else if rtype == TYPE_AAAA {
            assert(got =~= seq![aaaa_set]);
        } else {
            assert(got =~= Seq::<AnswerView>::empty());
        }
    }
}

/// The modifiers of a rule only narrow what it is about: it is about no query
/// for a type that it is not for and about no domain that it leaves out, and
/// without them it would be about every query that it is about.
pub proof fn law_modifiers_narrow(rule: RuleView, domain: Seq<char>, rtype: u16)
    ensures
        !authority::types_allow(rule.dnstypes, rtype) ==> !authority::rule_hits(
            rule,
            domain,
            rtype,
        ),
        domain::any_covers(rule.denyallow, domain) ==> !authority::rule_hits(rule, domain, rtype),
        authority::rule_hits(rule, domain, rtype) ==> authority::rule_hits(
            RuleView { dnstypes: None, denyallow: Seq::empty(), ..rule },
            domain,
            rtype,
        ),
{
}

/// An answer is replaced just where it has records and a rule is about one of
/// them: about its address, or about the domain that it leads to.
pub proof fn law_answers_are_replaced(
    rewrites: RewriteAuthorityView,
    last_result: LastResult,
    records: Seq<Record>,
    rtype: u16,
)
    ensures
        authority::consultation(
            rewrites.answer_ip_rewrites,
            rewrites.cname_rewrites,
            last_result,
            records,
            rtype,
        ) is Replace == ((last_result == LastResult::BreakOk || last_result
            == LastResult::ContinueOk) && ((exists|i: int|
            0 <= i < rewrites.answer_ip_rewrites.len() && authority::answer_ip_hits(
                #[trigger] rewrites.answer_ip_rewrites[i],
                records,
            )) || (exists|i: int|
            0 <= i < rewrites.cname_rewrites.len() && authority::cname_hits(
                #[trigger] rewrites.cname_rewrites[i],
                records,
            )))),
{
    lemma_answer_ip_place(rewrites.answer_ip_rewrites, records, 0);
    lemma_cname_place(rewrites.cname_rewrites, records, 0);
}

pub proof fn lemma_answer_ip_place(rules: Seq<AnswerIpRewriteView>, records: Seq<Record>, i: int)
    requires
        0 <= i <= rules.len(),
    ensures
        i <= authority::answer_ip_place(rules, records, i) <= rules.len(),
        authority::answer_ip_place(rules, records, i) < rules.len() ==> authority::answer_ip_hits(
            rules[authority::answer_ip_place(rules, records, i)],
            records,
        ),
        forall|k: int|
            i <= k < authority::answer_ip_place(rules, records, i) ==> !authority::answer_ip_hits(
                #[trigger] rules[k],
                records,
            ),
    decreases rules.len() - i,
{
    if i < rules.len() && !authority::answer_ip_hits(rules[i], records) {
        lemma_answer_ip_place(rules, records, i + 1);
    }
}

pub proof fn lemma_cname_place(rules: Seq<CnameRewriteView>, records: Seq<Record>, i: int)
    requires
        0 <= i <= rules.len(),
    ensures
        i <= authority::cname_place(rules, records, i) <= rules.len(),
        authority::cname_place(rules, records, i) < rules.len() ==> authority::cname_hits(
            rules[authority::cname_place(rules, records, i)],
            records,
        ),
        forall|k: int|
            i <= k < authority::cname_place(rules, records, i) ==> !authority::cname_hits(
                #[trigger] rules[k],
                records,
            ),
    decreases rules.len() - i,
{
    if i < rules.len() && !authority::cname_hits(rules[i], records) {
        lemma_cname_place(rules, records, i + 1);
    }
}

/// A list that could not be had is left out: what comes out is what the other
/// lists are compiled to.
pub proof fn law_lists_that_are_not_had_are_left_out(
    config: AdblockView,
    fetched: Seq<Result<String, String>>,
    i: int,
)
    requires
        0 <= i < fetched.len(),
        fetched[i] is Err,
    ensures
        compiled::bodies(fetched.remove(i)) == compiled::bodies(fetched),
        compiled::compiled(config, compiled::bodies(fetched)) == compiled::compiled(
            config,
            compiled::bodies(fetched.remove(i)),
        ),
    decreases fetched.len(),
{
    if i == fetched.len() - 1 {
        assert(fetched.remove(i) =~= fetched.drop_last());
    } else {
        law_lists_that_are_not_had_are_left_out(config, fetched.drop_last(), i);
        assert(fetched.remove(i).drop_last() =~= fetched.drop_last().remove(i));
        assert(fetched.remove(i).last() == fetched.last());
    }
}

/// Where no list could be had, what comes out is what the configuration alone
/// is compiled to.
pub proof fn law_without_lists(config: AdblockView, fetched: Seq<Result<String, String>>)
    requires
        forall|i: int| 0 <= i < fetched.len() ==> (#[trigger] fetched[i]) is Err,
    ensures
        compiled::compiled(config, compiled::bodies(fetched)) == compiled::compiled(
            config,
            Seq::empty(),
        ),
{
    lemma_no_bodies(fetched);
}

proof fn lemma_no_bodies(fetched: Seq<Result<String, String>>)
    requires
        forall|i: int| 0 <= i < fetched.len() ==> (#[trigger] fetched[i]) is Err,
    ensures
        compiled::bodies(fetched) == Seq::<Seq<char>>::empty(),
    decreases fetched.len(),
{
    if fetched.len() > 0 {
        assert forall|i: int| 0 <= i < fetched.drop_last().len() implies (
        #[trigger] fetched.drop_last()[i]) is Err by {
            assert(fetched.drop_last()[i] == fetched[i]);
        }
        lemma_no_bodies(fetched.drop_last());
        assert(fetched[fetched.len() - 1] is Err);
    }
}

proof fn lemma_lower_twice(s: Seq<char>)
    ensures
        text::lower(text::lower(s)) == text::lower(s),
{
    assert forall|i: int| 0 <= i < s.len() implies #[trigger] text::lower(text::lower(s))[i]
        == text::lower(s)[i] by {
        lemma_lower_has_no_capital(s[i]);
    }
    assert(text::lower(text::lower(s)) =~= text::lower(s));
}

proof fn lemma_lower_trim_dots(s: Seq<char>)
    ensures
        text::lower(text::trim_back(s, CharClass::Is('.'))) == text::trim_back(
            text::lower(s),
            CharClass::Is('.'),
        ),
    decreases s.len(),
{
    if s.len() > 0 {
        assert(text::lower(s).last() == text::lower_char(s.last()));
        assert(text::lower(s).drop_last() =~= text::lower(s.drop_last()));
        if s.last() == '.' {
            lemma_lower_trim_dots(s.drop_last());
        }
    }
}

proof fn lemma_lower_join(parts: Seq<Seq<char>>)
    ensures
        text::lower(text::join(parts, "."@)) == text::join(
            parts.map_values(|p: Seq<char>| text::lower(p)),
            "."@,
        ),
    decreases parts.len(),
{
    let small = parts.map_values(|p: Seq<char>| text::lower(p));
    reveal_strlit(".");
    if parts.len() > 1 {
        lemma_lower_join(parts.drop_last());
        assert(small.drop_last() =~= parts.drop_last().map_values(
            |p: Seq<char>| text::lower(p),
        ));
        assert(text::lower(text::join(parts, "."@)) =~= text::join(small, "."@));
    } else if parts.len() == 1 {
        assert(small[0] == text::lower(parts[0]));
    } else {
        assert(text::lower(text::join(parts, "."@)) =~= text::join(small, "."@));
    }
}

proof fn lemma_lower_label_text(l: Seq<u8>)
    ensures
        name::label_text(name::lower_label(l)) == text::lower(name::label_text(l)),
{
    assert(name::label_text(name::lower_label(l)) =~= text::lower(name::label_text(l)));
}

/// Capital and small letters in a name are the same: the labels that overrides
/// are found by and the domain that rules are about do not change with them.
pub proof fn law_case_is_ignored(a: Seq<Seq<u8>>, b: Seq<Seq<u8>>)
    requires
        name::lower_labels(a) == name::lower_labels(b),
    ensures
        name::lower_labels(name::lower_labels(a)) == name::lower_labels(a),
        name::plain_query_domain(a) == name::plain_query_domain(b),
{
    assert(name::lower_labels(name::lower_labels(a)) =~~= name::lower_labels(a));
    lemma_small_query_domain(a);
    lemma_small_query_domain(b);
}

proof fn lemma_small_query_domain(labels: Seq<Seq<u8>>)
    ensures
        name::plain_query_domain(labels) == name::plain_query_domain(name::lower_labels(labels)),
{
    let parts = name::label_texts(labels);
    let small = name::label_texts(name::lower_labels(labels));
    assert(small =~= parts.map_values(|p: Seq<char>| text::lower(p))) by {
        assert forall|i: int| 0 <= i < labels.len() implies #[trigger] small[i] == text::lower(
            parts[i],
        ) by {
            lemma_lower_label_text(labels[i]);
        }
    }
    lemma_lower_join(parts);
    let joined = text::join(parts, "."@);
    lemma_lower_trim_dots(joined);
    lemma_lower_twice(joined);
    lemma_lower_trim_dots(text::lower(joined));
}

/// A network whose addresses share all bits holds its own address alone, and
/// one whose addresses share none holds all of its kind.
pub proof fn law_network_bounds(a: Ipv4Addr, b: Ipv4Addr, c: Ipv6Addr, d: Ipv6Addr)
    ensures
        IpNet::V4(a, 32).holds(IpAddr::V4(b)) == (a == b),
        IpNet::V4(a, 0).holds(IpAddr::V4(b)),
        IpNet::V6(c, 128).holds(IpAddr::V6(d)) == (c == d),
        IpNet::V6(c, 0).holds(IpAddr::V6(d)),
        !IpNet::V4(a, 0).holds(IpAddr::V6(d)),
        !IpNet::V6(c, 0).holds(IpAddr::V4(b)),
{
    vstd::arithmetic::power2::lemma2_to64();
    vstd::arithmetic::power2::lemma2_to64_rest();
    vstd::arithmetic::power2::lemma_pow2_adds(64, 64);
    vstd::arithmetic::div_mod::lemma_basic_div(a.bits as int, 0x1_0000_0000);
    vstd::arithmetic::div_mod::lemma_basic_div(b.bits as int, 0x1_0000_0000);
    vstd::arithmetic::div_mod::lemma_div_basics(a.bits as int);
    vstd::arithmetic::div_mod::lemma_div_basics(b.bits as int);
    vstd::arithmetic::div_mod::lemma_div_basics(c.bits as int);
    vstd::arithmetic::div_mod::lemma_div_basics(d.bits as int);
    let size = vstd::arithmetic::power2::pow2(128);
    assert(size == 0x1_0000_0000_0000_0000_0000_0000_0000_0000);
    vstd::arithmetic::div_mod::lemma_basic_div(c.bits as int, size as int);
    vstd::arithmetic::div_mod::lemma_basic_div(d.bits as int, size as int);
}

proof fn lemma_trim_back_last(s: Seq<char>, class: CharClass)
    ensures
        text::trim_back(s, class).len() > 0 ==> !class.holds(text::trim_back(s, class).last()),
    decreases s.len(),
{
    if s.len() > 0 && class.holds(s.last()) {
        lemma_trim_back_last(s.drop_last(), class);
    }
}

proof fn lemma_drop_prefixes_last(s: Seq<char>, p: Seq<char>)
    ensures
        text::drop_prefixes(s, p).len() > 0 ==> s.len() > 0 && text::drop_prefixes(s, p).last()
            == s.last(),
    decreases s.len(),
{
    if p.len() > 0 && p.is_prefix_of(s) {
        lemma_drop_prefixes_last(s.skip(p.len() as int), p);
    }
}

/// A domain that was read from a text is read from itself as it is, unless it
/// starts with a dot.
pub proof fn law_normal_domain_is_stable(s: Seq<char>, d: Seq<char>)
    requires
        domain::normal_domain(s) == Some(d),
        d[0] != '.',
    ensures
        domain::normal_domain(d) == Some(d),
{
    reveal_strlit("*.");
    lemma_normal_domain(s);
    let trimmed = text::trim(text::trim(s, CharClass::White), CharClass::Is('.'));
    let bare = text::drop_prefixes(trimmed, "*."@);
    lemma_trim_back_last(
        text::trim_front(text::trim(s, CharClass::White), CharClass::Is('.')),
        CharClass::Is('.'),
    );
    lemma_drop_prefixes_last(trimmed, "*."@);
    assert(d == text::lower(bare));
    assert(d.last() == text::lower_char(bare.last()));
    assert(domain::is_domain_char(d[0]));
    assert(domain::is_domain_char(d[d.len() - 1]));
    assert(text::trim(d, CharClass::White) == d);
    assert(text::trim(d, CharClass::Is('.')) == d);
    if ("*."@).is_prefix_of(d) {
        assert(d.subrange(0, 2)[0] == '*');
    }
    assert(text::drop_prefixes(d, "*."@) == d);
    assert forall|i: int| 0 <= i < d.len() implies #[trigger] text::lower(d)[i] == d[i] by {
        assert(!text::is_upper(d[i]));
    }
    assert(text::lower(d) =~= d);
}

proof fn lemma_decimal_differs(a: nat, b: nat)
    requires
        a != b,
    ensures
        number::decimal(a) != number::decimal(b),
    decreases a + b,
{
    if a < 10 && b < 10 {
        assert(number::decimal(a)[0] != number::decimal(b)[0]);
    } else if a < 10 || b < 10 {
        lemma_decimal_nonempty(a / 10);
        lemma_decimal_nonempty(b / 10);
        assert(number::decimal(a).len() != number::decimal(b).len());
    } else if a % 10 != b % 10 {
        assert(number::decimal(a).last() != number::decimal(b).last());
    } else {
        lemma_decimal_differs(a / 10, b / 10);
        assert(number::decimal(a).drop_last() =~= number::decimal(a / 10));
        assert(number::decimal(b).drop_last() =~= number::decimal(b / 10));
    }
}

proof fn lemma_decimal_nonempty(a: nat)
    ensures
        number::decimal(a).len() > 0,
{
}

/// The copies of two lists with different numbers are kept in different files.
pub proof fn law_cache_files_differ(a: FilterView, b: FilterView)
    requires
        a.id is Some,
        b.id is Some,
        a.id != b.id,
    ensures
        fetch::cache_file(a) != fetch::cache_file(b),
{
    let x = number::decimal(a.id.unwrap() as nat);
    let y = number::decimal(b.id.unwrap() as nat);
    lemma_decimal_differs(a.id.unwrap() as nat, b.id.unwrap() as nat);
    if fetch::cache_file(a) == fetch::cache_file(b) {
        assert(x =~= fetch::cache_file(a).take(fetch::cache_file(a).len() - (".txt"@).len()));
        assert(y =~= fetch::cache_file(b).take(fetch::cache_file(b).len() - (".txt"@).len()));
    }
}

/// The zone of the short form has a store, so that without rules loading it
/// does not fail.
pub proof fn law_short_form_loads(
    zone: ZoneConfig,
    upstreams: Seq<UpstreamDnsConfig>,
    message: Seq<char>,
)
    requires
        server::is_root_forward(zone, upstreams),
    ensures
        !chain::is_store_error(zone.stores(), None, message),
{
    assert(zone.stores()[0] is Forward);
}

} // verus!
