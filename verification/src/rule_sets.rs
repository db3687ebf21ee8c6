//! The rules of all lists together: how lines add to them and disable them.
use vstd::prelude::*;

use vstd::hash_set::StringHashSet;

use crate::domain;
use crate::ip::IpAddr;
use crate::overrides;
use crate::overrides::{OverrideTable, OverrideView};
use crate::rule;
use crate::rule::{CompiledMatchRule, RuleDisposition, RuleOrigin, RuleView};
use crate::text;
use crate::text::CharClass;

verus! {

/// The rules that lines have added so far.
pub struct RuleSets {
    pub overrides: OverrideTable,
    /// Domains that are blocked.
    pub block_exact: StringHashSet,
    /// Domains whose subdomains are blocked.
    pub block_subdomains: StringHashSet,
    /// Domains that are allowed.
    pub allow_exact: StringHashSet,
    /// Domains whose subdomains are allowed.
    pub allow_subdomains: StringHashSet,
    pub block_rules: Vec<CompiledMatchRule>,
    pub allow_rules: Vec<CompiledMatchRule>,
}

/// What `RuleSets` hold.
#[verifier::ext_equal]
pub struct SetsView {
    pub overrides: Map<Seq<char>, OverrideView>,
    pub block_exact: Set<Seq<char>>,
    pub block_subdomains: Set<Seq<char>>,
    pub allow_exact: Set<Seq<char>>,
    pub allow_subdomains: Set<Seq<char>>,
    pub block_rules: Seq<RuleView>,
    pub allow_rules: Seq<RuleView>,
}

impl View for RuleSets {
    type V = SetsView;

    open spec fn view(&self) -> SetsView {
        SetsView {
            overrides: self.overrides@,
            block_exact: self.block_exact@,
            block_subdomains: self.block_subdomains@,
            allow_exact: self.allow_exact@,
            allow_subdomains: self.allow_subdomains@,
            block_rules: rule::rule_views(self.block_rules@),
            allow_rules: rule::rule_views(self.allow_rules@),
        }
    }
}

/// No rules.
pub open spec fn no_rules() -> SetsView {
    SetsView {
        overrides: Map::empty(),
        block_exact: Set::empty(),
        block_subdomains: Set::empty(),
        allow_exact: Set::empty(),
        allow_subdomains: Set::empty(),
        block_rules: Seq::empty(),
        allow_rules: Seq::empty(),
    }
}

impl Default for RuleSets {
    fn default() -> (r: RuleSets)
        ensures
            r@ == no_rules(),
    {
        let r = RuleSets {
            overrides: OverrideTable::new(),
            block_exact: StringHashSet::new(),
            block_subdomains: StringHashSet::new(),
            allow_exact: StringHashSet::new(),
            allow_subdomains: StringHashSet::new(),
            block_rules: Vec::new(),
            allow_rules: Vec::new(),
        };
        assert(r@ =~= no_rules());
        r
    }
}

/// The texts of rules that are not to take effect.
pub struct DisabledRules {
    pub items: Vec<String>,
}

impl View for DisabledRules {
    type V = Set<Seq<char>>;

    open spec fn view(&self) -> Set<Seq<char>> {
        text::texts(self.items@).to_set()
    }
}

impl DisabledRules {
    /// No disabled rules.
    pub fn new() -> (r: DisabledRules)
        ensures
            r@ == Set::<Seq<char>>::empty(),
    {
        let r = DisabledRules { items: Vec::new() };
        assert(r@ =~= Set::<Seq<char>>::empty());
        r
    }

    /// Disables a rule.
    pub fn insert(&mut self, rule: String)
        ensures
            final(self)@ == old(self)@.insert(rule@),
    {
        let ghost before = self.items@;
        self.items.push(rule);
        proof {
            assert(text::texts(self.items@) =~= text::texts(before).push(rule@));
            assert forall|t: Seq<char>| #[trigger] self@.contains(t) == old(self)@.insert(
                rule@,
            ).contains(t) by {
                vstd::seq_lib::lemma_seq_contains_after_push(text::texts(before), rule@, t);
            }
            assert(self@ =~= old(self)@.insert(rule@));
        }
    }

    /// Whether a rule is disabled.
    pub fn contains(&self, rule: &str) -> (r: bool)
        ensures
            r == self@.contains(rule@),
    {
        let mut i: usize = 0;
        while i < self.items.len()
            invariant
                i <= self.items@.len(),
                forall|k: int| 0 <= k < i ==> #[trigger] text::texts(self.items@)[k] != rule@,
            decreases self.items@.len() - i,
        {
            assert(text::texts(self.items@)[i as int] == self.items@[i as int]@);
            if text::same_text(self.items[i].as_str(), rule) {
                return true;
            }
            i = i + 1;
        }
        false
    }
}

/// Whether `domain` is a member of `set` or a subdomain of one.
pub open spec fn any_under(set: Set<Seq<char>>, domain: Seq<char>) -> bool {
    exists|s: Seq<char>| #[trigger] set.contains(s) && domain::under(domain, s)
}

/// Whether `domain` is a member of `set` or a subdomain of one.
pub fn covered(set: &StringHashSet, domain: &str) -> (r: bool)
    ensures
        r == any_under(set@, domain@),
{
    let chars = text::chars_of(domain);
    let n: usize = chars.len();
    let mut i: usize = 0;
    loop
        invariant
            i <= n == domain@.len(),
            chars@ == domain@,
            forall|k: int|
                0 <= k < i && (k == 0 || domain@[k - 1] == '.') ==> !set@.contains(
                    #[trigger] domain@.skip(k),
                ),
        decreases n - i,
    {
        if i == 0 || chars[i - 1] == '.' {
            let suffix = domain.substring_char(i, n);
            assert(suffix@ =~= domain@.skip(i as int));
            if set.contains(suffix) {
                proof {
                    if i == 0 {
                        assert(domain@.skip(0) =~= domain@);
                    } else {
                        assert(suffix@.is_suffix_of(domain@));
                    }
                }
                return true;
            }
        }
        if i == n {
            proof {
                assert forall|s: Seq<char>| #[trigger] set@.contains(s) implies !domain::under(
                    domain@,
                    s,
                ) by {
                    if domain::under(domain@, s) {
                        assert(s =~= domain@.skip(domain@.len() - s.len()));
                    }
                }
            }
            return false;
        }
        i = i + 1;
    }
}

impl SetsView {
    /// Whether a domain is allowed: it, or a domain that it is under, is.
    pub open spec fn allows(self, domain: Seq<char>) -> bool {
        self.allow_exact.contains(domain) || any_under(self.allow_subdomains, domain)
    }

    /// Whether a domain is blocked: it, or a domain that it is under, is.
    pub open spec fn blocks(self, domain: Seq<char>) -> bool {
        self.block_exact.contains(domain) || any_under(self.block_subdomains, domain)
    }

    /// The rules with one more on a domain. A domain that is allowed is no
    /// longer blocked, and one that is allowed stays so.
    pub open spec fn with_domain_rule(
        self,
        disposition: RuleDisposition,
        domain: Seq<char>,
        include_subdomains: bool,
    ) -> SetsView {
        match disposition {
            RuleDisposition::Allow => SetsView {
                block_exact: self.block_exact.remove(domain),
                block_subdomains: self.block_subdomains.remove(domain),
                allow_exact: self.allow_exact.insert(domain),
                allow_subdomains: if include_subdomains {
                    self.allow_subdomains.insert(domain)
                } else {
                    self.allow_subdomains
                },
                ..self
            },
            RuleDisposition::Block => if self.allows(domain) {
                self
            } else {
                SetsView {
                    block_exact: self.block_exact.insert(domain),
                    block_subdomains: if include_subdomains {
                        self.block_subdomains.insert(domain)
                    } else {
                        self.block_subdomains
                    },
                    ..self
                }
            },
        }
    }

    /// The rules without one on a domain.
    pub open spec fn without_domain_rule(
        self,
        disposition: RuleDisposition,
        domain: Seq<char>,
        include_subdomains: bool,
    ) -> SetsView {
        match disposition {
            RuleDisposition::Allow => SetsView {
                allow_exact: self.allow_exact.remove(domain),
                allow_subdomains: if include_subdomains {
                    self.allow_subdomains.remove(domain)
                } else {
                    self.allow_subdomains
                },
                ..self
            },
            RuleDisposition::Block => SetsView {
                block_exact: self.block_exact.remove(domain),
                block_subdomains: if include_subdomains {
                    self.block_subdomains.remove(domain)
                } else {
                    self.block_subdomains
                },
                ..self
            },
        }
    }

    /// The rules with those of a line of a hosts file: a remote list blocks
    /// its domains, a local rule answers them with the address.
    pub open spec fn with_hosts(
        self,
        origin: RuleOrigin,
        addr: IpAddr,
        domains: Seq<Seq<char>>,
    ) -> SetsView
        decreases domains.len(),
    {
        if domains.len() == 0 {
            self
        } else {
            let before = self.with_hosts(origin, addr, domains.drop_last());
            match origin {
                RuleOrigin::RemoteFilter => before.with_domain_rule(
                    RuleDisposition::Block,
                    domains.last(),
                    false,
                ),
                RuleOrigin::UserRule => SetsView {
                    overrides: overrides::with_override(before.overrides, addr, domains.last()),
                    ..before
                },
            }
        }
    }
}

/// Whether a domain is allowed.
pub fn is_allowed(domain: &str, rules: &RuleSets) -> (r: bool)
    ensures
        r == rules@.allows(domain@),
{
    rules.allow_exact.contains(domain) || covered(&rules.allow_subdomains, domain)
}

/// Adds a rule on a domain.
pub fn add_domain_rule(
    disposition: RuleDisposition,
    domain: &str,
    include_subdomains: bool,
    rules: &mut RuleSets,
)
    ensures
        final(rules)@ == old(rules)@.with_domain_rule(disposition, domain@, include_subdomains),
{
    match disposition {
        RuleDisposition::Allow => {
            rules.block_exact.remove(domain);
            rules.block_subdomains.remove(domain);
            rules.allow_exact.insert(domain.to_owned());
            if include_subdomains {
                rules.allow_subdomains.insert(domain.to_owned());
            }
        },
        RuleDisposition::Block => {
            if is_allowed(domain, rules) {
                return;
            }
            rules.block_exact.insert(domain.to_owned());
            if include_subdomains {
                rules.block_subdomains.insert(domain.to_owned());
            }
        },
    }
}

/// Removes a rule on a domain.
pub fn remove_domain_rule(
    disposition: RuleDisposition,
    domain: &str,
    include_subdomains: bool,
    rules: &mut RuleSets,
)
    ensures
        final(rules)@ == old(rules)@.without_domain_rule(
            disposition,
            domain@,
            include_subdomains,
        ),
{
    match disposition {
        RuleDisposition::Allow => {
            rules.allow_exact.remove(domain);
            if include_subdomains {
                rules.allow_subdomains.remove(domain);
            }
        },
        RuleDisposition::Block => {
            rules.block_exact.remove(domain);
            if include_subdomains {
                rules.block_subdomains.remove(domain);
            }
        },
    }
}

/// Adds an address that a domain is answered with.
pub fn add_override(addr: IpAddr, domain: &str, rules: &mut RuleSets)
    ensures
        final(rules)@ == (SetsView {
            overrides: overrides::with_override(old(rules)@.overrides, addr, domain@),
            ..old(rules)@
        }),
{
    rules.overrides.add(addr, domain);
}

/// Adds the rules of a line of a hosts file.
pub fn add_hosts(origin: RuleOrigin, addr: IpAddr, domains: &Vec<String>, rules: &mut RuleSets)
    ensures
        final(rules)@ == old(rules)@.with_hosts(origin, addr, text::texts(domains@)),
{
    let ghost all = text::texts(domains@);
    let mut i: usize = 0;
    assert(all.take(0) =~= Seq::<Seq<char>>::empty());
    while i < domains.len()
        invariant
            i <= domains@.len(),
            all == text::texts(domains@),
            rules@ == old(rules)@.with_hosts(origin, addr, all.take(i as int)),
        decreases domains@.len() - i,
    {
        proof {
            assert(all.take(i + 1).drop_last() =~= all.take(i as int));
            assert(all.take(i + 1).last() == domains@[i as int]@);
        }
        match origin {
            RuleOrigin::RemoteFilter => add_domain_rule(
                RuleDisposition::Block,
                domains[i].as_str(),
                false,
                rules,
            ),
            RuleOrigin::UserRule => add_override(addr, domains[i].as_str(), rules),
        }
        i = i + 1;
    }
    assert(all.take(all.len() as int) =~= all);
}

/// The rules so far and the texts of those that are disabled.
#[verifier::ext_equal]
pub struct ParseView {
    pub rules: SetsView,
    pub disabled: Set<Seq<char>>,
}

/// What a line says: the line without white space around it, or nothing
/// where it is a comment.
pub open spec fn rule_line(line: Seq<char>) -> Seq<char> {
    text::trim(
        if rule::is_comment(line) {
            Seq::empty()
        } else {
            line
        },
        CharClass::White,
    )
}

/// The rule that a line with `$badfilter` at its end disables.
pub open spec fn disabled_text(raw_text: Seq<char>) -> Seq<char> {
    text::trim_back(text::drop_suffixes(raw_text, "$badfilter"@), CharClass::Is(','))
}

impl ParseView {
    /// The rules with one more that has a pattern, or with the rule disabled
    /// that it disables.
    pub open spec fn with_match_rule(self, added: RuleView) -> ParseView {
        if ("$badfilter"@).is_suffix_of(added.raw_text) {
            ParseView { disabled: self.disabled.insert(disabled_text(added.raw_text)), ..self }
        } else if ("@@"@).is_prefix_of(added.raw_text) {
            ParseView {
                rules: SetsView { allow_rules: self.rules.allow_rules.push(added), ..self.rules },
                ..self
            }
        } else {
            ParseView {
                rules: SetsView { block_rules: self.rules.block_rules.push(added), ..self.rules },
                ..self
            }
        }
    }

    /// The rules with those of a line that says `line`.
    pub open spec fn with_rule(self, line: Seq<char>, origin: RuleOrigin) -> Result<
        ParseView,
        Seq<char>,
    > {
        if line.len() == 0 {
            Ok(self)
        } else if rule::simple_rule(line) is Some {
            let (disposition, domain, include_subdomains) = rule::simple_rule(line).unwrap();
            Ok(
                ParseView {
                    rules: self.rules.with_domain_rule(disposition, domain, include_subdomains),
                    ..self
                },
            )
        } else if rule::hosts_rule(line) is Some {
            let (addr, domains) = rule::hosts_rule(line).unwrap();
            Ok(ParseView { rules: self.rules.with_hosts(origin, addr, domains), ..self })
        } else if domain::normal_domain(line) is Some {
            let domain = domain::normal_domain(line).unwrap();
            Ok(
                ParseView {
                    rules: self.rules.with_domain_rule(RuleDisposition::Block, domain, false),
                    ..self
                },
            )
        } else {
            match rule::complex_rule(line) {
                Ok(added) => Ok(self.with_match_rule(added)),
                Err(e) => Err(e),
            }
        }
    }

    /// The rules with those of a line.
    pub open spec fn with_line(self, line: Seq<char>, origin: RuleOrigin) -> Result<
        ParseView,
        Seq<char>,
    > {
        self.with_rule(rule_line(line), origin)
    }

    /// The rules with those of the lines up to the first one that is no
    /// rule, and the error of that line.
    pub open spec fn with_lines(self, lines: Seq<Seq<char>>, origin: RuleOrigin) -> (
        ParseView,
        Option<Seq<char>>,
    )
        decreases lines.len(),
    {
        if lines.len() == 0 {
            (self, None)
        } else {
            let (before, err) = self.with_lines(lines.drop_last(), origin);
            if err is Some {
                (before, err)
            } else {
                match before.with_line(lines.last(), origin) {
                    Ok(after) => (after, None),
                    Err(e) => (before, Some(e)),
                }
            }
        }
    }
}

/// The rules of `rules` and the texts of `disabled` together.
pub open spec fn parse_view(rules: RuleSets, disabled: DisabledRules) -> ParseView {
    ParseView { rules: rules@, disabled: disabled@ }
}

/// Adds a rule with a pattern, or disables the rule that it disables.
pub fn add_match_rule(
    added: CompiledMatchRule,
    rules: &mut RuleSets,
    disabled_rules: &mut DisabledRules,
)
    ensures
        parse_view(*final(rules), *final(disabled_rules)) == parse_view(
            *old(rules),
            *old(disabled_rules),
        ).with_match_rule(added@),
{
    let raw = text::chars_of(added.raw_text.as_str());
    if text::ends(&raw, "$badfilter") {
        let target = text::trimmed_back(
            text::without_suffixes(&raw, "$badfilter"),
            CharClass::Is(','),
        );
        disabled_rules.insert(text::string_of(target));
    } else if text::starts(&raw, "@@") {
        let ghost before = rules.allow_rules@;
        rules.allow_rules.push(added);
        assert(rule::rule_views(rules.allow_rules@) =~= rule::rule_views(before).push(added@));
    } else {
        let ghost before = rules.block_rules@;
        rules.block_rules.push(added);
        assert(rule::rule_views(rules.block_rules@) =~= rule::rule_views(before).push(added@));
    }
}

/// Adds the rules of a line. Where the line is no rule, nothing changes.
pub fn parse_rule_line(
    line: &str,
    origin: RuleOrigin,
    rules: &mut RuleSets,
    disabled_rules: &mut DisabledRules,
) -> (r: Result<(), String>)
    ensures
        match r {
            Ok(()) => parse_view(*old(rules), *old(disabled_rules)).with_line(line@, origin)
                == Ok::<ParseView, Seq<char>>(parse_view(*final(rules), *final(disabled_rules))),
            Err(e) => parse_view(*old(rules), *old(disabled_rules)).with_line(line@, origin)
                == Err::<ParseView, Seq<char>>(e@) && parse_view(
                *final(rules),
                *final(disabled_rules),
            ) == parse_view(*old(rules), *old(disabled_rules)),
        },
{
    let stripped = text::chars_of(rule::strip_comments(line));
    let said = text::string_of(text::trimmed(&stripped, CharClass::White));
    let line = said.as_str();
    if line.unicode_len() == 0 {
        return Ok(());
    }
    match rule::parse_simple_adblock_domain_rule(line) {
        Some((disposition, domain, include_subdomains)) => {
            add_domain_rule(disposition, domain.as_str(), include_subdomains, rules);
            return Ok(());
        },
        None => {},
    }
    match rule::parse_hosts_rule(line) {
        Some((addr, domains)) => {
            add_hosts(origin, addr, &domains, rules);
            return Ok(());
        },
        None => {},
    }
    match domain::normalize_domain(line) {
        Some(domain) => {
            add_domain_rule(RuleDisposition::Block, domain.as_str(), false, rules);
            return Ok(());
        },
        None => {},
    }
    match rule::parse_complex_rule(line) {
        Ok(Some(added)) => {
            add_match_rule(added, rules, disabled_rules);
            Ok(())
        },
        Ok(None) => Ok(()),
        Err(e) => Err(e),
    }
}

proof fn lemma_lines_err(state: ParseView, lines: Seq<Seq<char>>, i: int, origin: RuleOrigin)
    requires
        0 <= i <= lines.len(),
        state.with_lines(lines.take(i), origin).1 is Some,
    ensures
        state.with_lines(lines, origin) == state.with_lines(lines.take(i), origin),
    decreases lines.len() - i,
{
    if i < lines.len() {
        assert(lines.take(i + 1).drop_last() =~= lines.take(i));
        lemma_lines_err(state, lines, i + 1, origin);
    } else {
        assert(lines.take(i) =~= lines);
    }
}

/// Adds the rules of the lines of a list, up to the first one that is no rule.
pub fn parse_rule_lines(
    contents: &str,
    origin: RuleOrigin,
    rules: &mut RuleSets,
    disabled_rules: &mut DisabledRules,
) -> (r: Result<(), String>)
    ensures
        parse_view(*old(rules), *old(disabled_rules)).with_lines(text::lines(contents@), origin)
            == (
            parse_view(*final(rules), *final(disabled_rules)),
            match r {
                Ok(()) => None::<Seq<char>>,
                Err(e) => Some(e@),
            },
        ),
{
    let chars = text::chars_of(contents);
    let lines = text::lines_of(&chars);
    let ghost all = text::rows(lines@);
    let ghost start = parse_view(*rules, *disabled_rules);
    let mut i: usize = 0;
    assert(all.take(0) =~= Seq::<Seq<char>>::empty());
    while i < lines.len()
        invariant
            i <= lines@.len(),
            all == text::rows(lines@),
            all == text::lines(contents@),
            start == parse_view(*old(rules), *old(disabled_rules)),
            start.with_lines(all.take(i as int), origin) == (
                parse_view(*rules, *disabled_rules),
                None::<Seq<char>>,
            ),
        decreases lines@.len() - i,
    {
        proof {
            assert(all.take(i + 1).drop_last() =~= all.take(i as int));
            assert(all.take(i + 1).last() == lines@[i as int]@);
        }
        let line = text::string_of(&lines[i]);
        match parse_rule_line(line.as_str(), origin, rules, disabled_rules) {
            Ok(()) => {},
            Err(e) => {
                proof {
                    lemma_lines_err(start, all, i + 1, origin);
                }
                return Err(e);
            },
        }
        i = i + 1;
    }
    assert(all.take(all.len() as int) =~= all);
    Ok(())
}

/// Adds local rules, up to the first line that is no rule.
pub fn parse_user_rules(
    lines: &Vec<String>,
    rules: &mut RuleSets,
    disabled_rules: &mut DisabledRules,
) -> (r: Result<(), String>)
    ensures
        parse_view(*old(rules), *old(disabled_rules)).with_lines(
            text::texts(lines@),
            RuleOrigin::UserRule,
        ) == (
            parse_view(*final(rules), *final(disabled_rules)),
            match r {
                Ok(()) => None::<Seq<char>>,
                Err(e) => Some(e@),
            },
        ),
{
    let ghost all = text::texts(lines@);
    let ghost start = parse_view(*rules, *disabled_rules);
    let mut i: usize = 0;
    assert(all.take(0) =~= Seq::<Seq<char>>::empty());
    while i < lines.len()
        invariant
            i <= lines@.len(),
            all == text::texts(lines@),
            start == parse_view(*old(rules), *old(disabled_rules)),
            start.with_lines(all.take(i as int), RuleOrigin::UserRule) == (
                parse_view(*rules, *disabled_rules),
                None::<Seq<char>>,
            ),
        decreases lines@.len() - i,
    {
        proof {
            assert(all.take(i + 1).drop_last() =~= all.take(i as int));
            assert(all.take(i + 1).last() == lines@[i as int]@);
        }
        match parse_rule_line(lines[i].as_str(), RuleOrigin::UserRule, rules, disabled_rules) {
            Ok(()) => {},
            Err(e) => {
                proof {
                    lemma_lines_err(start, all, i + 1, RuleOrigin::UserRule);
                }
                return Err(e);
            },
        }
        i = i + 1;
    }
    assert(all.take(all.len() as int) =~= all);
    Ok(())
}

/// Whether the disabled rule `t` is on `domain` itself. One of the form
/// `||domain^` is of its disposition, a plain domain of both.
pub open spec fn disables_domain(
    t: Seq<char>,
    disposition: RuleDisposition,
    domain: Seq<char>,
) -> bool {
    match rule::simple_rule(t) {
        Some((p, d, _)) => p == disposition && d == domain,
        None => domain::normal_domain(t) == Some(domain),
    }
}

/// Whether the disabled rule `t` is on the subdomains of `domain`.
pub open spec fn disables_subdomains(
    t: Seq<char>,
    disposition: RuleDisposition,
    domain: Seq<char>,
) -> bool {
    rule::simple_rule(t) == Some((disposition, domain, true))
}

/// The members of `domains` that no rule of `disabled` is on.
pub open spec fn enabled_domains(
    domains: Set<Seq<char>>,
    disposition: RuleDisposition,
    disabled: Set<Seq<char>>,
) -> Set<Seq<char>> {
    domains.filter(
        |d: Seq<char>|
            !exists|t: Seq<char>| #[trigger]
                disabled.contains(t) && disables_domain(t, disposition, d),
    )
}

/// The members of `domains` whose subdomains no rule of `disabled` is on.
pub open spec fn enabled_subdomains(
    domains: Set<Seq<char>>,
    disposition: RuleDisposition,
    disabled: Set<Seq<char>>,
) -> Set<Seq<char>> {
    domains.filter(
        |d: Seq<char>|
            !exists|t: Seq<char>| #[trigger]
                disabled.contains(t) && disables_subdomains(t, disposition, d),
    )
}

/// The rules of `rules` that are not disabled.
pub open spec fn enabled_rules(rules: Seq<RuleView>, disabled: Set<Seq<char>>) -> Seq<RuleView> {
    rules.filter(|r: RuleView| !disabled.contains(r.raw_text))
}

impl SetsView {
    /// The rules without those on domains that are disabled.
    pub open spec fn without_disabled_domains(self, disabled: Set<Seq<char>>) -> SetsView {
        SetsView {
            block_exact: enabled_domains(self.block_exact, RuleDisposition::Block, disabled),
            block_subdomains: enabled_subdomains(
                self.block_subdomains,
                RuleDisposition::Block,
                disabled,
            ),
            allow_exact: enabled_domains(self.allow_exact, RuleDisposition::Allow, disabled),
            allow_subdomains: enabled_subdomains(
                self.allow_subdomains,
                RuleDisposition::Allow,
                disabled,
            ),
            ..self
        }
    }

    /// The rules without those that are disabled.
    pub open spec fn without_disabled(self, disabled: Set<Seq<char>>) -> SetsView {
        SetsView {
            block_rules: enabled_rules(self.block_rules, disabled),
            allow_rules: enabled_rules(self.allow_rules, disabled),
            ..self.without_disabled_domains(disabled)
        }
    }

    /// The rules without those that the one disabled rule `t` is on.
    spec fn without_one(self, t: Seq<char>) -> SetsView {
        match rule::simple_rule(t) {
            Some((disposition, domain, include_subdomains)) => self.without_domain_rule(
                disposition,
                domain,
                include_subdomains,
            ),
            None => match domain::normal_domain(t) {
                Some(domain) => SetsView {
                    block_exact: self.block_exact.remove(domain),
                    allow_exact: self.allow_exact.remove(domain),
                    ..self
                },
                None => self,
            },
        }
    }
}

proof fn lemma_without_none(rules: SetsView)
    ensures
        rules.without_disabled_domains(Set::empty()) == rules,
{
    assert(rules.without_disabled_domains(Set::empty()) =~= rules);
}

proof fn lemma_without_one_more(rules: SetsView, disabled: Set<Seq<char>>, t: Seq<char>)
    ensures
        rules.without_disabled_domains(disabled.insert(t)) == rules.without_disabled_domains(
            disabled,
        ).without_one(t),
{
    let before = rules.without_disabled_domains(disabled);
    let after = rules.without_disabled_domains(disabled.insert(t));
    let one = before.without_one(t);
    assert forall|p: RuleDisposition, d: Seq<char>|
        (exists|u: Seq<char>| #[trigger]
            disabled.insert(t).contains(u) && disables_domain(u, p, d)) == ((exists|u: Seq<char>|
            #[trigger] disabled.contains(u) && disables_domain(u, p, d)) || #[trigger]
        disables_domain(t, p, d)) by {
        assert(disabled.insert(t).contains(t));
        if exists|u: Seq<char>| #[trigger] disabled.contains(u) && disables_domain(u, p, d) {
            let u = choose|u: Seq<char>| #[trigger]
                disabled.contains(u) && disables_domain(u, p, d);
            assert(disabled.insert(t).contains(u));
        }
    }
    assert forall|p: RuleDisposition, d: Seq<char>|
        (exists|u: Seq<char>| #[trigger]
            disabled.insert(t).contains(u) && disables_subdomains(u, p, d)) == ((exists|
            u: Seq<char>,
        | #[trigger]
            disabled.contains(u) && disables_subdomains(u, p, d)) || #[trigger]
        disables_subdomains(t, p, d)) by {
        assert(disabled.insert(t).contains(t));
        if exists|u: Seq<char>| #[trigger] disabled.contains(u) && disables_subdomains(u, p, d) {
            let u = choose|u: Seq<char>| #[trigger]
                disabled.contains(u) && disables_subdomains(u, p, d);
            assert(disabled.insert(t).contains(u));
        }
    }
    assert forall|d: Seq<char>| after.block_exact.contains(d) == one.block_exact.contains(d) by {
        let hit = disables_domain(t, RuleDisposition::Block, d);
        assert(after.block_exact.contains(d) == (before.block_exact.contains(d) && !hit));
        assert(one.block_exact.contains(d) == (before.block_exact.contains(d) && !hit));
    }
    assert forall|d: Seq<char>| after.allow_exact.contains(d) == one.allow_exact.contains(d) by {
        let hit = disables_domain(t, RuleDisposition::Allow, d);
        assert(after.allow_exact.contains(d) == (before.allow_exact.contains(d) && !hit));
        assert(one.allow_exact.contains(d) == (before.allow_exact.contains(d) && !hit));
    }
    assert forall|d: Seq<char>|
        after.block_subdomains.contains(d) == one.block_subdomains.contains(d) by {
        let hit = disables_subdomains(t, RuleDisposition::Block, d);
        assert(after.block_subdomains.contains(d) == (before.block_subdomains.contains(d) && !hit));
        assert(one.block_subdomains.contains(d) == (before.block_subdomains.contains(d) && !hit));
    }
    assert forall|d: Seq<char>|
        after.allow_subdomains.contains(d) == one.allow_subdomains.contains(d) by {
        let hit = disables_subdomains(t, RuleDisposition::Allow, d);
        assert(after.allow_subdomains.contains(d) == (before.allow_subdomains.contains(d) && !hit));
        assert(one.allow_subdomains.contains(d) == (before.allow_subdomains.contains(d) && !hit));
    }
    assert(after =~= one);
}

/// The rules of `rules` that are not disabled.
fn keep_enabled(rules: Vec<CompiledMatchRule>, disabled: &StringHashSet) -> (r: Vec<
    CompiledMatchRule,
>)
    ensures
        rule::rule_views(r@) == enabled_rules(rule::rule_views(rules@), disabled@),
{
    let ghost all = rule::rule_views(rules@);
    let ghost given = rules@;
    let ghost enabled = |r: RuleView| !disabled@.contains(r.raw_text);
    let mut out: Vec<CompiledMatchRule> = Vec::new();
    proof {
        reveal(Seq::filter);
        assert(rule::rule_views(out@) =~= all.take(0).filter(enabled));
    }
    for kept in it: rules
        invariant
            it.seq() == given,
            all == rule::rule_views(given),
            enabled == (|r: RuleView| !disabled@.contains(r.raw_text)),
            rule::rule_views(out@) == all.take(it.index()).filter(enabled),
    {
        let ghost out0 = out@;
        let ghost i = it.index();
        proof {
            reveal(Seq::filter);
            assert(all.take(i + 1).drop_last() =~= all.take(i));
            assert(all.take(i + 1).last() == kept@);
        }
        if !disabled.contains(kept.raw_text.as_str()) {
            out.push(kept);
            assert(rule::rule_views(out@) =~= rule::rule_views(out0).push(kept@));
        }
    }
    assert(all.take(all.len() as int) =~= all);
    out
}

/// Removes the rules that are disabled.
pub fn apply_badfilters(rules: &mut RuleSets, disabled_rules: &DisabledRules)
    ensures
        final(rules)@ == old(rules)@.without_disabled(disabled_rules@),
{
    let ghost all = text::texts(disabled_rules.items@);
    let mut members = StringHashSet::new();
    let mut i: usize = 0;
    proof {
        assert(all.take(0).to_set() =~= Set::<Seq<char>>::empty());
        lemma_without_none(rules@);
    }
    while i < disabled_rules.items.len()
        invariant
            i <= disabled_rules.items@.len(),
            all == text::texts(disabled_rules.items@),
            members@ == all.take(i as int).to_set(),
            rules@ == old(rules)@.without_disabled_domains(members@),
        decreases disabled_rules.items@.len() - i,
    {
        let disabled = disabled_rules.items[i].as_str();
        proof {
            assert(all[i as int] == disabled@);
            assert forall|t: Seq<char>| #[trigger] all.take(i + 1).to_set().contains(t)
                == members@.insert(disabled@).contains(t) by {
                assert(all.take(i + 1) =~= all.take(i as int).push(disabled@));
                vstd::seq_lib::lemma_seq_contains_after_push(all.take(i as int), disabled@, t);
            }
            assert(all.take(i + 1).to_set() =~= members@.insert(disabled@));
            lemma_without_one_more(old(rules)@, members@, disabled@);
        }
        members.insert(disabled.to_owned());
        match rule::parse_simple_adblock_domain_rule(disabled) {
            Some((disposition, domain, include_subdomains)) => {
                remove_domain_rule(disposition, domain.as_str(), include_subdomains, rules);
            },
            None => match domain::normalize_domain(disabled) {
                Some(domain) => {
                    rules.block_exact.remove(domain.as_str());
                    rules.allow_exact.remove(domain.as_str());
                },
                None => {},
            },
        }
        i = i + 1;
    }
    assert(all.take(all.len() as int) =~= all);
    let mut block_rules: Vec<CompiledMatchRule> = Vec::new();
    std::mem::swap(&mut block_rules, &mut rules.block_rules);
    rules.block_rules = keep_enabled(block_rules, &members);
    let mut allow_rules: Vec<CompiledMatchRule> = Vec::new();
    std::mem::swap(&mut allow_rules, &mut rules.allow_rules);
    rules.allow_rules = keep_enabled(allow_rules, &members);
}

} // verus!
