//! What holds of whole lists: how lines, hosts, rewrites and the texts of
//! filters add up to the rules that queries are decided by.
use vstd::prelude::*;

use crate::compiled;
use crate::compiled::{
    AnswerIpRewriteView, CnameRewriteView, CompiledView, DomainRewriteView,
};
use crate::domain;
use crate::domain::PatternView;
use crate::filtering::{AdblockView, RewriteView};
use crate::ip;
use crate::ip::{IpAddr, IpNet, Ipv4Addr, Ipv6Addr};
use crate::overrides;
use crate::overrides::OverrideView;
use crate::rule;
use crate::rule::{RuleDisposition, RuleOrigin, RuleView};
use crate::rule_sets;
use crate::rule_sets::{ParseView, SetsView};
use crate::text;
use crate::text::CharClass;
use crate::text_laws;

verus! {

/// To allow a domain adds it to the domains that are allowed, with its
/// subdomains where the rule is about them, takes it from those that are
/// blocked, and changes nothing else.
pub proof fn law_allowing_a_domain(rules: SetsView, d: Seq<char>, subdomains: bool, x: Seq<char>)
    ensures
        ({
            let after = rules.with_domain_rule(RuleDisposition::Allow, d, subdomains);
            &&& after.allow_exact.contains(x) == (x == d || rules.allow_exact.contains(x))
            &&& after.allow_subdomains.contains(x) == ((subdomains && x == d)
                || rules.allow_subdomains.contains(x))
            &&& after.block_exact.contains(x) == (x != d && rules.block_exact.contains(x))
            &&& after.block_subdomains.contains(x) == (x != d && rules.block_subdomains.contains(x))
            &&& after.overrides == rules.overrides
            &&& after.block_rules == rules.block_rules
            &&& after.allow_rules == rules.allow_rules
        }),
{
}

/// To block a domain does nothing where it is allowed, itself or as the
/// subdomain of one whose subdomains are. Elsewhere it adds the domain to those
/// that are blocked, with its subdomains where the rule is about them, and
/// changes nothing else.
pub proof fn law_blocking_a_domain(
    rules: SetsView,
    d: Seq<char>,
    subdomains: bool,
    x: Seq<char>,
    s: Seq<char>,
)
    ensures
        ({
            let after = rules.with_domain_rule(RuleDisposition::Block, d, subdomains);
            let allowed = rules.allow_exact.contains(d) || exists|t: Seq<char>| #[trigger]
                rules.allow_subdomains.contains(t) && domain::under(d, t);
            &&& rules.allow_exact.contains(d) ==> after == rules
            &&& rules.allow_subdomains.contains(s) && domain::under(d, s) ==> after == rules
            &&& !allowed ==> {
                &&& after.block_exact.contains(x) == (x == d || rules.block_exact.contains(x))
                &&& after.block_subdomains.contains(x) == ((subdomains && x == d)
                    || rules.block_subdomains.contains(x))
            }
            &&& after.allow_exact == rules.allow_exact
            &&& after.allow_subdomains == rules.allow_subdomains
            &&& after.overrides == rules.overrides
            &&& after.block_rules == rules.block_rules
            &&& after.allow_rules == rules.allow_rules
        }),
{
}

/// A rule with a pattern is put behind the others that allow or block, by the
/// `@@` before it. With `$badfilter` at its end it is none, and disables the
/// rule that it names.
pub proof fn law_adding_a_pattern(state: ParseView, added: RuleView, t: Seq<char>)
    ensures
        ({
            let after = state.with_match_rule(added);
            let old_rules = state.rules;
            &&& added.raw_text == t + "$badfilter"@ ==> after.rules == old_rules && after.disabled
                == state.disabled.insert(rule_sets::disabled_text(t + "$badfilter"@))
            &&& !("$badfilter"@).is_suffix_of(added.raw_text) ==> {
                &&& after.disabled == state.disabled
                &&& after.rules.overrides == old_rules.overrides
                &&& after.rules.block_exact == old_rules.block_exact
                &&& after.rules.block_subdomains == old_rules.block_subdomains
                &&& after.rules.allow_exact == old_rules.allow_exact
                &&& after.rules.allow_subdomains == old_rules.allow_subdomains
                &&& added.raw_text == "@@"@ + t ==> after.rules.allow_rules
                    == old_rules.allow_rules.push(added) && after.rules.block_rules
                    == old_rules.block_rules
                &&& !("@@"@).is_prefix_of(added.raw_text) ==> after.rules.block_rules
                    == old_rules.block_rules.push(added) && after.rules.allow_rules
                    == old_rules.allow_rules
            }
        }),
{
    let a = t + "$badfilter"@;
    assert(("$badfilter"@).is_suffix_of(a)) by {
        assert("$badfilter"@ =~= a.subrange(t.len() as int, a.len() as int));
    }
    let b = "@@"@ + t;
    assert(("@@"@).is_prefix_of(b)) by {
        assert("@@"@ =~= b.subrange(0, ("@@"@).len() as int));
    }
}

/// What a line is: nothing where it is a comment or blank; else, in this
/// order, a rule about a domain, a line of a hosts file, a domain that is
/// blocked, or a rule with a pattern, whose error is that of the line.
pub proof fn law_what_a_line_is(state: ParseView, line: Seq<char>, origin: RuleOrigin)
    ensures
        rule::is_comment(line) ==> state.with_line(line, origin) == Ok::<ParseView, Seq<char>>(
            state,
        ),
        !rule::is_comment(line) ==> ({
            let t = text::trim(line, CharClass::White);
            let after = state.with_line(line, origin);
            let plain = rule::simple_rule(t);
            let hosts = rule::hosts_rule(t);
            let name = domain::normal_domain(t);
            &&& t.len() == 0 ==> after == Ok::<ParseView, Seq<char>>(state)
            &&& t.len() > 0 && plain is Some ==> after == Ok::<ParseView, Seq<char>>(
                (ParseView {
                    rules: state.rules.with_domain_rule(
                        plain.unwrap().0,
                        plain.unwrap().1,
                        plain.unwrap().2,
                    ),
                    disabled: state.disabled,
                }),
            )
            &&& t.len() > 0 && plain is None && hosts is Some ==> after == Ok::<
                ParseView,
                Seq<char>,
            >(
                (ParseView {
                    rules: state.rules.with_hosts(origin, hosts.unwrap().0, hosts.unwrap().1),
                    disabled: state.disabled,
                }),
            )
            &&& t.len() > 0 && plain is None && hosts is None && name is Some ==> after == Ok::<
                ParseView,
                Seq<char>,
            >(
                (ParseView {
                    rules: state.rules.with_domain_rule(
                        RuleDisposition::Block,
                        name.unwrap(),
                        false,
                    ),
                    disabled: state.disabled,
                }),
            )
            &&& t.len() > 0 && plain is None && hosts is None && name is None
                && rule::complex_rule(t) is Ok ==> after == Ok::<ParseView, Seq<char>>(
                state.with_match_rule(rule::complex_rule(t)->Ok_0),
            )
            &&& t.len() > 0 && plain is None && hosts is None && name is None
                && rule::complex_rule(t) is Err ==> after == Err::<ParseView, Seq<char>>(
                rule::complex_rule(t)->Err_0,
            )
        }),
{
    let none = Seq::<char>::empty();
    assert(text::trim(none, CharClass::White) =~= none);
}

/// Lines are read one behind the other, and reading ends at the first error.
pub proof fn law_lines_are_read_in_order(
    state: ParseView,
    a: Seq<Seq<char>>,
    b: Seq<Seq<char>>,
    line: Seq<char>,
    origin: RuleOrigin,
)
    ensures
        ({
            let first = state.with_lines(a, origin);
            &&& first.1 is None ==> state.with_lines(a + b, origin) == first.0.with_lines(b, origin)
            &&& first.1 is Some ==> state.with_lines(a + b, origin) == first
        }),
        state.with_lines(Seq::empty(), origin) == (state, None::<Seq<char>>),
        state.with_lines(seq![line], origin) == match state.with_line(line, origin) {
            Ok(after) => (after, None::<Seq<char>>),
            Err(e) => (state, Some(e)),
        },
    decreases b.len(),
{
    assert(seq![line].drop_last() =~= Seq::<Seq<char>>::empty());
    assert(state.with_lines(seq![line].drop_last(), origin) == (state, None::<Seq<char>>));
    if b.len() == 0 {
        assert(a + b =~= a);
    } else {
        law_lines_are_read_in_order(state, a, b.drop_last(), line, origin);
        assert((a + b).drop_last() =~= a + b.drop_last());
        assert((a + b).last() == b.last());
    }
}

/// The domains of a line of a hosts file are taken one behind the other. In a
/// filter each is blocked, whatever the address, without its subdomains; among
/// the local rules each is answered with the address, beside those that it
/// had.
pub proof fn law_hosts_are_taken_in_order(
    rules: SetsView,
    origin: RuleOrigin,
    addr: IpAddr,
    a: Seq<Seq<char>>,
    b: Seq<Seq<char>>,
    d: Seq<char>,
)
    ensures
        rules.with_hosts(origin, addr, a + b) == rules.with_hosts(origin, addr, a).with_hosts(
            origin,
            addr,
            b,
        ),
        rules.with_hosts(origin, addr, Seq::empty()) == rules,
        rules.with_hosts(RuleOrigin::RemoteFilter, addr, seq![d]) == rules.with_domain_rule(
            RuleDisposition::Block,
            d,
            false,
        ),
        rules.with_hosts(RuleOrigin::UserRule, addr, seq![d]) == (SetsView {
            overrides: overrides::with_override(rules.overrides, addr, d),
            block_exact: rules.block_exact,
            block_subdomains: rules.block_subdomains,
            allow_exact: rules.allow_exact,
            allow_subdomains: rules.allow_subdomains,
            block_rules: rules.block_rules,
            allow_rules: rules.allow_rules,
        }),
    decreases b.len(),
{
    assert(seq![d].drop_last() =~= Seq::<Seq<char>>::empty());
    assert(rules.with_hosts(RuleOrigin::RemoteFilter, addr, seq![d].drop_last()) == rules);
    assert(rules.with_hosts(RuleOrigin::UserRule, addr, seq![d].drop_last()) == rules);
    if b.len() == 0 {
        assert(a + b =~= a);
    } else {
        law_hosts_are_taken_in_order(rules, origin, addr, a, b.drop_last(), d);
        assert((a + b).drop_last() =~= a + b.drop_last());
        assert((a + b).last() == b.last());
    }
}

/// An address is put behind those of its kind that a domain has, unless it is
/// among them; other domains and the addresses of the other kind stay as they
/// are.
pub proof fn law_adding_an_override(
    table: Map<Seq<char>, OverrideView>,
    v4: Ipv4Addr,
    v6: Ipv6Addr,
    d: Seq<char>,
    other: Seq<char>,
)
    ensures
        ({
            let had = table.contains_key(d);
            let before4 = if had {
                table[d].ipv4
            } else {
                Seq::empty()
            };
            let before6 = if had {
                table[d].ipv6
            } else {
                Seq::empty()
            };
            let with4 = overrides::with_override(table, IpAddr::V4(v4), d);
            let with6 = overrides::with_override(table, IpAddr::V6(v6), d);
            &&& with4.contains_key(d) && with6.contains_key(d)
            &&& with4[d].ipv6 == before6 && with6[d].ipv4 == before4
            &&& with4[d].ipv4 == if before4.contains(v4) {
                before4
            } else {
                before4 + seq![v4]
            }
            &&& with6[d].ipv6 == if before6.contains(v6) {
                before6
            } else {
                before6 + seq![v6]
            }
            &&& other != d ==> {
                &&& with4.contains_key(other) == table.contains_key(other)
                &&& with6.contains_key(other) == table.contains_key(other)
                &&& table.contains_key(other) ==> with4[other] == table[other] && with6[other]
                    == table[other]
            }
        }),
{
    let had = table.contains_key(d);
    let before = if had {
        table[d]
    } else {
        overrides::no_addresses()
    };
    assert(before.ipv4.push(v4) =~= before.ipv4 + seq![v4]);
    assert(before.ipv6.push(v6) =~= before.ipv6 + seq![v6]);
}

/// Addresses are merged in order: those that were there stay in front, and
/// each of the others is put behind them unless it is there already.
pub proof fn law_addresses_keep_their_order<A>(s: Seq<A>, a: Seq<A>, b: Seq<A>, x: A)
    ensures
        overrides::with_all(s, a + b) == overrides::with_all(overrides::with_all(s, a), b),
        overrides::with_all(s, Seq::empty()) == s,
        overrides::with_all(s, seq![x]) == if s.contains(x) {
            s
        } else {
            s + seq![x]
        },
    decreases b.len(),
{
    assert(seq![x].drop_last() =~= Seq::<A>::empty());
    assert(overrides::with_all(s, seq![x].drop_last()) == s);
    assert(s.push(x) =~= s + seq![x]);
    if b.len() == 0 {
        assert(a + b =~= a);
    } else {
        law_addresses_keep_their_order(s, a, b.drop_last(), x);
        assert((a + b).drop_last() =~= a + b.drop_last());
        assert((a + b).last() == b.last());
    }
}

/// Two sets of addresses are merged kind by kind.
pub proof fn law_kinds_are_merged_apart(a: OverrideView, b: OverrideView)
    ensures
        a.merged(b).ipv4 == overrides::with_all(a.ipv4, b.ipv4),
        a.merged(b).ipv6 == overrides::with_all(a.ipv6, b.ipv6),
{
}

/// A rewrite is answered with the addresses of all its answers, in order. One
/// that is no address is an error, and so is a rewrite without answers.
pub proof fn law_answers_of_a_rewrite(first: Seq<char>, answers: Seq<Seq<char>>, more: Seq<char>)
    requires
        answers.len() > 0,
    ensures
        overrides::answers_text(Seq::empty()) is Err,
        overrides::answers_text(seq![first]) == match ip::ip_text(first) {
            Some(IpAddr::V4(a)) => Ok::<OverrideView, Seq<char>>(
                (OverrideView { ipv4: seq![a], ipv6: Seq::empty() }),
            ),
            Some(IpAddr::V6(a)) => Ok(OverrideView { ipv4: Seq::empty(), ipv6: seq![a] }),
            None => Err(
                "invalid rewrite answer "@ + first + ": "@ + "invalid IP address syntax"@,
            ),
        },
        overrides::answers_text(answers) is Err ==> overrides::answers_text(answers + seq![more])
            == overrides::answers_text(answers),
        overrides::answers_text(answers) is Ok ==> ({
            let had = overrides::answers_text(answers)->Ok_0;
            let now = overrides::answers_text(answers + seq![more]);
            match ip::ip_text(more) {
                Some(IpAddr::V4(a)) => now == Ok::<OverrideView, Seq<char>>(
                    (OverrideView {
                        ipv4: if had.ipv4.contains(a) {
                            had.ipv4
                        } else {
                            had.ipv4 + seq![a]
                        },
                        ipv6: had.ipv6,
                    }),
                ),
                Some(IpAddr::V6(a)) => now == Ok::<OverrideView, Seq<char>>(
                    (OverrideView {
                        ipv4: had.ipv4,
                        ipv6: if had.ipv6.contains(a) {
                            had.ipv6
                        } else {
                            had.ipv6 + seq![a]
                        },
                    }),
                ),
                None => now == Err::<OverrideView, Seq<char>>(
                    "invalid rewrite answer "@ + more + ": "@ + "invalid IP address syntax"@,
                ),
            }
        }),
{
    lemma_no_answer();
    lemma_one_answer(first);
    lemma_one_answer(more);
    let all = answers + seq![more];
    assert(all.drop_last() =~= answers);
    assert(all.last() == more);
    assert(seq![first].len() == 1 && seq![first][0] == first);
    assert(overrides::answers_text(seq![first]) == overrides::answer_text(first));
    if overrides::answers_text(answers) is Ok {
        let had = overrides::answers_text(answers)->Ok_0;
        match ip::ip_text(more) {
            Some(IpAddr::V4(a)) => {
                law_addresses_keep_their_order(had.ipv4, Seq::empty(), Seq::empty(), a);
                assert(overrides::with_all(had.ipv6, Seq::empty()) == had.ipv6);
            },
            Some(IpAddr::V6(a)) => {
                law_addresses_keep_their_order(had.ipv6, Seq::empty(), Seq::empty(), a);
                assert(overrides::with_all(had.ipv4, Seq::empty()) == had.ipv4);
            },
            None => {},
        }
    }
}

proof fn lemma_no_answer()
    ensures
        overrides::answers_text(Seq::empty()) is Err,
{
    let none = Seq::<char>::empty();
    assert(text::split(none, CharClass::Is('.')).len() == 1);
    assert(text::split(none, CharClass::Is(':')) =~= seq![none]);
    assert(seq![none].drop_last() =~= Seq::<Seq<char>>::empty());
    assert(ip::ipv4_text(none) is None);
    assert(ip::group(none) is None);
    assert(ip::groups(seq![none]) is None);
    assert(ip::gap_from(none, 0) is None);
    assert(ip::ipv6_text(none) is None);
}

proof fn lemma_one_answer(s: Seq<char>)
    ensures
        overrides::answer_text(s) == match ip::ip_text(s) {
            Some(IpAddr::V4(a)) => Ok::<OverrideView, Seq<char>>(
                (OverrideView { ipv4: seq![a], ipv6: Seq::empty() }),
            ),
            Some(IpAddr::V6(a)) => Ok(OverrideView { ipv4: Seq::empty(), ipv6: seq![a] }),
            None => Err("invalid rewrite answer "@ + s + ": "@ + "invalid IP address syntax"@),
        },
{
    match ip::ip_text(s) {
        Some(IpAddr::V4(a)) => {
            assert(Seq::<Ipv4Addr>::empty().push(a) =~= seq![a]);
        },
        Some(IpAddr::V6(a)) => {
            assert(Seq::<Ipv6Addr>::empty().push(a) =~= seq![a]);
        },
        None => {},
    }
}

/// What is disabled goes, and what is not stays: a domain goes where a
/// disabled text is a rule about it that says the same, or just the domain; its
/// subdomains go where the text is such a rule; a rule with a pattern goes
/// where the text is its line.
pub proof fn law_only_the_disabled_go(rules: SetsView, disabled: Set<Seq<char>>, d: Seq<char>)
    ensures
        ({
            let after = rules.without_disabled(disabled);
            let names = |t: Seq<char>| rule::simple_rule(t) is None && domain::normal_domain(t)
                == Some(d);
            let blocks = |t: Seq<char>| rule::simple_rule(t) is Some && rule::simple_rule(t).unwrap().0
                == RuleDisposition::Block && rule::simple_rule(t).unwrap().1 == d;
            let allows = |t: Seq<char>| rule::simple_rule(t) is Some && rule::simple_rule(t).unwrap().0
                == RuleDisposition::Allow && rule::simple_rule(t).unwrap().1 == d;
            &&& after.block_exact.contains(d) == (rules.block_exact.contains(d) && !exists|
                t: Seq<char>,
            | #[trigger]
                disabled.contains(t) && (names(t) || blocks(t)))
            &&& after.allow_exact.contains(d) == (rules.allow_exact.contains(d) && !exists|
                t: Seq<char>,
            | #[trigger]
                disabled.contains(t) && (names(t) || allows(t)))
            &&& after.block_subdomains.contains(d) == (rules.block_subdomains.contains(d)
                && !exists|t: Seq<char>| #[trigger]
                disabled.contains(t) && blocks(t))
            &&& after.allow_subdomains.contains(d) == (rules.allow_subdomains.contains(d)
                && !exists|t: Seq<char>| #[trigger]
                disabled.contains(t) && allows(t))
            &&& after.overrides == rules.overrides
        }),
{
    let after = rules.without_disabled(disabled);
    assert forall|t: Seq<char>| rule::simple_rule(t) is Some implies (#[trigger] rule::simple_rule(
        t,
    )).unwrap().2 by {}
    assert forall|t: Seq<char>| #[trigger]
        disabled.contains(t) implies rule_sets::disables_domain(t, RuleDisposition::Block, d) == ((
    rule::simple_rule(t) is None && domain::normal_domain(t) == Some(d)) || (rule::simple_rule(
        t,
    ) is Some && rule::simple_rule(t).unwrap().0 == RuleDisposition::Block && rule::simple_rule(
        t,
    ).unwrap().1 == d)) by {}
    assert forall|t: Seq<char>| #[trigger]
        disabled.contains(t) implies rule_sets::disables_domain(t, RuleDisposition::Allow, d) == ((
    rule::simple_rule(t) is None && domain::normal_domain(t) == Some(d)) || (rule::simple_rule(
        t,
    ) is Some && rule::simple_rule(t).unwrap().0 == RuleDisposition::Allow && rule::simple_rule(
        t,
    ).unwrap().1 == d)) by {}
    assert forall|t: Seq<char>| #[trigger]
        disabled.contains(t) implies rule_sets::disables_subdomains(t, RuleDisposition::Block, d)
        == (rule::simple_rule(t) is Some && rule::simple_rule(t).unwrap().0
        == RuleDisposition::Block && rule::simple_rule(t).unwrap().1 == d) by {}
    assert forall|t: Seq<char>| #[trigger]
        disabled.contains(t) implies rule_sets::disables_subdomains(t, RuleDisposition::Allow, d)
        == (rule::simple_rule(t) is Some && rule::simple_rule(t).unwrap().0
        == RuleDisposition::Allow && rule::simple_rule(t).unwrap().1 == d) by {}
}

/// The rules with patterns that are not disabled stay in their order.
pub proof fn law_enabled_patterns_keep_their_order(
    rules: SetsView,
    a: Seq<RuleView>,
    b: Seq<RuleView>,
    r: RuleView,
    disabled: Set<Seq<char>>,
)
    ensures
        rule_sets::enabled_rules(a + b, disabled) == rule_sets::enabled_rules(a, disabled)
            + rule_sets::enabled_rules(b, disabled),
        rule_sets::enabled_rules(seq![r], disabled) == if disabled.contains(r.raw_text) {
            Seq::empty()
        } else {
            seq![r]
        },
        rule_sets::enabled_rules(Seq::empty(), disabled).len() == 0,
        rules.without_disabled(disabled).block_rules == rule_sets::enabled_rules(
            rules.block_rules,
            disabled,
        ),
        rules.without_disabled(disabled).allow_rules == rule_sets::enabled_rules(
            rules.allow_rules,
            disabled,
        ),
{
    let enabled = |r: RuleView| !disabled.contains(r.raw_text);
    Seq::filter_distributes_over_add(a, b, enabled);
    reveal(Seq::filter);
    let none = Seq::<RuleView>::empty();
    assert(none.filter(enabled) =~= none);
    assert(seq![r].drop_last() =~= none);
    assert(seq![r].drop_last().filter(enabled) =~= none);
    assert(seq![r].last() == r);
    assert(seq![r].filter(enabled) =~= if enabled(r) {
        seq![r]
    } else {
        none
    });
}

/// The networks of a rewrite are read one by one, and the first that is none
/// is named in the error.
pub proof fn law_networks_of_a_rewrite(list: Seq<Seq<char>>, i: int)
    ensures
        compiled::net_list(list) is Ok <==> (forall|j: int|
            0 <= j < list.len() ==> ip::ip_net_parse(#[trigger] list[j]) is Some),
        compiled::net_list(list) is Ok ==> compiled::net_list(list)->Ok_0.len() == list.len(),
        compiled::net_list(list) is Ok && 0 <= i < list.len() ==> ip::ip_net_parse(list[i]) == Some(
            compiled::net_list(list)->Ok_0[i],
        ),
        0 <= i < list.len() && ip::ip_net_parse(list[i]) is None && (forall|j: int|
            0 <= j < i ==> ip::ip_net_parse(#[trigger] list[j]) is Some) ==> compiled::net_list(
            list,
        ) == Err::<Seq<IpNet>, Seq<char>>(
            "invalid rewrite IP network "@ + list[i] + ": "@ + "invalid IP address syntax"@,
        ),
    decreases list.len(),
{
    if list.len() > 0 {
        let front = list.drop_last();
        let last = list.len() - 1;
        law_networks_of_a_rewrite(front, i);
        assert forall|j: int| 0 <= j < front.len() implies #[trigger] front[j] == list[j] by {}
        if forall|j: int| 0 <= j < list.len() ==> ip::ip_net_parse(#[trigger] list[j]) is Some {
            assert(ip::ip_net_parse(list[last]) is Some);
            assert forall|j: int| 0 <= j < front.len() implies ip::ip_net_parse(
                #[trigger] front[j],
            ) is Some by {
                assert(ip::ip_net_parse(list[j]) is Some);
            }
        }
        if compiled::net_list(front) is Ok && ip::ip_net_parse(list[last]) is Some {
            assert forall|j: int| 0 <= j < list.len() implies ip::ip_net_parse(
                #[trigger] list[j],
            ) is Some by {
                if j < last {
                    assert(ip::ip_net_parse(front[j]) is Some);
                }
            }
        }
    }
}

/// The rules by address are had from the rewrites one by one, in their order,
/// up to the first error.
pub proof fn law_address_rules_of_rewrites(
    rewrites: Seq<RewriteView>,
    r: RewriteView,
)
    ensures
        compiled::answer_ip_rewrites(Seq::empty()) == Ok::<Seq<AnswerIpRewriteView>, Seq<char>>(
            Seq::empty(),
        ),
        compiled::answer_ip_rewrites(rewrites.push(r)) == match compiled::answer_ip_rewrites(rewrites) {
            Ok(before) => compiled::with_answer_ip_rewrite(before, r),
            Err(e) => Err(e),
        },
{
    assert(rewrites.push(r).drop_last() =~= rewrites);
}

/// A rewrite with networks adds one rule behind the others, with all its
/// networks and its own answer; one without adds none.
pub proof fn law_address_rule_of_a_rewrite(before: Seq<AnswerIpRewriteView>, r: RewriteView)
    ensures
        compiled::with_answer_ip_rewrite(before, r) == if r.ip.len() == 0 {
            Ok::<Seq<AnswerIpRewriteView>, Seq<char>>(before)
        } else {
            match overrides::answers_text(r.answers) {
                Err(e) => Err(e),
                Ok(answer) => match compiled::net_list(r.ip) {
                    Err(e) => Err(e),
                    Ok(nets) => Ok(before.push(AnswerIpRewriteView { nets, answer })),
                },
            }
        },
{
    reveal(compiled::with_answer_ip_rewrite);
}

/// A name of a `cname` list may have `domain:` before it, which is no part of
/// the domain.
pub proof fn law_names_of_a_cname_list(s: Seq<char>, list: Seq<Seq<char>>, i: int)
    ensures
        compiled::cname_entry("domain:"@ + s) == s,
        !("domain:"@).is_prefix_of(s) ==> compiled::cname_entry(s) == s,
        compiled::cname_entries(list).len() == list.len(),
        0 <= i < list.len() ==> compiled::cname_entries(list)[i] == compiled::cname_entry(list[i]),
{
    let p = "domain:"@;
    assert(p =~= (p + s).subrange(0, p.len() as int));
    assert((p + s).skip(p.len() as int) =~= s);
}

/// The rules by name are had from the rewrites one by one, in their order, up
/// to the first error.
pub proof fn law_name_rules_of_rewrites(
    rewrites: Seq<RewriteView>,
    r: RewriteView,
)
    ensures
        compiled::cname_rewrites(Seq::empty()) == Ok::<Seq<CnameRewriteView>, Seq<char>>(
            Seq::empty(),
        ),
        compiled::cname_rewrites(rewrites.push(r)) == match compiled::cname_rewrites(rewrites) {
            Ok(before) => compiled::with_cname_rewrite(before, r),
            Err(e) => Err(e),
        },
{
    assert(rewrites.push(r).drop_last() =~= rewrites);
}

/// A rewrite with a `cname` list adds one rule behind the others, with all its
/// domains and its own answer; one without adds none.
pub proof fn law_name_rule_of_a_rewrite(before: Seq<CnameRewriteView>, r: RewriteView)
    ensures
        compiled::with_cname_rewrite(before, r) == if r.cname.len() == 0 {
            Ok::<Seq<CnameRewriteView>, Seq<char>>(before)
        } else {
            match overrides::answers_text(r.answers) {
                Err(e) => Err(e),
                Ok(answer) => match rule::pattern_list(compiled::cname_entries(r.cname)) {
                    Err(e) => Err(e),
                    Ok(patterns) => Ok(before.push(CnameRewriteView { patterns, answer })),
                },
            }
        },
{
    reveal(compiled::with_cname_rewrite);
}

proof fn lemma_pattern_place(rules: Seq<DomainRewriteView>, pattern: PatternView, i: int, k: int)
    requires
        0 <= i <= k <= rules.len(),
        k < rules.len() ==> rules[k].pattern == pattern,
        forall|j: int| i <= j < k ==> (#[trigger] rules[j]).pattern != pattern,
    ensures
        compiled::pattern_place(rules, pattern, i) == k,
    decreases k - i,
{
    if i < k {
        assert(rules[i].pattern != pattern);
        lemma_pattern_place(rules, pattern, i + 1, k);
    }
}

/// The rules by domain are had from the rewrites one by one, in their order,
/// up to the first error.
pub proof fn law_domain_rules_of_rewrites(rewrites: Seq<RewriteView>, r: RewriteView)
    ensures
        compiled::domain_rewrites(Seq::empty()) == Ok::<Seq<DomainRewriteView>, Seq<char>>(
            Seq::empty(),
        ),
        compiled::domain_rewrites(rewrites.push(r)) == match compiled::domain_rewrites(rewrites) {
            Ok(before) => compiled::with_domain_rewrite(before, r),
            Err(e) => Err(e),
        },
{
    assert(rewrites.push(r).drop_last() =~= rewrites);
}

/// A rewrite of a domain adds its answer under its pattern; one without a
/// domain changes nothing, and what cannot be read of it is the error.
pub proof fn law_domain_rule_of_a_rewrite(before: Seq<DomainRewriteView>, r: RewriteView)
    ensures
        compiled::with_domain_rewrite(before, r) == match r.domain {
            None => Ok::<Seq<DomainRewriteView>, Seq<char>>(before),
            Some(name) => match overrides::answers_text(r.answers) {
                Err(e) => Err(e),
                Ok(answer) => match domain::pattern_text(name) {
                    Err(e) => Err(e),
                    Ok(pattern) => Ok(compiled::with_rewrite(before, pattern, answer)),
                },
            },
        },
{
    reveal(compiled::with_domain_rewrite);
}

/// An answer under a pattern that is new is put behind the others; one under a
/// pattern that is there adds its addresses to that rule, at its place, and
/// changes no other.
pub proof fn law_answers_under_a_pattern(
    before: Seq<DomainRewriteView>,
    pattern: PatternView,
    answer: OverrideView,
    k: int,
)
    ensures
        (forall|j: int| 0 <= j < before.len() ==> (#[trigger] before[j]).pattern != pattern)
            ==> compiled::with_rewrite(before, pattern, answer) == before.push(
            DomainRewriteView {
                pattern,
                answer: (OverrideView { ipv4: Seq::empty(), ipv6: Seq::empty() }).merged(answer),
            },
        ),
        0 <= k < before.len() && before[k].pattern == pattern && (forall|j: int|
            0 <= j < k ==> (#[trigger] before[j]).pattern != pattern) ==> ({
            let now = compiled::with_rewrite(before, pattern, answer);
            &&& now.len() == before.len()
            &&& now[k].pattern == pattern
            &&& now[k].answer == before[k].answer.merged(answer)
            &&& forall|j: int| 0 <= j < before.len() && j != k ==> #[trigger] now[j] == before[j]
        }),
{
    if forall|j: int| 0 <= j < before.len() ==> (#[trigger] before[j]).pattern != pattern {
        lemma_pattern_place(before, pattern, 0, before.len() as int);
    }
    if 0 <= k < before.len() && before[k].pattern == pattern && (forall|j: int|
        0 <= j < k ==> (#[trigger] before[j]).pattern != pattern) {
        lemma_pattern_place(before, pattern, 0, k);
    }
}

/// The texts of the filters that were had are kept in order, and those that
/// were not had are passed over.
pub proof fn law_texts_that_were_had(
    a: Seq<Result<String, String>>,
    b: Seq<Result<String, String>>,
    body: String,
    error: String,
)
    ensures
        compiled::bodies(a + b) == compiled::bodies(a) + compiled::bodies(b),
        compiled::bodies(seq![Ok::<String, String>(body)]) == seq![body@],
        compiled::bodies(seq![Err::<String, String>(error)]).len() == 0,
        compiled::bodies(Seq::empty()).len() == 0,
    decreases b.len(),
{
    let had = seq![Ok::<String, String>(body)];
    let not_had = seq![Err::<String, String>(error)];
    assert(had.drop_last() =~= Seq::<Result<String, String>>::empty());
    assert(not_had.drop_last() =~= Seq::<Result<String, String>>::empty());
    assert(compiled::bodies(had.drop_last()) =~= Seq::<Seq<char>>::empty());
    assert(had.last() == Ok::<String, String>(body));
    assert(not_had.last() == Err::<String, String>(error));
    assert(compiled::bodies(had) =~= seq![body@]);
    if b.len() == 0 {
        assert(a + b =~= a);
        assert(compiled::bodies(a) + compiled::bodies(b) =~= compiled::bodies(a));
    } else {
        law_texts_that_were_had(a, b.drop_last(), body, error);
        assert((a + b).drop_last() =~= a + b.drop_last());
        assert((a + b).last() == b.last());
        assert(compiled::bodies(a + b) =~= compiled::bodies(a) + compiled::bodies(b));
    }
}

/// The texts of filters are read one behind the other, line by line, and
/// reading ends at the first error.
pub proof fn law_filters_are_read_in_order(
    state: ParseView,
    a: Seq<Seq<char>>,
    b: Seq<Seq<char>>,
    body: Seq<char>,
)
    ensures
        ({
            let first = compiled::with_bodies(state, a);
            &&& first.1 is None ==> compiled::with_bodies(state, a + b) == compiled::with_bodies(
                first.0,
                b,
            )
            &&& first.1 is Some ==> compiled::with_bodies(state, a + b) == first
        }),
        compiled::with_bodies(state, Seq::empty()) == (state, None::<Seq<char>>),
        compiled::with_bodies(state, seq![body]) == state.with_lines(
            text::lines(body),
            RuleOrigin::RemoteFilter,
        ),
    decreases b.len(),
{
    assert(seq![body].drop_last() =~= Seq::<Seq<char>>::empty());
    assert(compiled::with_bodies(state, seq![body].drop_last()) == (state, None::<Seq<char>>));
    if b.len() == 0 {
        assert(a + b =~= a);
    } else {
        law_filters_are_read_in_order(state, a, b.drop_last(), body);
        assert((a + b).drop_last() =~= a + b.drop_last());
        assert((a + b).last() == b.last());
    }
}

/// The filters are read before the local rules, from no rules at all, and an
/// error of either is the error of the whole.
pub proof fn law_filters_before_local_rules(
    start: ParseView,
    bodies: Seq<Seq<char>>,
    local: Seq<Seq<char>>,
)
    requires
        start.rules.overrides == Map::<Seq<char>, OverrideView>::empty(),
        start.rules.block_exact == Set::<Seq<char>>::empty(),
        start.rules.block_subdomains == Set::<Seq<char>>::empty(),
        start.rules.allow_exact == Set::<Seq<char>>::empty(),
        start.rules.allow_subdomains == Set::<Seq<char>>::empty(),
        start.rules.block_rules == Seq::<RuleView>::empty(),
        start.rules.allow_rules == Seq::<RuleView>::empty(),
        start.disabled == Set::<Seq<char>>::empty(),
    ensures
        ({
            let remote = compiled::with_bodies(start, bodies);
            let all = remote.0.with_lines(local, RuleOrigin::UserRule);
            let got = compiled::parsed(bodies, local);
            &&& remote.1 is Some ==> got == Err::<ParseView, Seq<char>>(remote.1.unwrap())
            &&& remote.1 is None && all.1 is Some ==> got == Err::<ParseView, Seq<char>>(
                all.1.unwrap(),
            )
            &&& remote.1 is None && all.1 is None ==> got == Ok::<ParseView, Seq<char>>(all.0)
        }),
{
    assert(start == (ParseView { rules: rule_sets::no_rules(), disabled: Set::empty() }));
}

/// What is compiled of a configuration: the rules that are not disabled, the
/// rewrites of all three kinds, and how blocked queries are answered, for 60
/// seconds.
pub proof fn law_what_is_compiled(config: AdblockView, bodies: Seq<Seq<char>>)
    ensures
        ({
            let got = compiled::compiled(config, bodies);
            let state = compiled::parsed(bodies, config.user_rules);
            let domains = compiled::domain_rewrites(config.filtering.rewrites);
            let addresses = compiled::answer_ip_rewrites(config.filtering.rewrites);
            let names = compiled::cname_rewrites(config.filtering.rewrites);
            &&& got is Ok <==> state is Ok && domains is Ok && addresses is Ok && names is Ok
            &&& got is Ok ==> {
                let set = got->Ok_0;
                &&& set.rules == state->Ok_0.rules.without_disabled(state->Ok_0.disabled)
                &&& set.domain_rewrites == domains->Ok_0
                &&& set.answer_ip_rewrites == addresses->Ok_0
                &&& set.cname_rewrites == names->Ok_0
                &&& set.blocking_mode == config.filtering.blocking_mode
                &&& set.blocking_ipv4 == config.filtering.blocking_ipv4
                &&& set.blocking_ipv6 == config.filtering.blocking_ipv6
                &&& set.block_ttl == 60
            }
            &&& state is Err ==> got == Err::<CompiledView, Seq<char>>(state->Err_0)
            &&& state is Ok && domains is Err ==> got == Err::<CompiledView, Seq<char>>(
                domains->Err_0,
            )
            &&& state is Ok && domains is Ok && addresses is Err ==> got == Err::<
                CompiledView,
                Seq<char>,
            >(addresses->Err_0)
            &&& state is Ok && domains is Ok && addresses is Ok && names is Err ==> got == Err::<
                CompiledView,
                Seq<char>,
            >(names->Err_0)
        }),
{
}

/// What `$badfilter` disables: what stands before it, without the commas at its
/// end.
pub proof fn law_what_is_disabled(t: Seq<char>)
    ensures
        !("$badfilter"@).is_suffix_of(t) ==> rule_sets::disabled_text(t + "$badfilter"@)
            == text::trim_back(t, CharClass::Is(',')),
        rule_sets::disabled_text(t + "$badfilter"@) == rule_sets::disabled_text(t),
{
    reveal_strlit("$badfilter");
    text_laws::law_drop_copies("$badfilter"@, t);
}

/// To take a rule about a domain away takes the domain from those that it
/// allows or blocks, with its subdomains where the rule is about them, and
/// changes nothing else.
pub proof fn law_taking_a_domain_away(
    rules: SetsView,
    d: Seq<char>,
    subdomains: bool,
    x: Seq<char>,
)
    ensures
        ({
            let allow = rules.without_domain_rule(RuleDisposition::Allow, d, subdomains);
            let block = rules.without_domain_rule(RuleDisposition::Block, d, subdomains);
            &&& allow.allow_exact.contains(x) == (x != d && rules.allow_exact.contains(x))
            &&& allow.allow_subdomains.contains(x) == (!(subdomains && x == d)
                && rules.allow_subdomains.contains(x))
            &&& allow.block_exact == rules.block_exact && allow.block_subdomains
                == rules.block_subdomains
            &&& block.block_exact.contains(x) == (x != d && rules.block_exact.contains(x))
            &&& block.block_subdomains.contains(x) == (!(subdomains && x == d)
                && rules.block_subdomains.contains(x))
            &&& block.allow_exact == rules.allow_exact && block.allow_subdomains
                == rules.allow_subdomains
            &&& allow.overrides == rules.overrides && block.overrides == rules.overrides
            &&& allow.block_rules == rules.block_rules && block.block_rules == rules.block_rules
            &&& allow.allow_rules == rules.allow_rules && block.allow_rules == rules.allow_rules
        }),
{
}

} // verus!
