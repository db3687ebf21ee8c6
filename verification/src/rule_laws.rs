//! What holds of the lines of filter lists: what a pattern is as a regular
//! expression, what each modifier says, and which lines are rules.
use vstd::prelude::*;

use crate::domain;
use crate::domain::PatternView;
use crate::ip;
use crate::rule;
use crate::rule::{ModifiersView, RuleDisposition, RuleView, TypesView};
use crate::text;
use crate::text::CharClass;
use crate::text_laws;
use crate::text_laws::{all_of, is_bare_domain, none_of};

verus! {

/// Texts one behind the other.
pub open spec fn glued(parts: Seq<Seq<char>>) -> Seq<char>
    decreases parts.len(),
{
    if parts.len() == 0 {
        Seq::empty()
    } else {
        glued(parts.drop_last()) + parts.last()
    }
}

/// Whether `piece` is what a character stands for in an expression, at the end
/// of the pattern or before it.
pub open spec fn stands_for(c: char, at_end: bool, piece: Seq<char>) -> bool {
    &&& c == '*' ==> piece == seq!['.', '*']
    &&& c == '^' ==> piece == seq!['$']
    &&& c == '|' && at_end ==> piece == seq!['$']
    &&& c == '|' && !at_end ==> piece == seq!['\\', '|']
    &&& (c == '.' || c == '?' || c == '+' || c == '(' || c == ')' || c == '[' || c == ']' || c
        == '{' || c == '}' || c == '\\') ==> piece == seq!['\\', c]
    &&& !(c == '*' || c == '^' || c == '|' || c == '.' || c == '?' || c == '+' || c == '(' || c
        == ')' || c == '[' || c == ']' || c == '{' || c == '}' || c == '\\') ==> piece == seq![c]
}

/// Whether `start` is what an expression starts with for the first `from`
/// characters of a pattern.
pub open spec fn starts_as(pattern: Seq<char>, start: Seq<char>, from: int) -> bool {
    if pattern.len() >= 2 && pattern[0] == '|' && pattern[1] == '|' {
        start == "^(?:^|.*\\.)"@ && from == 2
    } else if pattern.len() >= 1 && pattern[0] == '|' {
        start == "^"@ && from == 1
    } else if pattern.len() >= 1 && pattern[0] == '.' {
        start == "^(?:.*\\.)?"@ && from == 1
    } else {
        start == "^.*"@ && from == 0
    }
}

proof fn lemma_body(pattern: Seq<char>, from: int, pieces: Seq<Seq<char>>)
    requires
        0 <= from,
        from + pieces.len() <= pattern.len(),
        forall|i: int|
            0 <= i < pieces.len() ==> stands_for(
                pattern[from + i],
                from + i + 1 == pattern.len(),
                #[trigger] pieces[i],
            ),
    ensures
        rule::expression_body(pattern, from, from + pieces.len()) == glued(pieces),
    decreases pieces.len(),
{
    if pieces.len() > 0 {
        let front = pieces.drop_last();
        assert forall|i: int| 0 <= i < front.len() implies stands_for(
            pattern[from + i],
            from + i + 1 == pattern.len(),
            #[trigger] front[i],
        ) by {
            assert(front[i] == pieces[i]);
        }
        lemma_body(pattern, from, front);
        let last = pieces.len() - 1;
        reveal_strlit(".*");
        assert(".*"@ =~= seq!['.', '*']);
        assert(stands_for(
            pattern[from + last],
            from + last + 1 == pattern.len(),
            pieces[last],
        ));
        assert(rule::expression_piece(pattern, from + last) == pieces[last]);
    }
}

/// The expression of a pattern is put together character by character: what
/// stands for each depends on the character alone, and on whether it is the
/// last, whatever stands before it or behind it. It is closed at its end.
pub proof fn law_expression_by_characters(
    pattern: Seq<char>,
    start: Seq<char>,
    from: int,
    pieces: Seq<Seq<char>>,
)
    requires
        starts_as(pattern, start, from),
        pieces.len() == pattern.len() - from,
        forall|i: int|
            0 <= i < pieces.len() ==> stands_for(
                pattern[from + i],
                from + i + 1 == pattern.len(),
                #[trigger] pieces[i],
            ),
    ensures
        ({
            let s = start + glued(pieces);
            rule::expression_text(pattern) == if s.last() == '$' {
                s
            } else {
                s + ".*$"@
            }
        }),
{
    reveal_strlit("||");
    assert(("||"@).is_prefix_of(pattern) == (pattern.len() >= 2 && pattern[0] == '|' && pattern[1]
        == '|')) by {
        if ("||"@).is_prefix_of(pattern) {
            assert(pattern.subrange(0, 2)[0] == '|');
            assert(pattern.subrange(0, 2)[1] == '|');
        }
        if pattern.len() >= 2 && pattern[0] == '|' && pattern[1] == '|' {
            assert("||"@ =~= pattern.subrange(0, 2));
        }
    }
    assert(rule::expression_start(pattern) == (start, from));
    lemma_body(pattern, from, pieces);
    reveal_strlit("^(?:^|.*\\.)");
    reveal_strlit("^");
    reveal_strlit("^(?:.*\\.)?");
    reveal_strlit("^.*");
    assert(start.len() > 0);
}

proof fn lemma_glued(a: Seq<Seq<char>>, b: Seq<Seq<char>>)
    ensures
        glued(a + b) == glued(a) + glued(b),
    decreases b.len(),
{
    if b.len() == 0 {
        assert(a + b =~= a);
        assert(glued(a) + glued(b) =~= glued(a));
    } else {
        lemma_glued(a, b.drop_last());
        assert((a + b).drop_last() =~= a + b.drop_last());
        assert(glued(a + b) =~= glued(a) + glued(b));
    }
}

/// Every `*` of a pattern stands for any text: the expression is that of what
/// stands before it, `.*`, and that of what stands behind it.
pub proof fn law_every_star_is_any_text(
    p: Seq<char>,
    q: Seq<char>,
    start: Seq<char>,
    from: int,
    before: Seq<Seq<char>>,
    behind: Seq<Seq<char>>,
)
    requires
        starts_as(p + seq!['*'] + q, start, from),
        before.len() == p.len() - from,
        behind.len() == q.len(),
        forall|i: int|
            0 <= i < before.len() ==> stands_for(p[from + i], false, #[trigger] before[i]),
        forall|i: int|
            0 <= i < behind.len() ==> stands_for(q[i], i + 1 == q.len(), #[trigger] behind[i]),
    ensures
        ({
            let s = start + glued(before) + seq!['.', '*'] + glued(behind);
            rule::expression_text(p + seq!['*'] + q) == if s.last() == '$' {
                s
            } else {
                s + ".*$"@
            }
        }),
{
    let pattern = p + seq!['*'] + q;
    let star = seq![seq!['.', '*']];
    let pieces = before + star + behind;
    assert forall|i: int| 0 <= i < pieces.len() implies stands_for(
        pattern[from + i],
        from + i + 1 == pattern.len(),
        #[trigger] pieces[i],
    ) by {
        if i < before.len() {
            assert(pieces[i] == before[i]);
            assert(pattern[from + i] == p[from + i]);
        } else if i == before.len() {
            assert(pieces[i] == star[0]);
            assert(pattern[from + i] == '*');
        } else {
            let k = i - before.len() - 1;
            assert(pieces[i] == behind[k]);
            assert(pattern[from + i] == q[k]);
        }
    }
    law_expression_by_characters(pattern, start, from, pieces);
    lemma_glued(before + star, behind);
    lemma_glued(before, star);
    assert(star.drop_last() =~= Seq::<Seq<char>>::empty());
    assert(glued(star.drop_last()) =~= Seq::<char>::empty());
    assert(glued(star) =~= seq!['.', '*']);
    assert(start + glued(pieces) =~= start + glued(before) + seq!['.', '*'] + glued(behind));
}

/// Between two slashes stands a regular expression, taken as it is.
pub proof fn law_slashed_is_taken_as_it_is(body: Seq<char>)
    ensures
        rule::expression_of(seq!['/'] + body + seq!['/']) == body,
{
    let s = seq!['/'] + body + seq!['/'];
    assert(s.subrange(1, s.len() - 1) =~= body);
}

proof fn lemma_modifier_words()
    ensures
        ("important"@).len() == 9,
        ("important"@)[0] == 'i',
        ("badfilter"@).len() == 9,
        ("badfilter"@)[0] == 'b',
        ("dnstype="@).len() == 8,
        ("dnstype="@)[0] == 'd',
        ("dnstype="@)[1] == 'n',
        ("denyallow="@).len() == 10,
        ("denyallow="@)[0] == 'd',
        ("denyallow="@)[1] == 'e',
{
    reveal_strlit("important");
    reveal_strlit("badfilter");
    reveal_strlit("dnstype=");
    reveal_strlit("denyallow=");
}

proof fn lemma_prefix(p: Seq<char>, v: Seq<char>)
    ensures
        p.is_prefix_of(p + v),
        (p + v).skip(p.len() as int) == v,
{
    assert(p =~= (p + v).subrange(0, p.len() as int));
    assert((p + v).skip(p.len() as int) =~= v);
}

proof fn lemma_unprefixed(p: Seq<char>, s: Seq<char>, i: int)
    requires
        0 <= i < p.len(),
        i >= s.len() || s[i] != p[i],
    ensures
        !p.is_prefix_of(s),
{
    if p.is_prefix_of(s) {
        assert(s.subrange(0, p.len() as int)[i] == s[i]);
    }
}

/// Each modifier says one thing of a rule and leaves the rest as it was.
pub proof fn law_modifiers_say_one_thing(parsed: ModifiersView, value: Seq<char>)
    ensures
        rule::modifier_step(parsed, "important"@) == Ok::<ModifiersView, Seq<char>>(
            (ModifiersView {
                important: true,
                dnstypes: parsed.dnstypes,
                denyallow: parsed.denyallow,
            }),
        ),
        rule::modifier_step(parsed, "badfilter"@) == Ok::<ModifiersView, Seq<char>>(
            (ModifiersView {
                important: false,
                dnstypes: parsed.dnstypes,
                denyallow: parsed.denyallow,
            }),
        ),
        rule::modifier_step(parsed, Seq::empty()) == Ok::<ModifiersView, Seq<char>>(parsed),
        rule::modifier_step(parsed, "dnstype="@ + value) == match rule::types_text(value) {
            Ok(types) => Ok::<ModifiersView, Seq<char>>(
                (ModifiersView {
                    important: parsed.important,
                    dnstypes: Some(types),
                    denyallow: parsed.denyallow,
                }),
            ),
            Err(e) => Err(e),
        },
        rule::modifier_step(parsed, "denyallow="@ + value) == match rule::pattern_list(
            text::split(value, CharClass::Is('|')),
        ) {
            Ok(list) => Ok::<ModifiersView, Seq<char>>(
                (ModifiersView {
                    important: parsed.important,
                    dnstypes: parsed.dnstypes,
                    denyallow: list,
                }),
            ),
            Err(e) => Err(e),
        },
        value.len() > 0 && value != "important"@ && value != "badfilter"@ && !("dnstype="@)
            .is_prefix_of(value) && !("denyallow="@).is_prefix_of(value) ==> rule::modifier_step(
            parsed,
            value,
        ) == Err::<ModifiersView, Seq<char>>("unsupported modifier: "@ + value),
{
    lemma_modifier_words();
    assert("important"@ != "badfilter"@) by {
        assert(("important"@)[0] != ("badfilter"@)[0]);
    }
    let types = "dnstype="@ + value;
    lemma_prefix("dnstype="@, value);
    assert(types[0] == 'd');
    assert(types != "important"@ && types != "badfilter"@) by {
        assert(types[0] != ("important"@)[0] && types[0] != ("badfilter"@)[0]);
    }
    let domains = "denyallow="@ + value;
    lemma_prefix("denyallow="@, value);
    assert(domains[0] == 'd' && domains[1] == 'e');
    assert(domains != "important"@ && domains != "badfilter"@) by {
        assert(domains[0] != ("important"@)[0] && domains[0] != ("badfilter"@)[0]);
    }
    lemma_unprefixed("dnstype="@, domains, 1);
}

/// The modifier at a place of a list, without the white space around it.
pub open spec fn modifier_at(parts: Seq<Seq<char>>, i: int) -> Seq<char> {
    text::trim(parts[i], CharClass::White)
}

proof fn lemma_modifier_last(parts: Seq<Seq<char>>)
    requires
        parts.len() > 0,
        rule::modifier_list(parts) is Ok,
    ensures
        rule::modifier_list(parts.drop_last()) is Ok,
        rule::modifier_step(
            rule::modifier_list(parts.drop_last())->Ok_0,
            modifier_at(parts, parts.len() - 1),
        ) == rule::modifier_list(parts),
        forall|i: int|
            0 <= i < parts.len() - 1 ==> modifier_at(parts.drop_last(), i) == #[trigger] modifier_at(
                parts,
                i,
            ),
{
}

/// A rule whose modifiers can be read is important where `important` stands
/// among them, wherever it does, and no `badfilter` stands behind it; and it is
/// not where none stands, or `badfilter` behind.
pub proof fn law_important_wherever_it_stands(parts: Seq<Seq<char>>, i: int)
    requires
        rule::modifier_list(parts) is Ok,
        0 <= i < parts.len(),
    ensures
        modifier_at(parts, i) == "important"@ && (forall|j: int|
            i < j < parts.len() ==> #[trigger] modifier_at(parts, j) != "badfilter"@)
            ==> rule::modifier_list(parts)->Ok_0.important,
        modifier_at(parts, i) == "badfilter"@ && (forall|j: int|
            i < j < parts.len() ==> #[trigger] modifier_at(parts, j) != "important"@)
            ==> !rule::modifier_list(parts)->Ok_0.important,
    decreases parts.len(),
{
    lemma_modifier_words();
    lemma_modifier_last(parts);
    assert("important"@ != "badfilter"@) by {
        assert(("important"@)[0] != ("badfilter"@)[0]);
    }
    let last = parts.len() - 1;
    let front = parts.drop_last();
    if i < last {
        law_important_wherever_it_stands(front, i);
        assert(modifier_at(front, i) == modifier_at(parts, i));
        let m = modifier_at(parts, last);
        if forall|j: int| i < j < parts.len() ==> #[trigger] modifier_at(parts, j) != "badfilter"@ {
            assert(m != "badfilter"@);
            assert forall|j: int| i < j < front.len() implies #[trigger] modifier_at(front, j)
                != "badfilter"@ by {
                assert(modifier_at(front, j) == modifier_at(parts, j));
            }
        }
        if forall|j: int| i < j < parts.len() ==> #[trigger] modifier_at(parts, j) != "important"@ {
            assert(m != "important"@);
            assert forall|j: int| i < j < front.len() implies #[trigger] modifier_at(front, j)
                != "important"@ by {
                assert(modifier_at(front, j) == modifier_at(parts, j));
            }
        }
    }
}

/// A rule without `important` among its modifiers is not important.
pub proof fn law_not_important(parts: Seq<Seq<char>>)
    requires
        rule::modifier_list(parts) is Ok,
        forall|j: int| 0 <= j < parts.len() ==> #[trigger] modifier_at(parts, j) != "important"@,
    ensures
        !rule::modifier_list(parts)->Ok_0.important,
    decreases parts.len(),
{
    if parts.len() > 0 {
        lemma_modifier_last(parts);
        let front = parts.drop_last();
        assert forall|j: int| 0 <= j < front.len() implies #[trigger] modifier_at(front, j)
            != "important"@ by {
            assert(modifier_at(front, j) == modifier_at(parts, j));
        }
        law_not_important(front);
        assert(modifier_at(parts, parts.len() - 1) != "important"@);
    }
}

/// The types of a rule are those of its last `dnstype=`, whatever other
/// modifiers stand around it, and it is for all types where there is none.
pub proof fn law_types_of_a_rule(parts: Seq<Seq<char>>, i: int, value: Seq<char>)
    requires
        rule::modifier_list(parts) is Ok,
    ensures
        0 <= i < parts.len() && modifier_at(parts, i) == "dnstype="@ + value && (forall|j: int|
            i < j < parts.len() ==> !("dnstype="@).is_prefix_of(#[trigger] modifier_at(parts, j)))
            ==> rule::types_text(value) is Ok && rule::modifier_list(parts)->Ok_0.dnstypes == Some(
            rule::types_text(value)->Ok_0,
        ),
        (forall|j: int|
            0 <= j < parts.len() ==> !("dnstype="@).is_prefix_of(#[trigger] modifier_at(parts, j)))
            ==> rule::modifier_list(parts)->Ok_0.dnstypes is None,
    decreases parts.len(),
{
    lemma_modifier_words();
    if parts.len() > 0 {
        lemma_modifier_last(parts);
        let last = parts.len() - 1;
        let front = parts.drop_last();
        law_types_of_a_rule(front, i, value);
        assert forall|j: int| 0 <= j < front.len() implies #[trigger] modifier_at(front, j)
            == modifier_at(parts, j) by {}
        if 0 <= i < parts.len() && modifier_at(parts, i) == "dnstype="@ + value {
            law_modifiers_say_one_thing(rule::modifier_list(front)->Ok_0, value);
            if i < last && (forall|j: int|
                i < j < parts.len() ==> !("dnstype="@).is_prefix_of(
                    #[trigger] modifier_at(parts, j),
                )) {
                assert(!("dnstype="@).is_prefix_of(modifier_at(parts, last)));
            }
        }
        if forall|j: int|
            0 <= j < parts.len() ==> !("dnstype="@).is_prefix_of(#[trigger] modifier_at(parts, j)) {
            assert(!("dnstype="@).is_prefix_of(modifier_at(parts, last)));
        }
    }
}

/// The domains that a rule leaves alone are those of its last `denyallow=`,
/// whatever other modifiers stand around it, and none where there is none.
pub proof fn law_domains_left_alone(parts: Seq<Seq<char>>, i: int, value: Seq<char>)
    requires
        rule::modifier_list(parts) is Ok,
    ensures
        0 <= i < parts.len() && modifier_at(parts, i) == "denyallow="@ + value && (forall|j: int|
            i < j < parts.len() ==> !("denyallow="@).is_prefix_of(
                #[trigger] modifier_at(parts, j),
            )) ==> rule::pattern_list(text::split(value, CharClass::Is('|')))
            == Ok::<Seq<PatternView>, Seq<char>>(rule::modifier_list(parts)->Ok_0.denyallow),
        (forall|j: int|
            0 <= j < parts.len() ==> !("denyallow="@).is_prefix_of(
                #[trigger] modifier_at(parts, j),
            )) ==> rule::modifier_list(parts)->Ok_0.denyallow.len() == 0,
    decreases parts.len(),
{
    lemma_modifier_words();
    if parts.len() > 0 {
        lemma_modifier_last(parts);
        let last = parts.len() - 1;
        let front = parts.drop_last();
        law_domains_left_alone(front, i, value);
        assert forall|j: int| 0 <= j < front.len() implies #[trigger] modifier_at(front, j)
            == modifier_at(parts, j) by {}
        if 0 <= i < parts.len() && modifier_at(parts, i) == "denyallow="@ + value {
            law_modifiers_say_one_thing(rule::modifier_list(front)->Ok_0, value);
            if i < last && (forall|j: int|
                i < j < parts.len() ==> !("denyallow="@).is_prefix_of(
                    #[trigger] modifier_at(parts, j),
                )) {
                assert(!("denyallow="@).is_prefix_of(modifier_at(parts, last)));
            }
        }
        if forall|j: int|
            0 <= j < parts.len() ==> !("denyallow="@).is_prefix_of(
                #[trigger] modifier_at(parts, j),
            ) {
            assert(!("denyallow="@).is_prefix_of(modifier_at(parts, last)));
        }
    }
}

/// Whether a modifier can be read.
pub open spec fn is_readable(m: Seq<char>) -> bool {
    ||| m.len() == 0
    ||| m == "important"@
    ||| m == "badfilter"@
    ||| ("dnstype="@).is_prefix_of(m) && rule::types_text(m.skip(8)) is Ok
    ||| ("denyallow="@).is_prefix_of(m) && rule::pattern_list(
        text::split(m.skip(10), CharClass::Is('|')),
    ) is Ok
}

/// The modifiers of a rule can be read where each of them can, and else the
/// first that cannot says why.
pub proof fn law_readable_modifiers(parts: Seq<Seq<char>>, i: int, any: ModifiersView)
    ensures
        rule::modifier_list(parts) is Ok <==> (forall|j: int|
            0 <= j < parts.len() ==> is_readable(#[trigger] modifier_at(parts, j))),
        0 <= i < parts.len() && !is_readable(modifier_at(parts, i)) && (forall|j: int|
            0 <= j < i ==> is_readable(#[trigger] modifier_at(parts, j))) ==> rule::modifier_list(
            parts,
        ) is Err && rule::modifier_list(parts) == rule::modifier_step(any, modifier_at(parts, i)),
    decreases parts.len(),
{
    lemma_modifier_words();
    if parts.len() > 0 {
        let last = parts.len() - 1;
        let front = parts.drop_last();
        let m = modifier_at(parts, last);
        law_readable_modifiers(front, i, any);
        assert forall|j: int| 0 <= j < front.len() implies #[trigger] modifier_at(front, j)
            == modifier_at(parts, j) by {}
        if rule::modifier_list(front) is Ok && is_readable(m) {
            assert forall|j: int| 0 <= j < parts.len() implies is_readable(
                #[trigger] modifier_at(parts, j),
            ) by {
                if j < last {
                    assert(is_readable(modifier_at(front, j)));
                }
            }
        }
        if forall|j: int| 0 <= j < parts.len() ==> is_readable(#[trigger] modifier_at(parts, j)) {
            assert(is_readable(modifier_at(parts, last)));
            assert forall|j: int| 0 <= j < front.len() implies is_readable(
                #[trigger] modifier_at(front, j),
            ) by {
                assert(is_readable(modifier_at(parts, j)));
            }
        }
        if !("dnstype="@).is_prefix_of(m) || !("denyallow="@).is_prefix_of(m) {
        } else {
            assert(m.subrange(0, 8)[1] == m[1]);
            assert(m.subrange(0, 10)[1] == m[1]);
        }
        if rule::modifier_list(front) is Ok {
            assert(rule::modifier_step(rule::modifier_list(front)->Ok_0, m) is Ok == is_readable(m));
        }
    }
}

/// The modifiers of a rule stand between commas.
pub proof fn law_modifiers_stand_between_commas(s: Seq<char>)
    ensures
        rule::modifiers_text(Some(s)) == rule::modifier_list(text::split(s, CharClass::Is(','))),
        rule::modifiers_text(None) == Ok::<ModifiersView, Seq<char>>(
            (ModifiersView { important: false, dnstypes: None, denyallow: Seq::empty() }),
        ),
{
}

/// The domains that `denyallow=` names are read one by one, and the first that
/// is none says why.
pub proof fn law_domain_lists(parts: Seq<Seq<char>>, i: int)
    ensures
        rule::pattern_list(parts) is Ok <==> (forall|j: int|
            0 <= j < parts.len() ==> domain::pattern_text(#[trigger] parts[j]) is Ok),
        rule::pattern_list(parts) is Ok ==> rule::pattern_list(parts)->Ok_0.len() == parts.len(),
        rule::pattern_list(parts) is Ok && 0 <= i < parts.len() ==> domain::pattern_text(parts[i])
            == Ok::<PatternView, Seq<char>>(rule::pattern_list(parts)->Ok_0[i]),
        0 <= i < parts.len() && domain::pattern_text(parts[i]) is Err && (forall|j: int|
            0 <= j < i ==> domain::pattern_text(#[trigger] parts[j]) is Ok) ==> rule::pattern_list(
            parts,
        ) == Err::<Seq<PatternView>, Seq<char>>(domain::pattern_text(parts[i])->Err_0),
    decreases parts.len(),
{
    if parts.len() > 0 {
        let front = parts.drop_last();
        let last = parts.len() - 1;
        law_domain_lists(front, i);
        assert forall|j: int| 0 <= j < front.len() implies #[trigger] front[j] == parts[j] by {}
        if forall|j: int| 0 <= j < parts.len() ==> domain::pattern_text(#[trigger] parts[j]) is Ok {
            assert(domain::pattern_text(parts[last]) is Ok);
            assert forall|j: int| 0 <= j < front.len() implies domain::pattern_text(
                #[trigger] front[j],
            ) is Ok by {
                assert(domain::pattern_text(parts[j]) is Ok);
            }
        }
        if rule::pattern_list(front) is Ok && domain::pattern_text(parts[last]) is Ok {
            assert forall|j: int| 0 <= j < parts.len() implies domain::pattern_text(
                #[trigger] parts[j],
            ) is Ok by {
                if j < last {
                    assert(domain::pattern_text(front[j]) is Ok);
                }
            }
        }
    }
}

/// The types that names stand for: all of those that the names give, and no
/// other; and there are none where one of the names gives none.
pub proof fn law_named_types(values: Seq<Seq<char>>, code: u16)
    ensures
        rule::named_types(values) is Ok <==> (forall|j: int|
            0 <= j < values.len() ==> rule::record_dnstype_named(
                text::upper(text::trim_front(#[trigger] values[j], CharClass::Is('~'))),
            ) is Some),
        rule::named_types(values) is Ok ==> (rule::named_types(values)->Ok_0.contains(code)
            <==> exists|j: int|
            0 <= j < values.len() && rule::record_dnstype_named(
                text::upper(text::trim_front(#[trigger] values[j], CharClass::Is('~'))),
            ) == Some(code)),
    decreases values.len(),
{
    if values.len() > 0 {
        let front = values.drop_last();
        let last = values.len() - 1;
        law_named_types(front, code);
        let named = |v: Seq<char>|
            rule::record_dnstype_named(text::upper(text::trim_front(v, CharClass::Is('~'))));
        assert forall|j: int| 0 <= j < front.len() implies #[trigger] front[j] == values[j] by {}
        assert(rule::dnstype_name(values[last]) == text::upper(
            text::trim_front(values[last], CharClass::Is('~')),
        ));
        if forall|j: int|
            0 <= j < values.len() ==> rule::record_dnstype_named(
                text::upper(text::trim_front(#[trigger] values[j], CharClass::Is('~'))),
            ) is Some {
            assert forall|j: int| 0 <= j < front.len() implies rule::record_dnstype_named(
                text::upper(text::trim_front(#[trigger] front[j], CharClass::Is('~'))),
            ) is Some by {
                assert(named(values[j]) is Some);
            }
            assert(named(values[last]) is Some);
        }
        if rule::named_types(values) is Ok {
            assert(rule::named_types(front) is Ok);
            assert forall|j: int| 0 <= j < values.len() implies rule::record_dnstype_named(
                text::upper(text::trim_front(#[trigger] values[j], CharClass::Is('~'))),
            ) is Some by {
                if j < last {
                    assert(named(front[j]) is Some);
                }
            }
            let types = rule::named_types(values)->Ok_0;
            let before = rule::named_types(front)->Ok_0;
            if types.contains(code) {
                if before.contains(code) {
                    let j = choose|j: int|
                        0 <= j < front.len() && rule::record_dnstype_named(
                            text::upper(text::trim_front(#[trigger] front[j], CharClass::Is('~'))),
                        ) == Some(code);
                    assert(named(values[j]) == Some(code));
                } else {
                    assert(named(values[last]) == Some(code));
                }
            }
            if exists|j: int|
                0 <= j < values.len() && rule::record_dnstype_named(
                    text::upper(text::trim_front(#[trigger] values[j], CharClass::Is('~'))),
                ) == Some(code) {
                let j = choose|j: int|
                    0 <= j < values.len() && rule::record_dnstype_named(
                        text::upper(text::trim_front(#[trigger] values[j], CharClass::Is('~'))),
                    ) == Some(code);
                if j < last {
                    assert(named(front[j]) == Some(code));
                }
            }
        }
    }
}

/// What `dnstype=` says: the types that it names, or with a tilde before each
/// all but those; some with and some without is an error.
pub proof fn law_dnstype_values(value: Seq<char>, i: int, k: int)
    ensures
        ({
            let values = text::split(value, CharClass::Is('|')).filter(
                |t: Seq<char>| t.len() > 0,
            );
            &&& 0 <= i < values.len() && 0 <= k < values.len() && values[i][0] == '~'
                && values[k][0] != '~' ==> rule::types_text(value) == Err::<TypesView, Seq<char>>(
                "mixed include/exclude dnstype modifier is unsupported: "@ + value,
            )
            &&& values.len() > 0 && (forall|j: int|
                0 <= j < values.len() ==> (#[trigger] values[j])[0] != '~') ==> rule::types_text(
                value,
            ) == match rule::named_types(values) {
                Ok(types) => Ok::<TypesView, Seq<char>>(TypesView::Include(types)),
                Err(e) => Err(e),
            }
            &&& (forall|j: int| 0 <= j < values.len() ==> (#[trigger] values[j])[0] == '~')
                ==> rule::types_text(value) == match rule::named_types(values) {
                Ok(types) => Ok::<TypesView, Seq<char>>(TypesView::Exclude(types)),
                Err(e) => Err(e),
            }
        }),
{
    let full = |t: Seq<char>| t.len() > 0;
    let parts = text::split(value, CharClass::Is('|'));
    let values = parts.filter(full);
    assert(values == text::nonempty(parts));
    assert forall|j: int| 0 <= j < values.len() implies (#[trigger] values[j]).len() > 0 by {
        parts.lemma_filter_pred(full, j);
    }
    if 0 <= i < values.len() && 0 <= k < values.len() && values[i][0] == '~' && values[k][0] != '~' {
        assert(rule::has_tilde(values[i]) && !rule::has_tilde(values[k]));
    }
    if values.len() > 0 && (forall|j: int|
        0 <= j < values.len() ==> (#[trigger] values[j])[0] != '~') {
        assert(!rule::has_tilde(values[0]));
    }
}

/// A line is parted at its first `$` in a pattern and modifiers; without one
/// there are none.
pub proof fn law_lines_are_parted(p: Seq<char>, m: Seq<char>)
    requires
        none_of(p, CharClass::Is('$')),
        p.len() == 0 || p[0] != '/',
    ensures
        rule::split_rule(p + seq!['$'] + m) == Ok::<
            (Seq<char>, Option<Seq<char>>),
            Seq<char>,
        >((p, Some(m))),
        rule::split_rule(p) == Ok::<(Seq<char>, Option<Seq<char>>), Seq<char>>((p, None)),
{
    let s = p + seq!['$'] + m;
    text_laws::law_index(p, '$', m);
    if p.len() > 0 {
        assert(s[0] == p[0]);
    }
    assert(s.take(p.len() as int) =~= p);
    assert(s.skip((p.len() + 1) as int) =~= m);
}

/// The places of a text at which a backslash escapes what follows: those that
/// stand where nothing is escaped.
pub open spec fn is_escape(s: Seq<char>, from: int, i: int) -> bool
    decreases i + 1 - from,
{
    from <= i && s[i] == '\\' && !is_escape(s, from, i - 1)
}

proof fn lemma_regex_end(line: Seq<char>, i: int, end: int)
    requires
        1 <= i <= end < line.len(),
        !is_escape(line, 1, i - 1),
        line[end] == '/',
        end + 1 == line.len() || line[end + 1] == '$',
        !is_escape(line, 1, end - 1),
        forall|k: int|
            i <= k < end && line[k] == '/' && #[trigger] line[k + 1] == '$' ==> is_escape(
                line,
                1,
                k - 1,
            ),
    ensures
        rule::regex_end(line, i) == Some(end),
    decreases end - i,
{
    if line[i] == '\\' {
        assert(is_escape(line, 1, i));
        assert(i != end);
        if i + 1 == end {
            assert(is_escape(line, 1, end - 1));
        }
        assert(!is_escape(line, 1, i + 1));
        lemma_regex_end(line, i + 2, end);
    } else if i < end {
        assert(!is_escape(line, 1, i));
        assert(!(line[i] == '/' && line[i + 1] == '$'));
        lemma_regex_end(line, i + 1, end);
    }
}

proof fn lemma_no_regex_end(line: Seq<char>, i: int)
    requires
        1 <= i,
        i <= line.len() ==> !is_escape(line, 1, i - 1),
        forall|k: int|
            i <= k < line.len() && line[k] == '/' && (k + 1 == line.len() || line[k + 1] == '$')
                ==> #[trigger] is_escape(line, 1, k - 1),
    ensures
        rule::regex_end(line, i) is None,
    decreases line.len() + 1 - i,
{
    if i < line.len() {
        if line[i] == '\\' {
            assert(is_escape(line, 1, i));
            if i + 2 <= line.len() {
                assert(!is_escape(line, 1, i + 1));
            }
            lemma_no_regex_end(line, i + 2);
        } else {
            assert(!is_escape(line, 1, i));
            assert(!(line[i] == '/' && (i + 1 == line.len() || line[i + 1] == '$'))) by {
                if line[i] == '/' && (i + 1 == line.len() || line[i + 1] == '$') {
                    assert(is_escape(line, 1, i - 1));
                }
            }
            lemma_no_regex_end(line, i + 1);
        }
    }
}

/// A regular expression between slashes ends at the first slash that is not
/// escaped and stands at the end of the line or before a `$`, behind which the
/// modifiers stand. Without such a slash the line is refused.
pub proof fn law_expressions_end(line: Seq<char>, end: int)
    requires
        line.len() > 0,
        line[0] == '/',
    ensures
        1 <= end < line.len() && line[end] == '/' && (end + 1 == line.len() || line[end + 1] == '$')
            && !is_escape(line, 1, end - 1) && (forall|k: int|
            1 <= k < end && line[k] == '/' && #[trigger] line[k + 1] == '$' ==> is_escape(
                line,
                1,
                k - 1,
            )) ==> rule::split_rule(line) == Ok::<(Seq<char>, Option<Seq<char>>), Seq<char>>(
            (
                line.take(end + 1),
                if end + 1 == line.len() {
                    None
                } else {
                    Some(line.skip(end + 2))
                },
            ),
        ),
        (forall|k: int|
            1 <= k < line.len() && line[k] == '/' && (k + 1 == line.len() || line[k + 1] == '$')
                ==> #[trigger] is_escape(line, 1, k - 1)) ==> rule::split_rule(line) == Err::<
            (Seq<char>, Option<Seq<char>>),
            Seq<char>,
        >("unterminated regex rule: "@ + line),
{
    assert(!is_escape(line, 1, 0));
    if 1 <= end < line.len() && line[end] == '/' && (end + 1 == line.len() || line[end + 1] == '$')
        && !is_escape(line, 1, end - 1) && (forall|k: int|
        1 <= k < end && line[k] == '/' && #[trigger] line[k + 1] == '$' ==> is_escape(
            line,
            1,
            k - 1,
        )) {
        lemma_regex_end(line, 1, end);
        assert(line.take(line.len() as int) =~= line);
    }
    if forall|k: int|
        1 <= k < line.len() && line[k] == '/' && (k + 1 == line.len() || line[k + 1] == '$')
            ==> #[trigger] is_escape(line, 1, k - 1) {
        lemma_no_regex_end(line, 1);
    }
}

/// `@@` before a rule makes it one that allows; others block.
pub proof fn law_dispositions(rest: Seq<char>)
    ensures
        rule::disposition_of("@@"@ + rest) == (RuleDisposition::Allow, rest),
        !("@@"@).is_prefix_of(rest) ==> rule::disposition_of(rest) == (RuleDisposition::Block, rest),
{
    reveal_strlit("@@");
    lemma_prefix("@@"@, rest);
}

/// A line with a pattern and modifiers is a rule that carries the whole line,
/// the expression of the pattern, and what the modifiers say; what cannot be
/// read of it is its error.
pub proof fn law_pattern_rules(p: Seq<char>, m: Seq<char>, allow: bool)
    requires
        none_of(p, CharClass::Is('$')),
        p.len() > 0 && p[0] != '/' && p[0] != '@',
    ensures
        ({
            let mark = if allow {
                "@@"@
            } else {
                Seq::<char>::empty()
            };
            let line = mark + (p + seq!['$'] + m);
            let bare = mark + p;
            let pattern = rule::regex_new(rule::expression_text(p));
            &&& rule::complex_rule(line) == match rule::modifiers_text(Some(m)) {
                Err(e) => Err::<RuleView, Seq<char>>(e),
                Ok(said) => match pattern {
                    Err(e) => Err("invalid generated regex for "@ + p + ": "@ + e),
                    Ok(regex) => Ok(
                        RuleView {
                            raw_text: line,
                            regex,
                            important: said.important,
                            dnstypes: said.dnstypes,
                            denyallow: said.denyallow,
                        },
                    ),
                },
            }
            &&& rule::complex_rule(bare) == match pattern {
                Err(e) => Err::<RuleView, Seq<char>>("invalid generated regex for "@ + p + ": "@ + e),
                Ok(regex) => Ok(
                    RuleView {
                        raw_text: bare,
                        regex,
                        important: false,
                        dnstypes: None,
                        denyallow: Seq::empty(),
                    },
                ),
            }
        }),
{
    let mark = if allow {
        "@@"@
    } else {
        Seq::<char>::empty()
    };
    let rest = p + seq!['$'] + m;
    assert(rest[0] == p[0]);
    reveal_strlit("@@");
    law_dispositions(rest);
    law_dispositions(p);
    if !allow {
        assert(mark + rest =~= rest);
        assert(mark + p =~= p);
        lemma_unprefixed("@@"@, rest, 0);
        lemma_unprefixed("@@"@, p, 0);
    }
    law_lines_are_parted(p, m);
}

/// A line with an expression between slashes and without modifiers is a rule
/// with that expression, and `important` and the like behind a `$` hold of it.
pub proof fn law_expression_rules(body: Seq<char>)
    requires
        none_of(body, CharClass::Is('\\')),
        none_of(body, CharClass::Is('$')),
    ensures
        ({
            let line = seq!['/'] + body + seq!['/'];
            rule::complex_rule(line) == match rule::regex_new(body) {
                Err(e) => Err::<RuleView, Seq<char>>("invalid regex rule "@ + line + ": "@ + e),
                Ok(regex) => Ok(
                    RuleView {
                        raw_text: line,
                        regex,
                        important: false,
                        dnstypes: None,
                        denyallow: Seq::empty(),
                    },
                ),
            }
        }),
{
    let line = seq!['/'] + body + seq!['/'];
    let end = body.len() + 1;
    assert forall|k: int| 1 <= k < end implies line[k] == #[trigger] body[k - 1] by {}
    assert forall|k: int| 1 <= k <= end implies line[k] != '$' by {
        if k < end {
            assert(!CharClass::Is('$').holds(body[k - 1]));
        }
    }
    assert(!is_escape(line, 1, end - 1)) by {
        if end - 1 >= 1 {
            assert(!CharClass::Is('\\').holds(body[end - 2]));
            assert(line[end - 1] == body[end - 2]);
        }
    }
    law_expressions_end(line, end as int);
    assert(line.take((end + 1) as int) =~= line);
    reveal_strlit("@@");
    lemma_unprefixed("@@"@, line, 0);
    law_dispositions(line);
    law_slashed_is_taken_as_it_is(body);
}

/// `||` before a domain and `^` behind it is a rule about the domain in small
/// letters and its subdomains; `|` may stand before the `^`, and white space
/// around the domain.
pub proof fn law_plain_rules(
    front: Seq<char>,
    d: Seq<char>,
    back: Seq<char>,
    bars: Seq<char>,
    carets: Seq<char>,
    mark: Seq<char>,
    allow: bool,
)
    requires
        is_bare_domain(d),
        all_of(front, CharClass::White),
        all_of(back, CharClass::White),
        all_of(bars, CharClass::Is('|')),
        all_of(carets, CharClass::Is('^')),
        mark == if allow {
            "@@"@
        } else {
            Seq::<char>::empty()
        },
    ensures
        rule::simple_rule(mark + ("||"@ + (front + d + back + bars + carets))) == Some(
            (
                if allow {
                    RuleDisposition::Allow
                } else {
                    RuleDisposition::Block
                },
                text::lower(d),
                true,
            ),
        ),
{
    let none = Seq::<char>::empty();
    let inner = front + d + back;
    let t = inner + bars + carets;
    let rest = "||"@ + t;
    reveal_strlit("||");
    reveal_strlit("@@");
    law_dispositions(rest);
    if !allow {
        assert(mark + rest =~= rest);
        assert(rest[0] == '|');
        lemma_unprefixed("@@"@, rest, 0);
    }
    assert forall|i: int| 0 <= i < rest.len() implies #[trigger] rest[i] != '$' && rest[i]
        != '*' by {
        if i >= 2 {
            let k = i - 2;
            let f = front.len();
            let g = f + d.len();
            let h = g + back.len();
            if k < f {
                assert(rest[i] == front[k]);
            } else if k < g {
                assert(rest[i] == d[k - f]);
            } else if k < h {
                assert(rest[i] == back[k - g]);
            } else if k < h + bars.len() {
                assert(rest[i] == bars[k - h]);
            } else {
                assert(rest[i] == carets[k - h - bars.len()]);
            }
        }
    }
    assert(!rest.contains('$') && !rest.contains('*'));
    lemma_prefix("||"@, t);
    let last = inner.last();
    assert(last != '^' && last != '|') by {
        if back.len() > 0 {
            assert(last == back[back.len() - 1]);
        } else {
            assert(last == d[d.len() - 1]);
        }
    }
    assert((inner + bars).last() != '^') by {
        if bars.len() > 0 {
            assert((inner + bars).last() == bars[bars.len() - 1]);
        } else {
            assert((inner + bars) =~= inner);
        }
    }
    lemma_trim_end(inner + bars, carets, CharClass::Is('^'));
    lemma_trim_end(inner, bars, CharClass::Is('|'));
    text_laws::law_trim(front, d, back, CharClass::White);
    text_laws::law_domain_is_read(none, none, d, none, none);
    assert(none + (none + d + none) + none =~= d);
}

proof fn lemma_trim_end(core: Seq<char>, back: Seq<char>, class: CharClass)
    requires
        all_of(back, class),
        core.len() > 0,
        !class.holds(core.last()),
    ensures
        text::trim_back(core + back, class) == core,
    decreases back.len(),
{
    if back.len() == 0 {
        assert(core + back =~= core);
    } else {
        assert(class.holds(back[back.len() - 1]));
        assert((core + back).drop_last() =~= core + back.drop_last());
        assert forall|i: int| 0 <= i < back.drop_last().len() implies class.holds(
            #[trigger] back.drop_last()[i],
        ) by {
            assert(back.drop_last()[i] == back[i]);
        }
        lemma_trim_end(core, back.drop_last(), class);
    }
}

/// What is no rule about one domain: what holds a `$` or a `*`, and what does
/// not start with `||`.
pub proof fn law_no_plain_rule(rest: Seq<char>, i: int)
    requires
        ({
            ||| 0 <= i < rest.len() && (rest[i] == '$' || rest[i] == '*')
            ||| rest.len() < 2
            ||| rest[0] != '|'
            ||| rest[1] != '|'
        }),
    ensures
        rule::simple_rule("@@"@ + rest) is None,
        !("@@"@).is_prefix_of(rest) ==> rule::simple_rule(rest) is None,
{
    law_dispositions(rest);
    reveal_strlit("||");
    if 0 <= i < rest.len() && (rest[i] == '$' || rest[i] == '*') {
        assert(rest.contains('$') || rest.contains('*'));
    } else if rest.len() < 2 || rest[1] != '|' {
        lemma_unprefixed("||"@, rest, 1);
    } else {
        lemma_unprefixed("||"@, rest, 0);
    }
}

/// The domains that a list names are those that its parts name, in order, and
/// what names none is passed over.
pub proof fn law_named_domains(a: Seq<Seq<char>>, b: Seq<Seq<char>>, s: Seq<char>)
    ensures
        rule::normal_domains(a + b) == rule::normal_domains(a) + rule::normal_domains(b),
        rule::normal_domains(seq![s]) == match domain::normal_domain(s) {
            Some(d) => seq![d],
            None => Seq::<Seq<char>>::empty(),
        },
        rule::normal_domains(Seq::empty()).len() == 0,
    decreases b.len(),
{
    assert(seq![s].drop_last() =~= Seq::<Seq<char>>::empty());
    assert(rule::normal_domains(Seq::empty()) =~= Seq::<Seq<char>>::empty());
    assert(rule::normal_domains(seq![s]) =~= match domain::normal_domain(s) {
        Some(d) => seq![d],
        None => Seq::<Seq<char>>::empty(),
    });
    if b.len() == 0 {
        assert(a + b =~= a);
        assert(rule::normal_domains(a) + rule::normal_domains(b) =~= rule::normal_domains(a));
    } else {
        law_named_domains(a, b.drop_last(), s);
        assert((a + b).drop_last() =~= a + b.drop_last());
        assert(rule::normal_domains(a + b) =~= rule::normal_domains(a) + rule::normal_domains(b));
    }
}

/// A line that starts with an address and names at least one domain behind it
/// is a rule of a hosts file, with all the domains that it names; others are
/// none.
pub proof fn law_hosts_lines(line: Seq<char>, first: Seq<char>, rest: Seq<Seq<char>>)
    requires
        text::words(line) == seq![first] + rest,
    ensures
        rule::hosts_rule(line) is Some <==> ip::ip_text(first) is Some && rule::normal_domains(
            rest,
        ).len() > 0,
        rule::hosts_rule(line) is Some ==> rule::hosts_rule(line) == Some(
            (ip::ip_text(first).unwrap(), rule::normal_domains(rest)),
        ),
{
    assert((seq![first] + rest).skip(1) =~= rest);
    assert((seq![first] + rest)[0] == first);
}

/// A line without words is no rule of a hosts file.
pub proof fn law_blank_hosts_lines(line: Seq<char>)
    requires
        text::words(line).len() == 0,
    ensures
        rule::hosts_rule(line) is None,
{
}

/// A comment starts with `#` or `!`, with or without white space before it.
pub proof fn law_comments(front: Seq<char>, c: char, rest: Seq<char>)
    requires
        all_of(front, CharClass::White),
        !text::is_white(c),
    ensures
        rule::is_comment(front + (seq![c] + rest)) == (c == '#' || c == '!'),
        !rule::is_comment(front),
{
    let core = seq![c] + rest;
    lemma_trim_start(front, core, CharClass::White);
    let none = Seq::<char>::empty();
    text_laws::law_trim(front, none, none, CharClass::White);
    assert(front + none =~= front);
    assert(core[0] == c);
}

proof fn lemma_trim_start(front: Seq<char>, core: Seq<char>, class: CharClass)
    requires
        all_of(front, class),
        core.len() > 0,
        !class.holds(core[0]),
    ensures
        text::trim_front(front + core, class) == core,
    decreases front.len(),
{
    if front.len() == 0 {
        assert(front + core =~= core);
    } else {
        assert(class.holds(front[0]));
        assert((front + core).skip(1) =~= front.skip(1) + core);
        assert forall|i: int| 0 <= i < front.skip(1).len() implies class.holds(
            #[trigger] front.skip(1)[i],
        ) by {
            assert(front.skip(1)[i] == front[i + 1]);
        }
        lemma_trim_start(front.skip(1), core, class);
    }
}

/// What stands behind `||` is a rule about a domain, where neither `$` nor `*`
/// is in it: each `^` at its end goes, then each `|`, then the white space
/// around, and what is left has to name a domain.
pub proof fn law_plain_rules_in_steps(t: Seq<char>, allow: bool)
    requires
        none_of(t, CharClass::Is('$')),
        none_of(t, CharClass::Is('*')),
    ensures
        ({
            let line = if allow {
                "@@"@ + ("||"@ + t)
            } else {
                "||"@ + t
            };
            let disposition = if allow {
                RuleDisposition::Allow
            } else {
                RuleDisposition::Block
            };
            let name = domain::normal_domain(
                text::trim(
                    text::trim_back(text::trim_back(t, CharClass::Is('^')), CharClass::Is('|')),
                    CharClass::White,
                ),
            );
            &&& name is Some ==> rule::simple_rule(line) == Some(
                (disposition, name.unwrap(), true),
            )
            &&& name is None ==> rule::simple_rule(line) is None
        }),
{
    let rest = "||"@ + t;
    reveal_strlit("||");
    reveal_strlit("@@");
    law_dispositions(rest);
    if !allow {
        assert(rest[0] == '|');
        lemma_unprefixed("@@"@, rest, 0);
    }
    assert forall|i: int| 0 <= i < rest.len() implies #[trigger] rest[i] != '$' && rest[i]
        != '*' by {
        if i >= 2 {
            assert(rest[i] == t[i - 2]);
            assert(!CharClass::Is('$').holds(t[i - 2]));
            assert(!CharClass::Is('*').holds(t[i - 2]));
        }
    }
    lemma_prefix("||"@, t);
}

/// Any rule with a pattern in its steps: the line without `@@` is parted in
/// pattern and modifiers; the pattern is compiled, as it is between slashes and
/// else through its expression; and the rule carries the line, the compiled
/// pattern and what the modifiers say. The first of these that fails is the
/// error.
pub proof fn law_rules_in_steps(rest: Seq<char>, line: Seq<char>)
    requires
        line == "@@"@ + rest || (line == rest && !("@@"@).is_prefix_of(line)),
    ensures
        ({
            let parted = rule::split_rule(rest);
            let said = rule::modifiers_text(parted->Ok_0.1);
            let p = parted->Ok_0.0;
            let slashed = p.len() >= 2 && p[0] == '/' && p.last() == '/';
            let made = rule::regex_new(
                if slashed {
                    p.subrange(1, p.len() - 1)
                } else {
                    rule::expression_text(p)
                },
            );
            let got = rule::complex_rule(line);
            &&& parted is Err ==> got == Err::<RuleView, Seq<char>>(parted->Err_0)
            &&& parted is Ok && said is Err ==> got == Err::<RuleView, Seq<char>>(said->Err_0)
            &&& parted is Ok && said is Ok && made is Err && slashed ==> got == Err::<
                RuleView,
                Seq<char>,
            >("invalid regex rule "@ + p + ": "@ + made->Err_0)
            &&& parted is Ok && said is Ok && made is Err && !slashed ==> got == Err::<
                RuleView,
                Seq<char>,
            >("invalid generated regex for "@ + p + ": "@ + made->Err_0)
            &&& parted is Ok && said is Ok && made is Ok ==> got == Ok::<RuleView, Seq<char>>(
                (RuleView {
                    raw_text: line,
                    regex: made->Ok_0,
                    important: said->Ok_0.important,
                    dnstypes: said->Ok_0.dnstypes,
                    denyallow: said->Ok_0.denyallow,
                }),
            )
        }),
{
    law_dispositions(rest);
}

} // verus!
