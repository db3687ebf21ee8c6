//! The addresses that a domain is answered with in place of its own.
use vstd::prelude::*;

use crate::ip;
use crate::ip::{IpAddr, Ipv4Addr, Ipv6Addr};
use crate::text;

verus! {

/// The addresses that a domain is answered with.
#[derive(Debug)]
pub struct OverrideRule {
    pub ipv4: Vec<Ipv4Addr>,
    pub ipv6: Vec<Ipv6Addr>,
}

/// What an `OverrideRule` holds.
#[verifier::ext_equal]
pub struct OverrideView {
    pub ipv4: Seq<Ipv4Addr>,
    pub ipv6: Seq<Ipv6Addr>,
}

impl View for OverrideRule {
    type V = OverrideView;

    open spec fn view(&self) -> OverrideView {
        OverrideView { ipv4: self.ipv4@, ipv6: self.ipv6@ }
    }
}

/// A rule without addresses.
pub open spec fn no_addresses() -> OverrideView {
    OverrideView { ipv4: Seq::empty(), ipv6: Seq::empty() }
}

/// `s` with `x` behind it, unless `s` holds `x`.
pub open spec fn with_new<A>(s: Seq<A>, x: A) -> Seq<A> {
    if s.contains(x) {
        s
    } else {
        s.push(x)
    }
}

/// `s` with the members of `more` behind it that it does not hold.
pub open spec fn with_all<A>(s: Seq<A>, more: Seq<A>) -> Seq<A>
    decreases more.len(),
{
    if more.len() == 0 {
        s
    } else {
        with_new(with_all(s, more.drop_last()), more.last())
    }
}

impl OverrideView {
    /// The rule with one more address.
    pub open spec fn with_ip(self, addr: IpAddr) -> OverrideView {
        match addr {
            IpAddr::V4(a) => OverrideView { ipv4: with_new(self.ipv4, a), ipv6: self.ipv6 },
            IpAddr::V6(a) => OverrideView { ipv4: self.ipv4, ipv6: with_new(self.ipv6, a) },
        }
    }

    /// The rule with the addresses of another one.
    pub open spec fn merged(self, other: OverrideView) -> OverrideView {
        OverrideView {
            ipv4: with_all(self.ipv4, other.ipv4),
            ipv6: with_all(self.ipv6, other.ipv6),
        }
    }

    /// No address stands in the rule twice.
    pub open spec fn distinct(self) -> bool {
        self.ipv4.no_duplicates() && self.ipv6.no_duplicates()
    }
}

/// Appends `x` to `v` unless `v` holds it.
fn add_ipv4(v: &mut Vec<Ipv4Addr>, x: Ipv4Addr)
    ensures
        final(v)@ == with_new(old(v)@, x),
{
    let mut i: usize = 0;
    while i < v.len()
        invariant
            i <= v@.len(),
            v@ == old(v)@,
            forall|k: int| 0 <= k < i ==> v@[k] != x,
        decreases v@.len() - i,
    {
        if v[i] == x {
            return;
        }
        i = i + 1;
    }
    v.push(x);
}

/// Appends `x` to `v` unless `v` holds it.
fn add_ipv6(v: &mut Vec<Ipv6Addr>, x: Ipv6Addr)
    ensures
        final(v)@ == with_new(old(v)@, x),
{
    let mut i: usize = 0;
    while i < v.len()
        invariant
            i <= v@.len(),
            v@ == old(v)@,
            forall|k: int| 0 <= k < i ==> v@[k] != x,
        decreases v@.len() - i,
    {
        if v[i] == x {
            return;
        }
        i = i + 1;
    }
    v.push(x);
}

impl Default for OverrideRule {
    fn default() -> (r: OverrideRule)
        ensures
            r@ == no_addresses(),
    {
        OverrideRule { ipv4: Vec::new(), ipv6: Vec::new() }
    }
}

impl Clone for OverrideRule {
    fn clone(&self) -> (r: OverrideRule)
        ensures
            r@ == self@,
    {
        let r = OverrideRule { ipv4: self.ipv4.clone(), ipv6: self.ipv6.clone() };
        assert(r@ =~= self@);
        r
    }
}

impl OverrideRule {
    /// Adds an address, unless the rule holds it.
    pub fn add_ip(&mut self, addr: IpAddr)
        ensures
            final(self)@ == old(self)@.with_ip(addr),
    {
        match addr {
            IpAddr::V4(a) => add_ipv4(&mut self.ipv4, a),
            IpAddr::V6(a) => add_ipv6(&mut self.ipv6, a),
        }
    }
}

/// Adds the addresses of `source` to `target` that it does not hold.
pub fn merge_override_rule(target: &mut OverrideRule, source: &OverrideRule)
    ensures
        final(target)@ == old(target)@.merged(source@),
{
    let mut i: usize = 0;
    assert(source.ipv4@.take(0) =~= Seq::<Ipv4Addr>::empty());
    while i < source.ipv4.len()
        invariant
            i <= source.ipv4@.len(),
            target.ipv4@ == with_all(old(target).ipv4@, source.ipv4@.take(i as int)),
            target.ipv6@ == old(target).ipv6@,
        decreases source.ipv4@.len() - i,
    {
        assert(source.ipv4@.take(i + 1).drop_last() =~= source.ipv4@.take(i as int));
        add_ipv4(&mut target.ipv4, source.ipv4[i]);
        i = i + 1;
    }
    let mut j: usize = 0;
    assert(source.ipv6@.take(0) =~= Seq::<Ipv6Addr>::empty());
    assert(source.ipv4@.take(source.ipv4@.len() as int) =~= source.ipv4@);
    while j < source.ipv6.len()
        invariant
            j <= source.ipv6@.len(),
            target.ipv4@ == with_all(old(target).ipv4@, source.ipv4@),
            target.ipv6@ == with_all(old(target).ipv6@, source.ipv6@.take(j as int)),
        decreases source.ipv6@.len() - j,
    {
        assert(source.ipv6@.take(j + 1).drop_last() =~= source.ipv6@.take(j as int));
        add_ipv6(&mut target.ipv6, source.ipv6[j]);
        j = j + 1;
    }
    assert(source.ipv6@.take(source.ipv6@.len() as int) =~= source.ipv6@);
}

/// The words about an answer that is no address.
pub open spec fn bad_answer_text(answer: Seq<char>) -> Seq<char> {
    "invalid rewrite answer "@ + answer + ": "@ + ip::addr_error_text(ip::AddrParseError::Ip)
}

/// The rule with the address that `answer` writes.
pub open spec fn answer_text(answer: Seq<char>) -> Result<OverrideView, Seq<char>> {
    match ip::ip_text(answer) {
        Some(addr) => Ok(no_addresses().with_ip(addr)),
        None => Err(bad_answer_text(answer)),
    }
}

/// Reads the address that a rewrite answers with.
pub fn parse_override_answer(answer: &str) -> (r: Result<OverrideRule, String>)
    ensures
        match r {
            Ok(rule) => answer_text(answer@) == Ok::<OverrideView, Seq<char>>(rule@),
            Err(e) => answer_text(answer@) == Err::<OverrideView, Seq<char>>(e@),
        },
{
    let chars = text::chars_of(answer);
    match ip::read_ip(&chars) {
        Some(addr) => {
            let mut rule = OverrideRule::default();
            rule.add_ip(addr);
            Ok(rule)
        },
        None => {
            let mut message = "invalid rewrite answer ".to_owned();
            message.append(answer);
            message.append(": ");
            let reason = ip::AddrParseError::Ip.message();
            message.append(reason.as_str());
            Err(message)
        },
    }
}

/// The rule with the addresses that `answers` write; the error of the first
/// one that writes none. There has to be one.
pub open spec fn answers_text(answers: Seq<Seq<char>>) -> Result<OverrideView, Seq<char>>
    decreases answers.len(),
{
    if answers.len() == 0 {
        answer_text(Seq::empty())
    } else if answers.len() == 1 {
        answer_text(answers[0])
    } else {
        match answers_text(answers.drop_last()) {
            Ok(rule) => match answer_text(answers.last()) {
                Ok(more) => Ok(rule.merged(more)),
                Err(e) => Err(e),
            },
            Err(e) => Err(e),
        }
    }
}

proof fn lemma_answers_err(answers: Seq<Seq<char>>, i: int)
    requires
        1 <= i <= answers.len(),
        answers_text(answers.take(i)) is Err,
    ensures
        answers_text(answers) == answers_text(answers.take(i)),
    decreases answers.len() - i,
{
    if i < answers.len() {
        assert(answers.take(i + 1).drop_last() =~= answers.take(i));
        lemma_answers_err(answers, i + 1);
    } else {
        assert(answers.take(i) =~= answers);
    }
}

/// Reads the addresses that a rewrite answers with.
pub fn parse_override_answers(answers: &[String]) -> (r: Result<OverrideRule, String>)
    ensures
        match r {
            Ok(rule) => answers_text(text::texts(answers@)) == Ok::<OverrideView, Seq<char>>(
                rule@,
            ),
            Err(e) => answers_text(text::texts(answers@)) == Err::<OverrideView, Seq<char>>(e@),
        },
{
    let ghost all = text::texts(answers@);
    if answers.len() == 0 {
        proof {
            reveal_strlit("");
            assert(""@ =~= Seq::<char>::empty());
        }
        return parse_override_answer("");
    }
    assert(all[0] == answers@[0]@);
    assert(all.take(1)[0] == all[0]);
    let mut rule = match parse_override_answer(answers[0].as_str()) {
        Ok(rule) => rule,
        Err(e) => {
            proof {
                lemma_answers_err(all, 1);
            }
            return Err(e);
        },
    };
    let mut i: usize = 1;
    while i < answers.len()
        invariant
            1 <= i <= answers@.len(),
            all == text::texts(answers@),
            answers_text(all.take(i as int)) == Ok::<OverrideView, Seq<char>>(rule@),
        decreases answers@.len() - i,
    {
        proof {
            assert(all.take(i + 1).drop_last() =~= all.take(i as int));
            assert(all.take(i + 1).last() == answers@[i as int]@);
        }
        match parse_override_answer(answers[i].as_str()) {
            Ok(more) => merge_override_rule(&mut rule, &more),
            Err(e) => {
                proof {
                    lemma_answers_err(all, i + 1);
                }
                return Err(e);
            },
        }
        i = i + 1;
    }
    assert(all.take(all.len() as int) =~= all);
    Ok(rule)
}

proof fn lemma_with_all_distinct<A>(s: Seq<A>, more: Seq<A>)
    requires
        s.no_duplicates(),
    ensures
        with_all(s, more).no_duplicates(),
        forall|x: A| with_all(s, more).contains(x) == (s.contains(x) || more.contains(x)),
    decreases more.len(),
{
    if more.len() > 0 {
        lemma_with_all_distinct(s, more.drop_last());
        let before = with_all(s, more.drop_last());
        let after = with_all(s, more);
        assert(more =~= more.drop_last().push(more.last()));
        assert forall|x: A| after.contains(x) == (s.contains(x) || more.contains(x)) by {
            vstd::seq_lib::lemma_seq_contains_after_push(more.drop_last(), more.last(), x);
            vstd::seq_lib::lemma_seq_contains_after_push(before, more.last(), x);
        }
    }
}

proof fn lemma_with_all_known<A>(s: Seq<A>, more: Seq<A>)
    requires
        forall|x: A| more.contains(x) ==> s.contains(x),
    ensures
        with_all(s, more) == s,
    decreases more.len(),
{
    if more.len() > 0 {
        assert forall|x: A| more.drop_last().contains(x) implies s.contains(x) by {
            let i = choose|i: int| 0 <= i < more.len() - 1 && more.drop_last()[i] == x;
            assert(more[i] == x);
        }
        lemma_with_all_known(s, more.drop_last());
        assert(more.contains(more.last())) by {
            assert(more[more.len() - 1] == more.last());
        }
    }
}

/// Merging keeps the addresses of a rule distinct and leaves those of both
/// rules in it, and merging the same rule again changes nothing.
pub proof fn law_merge(target: OverrideView, source: OverrideView)
    requires
        target.distinct(),
    ensures
        target.merged(source).distinct(),
        forall|a: Ipv4Addr|
            target.merged(source).ipv4.contains(a) == (target.ipv4.contains(a)
                || source.ipv4.contains(a)),
        forall|a: Ipv6Addr|
            target.merged(source).ipv6.contains(a) == (target.ipv6.contains(a)
                || source.ipv6.contains(a)),
        target.merged(source).merged(source) == target.merged(source),
{
    lemma_with_all_distinct(target.ipv4, source.ipv4);
    lemma_with_all_distinct(target.ipv6, source.ipv6);
    lemma_with_all_known(target.merged(source).ipv4, source.ipv4);
    lemma_with_all_known(target.merged(source).ipv6, source.ipv6);
}

/// A domain and the rule for it.
#[derive(Debug)]
pub struct OverrideEntry {
    pub domain: String,
    pub rule: OverrideRule,
}

/// At most one rule for each domain.
#[derive(Debug)]
pub struct OverrideTable {
    entries: Vec<OverrideEntry>,
}

pub closed spec fn distinct_domains(entries: Seq<OverrideEntry>) -> bool {
    forall|i: int, j: int|
        0 <= i < j < entries.len() ==> (#[trigger] entries[i]).domain@ != (
        #[trigger] entries[j]).domain@
}

/// Whether one of the entries is for `domain`.
pub open spec fn has_entry(entries: Seq<OverrideEntry>, domain: Seq<char>) -> bool {
    exists|i: int| 0 <= i < entries.len() && (#[trigger] entries[i]).domain@ == domain
}

/// The rules of `entries` by their domains.
pub open spec fn entry_map(entries: Seq<OverrideEntry>) -> Map<Seq<char>, OverrideView> {
    Map::new(
        |domain: Seq<char>| has_entry(entries, domain),
        |domain: Seq<char>|
            {
                let i = choose|i: int|
                    0 <= i < entries.len() && (#[trigger] entries[i]).domain@ == domain;
                entries[i].rule@
            },
    )
}

impl View for OverrideTable {
    type V = Map<Seq<char>, OverrideView>;

    closed spec fn view(&self) -> Map<Seq<char>, OverrideView> {
        entry_map(self.entries@)
    }
}

proof fn lemma_entry(entries: Seq<OverrideEntry>, i: int)
    requires
        distinct_domains(entries),
        0 <= i < entries.len(),
    ensures
        entry_map(entries).contains_key(entries[i].domain@),
        entry_map(entries)[entries[i].domain@] == entries[i].rule@,
{
    let domain = entries[i].domain@;
    let j = choose|j: int| 0 <= j < entries.len() && (#[trigger] entries[j]).domain@ == domain;
    assert(has_entry(entries, domain));
    assert(i == j);
}

/// The rules with one more address for `domain`.
pub open spec fn with_override(
    overrides: Map<Seq<char>, OverrideView>,
    addr: IpAddr,
    domain: Seq<char>,
) -> Map<Seq<char>, OverrideView> {
    let before = if overrides.contains_key(domain) {
        overrides[domain]
    } else {
        no_addresses()
    };
    overrides.insert(domain, before.with_ip(addr))
}

impl OverrideTable {
    #[verifier::type_invariant]
    closed spec fn valid(self) -> bool {
        distinct_domains(self.entries@)
    }

    /// A table without rules.
    pub fn new() -> (r: OverrideTable)
        ensures
            r@ == Map::<Seq<char>, OverrideView>::empty(),
    {
        let r = OverrideTable { entries: Vec::new() };
        assert(r@ =~= Map::<Seq<char>, OverrideView>::empty());
        r
    }

    /// Whether the table has no rules.
    pub fn is_empty(&self) -> (r: bool)
        ensures
            r == (self@ == Map::<Seq<char>, OverrideView>::empty()),
    {
        proof {
            use_type_invariant(self);
            if self.entries@.len() > 0 {
                lemma_entry(self.entries@, 0);
            } else {
                assert(self@ =~= Map::<Seq<char>, OverrideView>::empty());
            }
        }
        self.entries.len() == 0
    }

    /// Where the rule for `domain` stands; the number of rules where there is
    /// none.
    fn position(&self, domain: &str) -> (r: usize)
        ensures
            r <= self.entries@.len(),
            r < self.entries@.len() ==> self.entries@[r as int].domain@ == domain@,
            r == self.entries@.len() ==> !has_entry(self.entries@, domain@),
    {
        let mut i: usize = 0;
        while i < self.entries.len()
            invariant
                i <= self.entries@.len(),
                forall|k: int| 0 <= k < i ==> (#[trigger] self.entries@[k]).domain@ != domain@,
            decreases self.entries@.len() - i,
        {
            if text::same_text(self.entries[i].domain.as_str(), domain) {
                return i;
            }
            i = i + 1;
        }
        i
    }

    /// The rule for `domain`.
    pub fn get(&self, domain: &str) -> (r: Option<&OverrideRule>)
        ensures
            match r {
                Some(rule) => self@.contains_key(domain@) && self@[domain@] == rule@,
                None => !self@.contains_key(domain@),
            },
    {
        proof {
            use_type_invariant(self);
        }
        let i: usize = self.position(domain);
        if i < self.entries.len() {
            proof {
                lemma_entry(self.entries@, i as int);
            }
            Some(&self.entries[i].rule)
        } else {
            None
        }
    }

    /// Adds an address to the rule for `domain`.
    pub fn add(&mut self, addr: IpAddr, domain: &str)
        ensures
            final(self)@ == with_override(old(self)@, addr, domain@),
    {
        proof {
            use_type_invariant(&*self);
        }
        let i: usize = self.position(domain);
        let mut entries: Vec<OverrideEntry> = Vec::new();
        std::mem::swap(&mut entries, &mut self.entries);
        let ghost before = entries@;
        if i < entries.len() {
            let mut rule = entries[i].rule.clone();
            rule.add_ip(addr);
            entries[i] = OverrideEntry { domain: domain.to_owned(), rule };
            proof {
                lemma_entry(before, i as int);
            }
        } else {
            let mut rule = OverrideRule::default();
            rule.add_ip(addr);
            entries.push(OverrideEntry { domain: domain.to_owned(), rule });
        }
        proof {
            lemma_replaced(before, entries@, i as int, domain@);
        }
        self.entries = entries;
    }

    /// The number of rules.
    pub fn len(&self) -> (r: usize)
        ensures
            r == self.domains().len(),
    {
        self.entries.len()
    }

    /// The domains that have rules, in the order of the entries.
    pub closed spec fn domains(&self) -> Seq<Seq<char>> {
        self.entries@.map_values(|e: OverrideEntry| e.domain@)
    }

    /// The domain and the rule at `i`.
    pub fn entry(&self, i: usize) -> (r: (&String, &OverrideRule))
        requires
            i < self.domains().len(),
        ensures
            r.0@ == self.domains()[i as int],
            self@.contains_key(r.0@),
            self@[r.0@] == r.1@,
    {
        proof {
            use_type_invariant(self);
            lemma_entry(self.entries@, i as int);
        }
        (&self.entries[i].domain, &self.entries[i].rule)
    }

    /// The domains that have rules are the keys of the table.
    pub proof fn lemma_domains(&self)
        ensures
            forall|d: Seq<char>|
                #![trigger self@.contains_key(d)]
                #![trigger self.domains().contains(d)]
                self@.contains_key(d) <==> self.domains().contains(d),
    {
        assert forall|d: Seq<char>|
            #![trigger self@.contains_key(d)]
            #![trigger self.domains().contains(d)]
            self@.contains_key(d) <==> self.domains().contains(d) by {
            if self@.contains_key(d) {
                let i = choose|i: int|
                    0 <= i < self.entries@.len() && (#[trigger] self.entries@[i]).domain@ == d;
                assert(self.domains()[i] == d);
            }
            if self.domains().contains(d) {
                let i = choose|i: int| 0 <= i < self.domains().len() && self.domains()[i] == d;
                assert(self.entries@[i].domain@ == d);
            }
        }
    }
}

/// Entries of which one, at `i`, was replaced or appended under `domain`.
proof fn lemma_replaced(
    before: Seq<OverrideEntry>,
    after: Seq<OverrideEntry>,
    i: int,
    domain: Seq<char>,
)
    requires
        distinct_domains(before),
        0 <= i <= before.len(),
        i < before.len() ==> before[i].domain@ == domain && after.len() == before.len(),
        i == before.len() ==> !has_entry(before, domain) && after.len() == before.len() + 1,
        after[i].domain@ == domain,
        forall|k: int| 0 <= k < before.len() && k != i ==> after[k] == before[k],
    ensures
        distinct_domains(after),
        entry_map(after) == entry_map(before).insert(domain, after[i].rule@),
{
    assert forall|a: int, b: int| 0 <= a < b < after.len() implies (
    #[trigger] after[a]).domain@ != (#[trigger] after[b]).domain@ by {
        if a != i {
            assert(after[a] == before[a]);
        }
        if b != i {
            assert(after[b] == before[b]);
        }
    }
    lemma_entry(after, i);
    assert forall|d: Seq<char>| d != domain implies entry_map(after).contains_key(d)
        == entry_map(before).contains_key(d) && (entry_map(after).contains_key(d)
        ==> entry_map(after)[d] == entry_map(before)[d]) by {
        if entry_map(before).contains_key(d) {
            let k = choose|k: int| 0 <= k < before.len() && (#[trigger] before[k]).domain@ == d;
            assert(after[k] == before[k]);
            lemma_entry(after, k);
            lemma_entry(before, k);
        }
        if entry_map(after).contains_key(d) {
            let k = choose|k: int| 0 <= k < after.len() && (#[trigger] after[k]).domain@ == d;
            assert(after[k] == before[k]);
            lemma_entry(before, k);
            lemma_entry(after, k);
        }
    }
    assert(entry_map(after) =~= entry_map(before).insert(domain, after[i].rule@));
}

} // verus!
