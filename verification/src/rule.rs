//! What a single rule says: its disposition and domain, or its pattern and
//! modifiers.
use vstd::prelude::*;

use std::collections::HashSet;
use std::str::FromStr;

use hickory_proto::rr::RecordType;
use regex::Regex;

use crate::domain;
use crate::domain::{DomainPattern, PatternView};
use crate::ip;
use crate::ip::IpAddr;
use crate::text;
use crate::text::CharClass;

verus! {

#[derive(Clone, Copy, Debug, PartialEq, Eq, Structural)]
pub enum RuleDisposition {
    Block,
    Allow,
}

#[derive(Clone, Copy, Debug, PartialEq, Eq, Structural)]
pub enum RuleOrigin {
    RemoteFilter,
    UserRule,
}

/// A compiled regular expression of the crate `regex`.
#[verifier::external_type_specification]
#[verifier::external_body]
pub struct ExRegex(regex::Regex);

/// What `Regex::new` makes of a pattern: the expression, or the words of its
/// error.
pub uninterp spec fn regex_new(pattern: Seq<char>) -> Result<Regex, Seq<char>>;

/// How long a domain may be whose expression `Regex::new` is known to accept.
/// `Regex::new` refuses an expression whose automaton takes more than 10 MiB,
/// forwards or backwards. A state of it takes 32 bytes at most, and each
/// character of the domain becomes one. The rest of the expression becomes no
/// more than 39 states and 56 bytes, which is the automaton backwards.
pub const LONGEST_LITERAL: usize = 327639;

/// A domain that a regular expression is about: not empty and of the
/// characters of domains.
pub open spec fn is_literal(d: Seq<char>) -> bool {
    &&& 0 < d.len()
    &&& forall|i: int| 0 <= i < d.len() ==> domain::is_domain_char(#[trigger] d[i])
}

/// The regular expression for the text `d` itself: its dots stand behind
/// backslashes.
pub open spec fn literal_expression(d: Seq<char>) -> Seq<char>
    decreases d.len(),
{
    if d.len() == 0 {
        Seq::empty()
    } else if d.last() == '.' {
        literal_expression(d.drop_last()) + seq!['\\', '.']
    } else {
        literal_expression(d.drop_last()) + seq![d.last()]
    }
}

/// The regular expression for a whole text that is `d`, or that ends in a dot
/// and `d`.
pub open spec fn subdomain_expression(d: Seq<char>) -> Seq<char> {
    "^(?:^|.*\\.)"@ + literal_expression(d) + seq!['$']
}

/// Whether the expression matches, of the texts without a line break, just `d`
/// and what is under it.
pub open spec fn matches_subdomains(expression: Regex, d: Seq<char>) -> bool {
    forall|x: Seq<char>|
        !x.contains('\n') ==> #[trigger] regex_is_match(expression, x) == domain::under(x, d)
}

/// Calls `Regex::new`. What it returns depends on the pattern alone. Of what
/// patterns mean, one form is stated: at the start of the text the start or,
/// behind any characters but line breaks, a dot, then a domain letter by
/// letter, then the end of the text. Where such a pattern compiles,
/// `Regex::is_match` finds it in a text without line breaks just where the text
/// is the domain or ends in a dot and the domain. It compiles where the domain
/// is no longer than `LONGEST_LITERAL`; whether it does for a longer one depends
/// on the machine. What other patterns mean is left unsaid.
#[verifier::external_body]
pub(crate) fn compile_regex(pattern: &str) -> (r: Result<Regex, String>)
    ensures
        match r {
            Ok(regex) => regex_new(pattern@) == Ok::<Regex, Seq<char>>(regex),
            Err(e) => regex_new(pattern@) == Err::<Regex, Seq<char>>(e@),
        },
        forall|d: Seq<char>|
            is_literal(d) && pattern@ == #[trigger] subdomain_expression(d) ==> (d.len()
                <= LONGEST_LITERAL ==> r is Ok) && (r is Ok ==> matches_subdomains(r->Ok_0, d)),
{
    Regex::new(pattern).map_err(|err| err.to_string())
}

/// Whether `Regex::is_match` finds a match of the expression in a text.
pub uninterp spec fn regex_is_match(expression: Regex, haystack: Seq<char>) -> bool;

/// `Regex::is_match`: the answer depends on the expression and the text alone.
pub assume_specification[ regex::Regex::is_match ](
    expression: &regex::Regex,
    haystack: &str,
) -> (found: bool)
    ensures
        found == regex_is_match(*expression, haystack@),
;

/// The code of the record type that `RecordType::from_str` finds under a name.
pub uninterp spec fn record_dnstype_named(name: Seq<char>) -> Option<u16>;

/// Calls `RecordType::from_str` and takes the code of the type that it finds.
/// What it finds depends on the name alone; `A` is 1, `CNAME` 5, `AAAA` 28
/// and `ANY` 255. The names that it knows hold no small letters, and in a
/// debug build it panics on one.
#[verifier::external_body]
pub(crate) fn find_record_type(name: &str) -> (r: Option<u16>)
    requires
        forall|i: int| 0 <= i < name@.len() ==> !text::is_lower(#[trigger] name@[i]),
    ensures
        r == record_dnstype_named(name@),
        name@ == "A"@ ==> r == Some(1u16),
        name@ == "CNAME"@ ==> r == Some(5u16),
        name@ == "AAAA"@ ==> r == Some(28u16),
        name@ == "ANY"@ ==> r == Some(255u16),
{
    RecordType::from_str(name).ok().map(u16::from)
}

/// The record types that a rule is for, or all but those that it is not for.
#[derive(Debug)]
pub enum TypeConstraint {
    Include(HashSet<u16>),
    Exclude(HashSet<u16>),
}

/// What a `TypeConstraint` says.
pub enum TypesView {
    Include(Set<u16>),
    Exclude(Set<u16>),
}

impl View for TypeConstraint {
    type V = TypesView;

    open spec fn view(&self) -> TypesView {
        match *self {
            TypeConstraint::Include(types) => TypesView::Include(types@),
            TypeConstraint::Exclude(types) => TypesView::Exclude(types@),
        }
    }
}

pub open spec fn types_view(dnstypes: Option<TypeConstraint>) -> Option<TypesView> {
    match dnstypes {
        Some(types) => Some(types@),
        None => None,
    }
}

/// How a rule tells whether it is about a domain.
#[derive(Debug)]
pub enum Matcher {
    Regex(Regex),
}

/// A rule with a pattern.
#[derive(Debug)]
pub struct CompiledMatchRule {
    /// The line that the rule was read from.
    pub raw_text: String,
    pub matcher: Matcher,
    /// Whether the rule goes before those that are not important.
    pub important: bool,
    /// The record types that the rule is for; all of them without this.
    pub dnstypes: Option<TypeConstraint>,
    /// Domains that the rule is not about, whatever its pattern says.
    pub denyallow: Vec<DomainPattern>,
}

/// What a `CompiledMatchRule` says.
#[verifier::ext_equal]
pub struct RuleView {
    pub raw_text: Seq<char>,
    pub regex: Regex,
    pub important: bool,
    pub dnstypes: Option<TypesView>,
    pub denyallow: Seq<PatternView>,
}

impl View for CompiledMatchRule {
    type V = RuleView;

    open spec fn view(&self) -> RuleView {
        RuleView {
            raw_text: self.raw_text@,
            regex: match self.matcher {
                Matcher::Regex(regex) => regex,
            },
            important: self.important,
            dnstypes: types_view(self.dnstypes),
            denyallow: domain::patterns(self.denyallow@),
        }
    }
}

/// What the rules of `v` say.
pub open spec fn rule_views(v: Seq<CompiledMatchRule>) -> Seq<RuleView> {
    v.map_values(|r: CompiledMatchRule| r@)
}

/// Whether `line` is a comment.
pub open spec fn is_comment(line: Seq<char>) -> bool {
    let start = text::trim_front(line, CharClass::White);
    start.len() > 0 && (start[0] == '#' || start[0] == '!')
}

/// `line`, or nothing where it is a comment.
pub fn strip_comments<'a>(line: &'a str) -> (r: &'a str)
    ensures
        r@ == if is_comment(line@) {
            Seq::<char>::empty()
        } else {
            line@
        },
{
    let chars = text::chars_of(line);
    let start = text::trimmed_front(&chars, CharClass::White);
    if start.len() > 0 && (start[0] == '#' || start[0] == '!') {
        proof {
            reveal_strlit("");
            assert(""@ =~= Seq::<char>::empty());
        }
        ""
    } else {
        line
    }
}

/// The disposition of a rule and what stands behind the mark of it.
pub open spec fn disposition_of(line: Seq<char>) -> (RuleDisposition, Seq<char>) {
    if ("@@"@).is_prefix_of(line) {
        (RuleDisposition::Allow, line.skip(2))
    } else {
        (RuleDisposition::Block, line)
    }
}

/// The domain that the rest of a simple rule, behind its `||`, names.
pub open spec fn simple_domain(rest: Seq<char>) -> Option<Seq<char>> {
    domain::normal_domain(
        text::trim(
            text::trim_back(text::trim_back(rest, CharClass::Is('^')), CharClass::Is('|')),
            CharClass::White,
        ),
    )
}

/// A rule of the form `||domain^` or `@@||domain^`: its disposition and
/// domain. Such a rule is about the subdomains too.
pub open spec fn simple_rule(line: Seq<char>) -> Option<(RuleDisposition, Seq<char>, bool)> {
    let (disposition, rest) = disposition_of(line);
    if rest.contains('$') || rest.contains('*') || !("||"@).is_prefix_of(rest) {
        None
    } else {
        match simple_domain(rest.skip(2)) {
            Some(d) => Some((disposition, d, true)),
            None => None,
        }
    }
}

proof fn lemma_marks()
    ensures
        ("@@"@).len() == 2,
        ("||"@).len() == 2,
        ("||"@)[0] == '|',
        ("||"@)[1] == '|',
{
    reveal_strlit("@@");
    reveal_strlit("||");
}

/// Reads a rule of the form `||domain^` or `@@||domain^`.
pub fn parse_simple_adblock_domain_rule(line: &str) -> (r: Option<(RuleDisposition, String, bool)>)
    ensures
        match r {
            Some((disposition, d, include_subdomains)) => simple_rule(line@) == Some(
                (disposition, d@, include_subdomains),
            ),
            None => simple_rule(line@) is None,
        },
{
    proof {
        lemma_marks();
    }
    let chars = text::chars_of(line);
    let allow = text::starts(&chars, "@@");
    let (disposition, rest) = if allow {
        (RuleDisposition::Allow, text::after(&chars, 2))
    } else {
        (RuleDisposition::Block, chars.as_slice())
    };
    if text::has_char(rest, '$') || text::has_char(rest, '*') || !text::starts(rest, "||") {
        return None;
    }
    let body = text::trimmed_back(
        text::trimmed_back(text::after(rest, 2), CharClass::Is('^')),
        CharClass::Is('|'),
    );
    match domain::normalized(text::trimmed(body, CharClass::White)) {
        Some(d) => Some((disposition, text::string_of(&d), true)),
        None => None,
    }
}

/// The domains that `list` names, without what names none.
pub open spec fn normal_domains(list: Seq<Seq<char>>) -> Seq<Seq<char>>
    decreases list.len(),
{
    if list.len() == 0 {
        Seq::empty()
    } else {
        let before = normal_domains(list.drop_last());
        match domain::normal_domain(list.last()) {
            Some(d) => before.push(d),
            None => before,
        }
    }
}

/// A rule of the form that a hosts file has: an address and domains behind it.
pub open spec fn hosts_rule(line: Seq<char>) -> Option<(IpAddr, Seq<Seq<char>>)> {
    let parts = text::words(line);
    if parts.len() == 0 {
        None
    } else {
        match ip::ip_text(parts[0]) {
            Some(addr) => {
                let domains = normal_domains(parts.skip(1));
                if domains.len() > 0 {
                    Some((addr, domains))
                } else {
                    None
                }
            },
            None => None,
        }
    }
}

/// Reads a rule of the form that a hosts file has.
pub fn parse_hosts_rule(line: &str) -> (r: Option<(IpAddr, Vec<String>)>)
    ensures
        match r {
            Some((addr, domains)) => hosts_rule(line@) == Some((addr, text::texts(domains@))),
            None => hosts_rule(line@) is None,
        },
{
    let chars = text::chars_of(line);
    let parts = text::words_of(&chars);
    let ghost all = text::rows(parts@);
    assert(all.len() == parts@.len());
    if parts.len() == 0 {
        return None;
    }
    assert(all[0] == parts@[0]@);
    let addr = match ip::read_ip(&parts[0]) {
        Some(addr) => addr,
        None => return None,
    };
    let ghost rest = all.skip(1);
    let mut domains: Vec<String> = Vec::new();
    let mut i: usize = 1;
    proof {
        assert(rest.take(0) =~= Seq::<Seq<char>>::empty());
        assert(text::texts(domains@) =~= normal_domains(rest.take(0)));
    }
    while i < parts.len()
        invariant
            1 <= i <= parts@.len(),
            all == text::rows(parts@),
            rest == all.skip(1),
            text::texts(domains@) == normal_domains(rest.take(i - 1)),
        decreases parts@.len() - i,
    {
        proof {
            assert(rest.take(i as int).drop_last() =~= rest.take(i - 1));
            assert(rest.take(i as int).last() == parts@[i as int]@);
        }
        match domain::normalized(&parts[i]) {
            Some(d) => {
                let ghost domains0 = domains@;
                let name = text::string_of(&d);
                domains.push(name);
                assert(text::texts(domains@) =~= text::texts(domains0).push(d@));
            },
            None => {},
        }
        i = i + 1;
    }
    assert(rest.take(rest.len() as int) =~= rest);
    assert(text::texts(domains@).len() == domains@.len());
    if domains.len() == 0 {
        return None;
    }
    Some((addr, domains))
}

/// Where the regular expression that starts `line`, at `i` or behind it,
/// ends: at a slash that nothing escapes and that ends the line or has `$`
/// behind it.
pub open spec fn regex_end(line: Seq<char>, i: int) -> Option<int>
    decreases line.len() + 1 - i,
{
    if i >= line.len() {
        None
    } else if line[i] == '\\' {
        regex_end(line, i + 2)
    } else if line[i] == '/' && (i + 1 == line.len() || line[i + 1] == '$') {
        Some(i)
    } else {
        regex_end(line, i + 1)
    }
}

/// The pattern of a rule, and its modifiers where it has any.
pub open spec fn split_rule(line: Seq<char>) -> Result<(Seq<char>, Option<Seq<char>>), Seq<char>> {
    if line.len() == 0 || line[0] != '/' {
        let at = text::index_from(line, '$', 0);
        if at < line.len() {
            Ok((line.take(at), Some(line.skip(at + 1))))
        } else {
            Ok((line, None))
        }
    } else {
        match regex_end(line, 1) {
            Some(i) => if i + 1 == line.len() {
                Ok((line, None))
            } else {
                Ok((line.take(i + 1), Some(line.skip(i + 2))))
            },
            None => Err("unterminated regex rule: "@ + line),
        }
    }
}

pub open spec fn shown(t: Option<&str>) -> Option<Seq<char>> {
    match t {
        Some(t) => Some(t@),
        None => None,
    }
}

/// Where the regular expression that starts `line` ends.
fn find_regex_end(line: &[char]) -> (r: Option<usize>)
    requires
        line@.len() > 0,
    ensures
        match r {
            Some(i) => regex_end(line@, 1) == Some(i as int) && i < line@.len(),
            None => regex_end(line@, 1) is None,
        },
{
    let n: usize = line.len();
    let mut i: usize = 1;
    while i < n
        invariant
            1 <= i,
            0 < n == line@.len(),
            regex_end(line@, 1) == regex_end(line@, i as int),
        decreases n - i,
    {
        if line[i] == '\\' {
            if i + 1 >= n {
                assert(regex_end(line@, i + 2) is None);
                return None;
            }
            i = i + 2;
        } else {
            if line[i] == '/' && (i + 1 == n || line[i + 1] == '$') {
                return Some(i);
            }
            i = i + 1;
        }
    }
    None
}

/// Splits a rule into its pattern and its modifiers.
pub fn split_pattern_and_modifiers<'a>(line: &'a str) -> (r: Result<
    (&'a str, Option<&'a str>),
    String,
>)
    ensures
        match r {
            Ok((pattern, modifiers)) => split_rule(line@) == Ok::<
                (Seq<char>, Option<Seq<char>>),
                Seq<char>,
            >((pattern@, shown(modifiers))),
            Err(e) => split_rule(line@) == Err::<(Seq<char>, Option<Seq<char>>), Seq<char>>(e@),
        },
{
    let chars = text::chars_of(line);
    let n: usize = chars.len();
    if n == 0 || chars[0] != '/' {
        let at: usize = text::index_of(&chars, '$');
        if at < n {
            let pattern = line.substring_char(0, at);
            let modifiers = line.substring_char(at + 1, n);
            proof {
                assert(pattern@ =~= line@.take(at as int));
                assert(modifiers@ =~= line@.skip(at + 1));
            }
            return Ok((pattern, Some(modifiers)));
        }
        return Ok((line, None));
    }
    match find_regex_end(&chars) {
        Some(i) => {
            if i + 1 == n {
                Ok((line, None))
            } else {
                let pattern = line.substring_char(0, i + 1);
                let modifiers = line.substring_char(i + 2, n);
                proof {
                    assert(pattern@ =~= line@.take(i + 1));
                    assert(modifiers@ =~= line@.skip(i + 2));
                }
                Ok((pattern, Some(modifiers)))
            }
        },
        None => {
            let mut message = "unterminated regex rule: ".to_owned();
            message.append(line);
            Err(message)
        },
    }
}

/// What the modifiers of a rule say.
#[verifier::ext_equal]
pub struct ModifiersView {
    pub important: bool,
    pub dnstypes: Option<TypesView>,
    pub denyallow: Seq<PatternView>,
}

/// The modifiers of a rule.
pub struct ParsedModifiers {
    pub important: bool,
    pub dnstypes: Option<TypeConstraint>,
    pub denyallow: Vec<DomainPattern>,
}

impl View for ParsedModifiers {
    type V = ModifiersView;

    open spec fn view(&self) -> ModifiersView {
        ModifiersView {
            important: self.important,
            dnstypes: types_view(self.dnstypes),
            denyallow: domain::patterns(self.denyallow@),
        }
    }
}

/// The patterns that `parts` write; the error of the first one that writes
/// none.
pub open spec fn pattern_list(parts: Seq<Seq<char>>) -> Result<Seq<PatternView>, Seq<char>>
    decreases parts.len(),
{
    if parts.len() == 0 {
        Ok(Seq::empty())
    } else {
        match pattern_list(parts.drop_last()) {
            Err(e) => Err(e),
            Ok(list) => match domain::pattern_text(parts.last()) {
                Ok(p) => Ok(list.push(p)),
                Err(e) => Err(e),
            },
        }
    }
}

proof fn lemma_pattern_list_err(parts: Seq<Seq<char>>, i: int)
    requires
        0 <= i <= parts.len(),
        pattern_list(parts.take(i)) is Err,
    ensures
        pattern_list(parts) == pattern_list(parts.take(i)),
    decreases parts.len() - i,
{
    if i < parts.len() {
        assert(parts.take(i + 1).drop_last() =~= parts.take(i));
        lemma_pattern_list_err(parts, i + 1);
    } else {
        assert(parts.take(i) =~= parts);
    }
}

/// Reads a pattern from each of `parts`.
pub fn read_patterns(parts: &Vec<Vec<char>>) -> (r: Result<Vec<DomainPattern>, String>)
    ensures
        match r {
            Ok(list) => pattern_list(text::rows(parts@)) == Ok::<Seq<PatternView>, Seq<char>>(
                domain::patterns(list@),
            ),
            Err(e) => pattern_list(text::rows(parts@)) == Err::<Seq<PatternView>, Seq<char>>(e@),
        },
{
    let ghost all = text::rows(parts@);
    let mut list: Vec<DomainPattern> = Vec::new();
    let mut i: usize = 0;
    proof {
        assert(all.take(0) =~= Seq::<Seq<char>>::empty());
        assert(domain::patterns(list@) =~= Seq::<PatternView>::empty());
    }
    while i < parts.len()
        invariant
            i <= parts@.len(),
            all == text::rows(parts@),
            pattern_list(all.take(i as int)) == Ok::<Seq<PatternView>, Seq<char>>(
                domain::patterns(list@),
            ),
        decreases parts@.len() - i,
    {
        proof {
            assert(all.take(i + 1).drop_last() =~= all.take(i as int));
            assert(all.take(i + 1).last() == parts@[i as int]@);
        }
        match domain::read_pattern(&parts[i]) {
            Ok(p) => {
                let ghost list0 = list@;
                list.push(p);
                assert(domain::patterns(list@) =~= domain::patterns(list0).push(p@));
            },
            Err(e) => {
                proof {
                    lemma_pattern_list_err(all, i + 1);
                }
                return Err(e);
            },
        }
        i = i + 1;
    }
    assert(all.take(all.len() as int) =~= all);
    Ok(list)
}

/// The name of a record type as a modifier writes it: without leading `~`
/// and in capital letters.
pub open spec fn dnstype_name(value: Seq<char>) -> Seq<char> {
    text::upper(text::trim_front(value, CharClass::Is('~')))
}

/// The types that `values` name; the error of the first one that names none.
pub open spec fn named_types(values: Seq<Seq<char>>) -> Result<Set<u16>, Seq<char>>
    decreases values.len(),
{
    if values.len() == 0 {
        Ok(Set::empty())
    } else {
        match named_types(values.drop_last()) {
            Err(e) => Err(e),
            Ok(types) => match record_dnstype_named(dnstype_name(values.last())) {
                Some(code) => Ok(types.insert(code)),
                None => Err("invalid dnstype value: "@ + dnstype_name(values.last())),
            },
        }
    }
}

proof fn lemma_named_types_err(values: Seq<Seq<char>>, i: int)
    requires
        0 <= i <= values.len(),
        named_types(values.take(i)) is Err,
    ensures
        named_types(values) == named_types(values.take(i)),
    decreases values.len() - i,
{
    if i < values.len() {
        assert(values.take(i + 1).drop_last() =~= values.take(i));
        lemma_named_types_err(values, i + 1);
    } else {
        assert(values.take(i) =~= values);
    }
}

pub open spec fn has_tilde(value: Seq<char>) -> bool {
    value.len() > 0 && value[0] == '~'
}

pub open spec fn all_tilde(values: Seq<Seq<char>>) -> bool {
    forall|i: int| 0 <= i < values.len() ==> has_tilde(#[trigger] values[i])
}

pub open spec fn none_tilde(values: Seq<Seq<char>>) -> bool {
    forall|i: int| 0 <= i < values.len() ==> !has_tilde(#[trigger] values[i])
}

/// The types that the value of `dnstype=` names: those that the rule is for,
/// or with `~` before each those that it is not for.
pub open spec fn types_text(value: Seq<char>) -> Result<TypesView, Seq<char>> {
    let values = text::nonempty(text::split(value, CharClass::Is('|')));
    if !all_tilde(values) && !none_tilde(values) {
        Err("mixed include/exclude dnstype modifier is unsupported: "@ + value)
    } else {
        match named_types(values) {
            Ok(types) => if all_tilde(values) {
                Ok(TypesView::Exclude(types))
            } else {
                Ok(TypesView::Include(types))
            },
            Err(e) => Err(e),
        }
    }
}

proof fn lemma_upper_has_no_small(s: Seq<char>)
    ensures
        forall|i: int| 0 <= i < s.len() ==> !text::is_lower(#[trigger] text::upper(s)[i]),
{
    assert forall|i: int| 0 <= i < s.len() implies !text::is_lower(#[trigger] text::upper(s)[i]) by {
        let c = s[i];
        assert(text::upper(s)[i] == text::upper_char(c));
    }
}

/// Adds the type that is called `name`, where `found` is its code.
pub fn add_dnstype(types: &mut HashSet<u16>, name: &str, found: Option<u16>) -> (r: Result<
    (),
    String,
>)
    ensures
        match (found, r) {
            (Some(code), Ok(())) => final(types)@ == old(types)@.insert(code),
            (None, Err(e)) => final(types)@ == old(types)@ && e@ == "invalid dnstype value: "@
                + name@,
            _ => false,
        },
{
    match found {
        Some(code) => {
            types.insert(code);
            Ok(())
        },
        None => {
            let mut message = "invalid dnstype value: ".to_owned();
            message.append(name);
            Err(message)
        },
    }
}

/// Reads the value of `dnstype=`.
pub fn read_types(value: &[char]) -> (r: Result<TypeConstraint, String>)
    ensures
        match r {
            Ok(types) => types_text(value@) == Ok::<TypesView, Seq<char>>(types@),
            Err(e) => types_text(value@) == Err::<TypesView, Seq<char>>(e@),
        },
{
    let values = text::only_nonempty(text::pieces(value, CharClass::Is('|')));
    let ghost all = text::rows(values@);
    assert(all.len() == values@.len());
    let mut exclude = true;
    let mut plain = true;
    let mut i: usize = 0;
    while i < values.len()
        invariant
            i <= values@.len(),
            all == text::rows(values@),
            exclude == (forall|k: int| 0 <= k < i ==> has_tilde(#[trigger] all[k])),
            plain == (forall|k: int| 0 <= k < i ==> !has_tilde(#[trigger] all[k])),
        decreases values@.len() - i,
    {
        assert(all[i as int] == values@[i as int]@);
        if values[i].len() > 0 && values[i][0] == '~' {
            assert(has_tilde(all[i as int]));
            plain = false;
        } else {
            assert(!has_tilde(all[i as int]));
            exclude = false;
        }
        i = i + 1;
    }
    assert(exclude == all_tilde(all));
    assert(plain == none_tilde(all));
    if !exclude && !plain {
        let mut message = "mixed include/exclude dnstype modifier is unsupported: ".to_owned();
        let shown = text::string_of(value);
        message.append(shown.as_str());
        return Err(message);
    }
    let mut types: HashSet<u16> = HashSet::new();
    let mut i: usize = 0;
    assert(all.take(0) =~= Seq::<Seq<char>>::empty());
    while i < values.len()
        invariant
            i <= values@.len(),
            all == text::rows(values@),
            all == text::nonempty(text::split(value@, CharClass::Is('|'))),
            all_tilde(all) || none_tilde(all),
            named_types(all.take(i as int)) == Ok::<Set<u16>, Seq<char>>(types@),
        decreases values@.len() - i,
    {
        proof {
            assert(all.take(i + 1).drop_last() =~= all.take(i as int));
            assert(all.take(i + 1).last() == values@[i as int]@);
            lemma_upper_has_no_small(text::trim_front(values@[i as int]@, CharClass::Is('~')));
        }
        let upper = text::uppered(text::trimmed_front(&values[i], CharClass::Is('~')));
        let name = text::string_of(&upper);
        match add_dnstype(&mut types, name.as_str(), find_record_type(name.as_str())) {
            Ok(()) => {},
            Err(e) => {
                proof {
                    lemma_named_types_err(all, i + 1);
                }
                return Err(e);
            },
        }
        i = i + 1;
    }
    assert(all.take(all.len() as int) =~= all);
    if exclude {
        Ok(TypeConstraint::Exclude(types))
    } else {
        Ok(TypeConstraint::Include(types))
    }
}

/// Reads the value of `dnstype=`.
pub fn parse_dnstype_modifier(value: &str) -> (r: Result<TypeConstraint, String>)
    ensures
        match r {
            Ok(types) => types_text(value@) == Ok::<TypesView, Seq<char>>(types@),
            Err(e) => types_text(value@) == Err::<TypesView, Seq<char>>(e@),
        },
{
    let chars = text::chars_of(value);
    read_types(&chars)
}

/// What the modifiers say behind one more of them.
pub open spec fn modifier_step(parsed: ModifiersView, modifier: Seq<char>) -> Result<
    ModifiersView,
    Seq<char>,
> {
    if modifier.len() == 0 {
        Ok(parsed)
    } else if modifier == "important"@ || modifier == "badfilter"@ {
        Ok(ModifiersView { important: modifier == "important"@, ..parsed })
    } else if ("dnstype="@).is_prefix_of(modifier) {
        match types_text(modifier.skip(("dnstype="@).len() as int)) {
            Ok(types) => Ok(ModifiersView { dnstypes: Some(types), ..parsed }),
            Err(e) => Err(e),
        }
    } else if ("denyallow="@).is_prefix_of(modifier) {
        let value = modifier.skip(("denyallow="@).len() as int);
        match pattern_list(text::split(value, CharClass::Is('|'))) {
            Ok(list) => Ok(ModifiersView { denyallow: list, ..parsed }),
            Err(e) => Err(e),
        }
    } else {
        Err("unsupported modifier: "@ + modifier)
    }
}

/// A rule without modifiers.
pub open spec fn no_modifiers() -> ModifiersView {
    ModifiersView { important: false, dnstypes: None, denyallow: Seq::empty() }
}

/// What the modifiers in `parts` say, each taken without white space around
/// it; the error of the first one that says nothing.
pub open spec fn modifier_list(parts: Seq<Seq<char>>) -> Result<ModifiersView, Seq<char>>
    decreases parts.len(),
{
    if parts.len() == 0 {
        Ok(no_modifiers())
    } else {
        match modifier_list(parts.drop_last()) {
            Ok(parsed) => modifier_step(parsed, text::trim(parts.last(), CharClass::White)),
            Err(e) => Err(e),
        }
    }
}

/// What the text of a rule behind its `$` says.
pub open spec fn modifiers_text(modifiers: Option<Seq<char>>) -> Result<ModifiersView, Seq<char>> {
    match modifiers {
        Some(s) => modifier_list(text::split(s, CharClass::Is(','))),
        None => Ok(no_modifiers()),
    }
}

proof fn lemma_modifier_list_err(parts: Seq<Seq<char>>, i: int)
    requires
        0 <= i <= parts.len(),
        modifier_list(parts.take(i)) is Err,
    ensures
        modifier_list(parts) == modifier_list(parts.take(i)),
    decreases parts.len() - i,
{
    if i < parts.len() {
        assert(parts.take(i + 1).drop_last() =~= parts.take(i));
        lemma_modifier_list_err(parts, i + 1);
    } else {
        assert(parts.take(i) =~= parts);
    }
}

proof fn lemma_modifier_words()
    ensures
        ("important"@).len() == 9,
        ("badfilter"@).len() == 9,
        ("dnstype="@).len() == 8,
        ("denyallow="@).len() == 10,
{
    reveal_strlit("important");
    reveal_strlit("badfilter");
    reveal_strlit("dnstype=");
    reveal_strlit("denyallow=");
}

/// Whether `s` is the text `t`.
fn is_text(s: &[char], t: &str) -> (r: bool)
    ensures
        r == (s@ == t@),
{
    let chars = text::chars_of(t);
    text::same(s, &chars)
}

/// Takes one more modifier into account.
fn apply_modifier(parsed: ParsedModifiers, modifier: &[char]) -> (r: Result<
    ParsedModifiers,
    String,
>)
    ensures
        match r {
            Ok(p) => modifier_step(parsed@, modifier@) == Ok::<ModifiersView, Seq<char>>(p@),
            Err(e) => modifier_step(parsed@, modifier@) == Err::<ModifiersView, Seq<char>>(e@),
        },
{
    proof {
        lemma_modifier_words();
    }
    let mut parsed = parsed;
    if modifier.len() == 0 {
        return Ok(parsed);
    }
    let important = is_text(modifier, "important");
    if important || is_text(modifier, "badfilter") {
        parsed.important = important;
        return Ok(parsed);
    }
    if text::starts(modifier, "dnstype=") {
        return match read_types(text::after(modifier, 8)) {
            Ok(types) => {
                parsed.dnstypes = Some(types);
                Ok(parsed)
            },
            Err(e) => Err(e),
        };
    }
    if text::starts(modifier, "denyallow=") {
        let parts = text::pieces(text::after(modifier, 10), CharClass::Is('|'));
        return match read_patterns(&parts) {
            Ok(list) => {
                parsed.denyallow = list;
                Ok(parsed)
            },
            Err(e) => Err(e),
        };
    }
    let mut message = "unsupported modifier: ".to_owned();
    let shown = text::string_of(modifier);
    message.append(shown.as_str());
    Err(message)
}

/// Reads the text of a rule behind its `$`.
pub fn parse_modifiers(modifier_text: Option<&str>) -> (r: Result<ParsedModifiers, String>)
    ensures
        match r {
            Ok(p) => modifiers_text(shown(modifier_text)) == Ok::<ModifiersView, Seq<char>>(p@),
            Err(e) => modifiers_text(shown(modifier_text)) == Err::<ModifiersView, Seq<char>>(e@),
        },
{
    let mut parsed = ParsedModifiers { important: false, dnstypes: None, denyallow: Vec::new() };
    assert(parsed@ =~= no_modifiers());
    let s = match modifier_text {
        Some(s) => text::chars_of(s),
        None => return Ok(parsed),
    };
    let parts = text::pieces(&s, CharClass::Is(','));
    let ghost all = text::rows(parts@);
    let mut i: usize = 0;
    assert(all.take(0) =~= Seq::<Seq<char>>::empty());
    while i < parts.len()
        invariant
            i <= parts@.len(),
            all == text::rows(parts@),
            modifiers_text(shown(modifier_text)) == modifier_list(all),
            modifier_list(all.take(i as int)) == Ok::<ModifiersView, Seq<char>>(parsed@),
        decreases parts@.len() - i,
    {
        proof {
            assert(all.take(i + 1).drop_last() =~= all.take(i as int));
            assert(all.take(i + 1).last() == parts@[i as int]@);
        }
        match apply_modifier(parsed, text::trimmed(&parts[i], CharClass::White)) {
            Ok(next) => {
                parsed = next;
            },
            Err(e) => {
                proof {
                    lemma_modifier_list_err(all, i + 1);
                }
                return Err(e);
            },
        }
        i = i + 1;
    }
    assert(all.take(all.len() as int) =~= all);
    Ok(parsed)
}

/// How the expression for a pattern starts, and how many characters of the
/// pattern that stands for: `||` is the start of a label, `|` the start of the
/// domain, a dot the labels before it or nothing.
pub open spec fn expression_start(pattern: Seq<char>) -> (Seq<char>, int) {
    if ("||"@).is_prefix_of(pattern) {
        ("^(?:^|.*\\.)"@, 2)
    } else if pattern.len() > 0 && pattern[0] == '|' {
        ("^"@, 1)
    } else if pattern.len() > 0 && pattern[0] == '.' {
        ("^(?:.*\\.)?"@, 1)
    } else {
        ("^.*"@, 0)
    }
}

/// A character that stands for itself only behind a backslash.
pub open spec fn is_escaped(c: char) -> bool {
    c == '?' || c == '+' || c == '(' || c == ')' || c == '[' || c == ']' || c == '{' || c == '}'
        || c == '\\'
}

/// What the character at `i` of a pattern is in its expression: `*` is any
/// text, `^` and a `|` at the end are the end of the domain.
pub open spec fn expression_piece(pattern: Seq<char>, i: int) -> Seq<char> {
    let c = pattern[i];
    if c == '|' && i + 1 == pattern.len() {
        seq!['$']
    } else if c == '*' {
        ".*"@
    } else if c == '^' {
        seq!['$']
    } else if c == '.' || c == '|' || is_escaped(c) {
        seq!['\\', c]
    } else {
        seq![c]
    }
}

/// What the characters of a pattern from `from` up to `to` are in its
/// expression.
pub open spec fn expression_body(pattern: Seq<char>, from: int, to: int) -> Seq<char>
    decreases to - from,
{
    if to <= from {
        Seq::empty()
    } else {
        expression_body(pattern, from, to - 1) + expression_piece(pattern, to - 1)
    }
}

/// The regular expression for a pattern. It matches whole domains.
pub open spec fn expression_text(pattern: Seq<char>) -> Seq<char> {
    let (start, from) = expression_start(pattern);
    let s = start + expression_body(pattern, from, pattern.len() as int);
    if s.len() > 0 && s.last() == '$' {
        s
    } else {
        s + ".*$"@
    }
}

fn escaped(c: char) -> (r: bool)
    ensures
        r == is_escaped(c),
{
    c == '?' || c == '+' || c == '(' || c == ')' || c == '[' || c == ']' || c == '{' || c == '}'
        || c == '\\'
}

/// Writes the regular expression for a pattern.
pub fn adblock_regex_text(pattern: &[char]) -> (r: Vec<char>)
    ensures
        r@ == expression_text(pattern@),
{
    proof {
        lemma_marks();
    }
    let n: usize = pattern.len();
    let mut out: Vec<char> = Vec::new();
    let mut i: usize = 0;
    if text::starts(pattern, "||") {
        text::extend(&mut out, "^(?:^|.*\\.)");
        i = 2;
    } else if n > 0 && pattern[0] == '|' {
        text::extend(&mut out, "^");
        i = 1;
    } else if n > 0 && pattern[0] == '.' {
        text::extend(&mut out, "^(?:.*\\.)?");
        i = 1;
    } else {
        text::extend(&mut out, "^.*");
    }
    let ghost start = out@;
    let ghost from = i as int;
    assert(expression_start(pattern@).0 =~= start);
    assert(out@ =~= start + expression_body(pattern@, from, from));
    while i < n
        invariant
            i <= n == pattern@.len(),
            from <= i,
            out@ == start + expression_body(pattern@, from, i as int),
        decreases n - i,
    {
        let ghost out0 = out@;
        let c = pattern[i];
        if c == '|' && i + 1 == n {
            out.push('$');
        } else if c == '*' {
            text::extend(&mut out, ".*");
        } else if c == '^' {
            out.push('$');
        } else {
            if c == '.' || c == '|' || escaped(c) {
                out.push('\\');
            }
            out.push(c);
        }
        assert(out@ =~= out0 + expression_piece(pattern@, i as int));
        i = i + 1;
        assert(out@ =~= start + expression_body(pattern@, from, i as int));
    }
    if out.len() == 0 || out[out.len() - 1] != '$' {
        text::extend(&mut out, ".*$");
    }
    out
}

/// The pattern of the form `||domain^`.
pub open spec fn subdomain_pattern(d: Seq<char>) -> Seq<char> {
    "||"@ + d + "^"@
}

proof fn lemma_literal_body(d: Seq<char>, n: int)
    requires
        is_literal(d),
        0 <= n <= d.len(),
    ensures
        expression_body(subdomain_pattern(d), 2, 2 + n) == literal_expression(d.take(n)),
    decreases n,
{
    reveal_strlit("||");
    reveal_strlit("^");
    let pattern = subdomain_pattern(d);
    if n > 0 {
        lemma_literal_body(d, n - 1);
        let c = d[n - 1];
        assert(pattern[1 + n] == c);
        assert(domain::is_domain_char(d[n - 1]));
        assert(d.take(n).drop_last() =~= d.take(n - 1));
        assert(d.take(n).last() == c);
    }
}

/// The expression for a pattern of the form `||domain^` is the one for the
/// domain and what is under it.
pub proof fn law_subdomain_expression(d: Seq<char>)
    requires
        is_literal(d),
    ensures
        expression_text(subdomain_pattern(d)) == subdomain_expression(d),
{
    reveal_strlit("||");
    reveal_strlit("^");
    let pattern = subdomain_pattern(d);
    let n = pattern.len() as int;
    assert(("||"@).is_prefix_of(pattern)) by {
        assert("||"@ =~= pattern.subrange(0, 2));
    }
    lemma_literal_body(d, d.len() as int);
    assert(d.take(d.len() as int) =~= d);
    assert(pattern[n - 1] == '^');
    assert(expression_body(pattern, 2, n) =~= literal_expression(d) + seq!['$']);
    let s = "^(?:^|.*\\.)"@ + expression_body(pattern, 2, n);
    assert(s.last() == '$');
    assert(s =~= subdomain_expression(d));
}

/// Compiles a pattern. One of the form `||domain^` becomes an expression that
/// matches just the domain and its subdomains; it compiles unless the domain is
/// very long.
pub fn adblock_pattern_to_regex(pattern: &str) -> (r: Result<Regex, String>)
    ensures
        match r {
            Ok(regex) => regex_new(expression_text(pattern@)) == Ok::<Regex, Seq<char>>(regex),
            Err(e) => regex_new(expression_text(pattern@)) is Err && e@
                == bad_expression_text(
                pattern@,
                false,
                regex_new(expression_text(pattern@))->Err_0,
            ),
        },
        forall|d: Seq<char>|
            is_literal(d) && pattern@ == #[trigger] subdomain_pattern(d) ==> (d.len()
                <= LONGEST_LITERAL ==> r is Ok) && (r is Ok ==> matches_subdomains(r->Ok_0, d)),
{
    proof {
        assert forall|d: Seq<char>|
            is_literal(d) && pattern@ == #[trigger] subdomain_pattern(d) implies expression_text(
            pattern@,
        ) == subdomain_expression(d) by {
            law_subdomain_expression(d);
        }
    }
    let chars = text::chars_of(pattern);
    let source = text::string_of(&adblock_regex_text(&chars));
    match compile_regex(source.as_str()) {
        Ok(regex) => Ok(regex),
        Err(e) => Err(bad_expression(pattern, false, e.as_str())),
    }
}

/// The words about a pattern whose expression does not compile.
pub open spec fn bad_expression_text(
    pattern: Seq<char>,
    slashed: bool,
    err: Seq<char>,
) -> Seq<char> {
    (if slashed {
        "invalid regex rule "@
    } else {
        "invalid generated regex for "@
    }) + pattern + ": "@ + err
}

fn bad_expression(pattern: &str, slashed: bool, err: &str) -> (r: String)
    ensures
        r@ == bad_expression_text(pattern@, slashed, err@),
{
    let mut message = if slashed {
        "invalid regex rule ".to_owned()
    } else {
        "invalid generated regex for ".to_owned()
    };
    message.append(pattern);
    message.append(": ");
    message.append(err);
    message
}

/// Whether a pattern is a regular expression between slashes.
pub open spec fn is_slashed(pattern: Seq<char>) -> bool {
    pattern.len() >= 2 && pattern[0] == '/' && pattern.last() == '/'
}

/// The regular expression that a pattern is compiled from.
pub open spec fn expression_of(pattern: Seq<char>) -> Seq<char> {
    if is_slashed(pattern) {
        pattern.subrange(1, pattern.len() - 1)
    } else {
        expression_text(pattern)
    }
}

/// The parts of a rule that stand before its expression is compiled: its
/// pattern and its modifiers.
pub open spec fn rule_parts(line: Seq<char>) -> Result<(Seq<char>, ModifiersView), Seq<char>> {
    match split_rule(disposition_of(line).1) {
        Ok((pattern, modifiers)) => match modifiers_text(modifiers) {
            Ok(m) => Ok((pattern, m)),
            Err(e) => Err(e),
        },
        Err(e) => Err(e),
    }
}

/// The rule of these parts, where its expression is compiled to `compiled`.
pub open spec fn rule_of(
    raw_text: Seq<char>,
    pattern: Seq<char>,
    modifiers: ModifiersView,
    compiled: Result<Regex, Seq<char>>,
) -> Result<RuleView, Seq<char>> {
    match compiled {
        Ok(regex) => Ok(
            RuleView {
                raw_text,
                regex,
                important: modifiers.important,
                dnstypes: modifiers.dnstypes,
                denyallow: modifiers.denyallow,
            },
        ),
        Err(e) => Err(bad_expression_text(pattern, is_slashed(pattern), e)),
    }
}

/// The rule that `line` writes with a pattern and modifiers.
pub open spec fn complex_rule(line: Seq<char>) -> Result<RuleView, Seq<char>> {
    match rule_parts(line) {
        Ok((pattern, modifiers)) => rule_of(
            line,
            pattern,
            modifiers,
            regex_new(expression_of(pattern)),
        ),
        Err(e) => Err(e),
    }
}

pub open spec fn compiled_view(compiled: Result<Regex, String>) -> Result<Regex, Seq<char>> {
    match compiled {
        Ok(regex) => Ok(regex),
        Err(e) => Err(e@),
    }
}

/// Makes the rule of these parts.
pub fn rule_with_expression(
    raw_text: &str,
    pattern: &str,
    modifiers: ParsedModifiers,
    compiled: Result<Regex, String>,
) -> (r: Result<CompiledMatchRule, String>)
    ensures
        match r {
            Ok(rule) => rule_of(raw_text@, pattern@, modifiers@, compiled_view(compiled)) == Ok::<
                RuleView,
                Seq<char>,
            >(rule@),
            Err(e) => rule_of(raw_text@, pattern@, modifiers@, compiled_view(compiled)) == Err::<
                RuleView,
                Seq<char>,
            >(e@),
        },
{
    match compiled {
        Ok(regex) => Ok(
            CompiledMatchRule {
                raw_text: raw_text.to_owned(),
                matcher: Matcher::Regex(regex),
                important: modifiers.important,
                dnstypes: modifiers.dnstypes,
                denyallow: modifiers.denyallow,
            },
        ),
        Err(e) => {
            let chars = text::chars_of(pattern);
            Err(bad_expression(pattern, slashed(&chars), e.as_str()))
        },
    }
}

fn slashed(pattern: &[char]) -> (r: bool)
    ensures
        r == is_slashed(pattern@),
{
    let n: usize = pattern.len();
    n >= 2 && pattern[0] == '/' && pattern[n - 1] == '/'
}

/// Reads a rule with a pattern and modifiers.
pub fn parse_complex_rule(line: &str) -> (r: Result<Option<CompiledMatchRule>, String>)
    ensures
        match r {
            Ok(Some(rule)) => complex_rule(line@) == Ok::<RuleView, Seq<char>>(rule@),
            Ok(None) => false,
            Err(e) => complex_rule(line@) == Err::<RuleView, Seq<char>>(e@),
        },
        forall|d: Seq<char>|
            is_literal(d) && rule_parts(line@) is Ok && rule_parts(line@)->Ok_0.0
                == #[trigger] subdomain_pattern(d) ==> (d.len() <= LONGEST_LITERAL ==> r is Ok) && (
            r is Ok ==> r->Ok_0 is Some && matches_subdomains(r->Ok_0.unwrap()@.regex, d)),
{
    proof {
        lemma_marks();
    }
    let chars = text::chars_of(line);
    let body = if text::starts(&chars, "@@") {
        let rest = line.substring_char(2, chars.len());
        assert(rest@ =~= line@.skip(2));
        rest
    } else {
        line
    };
    let (pattern, modifier_text) = match split_pattern_and_modifiers(body) {
        Ok(parts) => parts,
        Err(e) => return Err(e),
    };
    let modifiers = match parse_modifiers(modifier_text) {
        Ok(modifiers) => modifiers,
        Err(e) => return Err(e),
    };
    proof {
        assert forall|d: Seq<char>|
            is_literal(d) && pattern@ == #[trigger] subdomain_pattern(d) implies expression_of(
            pattern@,
        ) == subdomain_expression(d) by {
            law_subdomain_expression(d);
            assert(pattern@[0] == '|');
        }
    }
    let pattern_chars = text::chars_of(pattern);
    let source = if slashed(&pattern_chars) {
        text::string_of(&pattern_chars[1..pattern_chars.len() - 1])
    } else {
        text::string_of(&adblock_regex_text(&pattern_chars))
    };
    match rule_with_expression(line, pattern, modifiers, compile_regex(source.as_str())) {
        Ok(rule) => Ok(Some(rule)),
        Err(e) => Err(e),
    }
}

/// The expression for a pattern is anchored at both ends.
pub proof fn law_expression_is_anchored(pattern: Seq<char>)
    ensures
        expression_text(pattern)[0] == '^',
        expression_text(pattern).last() == '$',
{
    reveal_strlit("^(?:^|.*\\.)");
    reveal_strlit("^");
    reveal_strlit("^(?:.*\\.)?");
    reveal_strlit("^.*");
    reveal_strlit(".*$");
}

} // verus!
