//! Domains as rules and configuration write them, and patterns over them.
use vstd::prelude::*;

use crate::text;
use crate::text::CharClass;

verus! {

/// A character that a domain may hold: a letter, a digit, a dot, a hyphen or
/// an underscore.
pub open spec fn is_domain_char(c: char) -> bool {
    text::is_alnum(c) || c == '.' || c == '-' || c == '_'
}

/// `s` without white space and dots around it and without leading `*.`, in
/// small letters.
pub open spec fn domain_candidate(s: Seq<char>) -> Seq<char> {
    text::lower(
        text::drop_prefixes(
            text::trim(text::trim(s, CharClass::White), CharClass::Is('.')),
            "*."@,
        ),
    )
}

/// The domain that `s` names, if it names one.
pub open spec fn normal_domain(s: Seq<char>) -> Option<Seq<char>> {
    let candidate = domain_candidate(s);
    if candidate.len() > 0 && (forall|i: int|
        0 <= i < candidate.len() ==> is_domain_char(#[trigger] candidate[i])) {
        Some(candidate)
    } else {
        None
    }
}

fn domain_char(c: char) -> (r: bool)
    ensures
        r == is_domain_char(c),
{
    ('0' <= c && c <= '9') || ('a' <= c && c <= 'z') || ('A' <= c && c <= 'Z') || c == '.' || c
        == '-' || c == '_'
}

/// The domain that `s` names, if it names one.
pub fn normalized(s: &[char]) -> (r: Option<Vec<char>>)
    ensures
        match r {
            Some(d) => normal_domain(s@) == Some(d@),
            None => normal_domain(s@) is None,
        },
{
    let bare = text::trimmed(text::trimmed(s, CharClass::White), CharClass::Is('.'));
    let candidate = text::lowered(text::without_prefixes(bare, "*."));
    if candidate.len() == 0 {
        return None;
    }
    let mut i: usize = 0;
    while i < candidate.len()
        invariant
            i <= candidate@.len(),
            candidate@ == domain_candidate(s@),
            forall|k: int| 0 <= k < i ==> is_domain_char(#[trigger] candidate@[k]),
        decreases candidate@.len() - i,
    {
        if !domain_char(candidate[i]) {
            return None;
        }
        i = i + 1;
    }
    Some(candidate)
}

/// The domain that `input` names, if it names one.
pub fn normalize_domain(input: &str) -> (r: Option<String>)
    ensures
        match r {
            Some(d) => normal_domain(input@) == Some(d@),
            None => normal_domain(input@) is None,
        },
{
    let chars = text::chars_of(input);
    match normalized(&chars) {
        Some(d) => Some(text::string_of(&d)),
        None => None,
    }
}

/// Whether `domain` is `suffix` or one of its subdomains.
pub open spec fn under(domain: Seq<char>, suffix: Seq<char>) -> bool {
    ||| domain == suffix
    ||| suffix.is_suffix_of(domain) && domain.len() > suffix.len() && domain[domain.len()
        - suffix.len() - 1] == '.'
}

/// Whether `domain` is `suffix` or one of its subdomains.
pub fn under_chars(domain: &[char], suffix: &[char]) -> (r: bool)
    ensures
        r == under(domain@, suffix@),
{
    if text::same(domain, suffix) {
        return true;
    }
    domain.len() > suffix.len() && text::has_suffix(domain, suffix) && domain[domain.len()
        - suffix.len() - 1] == '.'
}

/// Whether `domain` is `suffix` or one of its subdomains.
pub fn suffix_match(domain: &str, suffix: &str) -> (r: bool)
    ensures
        r == under(domain@, suffix@),
{
    let d = text::chars_of(domain);
    let s = text::chars_of(suffix);
    under_chars(&d, &s)
}

/// A domain, or every subdomain of one.
#[derive(Clone, Debug, Eq, Hash, PartialEq)]
pub enum DomainPattern {
    Exact(String),
    WildcardSuffix(String),
}

/// What a `DomainPattern` says.
pub enum PatternView {
    Exact(Seq<char>),
    WildcardSuffix(Seq<char>),
}

impl View for DomainPattern {
    type V = PatternView;

    open spec fn view(&self) -> PatternView {
        match *self {
            DomainPattern::Exact(d) => PatternView::Exact(d@),
            DomainPattern::WildcardSuffix(d) => PatternView::WildcardSuffix(d@),
        }
    }
}

/// What the patterns of `v` say.
pub open spec fn patterns(v: Seq<DomainPattern>) -> Seq<PatternView> {
    v.map_values(|p: DomainPattern| p@)
}

impl PatternView {
    /// Whether the pattern covers `domain`. A wildcard covers the subdomains
    /// of its domain but not the domain.
    pub open spec fn covers(self, domain: Seq<char>) -> bool {
        match self {
            PatternView::Exact(d) => domain == d,
            PatternView::WildcardSuffix(d) => domain != d && under(domain, d),
        }
    }
}

/// Whether `pattern` covers `domain`.
pub fn domain_pattern_matches(pattern: &DomainPattern, domain: &str) -> (r: bool)
    ensures
        r == pattern@.covers(domain@),
{
    match pattern {
        DomainPattern::Exact(exact) => text::same_text(domain, exact.as_str()),
        DomainPattern::WildcardSuffix(suffix) => {
            !text::same_text(domain, suffix.as_str()) && suffix_match(domain, suffix.as_str())
        },
    }
}

/// Whether one of `list` covers `domain`.
pub open spec fn any_covers(list: Seq<PatternView>, domain: Seq<char>) -> bool {
    exists|i: int| 0 <= i < list.len() && (#[trigger] list[i]).covers(domain)
}

/// Whether one of `list` covers `domain`.
pub fn any_pattern_matches(list: &Vec<DomainPattern>, domain: &str) -> (r: bool)
    ensures
        r == any_covers(patterns(list@), domain@),
{
    let mut i: usize = 0;
    while i < list.len()
        invariant
            i <= list@.len(),
            forall|k: int| 0 <= k < i ==> !(#[trigger] patterns(list@)[k]).covers(domain@),
        decreases list@.len() - i,
    {
        assert(patterns(list@)[i as int] == list@[i as int]@);
        if domain_pattern_matches(&list[i], domain) {
            return true;
        }
        i = i + 1;
    }
    false
}

/// The words about a text that writes no pattern.
pub open spec fn bad_pattern_text(s: Seq<char>) -> Seq<char> {
    "invalid rewrite domain pattern: "@ + s
}

/// The pattern that `s` writes: a domain, with a leading `*.` for its
/// subdomains.
pub open spec fn pattern_text(s: Seq<char>) -> Result<PatternView, Seq<char>> {
    match normal_domain(s) {
        Some(d) => if ("*."@).is_prefix_of(text::trim(s, CharClass::White)) {
            Ok(PatternView::WildcardSuffix(d))
        } else {
            Ok(PatternView::Exact(d))
        },
        None => Err(bad_pattern_text(s)),
    }
}

/// Reads a pattern.
pub fn read_pattern(s: &[char]) -> (r: Result<DomainPattern, String>)
    ensures
        match r {
            Ok(p) => pattern_text(s@) == Ok::<PatternView, Seq<char>>(p@),
            Err(e) => pattern_text(s@) == Err::<PatternView, Seq<char>>(e@),
        },
{
    match normalized(s) {
        Some(d) => {
            let domain = text::string_of(&d);
            if text::starts(text::trimmed(s, CharClass::White), "*.") {
                Ok(DomainPattern::WildcardSuffix(domain))
            } else {
                Ok(DomainPattern::Exact(domain))
            }
        },
        None => {
            let mut message = "invalid rewrite domain pattern: ".to_owned();
            let shown = text::string_of(s);
            message.append(shown.as_str());
            Err(message)
        },
    }
}

/// Reads a pattern.
pub fn parse_domain_pattern(value: &str) -> (r: Result<DomainPattern, String>)
    ensures
        match r {
            Ok(p) => pattern_text(value@) == Ok::<PatternView, Seq<char>>(p@),
            Err(e) => pattern_text(value@) == Err::<PatternView, Seq<char>>(e@),
        },
{
    let chars = text::chars_of(value);
    read_pattern(&chars)
}

} // verus!
