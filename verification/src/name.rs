//! Names as DNS messages carry them: sequences of labels.
use vstd::prelude::*;

use hickory_proto::rr::Name;

use crate::domain;
use crate::text;
use crate::text::CharClass;

verus! {

/// A name: its labels from the host up to the top, and whether it is fully
/// qualified. Its labels are valid.
#[derive(Debug, PartialEq, Eq)]
pub struct DomainName {
    labels: Vec<Vec<u8>>,
    fqdn: bool,
}

/// What the labels of `v` hold.
pub open spec fn label_rows(v: Seq<Vec<u8>>) -> Seq<Seq<u8>> {
    v.map_values(|l: Vec<u8>| l@)
}

/// The bytes that `labels` take in a message, without the one that ends a name.
pub open spec fn labels_size(labels: Seq<Seq<u8>>) -> nat
    decreases labels.len(),
{
    if labels.len() == 0 {
        0
    } else {
        labels_size(labels.drop_last()) + labels.last().len() + 1
    }
}

/// Labels hold 1 to 63 bytes, and a name takes at most 255.
pub open spec fn valid_labels(labels: Seq<Seq<u8>>) -> bool {
    &&& forall|i: int| 0 <= i < labels.len() ==> 1 <= (#[trigger] labels[i]).len() <= 63
    &&& labels_size(labels) + 1 <= 255
}

/// What a `DomainName` says: its labels, and whether it is fully qualified.
#[verifier::ext_equal]
pub struct NameView {
    pub labels: Seq<Seq<u8>>,
    pub fqdn: bool,
}

impl NameView {
    /// The name in ASCII small letters.
    pub open spec fn lowered(self) -> NameView {
        NameView { labels: lower_labels(self.labels), fqdn: self.fqdn }
    }
}

impl View for DomainName {
    type V = NameView;

    open spec fn view(&self) -> NameView {
        NameView { labels: self.label_view(), fqdn: self.is_full() }
    }
}

impl DomainName {
    /// The labels of the name.
    pub closed spec fn label_view(self) -> Seq<Seq<u8>> {
        label_rows(self.labels@)
    }

    /// Whether the name is fully qualified.
    pub closed spec fn is_full(self) -> bool {
        self.fqdn
    }

    #[verifier::type_invariant]
    closed spec fn valid(self) -> bool {
        valid_labels(self.label_view())
    }

    /// The name with these labels, if they are valid.
    pub fn new(labels: Vec<Vec<u8>>, fqdn: bool) -> (r: Option<DomainName>)
        ensures
            match r {
                Some(name) => valid_labels(label_rows(labels@)) && name.label_view() == label_rows(
                    labels@,
                ) && name.is_full() == fqdn,
                None => !valid_labels(label_rows(labels@)),
            },
    {
        let ghost all = label_rows(labels@);
        let mut size: usize = 0;
        let mut i: usize = 0;
        assert(all.take(0) =~= Seq::<Seq<u8>>::empty());
        while i < labels.len()
            invariant
                i <= labels@.len(),
                all == label_rows(labels@),
                size == labels_size(all.take(i as int)),
                size <= 254,
                forall|k: int| 0 <= k < i ==> 1 <= (#[trigger] all[k]).len() <= 63,
            decreases labels@.len() - i,
        {
            let n: usize = labels[i].len();
            assert(all[i as int].len() == n);
            if n == 0 || n > 63 {
                return None;
            }
            assert(all.take(i + 1).drop_last() =~= all.take(i as int));
            size = size + n + 1;
            if size > 254 {
                proof {
                    lemma_size_grows(all, i + 1);
                }
                return None;
            }
            i = i + 1;
        }
        assert(all.take(all.len() as int) =~= all);
        Some(DomainName { labels, fqdn })
    }

    /// The labels of the name.
    pub fn labels(&self) -> (r: &Vec<Vec<u8>>)
        ensures
            label_rows(r@) == self.label_view(),
    {
        &self.labels
    }

    /// Whether the name is fully qualified.
    pub fn is_fqdn(&self) -> (r: bool)
        ensures
            r == self.is_full(),
    {
        self.fqdn
    }
}

proof fn lemma_size_grows(labels: Seq<Seq<u8>>, i: int)
    requires
        0 <= i <= labels.len(),
    ensures
        labels_size(labels.take(i)) <= labels_size(labels),
    decreases labels.len() - i,
{
    if i < labels.len() {
        assert(labels.take(i + 1).drop_last() =~= labels.take(i));
        lemma_size_grows(labels, i + 1);
    } else {
        assert(labels.take(i) =~= labels);
    }
}

/// A label of letters, digits, underscores and, but for its first byte,
/// hyphens.
pub open spec fn plain_label(l: Seq<char>) -> bool {
    &&& 1 <= l.len() <= 63
    &&& forall|i: int|
        0 <= i < l.len() ==> text::is_alnum(#[trigger] l[i]) || l[i] == '_' || (l[i] == '-' && i
            > 0)
}

pub open spec fn label_text(l: Seq<u8>) -> Seq<char> {
    l.map_values(|b: u8| b as char)
}

pub open spec fn label_texts(labels: Seq<Seq<u8>>) -> Seq<Seq<char>> {
    labels.map_values(|l: Seq<u8>| label_text(l))
}

pub open spec fn label_bytes(l: Seq<char>) -> Seq<u8> {
    l.map_values(|c: char| c as u8)
}

/// Labels that a text writes as they are, with dots between them.
pub open spec fn plain_labels(labels: Seq<Seq<char>>) -> bool {
    forall|i: int| 0 <= i < labels.len() ==> plain_label(#[trigger] labels[i])
}

/// A text of plain labels with dots between them, short enough for a name.
pub open spec fn plain_domain(s: Seq<char>) -> bool {
    plain_labels(text::split(s, CharClass::Is('.'))) && s.len() + 2 <= 255
}

/// The labels between the dots of `s`.
pub open spec fn domain_labels(s: Seq<char>) -> Seq<Seq<u8>> {
    text::split(s, CharClass::Is('.')).map_values(|l: Seq<char>| label_bytes(l))
}

/// A text of letters, digits, hyphens, underscores and dots, without a dot at
/// its end.
pub open spec fn dotted_text(s: Seq<char>) -> bool {
    &&& s.len() > 0
    &&& s.last() != '.'
    &&& forall|i: int| 0 <= i < s.len() ==> domain::is_domain_char(#[trigger] s[i])
}

/// What `Name::from_ascii` makes of a text: the labels and whether the name
/// is fully qualified, or the words of its error.
pub uninterp spec fn name_from_ascii(s: Seq<char>) -> Result<(Seq<Seq<u8>>, bool), Seq<char>>;

/// Calls `Name::from_ascii`. What it returns depends on the text alone, and a
/// name that it returns is valid. A text of plain labels gives those labels.
/// Where it returns a name for a text of letters, digits, hyphens, underscores
/// and dots that has no dot at its end, the labels are what stands between the
/// dots.
#[verifier::external_body]
pub(crate) fn read_ascii_name(s: &str) -> (r: Result<DomainName, String>)
    ensures
        match r {
            Ok(name) => name_from_ascii(s@) == Ok::<(Seq<Seq<u8>>, bool), Seq<char>>(
                (name.label_view(), name.is_full()),
            ) && valid_labels(name.label_view()),
            Err(e) => name_from_ascii(s@) == Err::<(Seq<Seq<u8>>, bool), Seq<char>>(e@),
        },
        plain_domain(s@) ==> r is Ok && r->Ok_0.label_view() == domain_labels(s@)
            && !r->Ok_0.is_full(),
        dotted_text(s@) && r is Ok ==> r->Ok_0.label_view() == domain_labels(s@),
{
    match Name::from_ascii(s) {
        Ok(name) => Ok(
            DomainName {
                labels: name.iter().map(|label| label.to_vec()).collect(),
                fqdn: name.is_fqdn(),
            },
        ),
        Err(err) => Err(err.to_string()),
    }
}

/// The text that `Name::to_ascii` writes for a name with these labels.
pub uninterp spec fn name_to_ascii(labels: Seq<Seq<u8>>, fqdn: bool) -> Seq<char>;

/// Calls `Name::to_ascii`. What it writes depends on the labels and on
/// whether the name is fully qualified; plain labels are written as they
/// are, with dots between them and one behind a fully qualified name.
#[verifier::external_body]
pub(crate) fn write_ascii_name(name: &DomainName) -> (r: String)
    ensures
        r@ == name_to_ascii(name.label_view(), name.is_full()),
        plain_labels(label_texts(name.label_view())) ==> r@ == text::join(
            label_texts(name.label_view()),
            "."@,
        ) + if name.is_full() {
            "."@
        } else {
            ""@
        },
{
    let mut full = Name::from_labels(name.labels.iter().map(|label| label.as_slice())).unwrap();
    full.set_fqdn(name.fqdn);
    full.to_ascii()
}

/// What `Name::parse` makes of a text that is taken relative to the empty
/// name: the labels and whether the name is fully qualified, or the words of
/// its error.
pub uninterp spec fn name_parse(s: Seq<char>) -> Result<(Seq<Seq<u8>>, bool), Seq<char>>;

/// Calls `Name::parse` with the empty name as the origin. What it returns
/// depends on the text alone; a name that it returns is valid and fully
/// qualified, and a dot is the name without labels.
#[verifier::external_body]
pub(crate) fn parse_name(s: &str) -> (r: Result<DomainName, String>)
    ensures
        match r {
            Ok(name) => name_parse(s@) == Ok::<(Seq<Seq<u8>>, bool), Seq<char>>(
                (name.label_view(), name.is_full()),
            ) && valid_labels(name.label_view()) && name.is_full(),
            Err(e) => name_parse(s@) == Err::<(Seq<Seq<u8>>, bool), Seq<char>>(e@),
        },
        s@ == "."@ ==> r is Ok && r->Ok_0.label_view().len() == 0,
{
    match Name::parse(s, Some(&Name::new())) {
        Ok(name) => Ok(
            DomainName {
                labels: name.iter().map(|label| label.to_vec()).collect(),
                fqdn: name.is_fqdn(),
            },
        ),
        Err(err) => Err(err.to_string()),
    }
}

/// The text that `Name` shows itself with.
pub uninterp spec fn name_display(labels: Seq<Seq<u8>>, fqdn: bool) -> Seq<char>;

/// Calls `Name::to_string`. What it writes depends on the labels and on
/// whether the name is fully qualified; the root is written as a dot.
#[verifier::external_body]
pub(crate) fn show_name(name: &DomainName) -> (r: String)
    ensures
        r@ == name_display(name.label_view(), name.is_full()),
        name.label_view().len() == 0 && name.is_full() ==> r@ == "."@,
{
    let mut full = Name::from_labels(name.labels.iter().map(|label| label.as_slice())).unwrap();
    full.set_fqdn(name.fqdn);
    full.to_string()
}

impl Clone for DomainName {
    fn clone(&self) -> (r: DomainName)
        ensures
            r.label_view() == self.label_view(),
            r.is_full() == self.is_full(),
    {
        proof {
            use_type_invariant(self);
        }
        let labels = copied(&self.labels);
        DomainName { labels, fqdn: self.fqdn }
    }
}

fn copied(labels: &Vec<Vec<u8>>) -> (r: Vec<Vec<u8>>)
    ensures
        label_rows(r@) == label_rows(labels@),
{
    let mut out: Vec<Vec<u8>> = Vec::new();
    let mut i: usize = 0;
    while i < labels.len()
        invariant
            i <= labels@.len(),
            out@.len() == i,
            forall|k: int| 0 <= k < i ==> #[trigger] out@[k]@ == labels@[k]@,
        decreases labels@.len() - i,
    {
        let label = labels[i].clone();
        assert(label@ =~= labels@[i as int]@);
        out.push(label);
        i = i + 1;
    }
    assert(label_rows(out@) =~= label_rows(labels@));
    out
}

pub open spec fn lower_byte(b: u8) -> u8 {
    if 65 <= b <= 90 {
        (b + 32) as u8
    } else {
        b
    }
}

pub open spec fn lower_label(l: Seq<u8>) -> Seq<u8> {
    l.map_values(|b: u8| lower_byte(b))
}

/// The labels in ASCII small letters.
pub open spec fn lower_labels(labels: Seq<Seq<u8>>) -> Seq<Seq<u8>> {
    labels.map_values(|l: Seq<u8>| lower_label(l))
}

fn lowered_label(label: &Vec<u8>) -> (r: Vec<u8>)
    ensures
        r@ == lower_label(label@),
{
    let mut out: Vec<u8> = Vec::new();
    let mut i: usize = 0;
    while i < label.len()
        invariant
            i <= label@.len(),
            out@ == lower_label(label@.take(i as int)),
        decreases label@.len() - i,
    {
        let b: u8 = label[i];
        if 65 <= b && b <= 90 {
            out.push(b + 32);
        } else {
            out.push(b);
        }
        i = i + 1;
        assert(out@ =~= lower_label(label@.take(i as int)));
    }
    assert(label@.take(label@.len() as int) =~= label@);
    out
}

proof fn lemma_lower_size(labels: Seq<Seq<u8>>)
    ensures
        labels_size(lower_labels(labels)) == labels_size(labels),
    decreases labels.len(),
{
    if labels.len() > 0 {
        lemma_lower_size(labels.drop_last());
        assert(lower_labels(labels).drop_last() =~= lower_labels(labels.drop_last()));
    }
}

impl DomainName {
    /// The name in ASCII small letters, fully qualified where `fqdn` says so.
    pub fn lowered(&self, fqdn: bool) -> (r: DomainName)
        ensures
            r.label_view() == lower_labels(self.label_view()),
            r.is_full() == fqdn,
    {
        proof {
            use_type_invariant(self);
        }
        let mut out: Vec<Vec<u8>> = Vec::new();
        let mut i: usize = 0;
        while i < self.labels.len()
            invariant
                i <= self.labels@.len(),
                out@.len() == i,
                forall|k: int| 0 <= k < i ==> #[trigger] out@[k]@ == lower_label(self.labels@[k]@),
            decreases self.labels@.len() - i,
        {
            out.push(lowered_label(&self.labels[i]));
            i = i + 1;
        }
        proof {
            assert(label_rows(out@) =~= lower_labels(self.label_view()));
            lemma_lower_size(self.label_view());
        }
        DomainName { labels: out, fqdn }
    }

    /// Whether the two names have the same labels.
    pub fn same_labels(&self, other: &DomainName) -> (r: bool)
        ensures
            r == (self.label_view() == other.label_view()),
    {
        let n: usize = self.labels.len();
        if n != other.labels.len() {
            assert(self.label_view().len() != other.label_view().len());
            return false;
        }
        let mut i: usize = 0;
        while i < n
            invariant
                i <= n == self.labels@.len() == other.labels@.len(),
                forall|k: int| 0 <= k < i ==> #[trigger] self.labels@[k]@ == other.labels@[k]@,
            decreases n - i,
        {
            if !same_label(&self.labels[i], &other.labels[i]) {
                assert(self.label_view()[i as int] != other.label_view()[i as int]);
                return false;
            }
            i = i + 1;
        }
        assert(self.label_view() =~= other.label_view());
        true
    }
}

fn same_label(a: &Vec<u8>, b: &Vec<u8>) -> (r: bool)
    ensures
        r == (a@ == b@),
{
    let n: usize = a.len();
    if n != b.len() {
        return false;
    }
    let mut i: usize = 0;
    while i < n
        invariant
            i <= n == a@.len() == b@.len(),
            forall|k: int| 0 <= k < i ==> a@[k] == b@[k],
        decreases n - i,
    {
        if a[i] != b[i] {
            return false;
        }
        i = i + 1;
    }
    assert(a@ =~= b@);
    true
}

/// The domain that the text of a name says: without dots at its end, in small
/// letters.
pub open spec fn said_domain(ascii: Seq<char>) -> Seq<char> {
    text::lower(text::trim_back(ascii, CharClass::Is('.')))
}

/// The domain that a name is matched under.
pub open spec fn query_domain(labels: Seq<Seq<u8>>, fqdn: bool) -> Seq<char> {
    said_domain(name_to_ascii(labels, fqdn))
}

/// The domain that the text of a name says.
pub fn domain_of_text(ascii: &str) -> (r: String)
    ensures
        r@ == said_domain(ascii@),
{
    let chars = text::chars_of(ascii);
    text::string_of(&text::lowered(text::trimmed_back(&chars, CharClass::Is('.'))))
}

/// The domain that plain labels are matched under.
pub open spec fn plain_query_domain(labels: Seq<Seq<u8>>) -> Seq<char> {
    said_domain(text::join(label_texts(labels), "."@))
}

/// The domain that a name is matched under.
pub fn normalized_query_name(name: &DomainName) -> (r: String)
    ensures
        r@ == query_domain(name.label_view(), name.is_full()),
        plain_labels(label_texts(name.label_view())) ==> r@ == plain_query_domain(
            name.label_view(),
        ),
{
    let ascii = write_ascii_name(name);
    proof {
        let joined = text::join(label_texts(name.label_view()), "."@);
        reveal_strlit(".");
        reveal_strlit("");
        assert((joined + "."@).drop_last() =~= joined);
        assert(joined + ""@ =~= joined);
    }
    domain_of_text(ascii.as_str())
}

} // verus!
