//! What holds of texts: how they are trimmed, split and put into letters of
//! one case, how numbers are written, and which domains they name.
use vstd::prelude::*;

use crate::domain;
use crate::domain::PatternView;
use crate::name;
use crate::number;
use crate::text;
use crate::text::CharClass;

verus! {

/// Whether all characters of a text are of the class.
pub open spec fn all_of(s: Seq<char>, class: CharClass) -> bool {
    forall|i: int| 0 <= i < s.len() ==> class.holds(#[trigger] s[i])
}

/// Whether no character of a text is of the class.
pub open spec fn none_of(s: Seq<char>, class: CharClass) -> bool {
    forall|i: int| 0 <= i < s.len() ==> !class.holds(#[trigger] s[i])
}

/// The characters that are white space.
pub proof fn law_white_space(c: char)
    ensures
        text::is_white(c) == (c == '\t' || c == '\n' || c == '\u{b}' || c == '\u{c}' || c == '\r'
            || c == ' ' || c == '\u{85}' || c == '\u{a0}' || c == '\u{1680}' || ('\u{2000}' <= c
            && c <= '\u{200a}') || c == '\u{2028}' || c == '\u{2029}' || c == '\u{202f}' || c
            == '\u{205f}' || c == '\u{3000}'),
        CharClass::White.holds(c) == text::is_white(c),
        forall|d: char| #[trigger] CharClass::Is(d).holds(c) == (c == d),
{
}

/// Letters of ASCII are put into the other case, 32 apart, and nothing else
/// is changed.
pub proof fn law_letters(s: Seq<char>, i: int)
    requires
        0 <= i < s.len(),
    ensures
        text::lower(s).len() == s.len(),
        'A' <= s[i] <= 'Z' ==> text::lower(s)[i] as u32 == s[i] as u32 + 32,
        !('A' <= s[i] <= 'Z') ==> text::lower(s)[i] == s[i],
        text::upper(s).len() == s.len(),
        'a' <= s[i] <= 'z' ==> text::upper(s)[i] as u32 == s[i] as u32 - 32,
        !('a' <= s[i] <= 'z') ==> text::upper(s)[i] == s[i],
{
}

proof fn lemma_trim_front(front: Seq<char>, rest: Seq<char>, class: CharClass)
    requires
        all_of(front, class),
    ensures
        text::trim_front(front + rest, class) == text::trim_front(rest, class),
    decreases front.len(),
{
    if front.len() > 0 {
        let s = front + rest;
        assert(s[0] == front[0]);
        assert(s.skip(1) =~= front.skip(1) + rest);
        assert forall|i: int| 0 <= i < front.skip(1).len() implies class.holds(
            #[trigger] front.skip(1)[i],
        ) by {
            assert(front.skip(1)[i] == front[i + 1]);
        }
        lemma_trim_front(front.skip(1), rest, class);
    } else {
        assert(front + rest =~= rest);
    }
}

proof fn lemma_trim_back(rest: Seq<char>, back: Seq<char>, class: CharClass)
    requires
        all_of(back, class),
    ensures
        text::trim_back(rest + back, class) == text::trim_back(rest, class),
    decreases back.len(),
{
    if back.len() > 0 {
        let s = rest + back;
        assert(s.last() == back[back.len() - 1]);
        assert(s.drop_last() =~= rest + back.drop_last());
        assert forall|i: int| 0 <= i < back.drop_last().len() implies class.holds(
            #[trigger] back.drop_last()[i],
        ) by {
            assert(back.drop_last()[i] == back[i]);
        }
        lemma_trim_back(rest, back.drop_last(), class);
    } else {
        assert(rest + back =~= rest);
    }
}

/// Trimming takes away the characters of the class at the ends of a text, all
/// of them and nothing else.
pub proof fn law_trim(front: Seq<char>, core: Seq<char>, back: Seq<char>, class: CharClass)
    requires
        all_of(front, class),
        all_of(back, class),
        core.len() > 0 ==> !class.holds(core[0]) && !class.holds(core.last()),
    ensures
        text::trim(front + core + back, class) == core,
        text::trim_front(front + core, class) == core,
        text::trim_back(core + back, class) == core,
{
    lemma_trim_front(front, core, class);
    lemma_trim_back(core, back, class);
    assert(front + core + back =~= front + (core + back));
    lemma_trim_front(front, core + back, class);
    if core.len() == 0 {
        assert(core + back =~= back);
        assert(core =~= Seq::<char>::empty());
        assert(back + core =~= back);
        lemma_trim_front(back, core, class);
    } else {
        assert((core + back)[0] == core[0]);
    }
}

/// Splitting at the characters of a class: a text without them is one piece,
/// and one of them parts the pieces of what stands before it from those of
/// what stands behind it.
pub proof fn law_split(p: Seq<char>, c: char, q: Seq<char>, class: CharClass)
    ensures
        none_of(p, class) ==> text::split(p, class) == seq![p],
        class.holds(c) ==> text::split(p + seq![c] + q, class) == text::split(p, class)
            + text::split(q, class),
{
    if none_of(p, class) {
        lemma_split_whole(p, class);
    }
    if class.holds(c) {
        lemma_split_parts(p, c, q, class);
    }
}

proof fn lemma_split_whole(s: Seq<char>, class: CharClass)
    requires
        none_of(s, class),
    ensures
        text::split(s, class) == seq![s],
    decreases s.len(),
{
    if s.len() > 0 {
        assert forall|i: int| 0 <= i < s.drop_last().len() implies !class.holds(
            #[trigger] s.drop_last()[i],
        ) by {
            assert(s.drop_last()[i] == s[i]);
        }
        lemma_split_whole(s.drop_last(), class);
        assert(!class.holds(s[s.len() - 1]));
        assert(s.drop_last().push(s.last()) =~= s);
        assert(text::split(s, class) =~= seq![s]);
    } else {
        assert(s =~= Seq::<char>::empty());
        assert(text::split(s, class) =~= seq![s]);
    }
}

proof fn lemma_split_parts(p: Seq<char>, c: char, q: Seq<char>, class: CharClass)
    requires
        class.holds(c),
    ensures
        text::split(p + seq![c] + q, class) == text::split(p, class) + text::split(q, class),
    decreases q.len(),
{
    let s = p + seq![c] + q;
    text::lemma_split_nonempty(p, class);
    if q.len() == 0 {
        assert(s.drop_last() =~= p);
        assert(s.last() == c);
        assert(text::split(s, class) =~= text::split(p, class) + text::split(q, class));
    } else {
        let short = q.drop_last();
        assert(s.drop_last() =~= p + seq![c] + short);
        assert(s.last() == q.last());
        lemma_split_parts(p, c, short, class);
        text::lemma_split_nonempty(short, class);
        assert(text::split(s, class) =~= text::split(p, class) + text::split(q, class));
    }
}

/// The words of a text are what stands between white space: a text without any
/// is one word, unless it is empty, and white space parts words.
pub proof fn law_words(p: Seq<char>, c: char, q: Seq<char>)
    ensures
        none_of(p, CharClass::White) && p.len() > 0 ==> text::words(p) == seq![p],
        text::words(Seq::empty()) == Seq::<Seq<char>>::empty(),
        text::is_white(c) ==> text::words(p + seq![c] + q) == text::words(p) + text::words(q),
{
    let full = |t: Seq<char>| t.len() > 0;
    reveal(Seq::filter);
    if none_of(p, CharClass::White) {
        law_split(p, c, q, CharClass::White);
        assert(seq![p].drop_last() =~= Seq::<Seq<char>>::empty());
        if p.len() > 0 {
            assert(seq![p].filter(full) =~= seq![p]);
        }
    }
    let none = seq![Seq::<char>::empty()];
    assert(none.drop_last() =~= Seq::<Seq<char>>::empty());
    assert(none.drop_last().filter(full) =~= Seq::<Seq<char>>::empty());
    assert(!full(none.last()));
    assert(none.filter(full) =~= Seq::<Seq<char>>::empty());
    if text::is_white(c) {
        law_split(p, c, q, CharClass::White);
        Seq::filter_distributes_over_add(
            text::split(p, CharClass::White),
            text::split(q, CharClass::White),
            full,
        );
    }
}

/// The lines of a text: one ends in a line feed, before which one carriage
/// return goes with it, and the last one may end with the text.
pub proof fn law_lines(p: Seq<char>, q: Seq<char>)
    requires
        none_of(p, CharClass::Is('\n')),
    ensures
        text::lines(Seq::empty()) == Seq::<Seq<char>>::empty(),
        p.len() > 0 ==> text::lines(p) == seq![p],
        text::lines(p + seq!['\n'] + q) == seq![
            if p.len() > 0 && p.last() == '\r' {
                p.drop_last()
            } else {
                p
            },
        ] + text::lines(q),
{
    let feed = CharClass::Is('\n');
    law_split(p, '\n', q, feed);
    text::lemma_split_nonempty(q, feed);
    assert(text::lines(Seq::empty()) =~= Seq::<Seq<char>>::empty());
    if p.len() > 0 {
        assert(text::lines(p) =~= seq![p]);
    }
    let all = text::split(p + seq!['\n'] + q, feed);
    let rest = text::split(q, feed);
    assert(all =~= seq![p] + rest);
    assert(all.last() == rest.last());
    assert(all.drop_last() =~= seq![p] + rest.drop_last());
    let first = if p.len() > 0 && p.last() == '\r' {
        p.drop_last()
    } else {
        p
    };
    assert(text::drop_return(p) == first);
    assert(all.drop_last().map_values(|t: Seq<char>| text::drop_return(t)) =~= seq![first]
        + rest.drop_last().map_values(|t: Seq<char>| text::drop_return(t)));
    assert(text::lines(p + seq!['\n'] + q) =~= seq![first] + text::lines(q));
}

/// Joining pieces with a character that none of them holds and splitting there
/// gives the pieces back.
pub proof fn law_split_undoes_join(parts: Seq<Seq<char>>, c: char)
    requires
        parts.len() > 0,
        forall|i: int| 0 <= i < parts.len() ==> none_of(#[trigger] parts[i], CharClass::Is(c)),
    ensures
        text::split(text::join(parts, seq![c]), CharClass::Is(c)) == parts,
    decreases parts.len(),
{
    let class = CharClass::Is(c);
    assert(none_of(parts[parts.len() - 1], class));
    law_split(parts.last(), c, Seq::empty(), class);
    if parts.len() == 1 {
        assert(parts =~= seq![parts[0]]);
    } else {
        let front = parts.drop_last();
        assert forall|i: int| 0 <= i < front.len() implies none_of(#[trigger] front[i], class) by {
            assert(front[i] == parts[i]);
        }
        law_split_undoes_join(front, c);
        law_split(text::join(front, seq![c]), c, parts.last(), class);
        assert(front + seq![parts.last()] =~= parts);
    }
}

/// Pieces are joined in their order, with the separator between each two.
pub proof fn law_join(parts: Seq<Seq<char>>, piece: Seq<char>, sep: Seq<char>)
    ensures
        text::join(Seq::empty(), sep).len() == 0,
        text::join(seq![piece], sep) == piece,
        parts.len() > 0 ==> text::join(parts.push(piece), sep) == text::join(parts, sep) + sep
            + piece,
{
    assert(parts.push(piece).drop_last() =~= parts);
}

/// The copies of a text at the start of another are dropped, all of them; and
/// so are those at its end.
pub proof fn law_drop_copies(p: Seq<char>, s: Seq<char>)
    requires
        p.len() > 0,
    ensures
        text::drop_prefixes(p + s, p) == text::drop_prefixes(s, p),
        !p.is_prefix_of(s) ==> text::drop_prefixes(s, p) == s,
        text::drop_suffixes(s + p, p) == text::drop_suffixes(s, p),
        !p.is_suffix_of(s) ==> text::drop_suffixes(s, p) == s,
{
    assert(p.is_prefix_of(p + s));
    assert((p + s).skip(p.len() as int) =~= s);
    assert(p.is_suffix_of(s + p)) by {
        assert(p =~= (s + p).subrange(s.len() as int, (s.len() + p.len()) as int));
    }
    assert((s + p).take(s.len() as int) =~= s);
}

/// A character is found where it stands first from a place on, and behind the
/// end where it does not.
pub proof fn law_index_from(s: Seq<char>, c: char, i: int, k: int)
    requires
        0 <= i <= k <= s.len(),
        forall|j: int| i <= j < k ==> #[trigger] s[j] != c,
    ensures
        k == s.len() || s[k] == c ==> text::index_from(s, c, i) == k,
{
    if k == s.len() || s[k] == c {
        lemma_index(s, c, i, k);
    }
}

/// A character is found where it stands first.
pub proof fn law_index(p: Seq<char>, c: char, q: Seq<char>)
    requires
        none_of(p, CharClass::Is(c)),
    ensures
        text::index_from(p + seq![c] + q, c, 0) == p.len(),
        text::index_from(p, c, 0) == p.len(),
{
    lemma_index(p + seq![c] + q, c, 0, p.len() as int);
    lemma_index(p, c, 0, p.len() as int);
}

proof fn lemma_index(s: Seq<char>, c: char, i: int, k: int)
    requires
        0 <= i <= k <= s.len(),
        k < s.len() ==> s[k] == c,
        forall|j: int| i <= j < k ==> #[trigger] s[j] != c,
    ensures
        text::index_from(s, c, i) == k,
    decreases k - i,
{
    if i < k {
        assert(s[i] != c);
        lemma_index(s, c, i + 1, k);
    }
}

/// The digits: 0 to 9, and behind them the letters of either case, as far as
/// the base goes.
pub proof fn law_digits(c: char, radix: nat)
    ensures
        number::digit_value(c, radix) == (if '0' <= c <= '9' && c as nat - 48 < radix {
            Some((c as nat - 48) as nat)
        } else if 'a' <= c <= 'z' && c as nat - 87 < radix {
            Some((c as nat - 87) as nat)
        } else if 'A' <= c <= 'Z' && c as nat - 55 < radix {
            Some((c as nat - 55) as nat)
        } else {
            None
        }),
{
}

/// What a number is written as in base 10 is read as the number, where that is
/// within the limit, and nothing without digits is read as one.
pub proof fn law_numerals(n: nat, limit: nat)
    ensures
        number::numeral(number::decimal(n), 10, limit) == (if n <= limit {
            Some(n)
        } else {
            None
        }),
        number::numeral(Seq::empty(), 10, limit) is None,
        n >= 10 ==> number::decimal(n)[0] != '0',
    decreases n,
{
    lemma_decimal_value(n);
    if n >= 10 {
        law_numerals(n / 10, limit);
        lemma_decimal_value(n / 10);
        assert(number::decimal(n)[0] == number::decimal(n / 10)[0]);
    }
}

proof fn lemma_decimal_value(n: nat)
    ensures
        number::digits_value(number::decimal(n), 10) == Some(n),
        number::decimal(n).len() > 0,
        0 < n < 10 ==> number::decimal(n)[0] != '0',
    decreases n,
{
    let s = number::decimal(n);
    if n < 10 {
        assert(s.drop_last() =~= Seq::<char>::empty());
        assert(s.last() == number::digit_char(n));
        assert(number::digits_value(s.drop_last(), 10) == Some(0nat));
    } else {
        lemma_decimal_value(n / 10);
        assert(s.drop_last() =~= number::decimal(n / 10));
        assert(s.last() == number::digit_char(n % 10));
    }
}

/// A text of digits that does not start with a zero, unless it is one, is what
/// its number is written as.
pub proof fn law_numerals_are_written_once(s: Seq<char>, v: nat)
    requires
        number::digits_value(s, 10) == Some(v),
        s.len() > 0,
        s.len() > 1 ==> s[0] != '0',
    ensures
        s == number::decimal(v),
        s[0] != '0' ==> v > 0,
    decreases s.len(),
{
    let t = s.drop_last();
    let d = number::digit_value(s.last(), 10).unwrap();
    assert(number::digit_char(d) == s.last());
    if s.len() == 1 {
        assert(t =~= Seq::<char>::empty());
        assert(s =~= seq![s.last()]);
        assert(number::digits_value(t, 10) == Some(0nat));
    } else {
        let u = number::digits_value(t, 10).unwrap();
        assert(t[0] == s[0]);
        law_numerals_are_written_once(t, u);
        assert(v == u * 10 + d);
        assert(v / 10 == u && v % 10 == d);
        assert(s =~= t.push(s.last()));
    }
}

/// The last digits of a number in base 16 are as many as are asked for and are
/// read as the number without what goes beyond them.
pub proof fn law_hexadecimal(n: nat, width: nat)
    ensures
        number::hex(n, width).len() == width,
        number::digits_value(number::hex(n, width), 16) == Some(
            (n as int % vstd::arithmetic::power::pow(16, width)) as nat,
        ),
        forall|i: int|
            0 <= i < width ==> !('A' <= #[trigger] number::hex(n, width)[i] <= 'Z'),
    decreases width,
{
    use_pow(width);
    if width > 0 {
        let w = (width - 1) as nat;
        law_hexadecimal(n / 16, w);
        let s = number::hex(n, width);
        assert(s.drop_last() =~= number::hex(n / 16, w));
        assert(s.last() == number::hex_char(n % 16));
        assert(number::digit_value(s.last(), 16) == Some(n % 16));
        use_pow(w);
        let z = vstd::arithmetic::power::pow(16, w);
        vstd::arithmetic::div_mod::lemma_mod_breakdown(n as int, 16, z);
        assert(vstd::arithmetic::power::pow(16, width) == 16 * z) by {
            reveal(vstd::arithmetic::power::pow);
        }
        assert forall|i: int| 0 <= i < width implies !('A' <= #[trigger] s[i] <= 'Z') by {
            if i < w {
                assert(s[i] == number::hex(n / 16, w)[i]);
            }
        }
        vstd::arithmetic::div_mod::lemma_mod_bound((n / 16) as int, z);
        vstd::arithmetic::div_mod::lemma_mod_bound(n as int, 16 * z);
    } else {
        reveal(vstd::arithmetic::power::pow);
        assert(number::hex(n, 0) =~= Seq::<char>::empty());
    }
}

proof fn use_pow(w: nat)
    ensures
        vstd::arithmetic::power::pow(16, w) > 0,
{
    vstd::arithmetic::power::lemma_pow_positive(16, w);
}

/// Whether a text is made of the characters of domains, and starts and ends
/// with none that is a dot.
pub open spec fn is_bare_domain(x: Seq<char>) -> bool {
    &&& x.len() > 0
    &&& x[0] != '.'
    &&& x.last() != '.'
    &&& forall|i: int|
        0 <= i < x.len() ==> ('a' <= #[trigger] x[i] <= 'z' || 'A' <= x[i] <= 'Z' || '0' <= x[i]
            <= '9' || x[i] == '.' || x[i] == '-' || x[i] == '_')
}

/// A domain is read from a text without the white space around it, without the
/// dots around what is left, and in small letters.
pub proof fn law_domain_is_read(
    front: Seq<char>,
    dots: Seq<char>,
    x: Seq<char>,
    more_dots: Seq<char>,
    back: Seq<char>,
)
    requires
        all_of(front, CharClass::White),
        all_of(back, CharClass::White),
        all_of(dots, CharClass::Is('.')),
        all_of(more_dots, CharClass::Is('.')),
        is_bare_domain(x),
    ensures
        domain::normal_domain(front + (dots + x + more_dots) + back) == Some(text::lower(x)),
{
    let inner = dots + x + more_dots;
    let s = front + inner + back;
    lemma_not_white_ends(dots, x, more_dots);
    law_trim(front, inner, back, CharClass::White);
    law_trim(dots, x, more_dots, CharClass::Is('.'));
    reveal_strlit("*.");
    assert(!("*."@).is_prefix_of(x)) by {
        if ("*."@).is_prefix_of(x) {
            assert(x.subrange(0, 2)[0] == '*');
            assert(x[0] == '*');
        }
    }
    assert(domain::domain_candidate(s) == text::lower(x));
    lemma_lower_is_domain(x);
}

proof fn lemma_not_white_ends(dots: Seq<char>, x: Seq<char>, more_dots: Seq<char>)
    requires
        all_of(dots, CharClass::Is('.')),
        all_of(more_dots, CharClass::Is('.')),
        x.len() > 0,
        !text::is_white(x[0]),
        !text::is_white(x.last()),
    ensures
        ({
            let inner = dots + x + more_dots;
            inner.len() > 0 && !text::is_white(inner[0]) && !text::is_white(inner.last())
        }),
{
    let inner = dots + x + more_dots;
    if dots.len() > 0 {
        assert(inner[0] == dots[0]);
        assert(CharClass::Is('.').holds(dots[0]));
    } else {
        assert(inner[0] == x[0]);
    }
    if more_dots.len() > 0 {
        assert(inner.last() == more_dots[more_dots.len() - 1]);
        assert(CharClass::Is('.').holds(more_dots[more_dots.len() - 1]));
    } else {
        assert(inner.last() == x.last());
    }
}

proof fn lemma_lower_is_domain(x: Seq<char>)
    ensures
        forall|i: int|
            0 <= i < x.len() ==> domain::is_domain_char(#[trigger] text::lower(x)[i])
                == domain::is_domain_char(x[i]),
{
    assert forall|i: int| 0 <= i < x.len() implies domain::is_domain_char(
        #[trigger] text::lower(x)[i],
    ) == domain::is_domain_char(x[i]) by {
        assert(text::lower(x)[i] == text::lower_char(x[i]));
    }
}

/// A leading `*.` is no part of the domain that a text names; as a pattern the
/// text then stands for the subdomains of the domain, and without it for the
/// domain itself.
pub proof fn law_patterns_are_read(front: Seq<char>, x: Seq<char>, back: Seq<char>)
    requires
        all_of(front, CharClass::White),
        all_of(back, CharClass::White),
        is_bare_domain(x),
    ensures
        domain::normal_domain(front + ("*."@ + x) + back) == Some(text::lower(x)),
        domain::pattern_text(front + ("*."@ + x) + back) == Ok::<PatternView, Seq<char>>(
            PatternView::WildcardSuffix(text::lower(x)),
        ),
        domain::pattern_text(front + x + back) == Ok::<PatternView, Seq<char>>(
            PatternView::Exact(text::lower(x)),
        ),
{
    reveal_strlit("*.");
    let none = Seq::<char>::empty();
    let star = "*."@ + x;
    let s = front + star + back;
    assert(star[0] == '*');
    assert(star.last() == x.last());
    law_trim(front, star, back, CharClass::White);
    assert(none + star + none =~= star);
    law_trim(none, star, none, CharClass::Is('.'));
    law_drop_copies("*."@, x);
    assert(!("*."@).is_prefix_of(x)) by {
        if ("*."@).is_prefix_of(x) {
            assert(x.subrange(0, 2)[0] == '*');
            assert(x[0] == '*');
        }
    }
    assert(domain::domain_candidate(s) == text::lower(x));
    lemma_lower_is_domain(x);
    assert(("*."@).is_prefix_of(star)) by {
        assert("*."@ =~= star.subrange(0, 2));
    }
    law_domain_is_read(front, none, x, none, back);
    assert(none + x + none =~= x);
    law_trim(front, x, back, CharClass::White);
}

/// A text that holds anything else than the characters of domains names no
/// domain.
pub proof fn law_no_domain(front: Seq<char>, x: Seq<char>, back: Seq<char>, i: int)
    requires
        all_of(front, CharClass::White),
        all_of(back, CharClass::White),
        x.len() > 0,
        !text::is_white(x[0]) && x[0] != '.' && x[0] != '*',
        !text::is_white(x.last()) && x.last() != '.',
        0 <= i < x.len(),
        !('a' <= x[i] <= 'z' || 'A' <= x[i] <= 'Z' || '0' <= x[i] <= '9' || x[i] == '.' || x[i]
            == '-' || x[i] == '_'),
    ensures
        domain::normal_domain(front + x + back) is None,
        domain::pattern_text(front + x + back) == Err::<PatternView, Seq<char>>(
            "invalid rewrite domain pattern: "@ + (front + x + back),
        ),
{
    let none = Seq::<char>::empty();
    let s = front + x + back;
    law_trim(front, x, back, CharClass::White);
    assert(none + x + none =~= x);
    law_trim(none, x, none, CharClass::Is('.'));
    reveal_strlit("*.");
    assert(!("*."@).is_prefix_of(x)) by {
        if ("*."@).is_prefix_of(x) {
            assert(x.subrange(0, 2)[0] == '*');
        }
    }
    assert(domain::domain_candidate(s) == text::lower(x));
    lemma_lower_is_domain(x);
    assert(!domain::is_domain_char(text::lower(x)[i]));
}

/// White space and dots alone name no domain.
pub proof fn law_blank_is_no_domain(blank: Seq<char>, dots: Seq<char>)
    requires
        all_of(blank, CharClass::White),
        all_of(dots, CharClass::Is('.')),
    ensures
        domain::normal_domain(blank) is None,
        domain::normal_domain(dots) is None,
{
    let none = Seq::<char>::empty();
    reveal_strlit("*.");
    assert(blank + none + none =~= blank);
    assert(dots + none + none =~= dots);
    law_trim(blank, none, none, CharClass::White);
    law_trim(none, none, none, CharClass::Is('.'));
    assert(none + none + none =~= none);
    assert(domain::domain_candidate(blank).len() == 0);
    if dots.len() > 0 {
        assert(CharClass::Is('.').holds(dots[0]));
        assert(CharClass::Is('.').holds(dots[dots.len() - 1]));
    }
    assert(none + dots + none =~= dots);
    law_trim(none, dots, none, CharClass::White);
    law_trim(dots, none, none, CharClass::Is('.'));
    assert(domain::domain_candidate(dots).len() == 0);
}

/// The domain that a name is matched under is its text without the dots at the
/// end, in small letters.
pub proof fn law_said_domain(x: Seq<char>, dots: Seq<char>)
    requires
        all_of(dots, CharClass::Is('.')),
        x.len() > 0 ==> x.last() != '.',
    ensures
        name::said_domain(x + dots) == text::lower(x),
{
    lemma_trim_back(x, dots, CharClass::Is('.'));
}

/// The letters of labels are put into small ones byte by byte.
pub proof fn law_small_labels(labels: Seq<Seq<u8>>, i: int, k: int)
    requires
        0 <= i < labels.len(),
        0 <= k < labels[i].len(),
    ensures
        name::lower_labels(labels).len() == labels.len(),
        name::lower_labels(labels)[i].len() == labels[i].len(),
        65 <= labels[i][k] <= 90 ==> name::lower_labels(labels)[i][k] == labels[i][k] + 32,
        !(65 <= labels[i][k] <= 90) ==> name::lower_labels(labels)[i][k] == labels[i][k],
{
}

/// How a domain is read from any text: the white space around it goes, then the
/// dots around what is left, then every `*.` at its front. What is left then is
/// the domain, in small letters, where it is not empty and made of letters and
/// digits of ASCII, dots, hyphens and underscores.
pub proof fn law_domain_in_steps(s: Seq<char>)
    ensures
        ({
            let bare = text::drop_prefixes(
                text::trim(text::trim(s, CharClass::White), CharClass::Is('.')),
                seq!['*', '.'],
            );
            let named = bare.len() > 0 && forall|i: int|
                0 <= i < bare.len() ==> ('a' <= #[trigger] bare[i] <= 'z' || 'A' <= bare[i] <= 'Z'
                    || '0' <= bare[i] <= '9' || bare[i] == '.' || bare[i] == '-' || bare[i] == '_');
            &&& named ==> domain::normal_domain(s) == Some(text::lower(bare))
            &&& !named ==> domain::normal_domain(s) is None
        }),
{
    reveal_strlit("*.");
    assert("*."@ =~= seq!['*', '.']);
    let bare = text::drop_prefixes(
        text::trim(text::trim(s, CharClass::White), CharClass::Is('.')),
        seq!['*', '.'],
    );
    lemma_lower_is_domain(bare);
    let low = text::lower(bare);
    assert(domain::domain_candidate(s) == low);
    let named = bare.len() > 0 && forall|i: int|
        0 <= i < bare.len() ==> ('a' <= #[trigger] bare[i] <= 'z' || 'A' <= bare[i] <= 'Z' || '0'
            <= bare[i] <= '9' || bare[i] == '.' || bare[i] == '-' || bare[i] == '_');
    if named {
        assert forall|i: int| 0 <= i < low.len() implies domain::is_domain_char(
            #[trigger] low[i],
        ) by {
            assert(domain::is_domain_char(bare[i]));
        }
    } else if bare.len() > 0 {
        let i = choose|i: int|
            0 <= i < bare.len() && !('a' <= #[trigger] bare[i] <= 'z' || 'A' <= bare[i] <= 'Z'
                || '0' <= bare[i] <= '9' || bare[i] == '.' || bare[i] == '-' || bare[i] == '_');
        assert(!domain::is_domain_char(bare[i]));
        assert(!domain::is_domain_char(low[i]));
    }
}

/// A text that names a domain is a pattern for its subdomains where it starts
/// with `*.`, white space apart, and for the domain itself where it does not;
/// one that names none is an error.
pub proof fn law_pattern_in_steps(s: Seq<char>)
    ensures
        ({
            let t = text::trim(s, CharClass::White);
            let wild = t.len() >= 2 && t[0] == '*' && t[1] == '.';
            let got = domain::pattern_text(s);
            &&& domain::normal_domain(s) is None ==> got == Err::<PatternView, Seq<char>>(
                "invalid rewrite domain pattern: "@ + s,
            )
            &&& domain::normal_domain(s) is Some && wild ==> got == Ok::<PatternView, Seq<char>>(
                PatternView::WildcardSuffix(domain::normal_domain(s).unwrap()),
            )
            &&& domain::normal_domain(s) is Some && !wild ==> got == Ok::<PatternView, Seq<char>>(
                PatternView::Exact(domain::normal_domain(s).unwrap()),
            )
        }),
{
    reveal_strlit("*.");
    let t = text::trim(s, CharClass::White);
    if ("*."@).is_prefix_of(t) {
        assert(t.subrange(0, 2)[0] == '*' && t.subrange(0, 2)[1] == '.');
    }
    if t.len() >= 2 && t[0] == '*' && t[1] == '.' {
        assert("*."@ =~= t.subrange(0, 2));
    }
}

} // verus!
