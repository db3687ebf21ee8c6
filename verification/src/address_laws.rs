//! What holds of addresses in texts: which texts are addresses, and which
//! address each of them is.
use vstd::prelude::*;

use crate::ip;
use crate::ip::{IpAddr, Ipv4Addr, Ipv6Addr};
use crate::number;
use crate::text;
use crate::text::CharClass;
use crate::text_laws;
use crate::text_laws::none_of;

verus! {

/// A text of digits is read from its front, each digit behind it taken base
/// times what came before; a text that holds anything else is no number.
pub proof fn law_digits_add_up(s: Seq<char>, c: char, radix: nat)
    ensures
        number::digits_value(Seq::empty(), radix) == Some(0nat),
        number::digits_value(s, radix) is Some && number::digit_value(c, radix) is Some
            ==> number::digits_value(s.push(c), radix) == Some(
            number::digits_value(s, radix).unwrap() * radix + number::digit_value(
                c,
                radix,
            ).unwrap(),
        ),
        number::digits_value(s, radix) is None || number::digit_value(c, radix) is None
            ==> number::digits_value(s.push(c), radix) is None,
{
    assert(s.push(c).drop_last() =~= s);
}

/// A numeral is a text of one digit or more whose number is within the limit.
pub proof fn law_numerals_within(s: Seq<char>, radix: nat, limit: nat, v: nat)
    ensures
        number::numeral(s, radix, limit) == Some(v) <==> s.len() > 0 && number::digits_value(
            s,
            radix,
        ) == Some(v) && v <= limit,
{
}

proof fn lemma_decimal_chars(n: nat)
    ensures
        forall|i: int|
            0 <= i < number::decimal(n).len() ==> '0' <= #[trigger] number::decimal(n)[i] <= '9',
        n < 10 ==> number::decimal(n).len() == 1,
        n < 100 ==> number::decimal(n).len() <= 2,
        n < 1000 ==> number::decimal(n).len() <= 3,
    decreases n,
{
    let s = number::decimal(n);
    if n >= 10 {
        let front = number::decimal(n / 10);
        lemma_decimal_chars(n / 10);
        assert forall|i: int| 0 <= i < s.len() implies '0' <= #[trigger] s[i] <= '9' by {
            if i < front.len() {
                assert(s[i] == front[i]);
            } else {
                assert(s[i] == number::digit_char(n % 10));
            }
        }
    } else {
        assert(s[0] == number::digit_char(n));
    }
}

proof fn lemma_octet(n: nat)
    requires
        n <= 255,
    ensures
        ip::octet(number::decimal(n)) == Some(n),
        none_of(number::decimal(n), CharClass::Is('.')),
{
    lemma_decimal_chars(n);
    text_laws::law_numerals(n, 255);
}

/// Four numbers between dots.
pub open spec fn dotted(a: nat, b: nat, c: nat, d: nat) -> Seq<char> {
    text::join(
        seq![number::decimal(a), number::decimal(b), number::decimal(c), number::decimal(d)],
        seq!['.'],
    )
}

/// Four numbers up to 255 between dots are the IPv4 address with these bytes.
pub proof fn law_dotted_numbers(a: nat, b: nat, c: nat, d: nat)
    requires
        a <= 255,
        b <= 255,
        c <= 255,
        d <= 255,
    ensures
        ip::ipv4_text(dotted(a, b, c, d)) == Some(
            (Ipv4Addr { bits: (a * 16777216 + b * 65536 + c * 256 + d) as u32 }),
        ),
{
    let parts = seq![number::decimal(a), number::decimal(b), number::decimal(c), number::decimal(d)];
    lemma_octet(a);
    lemma_octet(b);
    lemma_octet(c);
    lemma_octet(d);
    assert forall|i: int| 0 <= i < parts.len() implies none_of(
        #[trigger] parts[i],
        CharClass::Is('.'),
    ) by {
        assert(i == 0 || i == 1 || i == 2 || i == 3);
    }
    text_laws::law_split_undoes_join(parts, '.');
    assert(parts[0] == number::decimal(a) && parts[1] == number::decimal(b) && parts[2]
        == number::decimal(c) && parts[3] == number::decimal(d));
    assert(((a * 256 + b) * 256 + c) * 256 + d == a * 16777216 + b * 65536 + c * 256 + d);
}

proof fn lemma_octet_is_decimal(s: Seq<char>)
    requires
        ip::octet(s) is Some,
    ensures
        s == number::decimal(ip::octet(s).unwrap()),
        ip::octet(s).unwrap() <= 255,
{
    text_laws::law_numerals_are_written_once(s, ip::octet(s).unwrap());
}

/// Splitting at a character and joining with it gives the text back.
pub proof fn law_join_undoes_split(s: Seq<char>, c: char)
    ensures
        text::join(text::split(s, CharClass::Is(c)), seq![c]) == s,
    decreases s.len(),
{
    let class = CharClass::Is(c);
    let all = text::split(s, class);
    if s.len() == 0 {
        assert(all.len() == 1);
        assert(text::join(all, seq![c]) =~= s);
    } else {
        let t = s.drop_last();
        let parts = text::split(t, class);
        law_join_undoes_split(t, c);
        text::lemma_split_nonempty(t, class);
        if s.last() == c {
            assert(all =~= parts.push(Seq::empty()));
            assert(all.drop_last() =~= parts);
            assert(text::join(all, seq![c]) =~= t + seq![c]);
            assert(s =~= t + seq![c]);
        } else {
            assert(all.drop_last() =~= parts.drop_last());
            assert(all.last() == parts.last().push(s.last()));
            assert(text::join(all, seq![c]) =~= text::join(parts, seq![c]).push(s.last()));
            assert(s =~= t.push(s.last()));
        }
    }
}

/// Only four numbers up to 255 between dots are an IPv4 address, each written
/// without zeros before it.
pub proof fn law_only_dotted_numbers(s: Seq<char>)
    ensures
        ip::ipv4_text(s) is Some ==> exists|a: nat, b: nat, c: nat, d: nat|
            a <= 255 && b <= 255 && c <= 255 && d <= 255 && s == #[trigger] dotted(a, b, c, d),
{
    if ip::ipv4_text(s) is Some {
        let parts = text::split(s, CharClass::Is('.'));
        lemma_octet_is_decimal(parts[0]);
        lemma_octet_is_decimal(parts[1]);
        lemma_octet_is_decimal(parts[2]);
        lemma_octet_is_decimal(parts[3]);
        let a = ip::octet(parts[0]).unwrap();
        let b = ip::octet(parts[1]).unwrap();
        let c = ip::octet(parts[2]).unwrap();
        let d = ip::octet(parts[3]).unwrap();
        let list = seq![
            number::decimal(a),
            number::decimal(b),
            number::decimal(c),
            number::decimal(d),
        ];
        assert(parts =~= list);
        law_join_undoes_split(s, '.');
        assert(s == dotted(a, b, c, d));
    }
}

/// A group of an IPv6 address is one to four hexadecimal digits.
pub proof fn law_groups(s: Seq<char>, v: nat)
    ensures
        ip::group(s) == Some(v) <==> 1 <= s.len() <= 4 && number::digits_value(s, 16) == Some(v),
{
    reveal_with_fuel(number::digits_value, 5);
    if 1 <= s.len() <= 4 && number::digits_value(s, 16) == Some(v) {
        assert(v <= 0xffff);
    }
}

/// Whether parts are the groups with these values.
pub open spec fn are_groups(parts: Seq<Seq<char>>, values: Seq<nat>) -> bool {
    &&& parts.len() == values.len()
    &&& forall|i: int| 0 <= i < parts.len() ==> ip::group(#[trigger] parts[i]) == Some(values[i])
}

/// Whether parts are the groups with these values, where the last part may be
/// an IPv4 address, which is two groups.
pub open spec fn end_with_groups(parts: Seq<Seq<char>>, values: Seq<nat>) -> bool {
    ||| are_groups(parts, values)
    ||| {
        &&& parts.len() > 0
        &&& ip::ipv4_text(parts.last()) is Some
        &&& values.len() == parts.len() + 1
        &&& are_groups(parts.drop_last(), values.take(parts.len() - 1))
        &&& values[parts.len() - 1] == ip::ipv4_text(parts.last()).unwrap().bits / 65536
        &&& values[parts.len() as int] == ip::ipv4_text(parts.last()).unwrap().bits % 65536
    }
}

proof fn lemma_digit_chars(s: Seq<char>, radix: nat)
    requires
        radix <= 16,
        number::digits_value(s, radix) is Some,
    ensures
        none_of(s, CharClass::Is(':')),
        none_of(s, CharClass::Is('.')),
    decreases s.len(),
{
    if s.len() > 0 {
        lemma_digit_chars(s.drop_last(), radix);
        assert forall|i: int| 0 <= i < s.len() implies #[trigger] s[i] != ':' && s[i] != '.' by {
            if i < s.len() - 1 {
                assert(s.drop_last()[i] == s[i]);
                assert(!CharClass::Is(':').holds(s.drop_last()[i]));
                assert(!CharClass::Is('.').holds(s.drop_last()[i]));
            }
        }
    }
}

proof fn lemma_are_groups(parts: Seq<Seq<char>>, values: Seq<nat>)
    requires
        are_groups(parts, values),
    ensures
        ip::groups(parts) == Some(values),
        forall|i: int|
            0 <= i < parts.len() ==> (#[trigger] parts[i]).len() > 0 && none_of(
                parts[i],
                CharClass::Is(':'),
            ),
    decreases parts.len(),
{
    if parts.len() > 0 {
        let last = parts.len() - 1;
        let front = parts.drop_last();
        let fewer = values.drop_last();
        assert forall|i: int| 0 <= i < front.len() implies ip::group(#[trigger] front[i]) == Some(
            fewer[i],
        ) by {
            assert(front[i] == parts[i]);
        }
        lemma_are_groups(front, fewer);
        assert(ip::group(parts[last]) == Some(values[last]));
        lemma_digit_chars(parts[last], 16);
        assert(fewer.push(values[last]) =~= values);
        assert forall|i: int| 0 <= i < parts.len() implies (#[trigger] parts[i]).len() > 0
            && none_of(parts[i], CharClass::Is(':')) by {
            if i < last {
                assert(front[i] == parts[i]);
            }
        }
    } else {
        assert(values =~= Seq::<nat>::empty());
    }
}

proof fn lemma_ipv4_chars(s: Seq<char>)
    requires
        ip::ipv4_text(s) is Some,
    ensures
        s.len() > 0,
        none_of(s, CharClass::Is(':')),
        ip::group(s) is None,
{
    law_only_dotted_numbers(s);
    let parts = text::split(s, CharClass::Is('.'));
    if none_of(s, CharClass::Is('.')) {
        text_laws::law_split(s, '.', Seq::empty(), CharClass::Is('.'));
        assert(parts.len() == 1);
    }
    if ip::group(s) is Some {
        lemma_digit_chars(s, 16);
    }
    assert forall|k: int| 0 <= k < parts.len() implies none_of(
        #[trigger] parts[k],
        CharClass::Is(':'),
    ) by {
        assert(k == 0 || k == 1 || k == 2 || k == 3);
        lemma_digit_chars(parts[k], 10);
    }
    law_join_undoes_split(s, '.');
    lemma_join_without(parts, '.', ':');
}

proof fn lemma_join_without(parts: Seq<Seq<char>>, sep: char, c: char)
    requires
        sep != c,
        forall|k: int| 0 <= k < parts.len() ==> none_of(#[trigger] parts[k], CharClass::Is(c)),
    ensures
        none_of(text::join(parts, seq![sep]), CharClass::Is(c)),
    decreases parts.len(),
{
    if parts.len() == 1 {
        assert(none_of(parts[0], CharClass::Is(c)));
    } else if parts.len() > 1 {
        let front = parts.drop_last();
        assert forall|k: int| 0 <= k < front.len() implies none_of(
            #[trigger] front[k],
            CharClass::Is(c),
        ) by {
            assert(front[k] == parts[k]);
        }
        lemma_join_without(front, sep, c);
        let head = text::join(front, seq![sep]);
        let last = parts[parts.len() - 1];
        assert(none_of(last, CharClass::Is(c)));
        let s = head + seq![sep] + last;
        assert forall|i: int| 0 <= i < s.len() implies !CharClass::Is(c).holds(#[trigger] s[i]) by {
            if i < head.len() {
                assert(s[i] == head[i]);
            } else if i > head.len() {
                assert(s[i] == last[i - head.len() - 1]);
            }
        }
    }
}

proof fn lemma_end_with_groups(parts: Seq<Seq<char>>, values: Seq<nat>)
    requires
        end_with_groups(parts, values),
    ensures
        ip::groups_then_ipv4(parts) == Some(values),
        forall|i: int|
            0 <= i < parts.len() ==> (#[trigger] parts[i]).len() > 0 && none_of(
                parts[i],
                CharClass::Is(':'),
            ),
{
    if are_groups(parts, values) {
        lemma_are_groups(parts, values);
    } else {
        let front = parts.drop_last();
        let n = front.len() as int;
        let fewer = values.take(n);
        lemma_are_groups(front, fewer);
        lemma_ipv4_chars(parts.last());
        assert(ip::groups(parts) is None);
        assert(fewer.push(values[n]).push(values[n + 1]) =~= values);
        assert forall|i: int| 0 <= i < parts.len() implies (#[trigger] parts[i]).len() > 0
            && none_of(parts[i], CharClass::Is(':')) by {
            if i < n {
                assert(front[i] == parts[i]);
            }
        }
    }
}

proof fn lemma_joined(parts: Seq<Seq<char>>)
    requires
        parts.len() > 0,
        forall|i: int|
            0 <= i < parts.len() ==> (#[trigger] parts[i]).len() > 0 && none_of(
                parts[i],
                CharClass::Is(':'),
            ),
    ensures
        ({
            let s = text::join(parts, seq![':']);
            &&& s.len() > 0
            &&& s[0] != ':'
            &&& s.last() != ':'
            &&& forall|k: int| 0 <= k < s.len() - 1 && #[trigger] s[k] == ':' ==> s[k + 1] != ':'
        }),
    decreases parts.len(),
{
    let s = text::join(parts, seq![':']);
    let last = parts[parts.len() - 1];
    assert(last.len() > 0 && none_of(last, CharClass::Is(':')));
    assert(!CharClass::Is(':').holds(last[0]));
    assert(!CharClass::Is(':').holds(last[last.len() - 1]));
    if parts.len() == 1 {
        assert forall|k: int| 0 <= k < s.len() - 1 && #[trigger] s[k] == ':' implies s[k + 1]
            != ':' by {
            assert(!CharClass::Is(':').holds(last[k]));
        }
    } else {
        let front = parts.drop_last();
        assert forall|i: int| 0 <= i < front.len() implies (#[trigger] front[i]).len() > 0
            && none_of(front[i], CharClass::Is(':')) by {
            assert(front[i] == parts[i]);
        }
        lemma_joined(front);
        let head = text::join(front, seq![':']);
        assert(s =~= head + seq![':'] + last);
        assert forall|k: int| 0 <= k < s.len() - 1 && #[trigger] s[k] == ':' implies s[k + 1]
            != ':' by {
            let h = head.len();
            if k < h - 1 {
                assert(s[k] == head[k] && s[k + 1] == head[k + 1]);
            } else if k == h - 1 {
                assert(s[k] == head.last());
            } else if k == h {
                assert(s[k + 1] == last[0]);
            } else {
                assert(s[k] == last[k - h - 1]);
                assert(!CharClass::Is(':').holds(last[k - h - 1]));
            }
        }
    }
}

proof fn lemma_gap_at(s: Seq<char>, i: int, k: int)
    requires
        0 <= i <= k,
        k + 1 < s.len() ==> s[k] == ':' && s[k + 1] == ':',
        k < s.len() || k == i,
        forall|j: int| i <= j < k && j < s.len() - 1 && #[trigger] s[j] == ':' ==> s[j + 1] != ':',
    ensures
        k + 1 < s.len() ==> ip::gap_from(s, i) == Some(k),
        k + 1 >= s.len() ==> ip::gap_from(s, i) is None,
    decreases k - i,
{
    if i < k {
        lemma_gap_at(s, i + 1, k);
    }
}

/// Eight groups between colons are the IPv6 address with these groups; the
/// last two may be an IPv4 address. Another number of groups is none.
pub proof fn law_groups_between_colons(parts: Seq<Seq<char>>, values: Seq<nat>)
    requires
        parts.len() > 0,
        end_with_groups(parts, values),
    ensures
        ip::ipv6_text(text::join(parts, seq![':'])) == if values.len() == 8 {
            Some((Ipv6Addr { bits: ip::groups_value(values) as u128 }))
        } else {
            None
        },
{
    lemma_end_with_groups(parts, values);
    lemma_joined(parts);
    let s = text::join(parts, seq![':']);
    assert forall|i: int| 0 <= i < parts.len() implies none_of(
        #[trigger] parts[i],
        CharClass::Is(':'),
    ) by {
        assert(parts[i].len() > 0);
    }
    text_laws::law_split_undoes_join(parts, ':');
    lemma_gap_at(s, 0, s.len() - 1);
}

/// Two colons stand for as many groups of zeros as are missing, one at least,
/// between the groups before them and those behind them.
pub proof fn law_two_colons(
    before: Seq<Seq<char>>,
    h: Seq<nat>,
    behind: Seq<Seq<char>>,
    t: Seq<nat>,
    zeros: Seq<nat>,
)
    requires
        are_groups(before, h),
        end_with_groups(behind, t),
        h.len() + t.len() <= 7 ==> zeros.len() == 8 - h.len() - t.len(),
        forall|i: int| 0 <= i < zeros.len() ==> #[trigger] zeros[i] == 0,
    ensures
        ip::ipv6_text(
            text::join(before, seq![':']) + seq![':', ':'] + text::join(behind, seq![':']),
        ) == if h.len() + t.len() <= 7 {
            Some((Ipv6Addr { bits: ip::groups_value(h + zeros + t) as u128 }))
        } else {
            None
        },
{
    let a = text::join(before, seq![':']);
    let b = text::join(behind, seq![':']);
    let s = a + seq![':', ':'] + b;
    let k = a.len() as int;
    lemma_are_groups(before, h);
    lemma_end_with_groups(behind, t);
    assert forall|i: int| 0 <= i < before.len() implies none_of(
        #[trigger] before[i],
        CharClass::Is(':'),
    ) by {
        assert(before[i].len() > 0);
    }
    assert forall|i: int| 0 <= i < behind.len() implies none_of(
        #[trigger] behind[i],
        CharClass::Is(':'),
    ) by {
        assert(behind[i].len() > 0);
    }
    if before.len() > 0 {
        lemma_joined(before);
        text_laws::law_split_undoes_join(before, ':');
    } else {
        assert(h =~= Seq::<nat>::empty());
        assert(a =~= Seq::<char>::empty());
    }
    if behind.len() > 0 {
        lemma_joined(behind);
        text_laws::law_split_undoes_join(behind, ':');
    } else {
        assert(t =~= Seq::<nat>::empty());
        assert(b =~= Seq::<char>::empty());
    }
    assert(s[k] == ':' && s[k + 1] == ':');
    assert forall|j: int| 0 <= j < k && j < s.len() - 1 && #[trigger] s[j] == ':' implies s[j + 1]
        != ':' by {
        assert(s[j] == a[j]);
        if j < k - 1 {
            assert(s[j + 1] == a[j + 1]);
        } else {
            assert(a.last() == ':');
        }
    }
    lemma_gap_at(s, 0, k);
    assert(s.take(k) =~= a);
    assert(s.skip(k + 2) =~= b);
    assert(ip::head_groups(a) == Some(h));
    assert(ip::tail_groups(b) == Some(t));
    if h.len() + t.len() <= 7 {
        assert(zeros =~= ip::zero_groups((8 - h.len() - t.len()) as nat));
    }
}

/// The groups of an address are its digits in base 65536.
pub proof fn law_groups_are_digits(g: Seq<nat>, v: nat)
    ensures
        ip::groups_value(Seq::empty()) == 0,
        ip::groups_value(g.push(v)) == ip::groups_value(g) * 65536 + v,
{
    assert(g.push(v).drop_last() =~= g);
}

/// An address is one of IPv4 where its text is, and else one of IPv6 where its
/// text is.
pub proof fn law_addresses_of_either_kind(s: Seq<char>)
    ensures
        ip::ipv4_text(s) is Some ==> ip::ip_text(s) == Some(IpAddr::V4(ip::ipv4_text(s).unwrap())),
        ip::ipv4_text(s) is None && ip::ipv6_text(s) is Some ==> ip::ip_text(s) == Some(
            IpAddr::V6(ip::ipv6_text(s).unwrap()),
        ),
        ip::ipv4_text(s) is None && ip::ipv6_text(s) is None ==> ip::ip_text(s) is None,
{
}

/// The bytes of an address make it up, the first one the highest.
pub proof fn law_bytes_of_an_address(a: u8, b: u8, c: u8, d: u8)
    ensures
        ip::ipv4_of_octets(a as nat, b as nat, c as nat, d as nat).bits == a * 16777216 + b * 65536
            + c * 256 + d,
{
    assert(((a * 256 + b) * 256 + c) * 256 + d == a * 16777216 + b * 65536 + c * 256 + d);
}

proof fn lemma_groups_back(parts: Seq<Seq<char>>)
    ensures
        ip::groups(parts) is Some ==> are_groups(parts, ip::groups(parts).unwrap()),
    decreases parts.len(),
{
    if parts.len() > 0 && ip::groups(parts) is Some {
        let front = parts.drop_last();
        let last = parts.len() - 1;
        lemma_groups_back(front);
        let values = ip::groups(parts).unwrap();
        let fewer = ip::groups(front).unwrap();
        assert(values =~= fewer.push(ip::group(parts[last]).unwrap()));
        assert forall|i: int| 0 <= i < parts.len() implies ip::group(#[trigger] parts[i]) == Some(
            values[i],
        ) by {
            if i < last {
                assert(front[i] == parts[i]);
            }
        }
    }
}

proof fn lemma_end_back(parts: Seq<Seq<char>>)
    ensures
        ip::groups_then_ipv4(parts) is Some ==> end_with_groups(
            parts,
            ip::groups_then_ipv4(parts).unwrap(),
        ),
{
    lemma_groups_back(parts);
    if ip::groups(parts) is None && ip::groups_then_ipv4(parts) is Some {
        let front = parts.drop_last();
        lemma_groups_back(front);
        let values = ip::groups_then_ipv4(parts).unwrap();
        let fewer = ip::groups(front).unwrap();
        assert(values.take(parts.len() - 1) =~= fewer);
    }
}

proof fn lemma_gap_back(s: Seq<char>, i: int)
    requires
        0 <= i,
    ensures
        ip::gap_from(s, i) is Some ==> ({
            let k = ip::gap_from(s, i).unwrap();
            i <= k && k + 1 < s.len() && s[k] == ':' && s[k + 1] == ':'
        }),
    decreases s.len() - i,
{
    if i + 1 < s.len() && !(s[i] == ':' && s[i + 1] == ':') {
        lemma_gap_back(s, i + 1);
    }
}

/// Whether a text is an IPv6 address of eight groups, all of them written out.
pub open spec fn is_written_out(s: Seq<char>) -> bool {
    exists|parts: Seq<Seq<char>>, values: Seq<nat>| #[trigger]
        end_with_groups(parts, values) && values.len() == 8 && s == text::join(parts, seq![':'])
}

/// Whether a text is an IPv6 address of up to seven groups with two colons
/// between them, before them or behind them.
pub open spec fn is_shortened(s: Seq<char>) -> bool {
    exists|before: Seq<Seq<char>>, h: Seq<nat>, behind: Seq<Seq<char>>, t: Seq<nat>|
        #![trigger are_groups(before, h), end_with_groups(behind, t)]
        are_groups(before, h) && end_with_groups(behind, t) && h.len() + t.len() <= 7 && s
            == text::join(before, seq![':']) + seq![':', ':'] + text::join(behind, seq![':'])
}

/// Nothing else is an IPv6 address than eight groups between colons, and up to
/// seven with two colons among them.
pub proof fn law_only_groups(s: Seq<char>)
    ensures
        ip::ipv6_text(s) is Some ==> is_written_out(s) || is_shortened(s),
{
    let colon = CharClass::Is(':');
    if ip::ipv6_text(s) is Some {
        if ip::gap_from(s, 0) is None {
            let parts = text::split(s, colon);
            lemma_end_back(parts);
            law_join_undoes_split(s, ':');
            assert(end_with_groups(parts, ip::groups_then_ipv4(parts).unwrap()));
        } else {
            lemma_gap_back(s, 0);
            let k = ip::gap_from(s, 0).unwrap();
            let a = s.take(k);
            let b = s.skip(k + 2);
            let h = ip::head_groups(a).unwrap();
            let t = ip::tail_groups(b).unwrap();
            let none = Seq::<Seq<char>>::empty();
            let before = if a.len() == 0 {
                none
            } else {
                text::split(a, colon)
            };
            let behind = if b.len() == 0 {
                none
            } else {
                text::split(b, colon)
            };
            if a.len() > 0 {
                lemma_groups_back(before);
                law_join_undoes_split(a, ':');
            } else {
                assert(text::join(before, seq![':']) =~= a);
            }
            if b.len() > 0 {
                lemma_end_back(behind);
                law_join_undoes_split(b, ':');
            } else {
                assert(text::join(behind, seq![':']) =~= b);
            }
            assert(are_groups(before, h));
            assert(end_with_groups(behind, t));
            assert(s =~= a + seq![':', ':'] + b);
        }
    }
}

} // verus!
