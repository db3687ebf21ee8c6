//! What holds of the addresses that servers upstream are named by.
use vstd::prelude::*;

use crate::ip;
use crate::ip::{IpAddr, SocketAddr};
use crate::number;
use crate::server;
use crate::server::{NameServerView, Protocol};
use crate::text;
use crate::text::CharClass;
use crate::text_laws;

verus! {

/// A character that addresses are written with.
spec fn is_ip_char(c: char) -> bool {
    number::digit_value(c, 16) is Some || c == ':' || c == '.'
}

spec fn all_ip_chars(s: Seq<char>) -> bool {
    forall|i: int| 0 <= i < s.len() ==> is_ip_char(#[trigger] s[i])
}

proof fn lemma_split_chars(s: Seq<char>, class: CharClass)
    requires
        forall|k: int|
            0 <= k < text::split(s, class).len() ==> all_ip_chars(
                #[trigger] text::split(s, class)[k],
            ),
        class == CharClass::Is(':') || class == CharClass::Is('.'),
    ensures
        all_ip_chars(s),
    decreases s.len(),
{
    if s.len() > 0 {
        let parts = text::split(s, class);
        let before = text::split(s.drop_last(), class);
        text::lemma_split_nonempty(s.drop_last(), class);
        let n = before.len() - 1;
        assert forall|k: int| 0 <= k < before.len() implies all_ip_chars(
            #[trigger] before[k],
        ) by {
            assert(all_ip_chars(parts[k]));
            if k == n && !class.holds(s.last()) {
                assert(parts[k] == before[k].push(s.last()));
                assert forall|i: int| 0 <= i < before[k].len() implies is_ip_char(
                    #[trigger] before[k][i],
                ) by {
                    assert(parts[k][i] == before[k][i]);
                }
            } else {
                assert(parts[k] == before[k]);
            }
        }
        lemma_split_chars(s.drop_last(), class);
        if !class.holds(s.last()) {
            assert(all_ip_chars(parts[n]));
            assert(parts[n][before[n].len() as int] == s.last());
        }
        assert forall|i: int| 0 <= i < s.len() implies is_ip_char(#[trigger] s[i]) by {
            if i < s.len() - 1 {
                assert(s.drop_last()[i] == s[i]);
            }
        }
    }
}

proof fn lemma_digits_are_ip_chars(s: Seq<char>, radix: nat)
    requires
        radix <= 16,
        number::digits_value(s, radix) is Some,
    ensures
        all_ip_chars(s),
    decreases s.len(),
{
    if s.len() > 0 {
        lemma_digits_are_ip_chars(s.drop_last(), radix);
        assert forall|i: int| 0 <= i < s.len() implies is_ip_char(#[trigger] s[i]) by {
            if i < s.len() - 1 {
                assert(s.drop_last()[i] == s[i]);
            }
        }
    }
}

proof fn lemma_ipv4_chars(s: Seq<char>)
    requires
        ip::ipv4_text(s) is Some,
    ensures
        all_ip_chars(s),
        !s.contains(':'),
{
    let parts = text::split(s, CharClass::Is('.'));
    assert forall|k: int| 0 <= k < parts.len() implies number::digits_value(
        #[trigger] parts[k],
        10,
    ) is Some by {
        assert(k == 0 || k == 1 || k == 2 || k == 3);
    }
    assert forall|k: int| 0 <= k < parts.len() implies all_ip_chars(#[trigger] parts[k]) by {
        lemma_digits_are_ip_chars(parts[k], 10);
    }
    lemma_split_chars(s, CharClass::Is('.'));
    lemma_no_colon(s);
}

proof fn lemma_digits_no_colon(s: Seq<char>, radix: nat)
    requires
        radix <= 16,
        number::digits_value(s, radix) is Some,
    ensures
        forall|i: int| 0 <= i < s.len() ==> #[trigger] s[i] != ':',
    decreases s.len(),
{
    if s.len() > 0 {
        lemma_digits_no_colon(s.drop_last(), radix);
        assert forall|i: int| 0 <= i < s.len() implies #[trigger] s[i] != ':' by {
            if i < s.len() - 1 {
                assert(s.drop_last()[i] == s[i]);
            }
        }
    }
}

proof fn lemma_no_colon(s: Seq<char>)
    requires
        forall|k: int|
            0 <= k < text::split(s, CharClass::Is('.')).len() ==> number::digits_value(
                #[trigger] text::split(s, CharClass::Is('.'))[k],
                10,
            ) is Some,
    ensures
        !s.contains(':'),
{
    let parts = text::split(s, CharClass::Is('.'));
    assert forall|k: int, i: int|
        0 <= k < parts.len() && 0 <= i < parts[k].len() implies #[trigger] parts[k][i] != ':' by {
        lemma_digits_no_colon(parts[k], 10);
    }
    lemma_split_without(s, CharClass::Is('.'), ':');
}

/// A character that no piece holds, and that is no separator, is not in the
/// text.
proof fn lemma_split_without(s: Seq<char>, class: CharClass, c: char)
    requires
        !class.holds(c),
        forall|k: int, i: int|
            0 <= k < text::split(s, class).len() && 0 <= i < text::split(s, class)[k].len()
                ==> #[trigger] text::split(s, class)[k][i] != c,
    ensures
        !s.contains(c),
    decreases s.len(),
{
    if s.len() > 0 {
        let parts = text::split(s, class);
        let before = text::split(s.drop_last(), class);
        text::lemma_split_nonempty(s.drop_last(), class);
        let n = before.len() - 1;
        assert forall|k: int, i: int|
            0 <= k < before.len() && 0 <= i < before[k].len() implies #[trigger] before[k][i]
            != c by {
            if k == n && !class.holds(s.last()) {
                assert(parts[k] == before[k].push(s.last()));
                assert(parts[k][i] == before[k][i]);
            } else {
                assert(parts[k] == before[k]);
                assert(parts[k][i] == before[k][i]);
            }
        }
        lemma_split_without(s.drop_last(), class, c);
        if !class.holds(s.last()) {
            assert(parts[n][before[n].len() as int] == s.last());
        }
        if s.contains(c) {
            let i = choose|i: int| 0 <= i < s.len() && s[i] == c;
            if i < s.len() - 1 {
                assert(s.drop_last()[i] == c);
                assert(s.drop_last().contains(c));
            }
        }
    }
}

/// A text without separators is its only piece.
proof fn lemma_split_whole(s: Seq<char>, class: CharClass)
    requires
        forall|i: int| 0 <= i < s.len() ==> !class.holds(#[trigger] s[i]),
    ensures
        text::split(s, class) == seq![s],
    decreases s.len(),
{
    if s.len() > 0 {
        assert forall|i: int| 0 <= i < s.drop_last().len() implies !class.holds(
            #[trigger] s.drop_last()[i],
        ) by {
            assert(s.drop_last()[i] == s[i]);
        }
        lemma_split_whole(s.drop_last(), class);
        assert(!class.holds(s[s.len() - 1]));
        assert(s.drop_last().push(s.last()) =~= s);
        assert(text::split(s, class) =~= seq![s]);
    } else {
        assert(s =~= Seq::<char>::empty());
        assert(text::split(s, class) =~= seq![s]);
    }
}

proof fn lemma_groups_len(parts: Seq<Seq<char>>)
    ensures
        ip::groups(parts) matches Some(g) ==> g.len() == parts.len() && forall|k: int|
            0 <= k < parts.len() ==> all_ip_chars(#[trigger] parts[k]),
    decreases parts.len(),
{
    if parts.len() > 0 && ip::groups(parts) is Some {
        lemma_groups_len(parts.drop_last());
        lemma_digits_are_ip_chars(parts.last(), 16);
        assert forall|k: int| 0 <= k < parts.len() implies all_ip_chars(#[trigger] parts[k]) by {
            if k < parts.len() - 1 {
                assert(parts.drop_last()[k] == parts[k]);
            }
        }
    }
}

proof fn lemma_groups_then_ipv4_len(parts: Seq<Seq<char>>)
    ensures
        ip::groups_then_ipv4(parts) matches Some(g) ==> (g.len() == parts.len() || g.len()
            == parts.len() + 1) && forall|k: int|
            0 <= k < parts.len() ==> all_ip_chars(#[trigger] parts[k]),
{
    lemma_groups_len(parts);
    if ip::groups(parts) is None && ip::groups_then_ipv4(parts) is Some {
        lemma_groups_len(parts.drop_last());
        lemma_ipv4_chars(parts.last());
        assert forall|k: int| 0 <= k < parts.len() implies all_ip_chars(#[trigger] parts[k]) by {
            if k < parts.len() - 1 {
                assert(parts.drop_last()[k] == parts[k]);
            }
        }
    }
}

proof fn lemma_gap(s: Seq<char>, i: int)
    requires
        0 <= i,
    ensures
        ip::gap_from(s, i) matches Some(k) ==> i <= k && k + 1 < s.len() && s[k] == ':' && s[k
            + 1] == ':',
    decreases s.len() - i,
{
    if i + 1 < s.len() && !(s[i] == ':' && s[i + 1] == ':') {
        lemma_gap(s, i + 1);
    }
}

proof fn lemma_split_grows(s: Seq<char>, class: CharClass, i: int)
    requires
        0 <= i <= s.len(),
    ensures
        text::split(s.take(i), class).len() <= text::split(s, class).len(),
    decreases s.len() - i,
{
    if i < s.len() {
        assert(s.take(i + 1).drop_last() =~= s.take(i));
        text::lemma_split_nonempty(s.take(i), class);
        lemma_split_grows(s, class, i + 1);
    } else {
        assert(s.take(i) =~= s);
    }
}

/// An IPv6 address is written with hexadecimal digits, colons and dots, and
/// not with one colon alone.
proof fn lemma_ipv6_chars(s: Seq<char>)
    requires
        ip::ipv6_text(s) is Some,
    ensures
        all_ip_chars(s),
        text::split(s, CharClass::Is(':')).len() != 2,
{
    let colon = CharClass::Is(':');
    match ip::gap_from(s, 0) {
        None => {
            lemma_groups_then_ipv4_len(text::split(s, colon));
            lemma_split_chars(s, colon);
        },
        Some(i) => {
            lemma_gap(s, 0);
            let head = s.take(i);
            let tail = s.skip(i + 2);
            if head.len() > 0 {
                lemma_groups_len(text::split(head, colon));
                lemma_split_chars(head, colon);
            }
            if tail.len() > 0 {
                lemma_groups_then_ipv4_len(text::split(tail, colon));
                lemma_split_chars(tail, colon);
            }
            assert forall|k: int| 0 <= k < s.len() implies is_ip_char(#[trigger] s[k]) by {
                if k < i {
                    assert(head[k] == s[k]);
                } else if k >= i + 2 {
                    assert(tail[k - i - 2] == s[k]);
                }
            }
            assert(s.take(i + 1).drop_last() =~= s.take(i));
            assert(s.take(i + 2).drop_last() =~= s.take(i + 1));
            text::lemma_split_nonempty(s.take(i), colon);
            assert(text::split(s.take(i + 1), colon).len() == text::split(s.take(i), colon).len()
                + 1);
            assert(text::split(s.take(i + 2), colon).len() == text::split(
                s.take(i + 1),
                colon,
            ).len() + 1);
            lemma_split_grows(s, colon, i + 2);
        },
    }
}

/// A server that is talked to over `protocol` at `socket_addr`.
pub open spec fn plain_server(socket_addr: SocketAddr, protocol: Protocol) -> NameServerView {
    NameServerView {
        socket_addr,
        protocol,
        tls_dns_name: None,
        http_endpoint: None,
        trust_negative_responses: false,
        bind_addr: None,
    }
}

/// An address alone stands for a server at the default port, over UDP.
pub proof fn law_upstream_default_port(a: Seq<char>, addr: IpAddr)
    requires
        ip::ip_text(a) == Some(addr),
    ensures
        server::upstream_text(a) == Ok::<NameServerView, Seq<char>>(
            plain_server(SocketAddr { ip: addr, port: 53, scope_id: 0 }, Protocol::Udp),
        ),
{
    reveal_strlit("udp://");
    reveal_strlit("tcp://");
    if ip::ipv4_text(a) is Some {
        lemma_ipv4_chars(a);
        assert forall|i: int| 0 <= i < a.len() implies !CharClass::Is(':').holds(
            #[trigger] a[i],
        ) by {
            assert(a.contains(a[i]));
        }
        lemma_split_whole(a, CharClass::Is(':'));
    } else {
        lemma_ipv6_chars(a);
    }
    assert forall|i: int| 0 <= i < a.len() implies !CharClass::Is(']').holds(#[trigger] a[i]) by {
        assert(is_ip_char(a[i]));
    }
    lemma_split_whole(a, CharClass::Is(']'));
    if a.len() >= 6 {
        assert(is_ip_char(a[0]));
        assert(a.subrange(0, 6)[0] == a[0]);
    }
    assert(!("udp://"@).is_prefix_of(a));
    assert(!("tcp://"@).is_prefix_of(a));
}

/// An address with a port behind `udp://` or `tcp://` stands for a server
/// there, over that protocol.
pub proof fn law_upstream_schemes(a: Seq<char>, addr: SocketAddr)
    requires
        ip::socket_text(a) == Some(addr),
    ensures
        server::upstream_text("udp://"@ + a) == Ok::<NameServerView, Seq<char>>(
            plain_server(addr, Protocol::Udp),
        ),
        server::upstream_text("tcp://"@ + a) == Ok::<NameServerView, Seq<char>>(
            plain_server(addr, Protocol::Tcp),
        ),
{
    reveal_strlit("udp://");
    reveal_strlit("tcp://");
    assert(("udp://"@ + a).skip(6) =~= a);
    assert(("tcp://"@ + a).skip(6) =~= a);
    assert(("udp://"@).is_prefix_of("udp://"@ + a));
    assert(("tcp://"@).is_prefix_of("tcp://"@ + a));
    assert(("tcp://"@ + a)[0] == 't');
    assert(!("udp://"@).is_prefix_of("tcp://"@ + a));
}

/// An IPv4 address, a colon and a port are a socket there.
pub proof fn law_sockets_of_ipv4(a: Seq<char>, q: Seq<char>)
    requires
        ip::ipv4_text(a) is Some,
        number::numeral(q, 10, 65535) is Some,
    ensures
        ip::socket_text(a + seq![':'] + q) == Some(
            (SocketAddr {
                ip: IpAddr::V4(ip::ipv4_text(a).unwrap()),
                port: number::numeral(q, 10, 65535).unwrap() as u16,
                scope_id: 0,
            }),
        ),
{
    let colon = CharClass::Is(':');
    lemma_ipv4_chars(a);
    lemma_digits_no_colon(q, 10);
    assert forall|i: int| 0 <= i < a.len() implies !colon.holds(#[trigger] a[i]) by {
        assert(a.contains(a[i]));
    }
    text_laws::law_split(a, ':', q, colon);
    lemma_split_whole(q, colon);
    let parts = text::split(a + seq![':'] + q, colon);
    assert(parts =~= seq![a, q]);
    assert(parts[0] == a && parts[1] == q);
}

/// An IPv6 address between brackets, a colon and a port are a socket there; a
/// percent sign and the number of a scope may stand behind the address.
pub proof fn law_sockets_of_ipv6(a: Seq<char>, scope: Seq<char>, q: Seq<char>)
    requires
        ip::ipv6_text(a) is Some,
        number::numeral(scope, 10, 0xffff_ffff) is Some,
        number::numeral(q, 10, 65535) is Some,
    ensures
        ip::socket_text(seq!['['] + a + seq![']', ':'] + q) == Some(
            (SocketAddr {
                ip: IpAddr::V6(ip::ipv6_text(a).unwrap()),
                port: number::numeral(q, 10, 65535).unwrap() as u16,
                scope_id: 0,
            }),
        ),
        ip::socket_text(seq!['['] + (a + seq!['%'] + scope) + seq![']', ':'] + q) == Some(
            (SocketAddr {
                ip: IpAddr::V6(ip::ipv6_text(a).unwrap()),
                port: number::numeral(q, 10, 65535).unwrap() as u16,
                scope_id: number::numeral(scope, 10, 0xffff_ffff).unwrap() as u32,
            }),
        ),
{
    let percent = CharClass::Is('%');
    lemma_ipv6_chars(a);
    lemma_digits_are_ip_chars(scope, 10);
    assert forall|i: int| 0 <= i < a.len() implies !percent.holds(#[trigger] a[i]) by {
        assert(is_ip_char(a[i]));
    }
    assert forall|i: int| 0 <= i < scope.len() implies !percent.holds(#[trigger] scope[i]) by {
        assert(is_ip_char(scope[i]));
    }
    lemma_split_whole(a, percent);
    lemma_split_whole(scope, percent);
    text_laws::law_split(a, '%', scope, percent);
    let both = a + seq!['%'] + scope;
    assert(text::split(both, percent) =~= seq![a, scope]);
    assert(text::split(a, percent)[0] == a);
    assert(text::split(both, percent)[0] == a && text::split(both, percent)[1] == scope);
    assert forall|i: int| 0 <= i < a.len() implies #[trigger] a[i] != ']' by {
        assert(is_ip_char(a[i]));
    }
    assert forall|i: int| 0 <= i < both.len() implies #[trigger] both[i] != ']' by {
        if i < a.len() {
            assert(both[i] == a[i]);
        } else if i > a.len() {
            assert(both[i] == scope[i - a.len() - 1]);
            assert(is_ip_char(scope[i - a.len() - 1]));
        }
    }
    lemma_bracketed(a, q);
    lemma_bracketed(both, q);
}

proof fn lemma_bracketed(inner: Seq<char>, q: Seq<char>)
    requires
        forall|i: int| 0 <= i < inner.len() ==> #[trigger] inner[i] != ']',
        ip::scoped_ipv6_text(inner) is Some,
        number::numeral(q, 10, 65535) is Some,
    ensures
        ip::socket_text(seq!['['] + inner + seq![']', ':'] + q) == Some(
            (SocketAddr {
                ip: IpAddr::V6(ip::scoped_ipv6_text(inner).unwrap().0),
                port: number::numeral(q, 10, 65535).unwrap() as u16,
                scope_id: ip::scoped_ipv6_text(inner).unwrap().1 as u32,
            }),
        ),
{
    let close = CharClass::Is(']');
    let colon = CharClass::Is(':');
    let front = seq!['['] + inner;
    let back = seq![':'] + q;
    let s = seq!['['] + inner + seq![']', ':'] + q;
    lemma_digits_are_ip_chars(q, 10);
    assert(s =~= front + seq![']'] + back);
    assert forall|i: int| 0 <= i < front.len() implies !close.holds(#[trigger] front[i]) by {
        if i > 0 {
            assert(front[i] == inner[i - 1]);
        }
    }
    assert forall|i: int| 0 <= i < back.len() implies !close.holds(#[trigger] back[i]) by {
        if i > 0 {
            assert(back[i] == q[i - 1]);
            assert(is_ip_char(q[i - 1]));
        }
    }
    lemma_split_whole(front, close);
    lemma_split_whole(back, close);
    text_laws::law_split(front, ']', back, close);
    let parts = text::split(s, close);
    assert(parts =~= seq![front, back]);
    assert(parts[0] == front && parts[1] == back);
    assert(front.skip(1) =~= inner);
    assert(back.skip(1) =~= q);
    assert(ip::socket_v4_text(s) is None) by {
        let pieces = text::split(s, colon);
        if ip::socket_v4_text(s) is Some {
            lemma_ipv4_chars(pieces[0]);
            lemma_digits_are_ip_chars(pieces[1], 10);
            assert forall|k: int| 0 <= k < pieces.len() implies all_ip_chars(
                #[trigger] pieces[k],
            ) by {
                assert(k == 0 || k == 1);
            }
            lemma_split_chars(s, colon);
            assert(is_ip_char(s[0]));
            assert(s[0] == '[');
        }
    }
}

} // verus!
