//! The settings that hold from start to stop: where the server listens and as
//! whom it runs. A reload must not change them.
use vstd::prelude::*;

use crate::filtering;
use crate::ip;
use crate::ip::{AddrParseError, IpAddr, Ipv4Addr, Ipv6Addr, SocketAddr};
use crate::server;
use crate::server::{Config, Protocol};
use crate::text;

verus! {

/// Whether `a` goes before `b` or is the same: IPv4 before IPv6, and by their
/// bits.
pub open spec fn ip_le(a: IpAddr, b: IpAddr) -> bool {
    match (a, b) {
        (IpAddr::V4(x), IpAddr::V4(y)) => x.bits <= y.bits,
        (IpAddr::V6(x), IpAddr::V6(y)) => x.bits <= y.bits,
        (IpAddr::V4(_), IpAddr::V6(_)) => true,
        (IpAddr::V6(_), IpAddr::V4(_)) => false,
    }
}

/// Whether the addresses stand in their order.
pub open spec fn in_order(v: Seq<IpAddr>) -> bool {
    forall|i: int, j: int| 0 <= i < j < v.len() ==> ip_le(#[trigger] v[i], #[trigger] v[j])
}

fn goes_before(a: &IpAddr, b: &IpAddr) -> (r: bool)
    ensures
        r == ip_le(*a, *b),
{
    match (a, b) {
        (IpAddr::V4(x), IpAddr::V4(y)) => x.bits <= y.bits,
        (IpAddr::V6(x), IpAddr::V6(y)) => x.bits <= y.bits,
        (IpAddr::V4(_), IpAddr::V6(_)) => true,
        (IpAddr::V6(_), IpAddr::V4(_)) => false,
    }
}

/// The addresses in their order.
pub fn sorted(addrs: Vec<IpAddr>) -> (r: Vec<IpAddr>)
    ensures
        in_order(r@),
        r@.to_multiset() == addrs@.to_multiset(),
{
    let mut out: Vec<IpAddr> = Vec::new();
    let mut i: usize = 0;
    assert(addrs@.take(0) =~= Seq::<IpAddr>::empty());
    while i < addrs.len()
        invariant
            i <= addrs@.len(),
            in_order(out@),
            out@.to_multiset() == addrs@.take(i as int).to_multiset(),
        decreases addrs@.len() - i,
    {
        let x = addrs[i];
        let mut k: usize = out.len();
        while k > 0 && !goes_before(&out[k - 1], &x)
            invariant
                k <= out@.len(),
                in_order(out@),
                forall|j: int| k <= j < out@.len() ==> !ip_le(#[trigger] out@[j], x),
            decreases k,
        {
            k = k - 1;
        }
        let ghost before = out@;
        out.insert(k, x);
        proof {
            vstd::seq_lib::to_multiset_insert(before, k as int, x);
            vstd::seq_lib::to_multiset_build(addrs@.take(i as int), x);
            assert(out@ =~= before.insert(k as int, x));
            assert(addrs@.take(i + 1) =~= addrs@.take(i as int).push(x));
        }
        i = i + 1;
    }
    assert(addrs@.take(addrs@.len() as int) =~= addrs@);
    out
}

/// The settings that hold from start to stop.
#[derive(Debug)]
pub struct ReloadSettings {
    pub listen_addrs: Vec<IpAddr>,
    pub listen_port: u16,
    pub udp_enabled: bool,
    pub tcp_enabled: bool,
    pub tcp_request_timeout_secs: u64,
    pub user: Option<String>,
    pub group: Option<String>,
}

/// What `ReloadSettings` say.
#[verifier::ext_equal]
pub struct SettingsView {
    pub listen_addrs: Seq<IpAddr>,
    pub listen_port: u16,
    pub udp_enabled: bool,
    pub tcp_enabled: bool,
    pub tcp_request_timeout_secs: u64,
    pub user: Option<Seq<char>>,
    pub group: Option<Seq<char>>,
}

impl View for ReloadSettings {
    type V = SettingsView;

    open spec fn view(&self) -> SettingsView {
        SettingsView {
            listen_addrs: self.listen_addrs@,
            listen_port: self.listen_port,
            udp_enabled: self.udp_enabled,
            tcp_enabled: self.tcp_enabled,
            tcp_request_timeout_secs: self.tcp_request_timeout_secs,
            user: filtering::text_view(self.user),
            group: filtering::text_view(self.group),
        }
    }
}

/// The addresses to listen on: those that the configuration names, or else
/// all addresses of both kinds.
pub open spec fn configured_addrs(ipv4: Seq<Ipv4Addr>, ipv6: Seq<Ipv6Addr>) -> Seq<IpAddr> {
    if ipv4.len() + ipv6.len() == 0 {
        seq![IpAddr::V4(Ipv4Addr { bits: 0 }), IpAddr::V6(Ipv6Addr { bits: 0 })]
    } else {
        ipv4.map_values(|a: Ipv4Addr| IpAddr::V4(a)) + ipv6.map_values(
            |a: Ipv6Addr| IpAddr::V6(a),
        )
    }
}

fn all_addrs(ipv4: &Vec<Ipv4Addr>, ipv6: &Vec<Ipv6Addr>) -> (r: Vec<IpAddr>)
    ensures
        r@ == configured_addrs(ipv4@, ipv6@),
{
    let mut out: Vec<IpAddr> = Vec::new();
    let mut i: usize = 0;
    while i < ipv4.len()
        invariant
            i <= ipv4@.len(),
            out@ == ipv4@.take(i as int).map_values(|a: Ipv4Addr| IpAddr::V4(a)),
        decreases ipv4@.len() - i,
    {
        out.push(IpAddr::V4(ipv4[i]));
        i = i + 1;
        assert(out@ =~= ipv4@.take(i as int).map_values(|a: Ipv4Addr| IpAddr::V4(a)));
    }
    let ghost head = out@;
    let mut j: usize = 0;
    assert(head =~= ipv4@.map_values(|a: Ipv4Addr| IpAddr::V4(a)));
    while j < ipv6.len()
        invariant
            j <= ipv6@.len(),
            out@ == head + ipv6@.take(j as int).map_values(|a: Ipv6Addr| IpAddr::V6(a)),
        decreases ipv6@.len() - j,
    {
        out.push(IpAddr::V6(ipv6[j]));
        j = j + 1;
        assert(out@ =~= head + ipv6@.take(j as int).map_values(|a: Ipv6Addr| IpAddr::V6(a)));
    }
    assert(ipv6@.take(ipv6@.len() as int) =~= ipv6@);
    if out.len() == 0 {
        out.push(IpAddr::V4(Ipv4Addr { bits: 0 }));
        out.push(IpAddr::V6(Ipv6Addr { bits: 0 }));
    }
    assert(out@ =~= configured_addrs(ipv4@, ipv6@));
    out
}

/// The words about addresses of a configuration that cannot be read.
pub open spec fn bad_addrs_text(kind: AddrParseError, shown_path: Seq<char>) -> Seq<char> {
    (if kind == AddrParseError::Ipv4 {
        "failed to parse IPv4 addresses from "@
    } else {
        "failed to parse IPv6 addresses from "@
    }) + shown_path + ": "@ + ip::addr_error_text(kind)
}

fn bad_addrs(kind: AddrParseError, shown_path: &str) -> (r: String)
    ensures
        r@ == bad_addrs_text(kind, shown_path@),
{
    let mut message = if kind == AddrParseError::Ipv4 {
        "failed to parse IPv4 addresses from ".to_owned()
    } else {
        "failed to parse IPv6 addresses from ".to_owned()
    };
    message.append(shown_path);
    message.append(": ");
    let reason = kind.message();
    message.append(reason.as_str());
    message
}

/// Whether `settings` are those of the configuration.
pub open spec fn are_settings_of(settings: SettingsView, config: Config) -> bool {
    let ipv4 = text::texts(config.listen_addrs_ipv4@);
    let ipv6 = text::texts(config.listen_addrs_ipv6@);
    &&& in_order(settings.listen_addrs)
    &&& settings.listen_addrs.to_multiset() == configured_addrs(
        server::ipv4_list(ipv4),
        server::ipv6_list(ipv6),
    ).to_multiset()
    &&& settings.listen_port == match config.listen_port {
        Some(port) => port,
        None => server::DEFAULT_PORT,
    }
    &&& settings.udp_enabled == !server::or_false(config.disable_udp)
    &&& settings.tcp_enabled == !server::or_false(config.disable_tcp)
    &&& settings.tcp_request_timeout_secs == match config.tcp_request_timeout {
        Some(secs) => secs,
        None => server::DEFAULT_TCP_REQUEST_TIMEOUT,
    }
    &&& settings.user == filtering::text_view(config.user)
    &&& settings.group == filtering::text_view(config.group)
}

fn same_addrs(a: &Vec<IpAddr>, b: &Vec<IpAddr>) -> (r: bool)
    ensures
        r == (a@ == b@),
{
    let n: usize = a.len();
    if n != b.len() {
        return false;
    }
    let mut i: usize = 0;
    while i < n
        invariant
            i <= n == a@.len() == b@.len(),
            forall|k: int| 0 <= k < i ==> a@[k] == b@[k],
        decreases n - i,
    {
        if a[i] != b[i] {
            return false;
        }
        i = i + 1;
    }
    assert(a@ =~= b@);
    true
}

fn same_option(a: &Option<String>, b: &Option<String>) -> (r: bool)
    ensures
        r == (filtering::text_view(*a) == filtering::text_view(*b)),
{
    match (a, b) {
        (Some(x), Some(y)) => text::same_text(x.as_str(), y.as_str()),
        (None, None) => true,
        _ => false,
    }
}

pub open spec fn named_if(changed: bool, name: Seq<char>) -> Seq<Seq<char>> {
    if changed {
        seq![name]
    } else {
        Seq::empty()
    }
}

/// The names of the settings in which `old_settings` and `new_settings`
/// differ.
pub open spec fn changed_settings(
    old_settings: SettingsView,
    new_settings: SettingsView,
) -> Seq<Seq<char>> {
    let a = old_settings;
    let b = new_settings;
    named_if(a.listen_addrs != b.listen_addrs, "listen addresses"@) + named_if(
        a.listen_port != b.listen_port,
        "listen port"@,
    ) + named_if(a.udp_enabled != b.udp_enabled, "UDP enable/disable state"@) + named_if(
        a.tcp_enabled != b.tcp_enabled,
        "TCP enable/disable state"@,
    ) + named_if(
        a.tcp_request_timeout_secs != b.tcp_request_timeout_secs,
        "TCP request timeout"@,
    ) + named_if(a.user != b.user, "user"@) + named_if(a.group != b.group, "group"@)
}

/// The words about a reload that changes settings.
pub open spec fn refused_reload_text(changed: Seq<Seq<char>>) -> Seq<char> {
    "hot reload only supports resolver and filtering changes; restart required because these settings changed: "@
        + text::join(changed, ", "@)
}

fn name_if(names: &mut Vec<String>, changed: bool, name: &str)
    ensures
        text::texts(final(names)@) == text::texts(old(names)@) + named_if(changed, name@),
{
    if changed {
        names.push(name.to_owned());
    }
    assert(text::texts(names@) =~= text::texts(old(names)@) + named_if(changed, name@));
}

impl ReloadSettings {
    /// The settings of a configuration, which is shown as `shown_path`.
    pub fn from_effective_config(config: &Config, shown_path: &str) -> (r: Result<
        ReloadSettings,
        String,
    >)
        ensures
            match r {
                Ok(settings) => server::all_ipv4(text::texts(config.listen_addrs_ipv4@))
                    && server::all_ipv6(text::texts(config.listen_addrs_ipv6@))
                    && are_settings_of(settings@, *config),
                Err(e) => if !server::all_ipv4(text::texts(config.listen_addrs_ipv4@)) {
                    e@ == bad_addrs_text(AddrParseError::Ipv4, shown_path@)
                } else {
                    !server::all_ipv6(text::texts(config.listen_addrs_ipv6@)) && e@
                        == bad_addrs_text(AddrParseError::Ipv6, shown_path@)
                },
            },
    {
        let ipv4 = match config.listen_addrs_ipv4() {
            Ok(addrs) => addrs,
            Err(kind) => return Err(bad_addrs(kind, shown_path)),
        };
        let ipv6 = match config.listen_addrs_ipv6() {
            Ok(addrs) => addrs,
            Err(kind) => return Err(bad_addrs(kind, shown_path)),
        };
        Ok(
            ReloadSettings {
                listen_addrs: sorted(all_addrs(&ipv4, &ipv6)),
                listen_port: config.listen_port(),
                udp_enabled: !config.disable_udp(),
                tcp_enabled: !config.disable_tcp(),
                tcp_request_timeout_secs: config.tcp_request_timeout(),
                user: filtering::copied_text(&config.user),
                group: filtering::copied_text(&config.group),
            },
        )
    }

    /// Refuses settings that differ from these.
    pub fn ensure_reload_safe(&self, new: &ReloadSettings) -> (r: Result<(), String>)
        ensures
            match r {
                Ok(()) => changed_settings(self@, new@).len() == 0,
                Err(e) => changed_settings(self@, new@).len() > 0 && e@ == refused_reload_text(
                    changed_settings(self@, new@),
                ),
            },
    {
        let mut changed: Vec<String> = Vec::new();
        assert(text::texts(changed@) =~= Seq::<Seq<char>>::empty());
        name_if(
            &mut changed,
            !same_addrs(&self.listen_addrs, &new.listen_addrs),
            "listen addresses",
        );
        name_if(&mut changed, self.listen_port != new.listen_port, "listen port");
        name_if(&mut changed, self.udp_enabled != new.udp_enabled, "UDP enable/disable state");
        name_if(&mut changed, self.tcp_enabled != new.tcp_enabled, "TCP enable/disable state");
        name_if(
            &mut changed,
            self.tcp_request_timeout_secs != new.tcp_request_timeout_secs,
            "TCP request timeout",
        );
        name_if(&mut changed, !same_option(&self.user, &new.user), "user");
        name_if(&mut changed, !same_option(&self.group, &new.group), "group");
        assert(text::texts(changed@) =~= changed_settings(self@, new@));
        assert(text::texts(changed@).len() == changed@.len());
        if changed.len() == 0 {
            Ok(())
        } else {
            let mut message = "hot reload only supports resolver and filtering changes; restart required because these settings changed: ".to_owned();
            let names = text::joined(&changed, ", ");
            message.append(names.as_str());
            Err(message)
        }
    }
}

/// A reload is accepted just where it changes none of the settings.
pub proof fn law_reload_keeps_settings(old_settings: SettingsView, new_settings: SettingsView)
    ensures
        (changed_settings(old_settings, new_settings).len() == 0) == (old_settings
            == new_settings),
{
    let a = old_settings;
    let b = new_settings;
    let n = |changed: bool| -> int
        {
            if changed {
                1
            } else {
                0
            }
        };
    assert(changed_settings(a, b).len() == n(a.listen_addrs != b.listen_addrs) + n(
        a.listen_port != b.listen_port,
    ) + n(a.udp_enabled != b.udp_enabled) + n(a.tcp_enabled != b.tcp_enabled) + n(
        a.tcp_request_timeout_secs != b.tcp_request_timeout_secs,
    ) + n(a.user != b.user) + n(a.group != b.group));
}

/// Addresses in their order are the same where they are the same but for
/// their order, so the order in which a configuration names them is no
/// difference.
pub proof fn law_order_of_addresses(a: Seq<IpAddr>, b: Seq<IpAddr>)
    requires
        in_order(a),
        in_order(b),
        a.to_multiset() == b.to_multiset(),
    ensures
        a == b,
{
    let leq = |x: IpAddr, y: IpAddr| ip_le(x, y);
    assert(vstd::relations::sorted_by(a, leq));
    assert(vstd::relations::sorted_by(b, leq));
    assert(vstd::relations::total_ordering(leq));
    vstd::seq_lib::lemma_sorted_unique(a, b, leq);
}

/// Whether two configurations say the same of where the server listens and as
/// whom it runs, whatever they say of zones, servers upstream and rules.
pub open spec fn same_process(a: Config, b: Config) -> bool {
    &&& text::texts(a.listen_addrs_ipv4@) == text::texts(b.listen_addrs_ipv4@)
    &&& text::texts(a.listen_addrs_ipv6@) == text::texts(b.listen_addrs_ipv6@)
    &&& a.listen_port == b.listen_port
    &&& a.disable_udp == b.disable_udp
    &&& a.disable_tcp == b.disable_tcp
    &&& a.tcp_request_timeout == b.tcp_request_timeout
    &&& filtering::text_view(a.user) == filtering::text_view(b.user)
    &&& filtering::text_view(a.group) == filtering::text_view(b.group)
}

/// A reload that changes only zones, servers upstream and rules is accepted.
pub proof fn law_reload_of_rules_is_accepted(
    old_config: Config,
    new_config: Config,
    old_settings: SettingsView,
    new_settings: SettingsView,
)
    requires
        are_settings_of(old_settings, old_config),
        are_settings_of(new_settings, new_config),
        same_process(old_config, new_config),
    ensures
        changed_settings(old_settings, new_settings).len() == 0,
{
    law_order_of_addresses(old_settings.listen_addrs, new_settings.listen_addrs);
    law_reload_keeps_settings(old_settings, new_settings);
}

/// A socket to listen on.
#[derive(Clone, Copy, Debug, PartialEq, Eq, Structural)]
pub struct Listener {
    pub protocol: Protocol,
    pub ip: IpAddr,
    pub port: u16,
}

pub open spec fn listeners_for(
    enabled: bool,
    protocol: Protocol,
    settings: SettingsView,
) -> Seq<Listener> {
    if enabled {
        settings.listen_addrs.map_values(
            |ip: IpAddr| Listener { protocol, ip, port: settings.listen_port },
        )
    } else {
        Seq::empty()
    }
}

impl SettingsView {
    /// The sockets to listen on: for each protocol that is on, UDP before TCP,
    /// one at each address.
    pub open spec fn listeners(self) -> Seq<Listener> {
        listeners_for(self.udp_enabled, Protocol::Udp, self) + listeners_for(
            self.tcp_enabled,
            Protocol::Tcp,
            self,
        )
    }
}

impl ReloadSettings {
    /// The sockets of one protocol to listen on.
    fn listeners_of(&self, enabled: bool, protocol: Protocol) -> (r: Vec<Listener>)
        ensures
            r@ == listeners_for(enabled, protocol, self@),
    {
        let mut out: Vec<Listener> = Vec::new();
        if enabled {
            let mut i: usize = 0;
            while i < self.listen_addrs.len()
                invariant
                    i <= self.listen_addrs@.len(),
                    out@.len() == i,
                    forall|k: int|
                        0 <= k < i ==> out@[k] == (Listener {
                            protocol,
                            ip: self.listen_addrs@[k],
                            port: self.listen_port,
                        }),
                decreases self.listen_addrs@.len() - i,
            {
                out.push(
                    Listener { protocol, ip: self.listen_addrs[i], port: self.listen_port },
                );
                i = i + 1;
            }
        }
        assert(out@ =~= listeners_for(enabled, protocol, self@));
        out
    }

    /// The sockets to listen on.
    pub fn listeners(&self) -> (r: Vec<Listener>)
        ensures
            r@ == self@.listeners(),
    {
        let mut out = self.listeners_of(self.udp_enabled, Protocol::Udp);
        let mut tcp = self.listeners_of(self.tcp_enabled, Protocol::Tcp);
        out.append(&mut tcp);
        out
    }
}

/// Where metrics are served by the words of the command line and of the
/// configuration.
pub open spec fn metrics_addr(
    disabled: bool,
    listen_addr: Option<SocketAddr>,
    config_disabled: Option<bool>,
    config_addr: Option<SocketAddr>,
) -> Option<SocketAddr> {
    if disabled || server::or_false(config_disabled) {
        None
    } else if listen_addr is Some {
        listen_addr
    } else if config_addr is Some {
        config_addr
    } else {
        Some(server::default_prometheus_addr())
    }
}

/// Where metrics are served, unless that is off: the command line goes before
/// the configuration.
pub fn prometheus_endpoint(
    disabled: bool,
    listen_addr: Option<SocketAddr>,
    config: &Config,
) -> (r: Option<SocketAddr>)
    ensures
        r == if disabled || server::or_false(config.disable_prometheus) {
            None
        } else {
            match listen_addr {
                Some(addr) => Some(addr),
                None => match config.prometheus_listen_addr {
                    Some(addr) => Some(addr),
                    None => Some(server::default_prometheus_addr()),
                },
            }
        },
        r == metrics_addr(
            disabled,
            listen_addr,
            config.disable_prometheus,
            config.prometheus_listen_addr,
        ),
{
    if disabled || config.disable_prometheus() {
        None
    } else {
        match listen_addr {
            Some(addr) => Some(addr),
            None => Some(config.prometheus_listen_addr()),
        }
    }
}

} // verus!
