//! The configuration of the server: where it listens, what it forwards to,
//! and what it filters.
use vstd::prelude::*;

use std::str::FromStr;

use hickory_resolver::config::ResolverOpts;

use crate::filtering;
use crate::filtering::{
    AdblockRuntimeConfig, AdblockView, FilterConfig, FilteringConfig, LanHostsConfig,
};
use crate::ip;
use crate::ip::{AddrParseError, IpAddr, Ipv4Addr, Ipv6Addr, SocketAddr};
use crate::name;
use crate::name::DomainName;
use crate::number;
use crate::text;

verus! {

/// The port that names are asked for on.
pub const DEFAULT_PORT: u16 = 53;

/// How many seconds a TCP request may take.
pub const DEFAULT_TCP_REQUEST_TIMEOUT: u64 = 5;

/// The options of a resolver of the crate `hickory-resolver`.
#[verifier::external_type_specification]
#[verifier::external_body]
pub struct ExResolverOpts(hickory_resolver::config::ResolverOpts);

/// How a server upstream is talked to.
#[derive(Clone, Copy, Debug, PartialEq, Eq, Structural)]
pub enum Protocol {
    Udp,
    Tcp,
}

/// A server upstream.
#[derive(Debug)]
pub struct NameServerConfig {
    pub socket_addr: SocketAddr,
    pub protocol: Protocol,
    pub tls_dns_name: Option<String>,
    pub http_endpoint: Option<String>,
    /// Whether the word of the server that there is no such domain is final.
    pub trust_negative_responses: bool,
    /// The address that the server is talked to from.
    pub bind_addr: Option<SocketAddr>,
}

/// What a `NameServerConfig` says.
#[verifier::ext_equal]
pub struct NameServerView {
    pub socket_addr: SocketAddr,
    pub protocol: Protocol,
    pub tls_dns_name: Option<Seq<char>>,
    pub http_endpoint: Option<Seq<char>>,
    pub trust_negative_responses: bool,
    pub bind_addr: Option<SocketAddr>,
}

impl View for NameServerConfig {
    type V = NameServerView;

    open spec fn view(&self) -> NameServerView {
        NameServerView {
            socket_addr: self.socket_addr,
            protocol: self.protocol,
            tls_dns_name: filtering::text_view(self.tls_dns_name),
            http_endpoint: filtering::text_view(self.http_endpoint),
            trust_negative_responses: self.trust_negative_responses,
            bind_addr: self.bind_addr,
        }
    }
}

/// What the servers of `v` say.
pub open spec fn name_servers(v: Seq<NameServerConfig>) -> Seq<NameServerView> {
    v.map_values(|s: NameServerConfig| s@)
}

impl Clone for NameServerConfig {
    fn clone(&self) -> (r: NameServerConfig)
        ensures
            r@ == self@,
    {
        NameServerConfig {
            socket_addr: self.socket_addr,
            protocol: self.protocol,
            tls_dns_name: filtering::copied_text(&self.tls_dns_name),
            http_endpoint: filtering::copied_text(&self.http_endpoint),
            trust_negative_responses: self.trust_negative_responses,
            bind_addr: self.bind_addr,
        }
    }
}

/// What queries are forwarded to.
#[derive(Debug)]
pub struct ForwardConfig {
    pub name_servers: Vec<NameServerConfig>,
    pub options: Option<ResolverOpts>,
}

/// Where the answers of a zone come from.
#[derive(Debug)]
#[non_exhaustive]
pub enum ExternalStoreConfig {
    /// From servers upstream.
    Forward(ForwardConfig),
    /// From nowhere: the zone has no store of its own.
    Default,
}

/// What a zone is made of, by its type.
#[derive(Debug)]
pub enum ZoneTypeConfig {
    External { stores: Vec<ExternalStoreConfig> },
}

/// The types of zones.
#[derive(Clone, Copy, Debug, PartialEq, Eq, Structural)]
pub enum ZoneType {
    External,
}

/// A zone.
#[derive(Debug)]
pub struct ZoneConfig {
    /// The name of the zone.
    pub zone: String,
    /// What the zone is made of.
    pub zone_type_config: ZoneTypeConfig,
}

/// A server upstream: an address, or all that there is to say about it.
#[derive(Debug)]
pub enum UpstreamDnsConfig {
    Address(String),
    Detailed(NameServerConfig),
}

/// The short form of forwarding everything to servers upstream.
#[derive(Debug)]
pub struct DnsConfig {
    pub upstream_dns: Vec<UpstreamDnsConfig>,
}

/// How much is logged.
#[derive(Clone, Copy, Debug, PartialEq, Eq, Structural)]
pub enum LogLevel {
    Trace,
    Debug,
    Info,
    Warn,
    Error,
}

/// The configuration of the server.
#[derive(Debug)]
pub struct Config {
    /// The IPv4 addresses to listen on.
    pub listen_addrs_ipv4: Vec<String>,
    /// The IPv6 addresses to listen on.
    pub listen_addrs_ipv6: Vec<String>,
    /// The port to listen on, at all addresses.
    pub listen_port: Option<u16>,
    /// Where metrics can be read.
    pub prometheus_listen_addr: Option<SocketAddr>,
    pub disable_tcp: Option<bool>,
    pub disable_udp: Option<bool>,
    pub disable_tls: Option<bool>,
    pub disable_https: Option<bool>,
    pub disable_quic: Option<bool>,
    pub disable_prometheus: Option<bool>,
    /// How many seconds a TCP request may take before it is closed.
    pub tcp_request_timeout: Option<u64>,
    /// How much is logged.
    pub log_level: Option<String>,
    /// The user to run as, once the sockets are bound.
    pub user: Option<String>,
    /// The group to run as, once the sockets are bound.
    pub group: Option<String>,
    pub zones: Vec<ZoneConfig>,
    /// The short form of a zone that forwards everything.
    pub dns: Option<DnsConfig>,
    /// Remote lists of rules.
    pub filters: Vec<FilterConfig>,
    /// Local rules.
    pub user_rules: Vec<String>,
    /// How blocked queries are answered, and rewrites.
    pub filtering: FilteringConfig,
}

/// The level that a text names: by its word, in letters of either case, or by
/// its number from 1 for errors to 5 for everything.
pub open spec fn level_text(s: Seq<char>) -> Option<LogLevel> {
    let digits = if s.len() > 0 && s[0] == '+' {
        s.skip(1)
    } else {
        s
    };
    let n = number::numeral(digits, 10, 5);
    let word = text::lower(s);
    if n == Some(1nat) || word == "error"@ {
        Some(LogLevel::Error)
    } else if n == Some(2nat) || word == "warn"@ {
        Some(LogLevel::Warn)
    } else if n == Some(3nat) || word == "info"@ {
        Some(LogLevel::Info)
    } else if n == Some(4nat) || word == "debug"@ {
        Some(LogLevel::Debug)
    } else if n == Some(5nat) || word == "trace"@ {
        Some(LogLevel::Trace)
    } else {
        None
    }
}

/// Calls `Level::from_str` of the crate `tracing`: it reads the words of the
/// five levels in letters of either case, and the numbers from 1 to 5.
#[verifier::external_body]
pub(crate) fn read_level(s: &str) -> (r: Option<LogLevel>)
    ensures
        r == level_text(s@),
{
    match tracing::Level::from_str(s) {
        Ok(tracing::Level::ERROR) => Some(LogLevel::Error),
        Ok(tracing::Level::WARN) => Some(LogLevel::Warn),
        Ok(tracing::Level::INFO) => Some(LogLevel::Info),
        Ok(tracing::Level::DEBUG) => Some(LogLevel::Debug),
        Ok(tracing::Level::TRACE) => Some(LogLevel::Trace),
        Err(_) => None,
    }
}

/// How much is logged by a word about it, or for want of one.
pub open spec fn level_of(word: Option<Seq<char>>) -> LogLevel {
    match word {
        Some(s) => match level_text(s) {
            Some(level) => level,
            None => LogLevel::Info,
        },
        None => LogLevel::Warn,
    }
}

/// Whether every text writes an IPv4 address.
pub open spec fn all_ipv4(list: Seq<Seq<char>>) -> bool {
    forall|i: int| 0 <= i < list.len() ==> ip::ipv4_text(#[trigger] list[i]) is Some
}

/// Whether every text writes an IPv6 address.
pub open spec fn all_ipv6(list: Seq<Seq<char>>) -> bool {
    forall|i: int| 0 <= i < list.len() ==> ip::ipv6_text(#[trigger] list[i]) is Some
}

/// The IPv4 addresses that the texts write.
pub open spec fn ipv4_list(list: Seq<Seq<char>>) -> Seq<Ipv4Addr> {
    list.map_values(|s: Seq<char>| ip::ipv4_text(s).unwrap())
}

/// The IPv6 addresses that the texts write.
pub open spec fn ipv6_list(list: Seq<Seq<char>>) -> Seq<Ipv6Addr> {
    list.map_values(|s: Seq<char>| ip::ipv6_text(s).unwrap())
}

pub open spec fn or_false(flag: Option<bool>) -> bool {
    match flag {
        Some(f) => f,
        None => false,
    }
}

fn flag_or_false(flag: Option<bool>) -> (r: bool)
    ensures
        r == or_false(flag),
{
    match flag {
        Some(f) => f,
        None => false,
    }
}

/// The words about a configuration of both forms of forwarding.
pub open spec fn mixed_styles_text() -> Seq<char> {
    "cannot configure both `zones` and `dns.upstream_dns`; use one style"@
}

/// Where metrics can be read unless the configuration says otherwise.
pub open spec fn default_prometheus_addr() -> SocketAddr {
    SocketAddr { ip: IpAddr::V4(ip::ipv4_of_octets(127, 0, 0, 1)), port: 9000, scope_id: 0 }
}

impl Config {
    /// The IPv4 addresses to listen on.
    pub fn listen_addrs_ipv4(&self) -> (r: Result<Vec<Ipv4Addr>, AddrParseError>)
        ensures
            match r {
                Ok(addrs) => all_ipv4(text::texts(self.listen_addrs_ipv4@)) && addrs@
                    == ipv4_list(text::texts(self.listen_addrs_ipv4@)),
                Err(e) => !all_ipv4(text::texts(self.listen_addrs_ipv4@)) && e
                    == AddrParseError::Ipv4,
            },
    {
        let ghost all = text::texts(self.listen_addrs_ipv4@);
        let mut out: Vec<Ipv4Addr> = Vec::new();
        let mut i: usize = 0;
        while i < self.listen_addrs_ipv4.len()
            invariant
                i <= self.listen_addrs_ipv4@.len(),
                all == text::texts(self.listen_addrs_ipv4@),
                out@.len() == i,
                forall|k: int|
                    0 <= k < i ==> ip::ipv4_text(#[trigger] all[k]) == Some(out@[k]),
            decreases self.listen_addrs_ipv4@.len() - i,
        {
            assert(all[i as int] == self.listen_addrs_ipv4@[i as int]@);
            let chars = text::chars_of(self.listen_addrs_ipv4[i].as_str());
            match ip::read_ipv4(&chars) {
                Some(addr) => out.push(addr),
                None => return Err(AddrParseError::Ipv4),
            }
            i = i + 1;
        }
        assert(out@ =~= ipv4_list(all));
        Ok(out)
    }

    /// The IPv6 addresses to listen on.
    pub fn listen_addrs_ipv6(&self) -> (r: Result<Vec<Ipv6Addr>, AddrParseError>)
        ensures
            match r {
                Ok(addrs) => all_ipv6(text::texts(self.listen_addrs_ipv6@)) && addrs@
                    == ipv6_list(text::texts(self.listen_addrs_ipv6@)),
                Err(e) => !all_ipv6(text::texts(self.listen_addrs_ipv6@)) && e
                    == AddrParseError::Ipv6,
            },
    {
        let ghost all = text::texts(self.listen_addrs_ipv6@);
        let mut out: Vec<Ipv6Addr> = Vec::new();
        let mut i: usize = 0;
        while i < self.listen_addrs_ipv6.len()
            invariant
                i <= self.listen_addrs_ipv6@.len(),
                all == text::texts(self.listen_addrs_ipv6@),
                out@.len() == i,
                forall|k: int|
                    0 <= k < i ==> ip::ipv6_text(#[trigger] all[k]) == Some(out@[k]),
            decreases self.listen_addrs_ipv6@.len() - i,
        {
            assert(all[i as int] == self.listen_addrs_ipv6@[i as int]@);
            let chars = text::chars_of(self.listen_addrs_ipv6[i].as_str());
            match ip::read_ipv6(&chars) {
                Some(addr) => out.push(addr),
                None => return Err(AddrParseError::Ipv6),
            }
            i = i + 1;
        }
        assert(out@ =~= ipv6_list(all));
        Ok(out)
    }

    /// The port to listen on.
    pub fn listen_port(&self) -> (r: u16)
        ensures
            r == match self.listen_port {
                Some(port) => port,
                None => DEFAULT_PORT,
            },
    {
        match self.listen_port {
            Some(port) => port,
            None => DEFAULT_PORT,
        }
    }

    /// Where metrics can be read.
    pub fn prometheus_listen_addr(&self) -> (r: SocketAddr)
        ensures
            r == match self.prometheus_listen_addr {
                Some(addr) => addr,
                None => default_prometheus_addr(),
            },
    {
        match self.prometheus_listen_addr {
            Some(addr) => addr,
            None => SocketAddr {
                ip: IpAddr::V4(Ipv4Addr::new(127, 0, 0, 1)),
                port: 9000,
                scope_id: 0,
            },
        }
    }

    /// Whether TCP is off.
    pub fn disable_tcp(&self) -> (r: bool)
        ensures
            r == or_false(self.disable_tcp),
    {
        flag_or_false(self.disable_tcp)
    }

    /// Whether UDP is off.
    pub fn disable_udp(&self) -> (r: bool)
        ensures
            r == or_false(self.disable_udp),
    {
        flag_or_false(self.disable_udp)
    }

    /// Whether TLS is off.
    pub fn disable_tls(&self) -> (r: bool)
        ensures
            r == or_false(self.disable_tls),
    {
        flag_or_false(self.disable_tls)
    }

    /// Whether HTTPS is off.
    pub fn disable_https(&self) -> (r: bool)
        ensures
            r == or_false(self.disable_https),
    {
        flag_or_false(self.disable_https)
    }

    /// Whether QUIC is off.
    pub fn disable_quic(&self) -> (r: bool)
        ensures
            r == or_false(self.disable_quic),
    {
        flag_or_false(self.disable_quic)
    }

    /// Whether the metrics cannot be read.
    pub fn disable_prometheus(&self) -> (r: bool)
        ensures
            r == or_false(self.disable_prometheus),
    {
        flag_or_false(self.disable_prometheus)
    }

    /// How many seconds a TCP request may take before it is closed.
    pub fn tcp_request_timeout(&self) -> (r: u64)
        ensures
            r == match self.tcp_request_timeout {
                Some(secs) => secs,
                None => DEFAULT_TCP_REQUEST_TIMEOUT,
            },
    {
        match self.tcp_request_timeout {
            Some(secs) => secs,
            None => DEFAULT_TCP_REQUEST_TIMEOUT,
        }
    }

    /// How much is logged. Without a word about it warnings are, and what is
    /// worse; a word that names no level stands for `Info`.
    pub fn log_level(&self) -> (r: LogLevel)
        ensures
            r == match self.log_level {
                Some(level) => match level_text(level@) {
                    Some(l) => l,
                    None => LogLevel::Info,
                },
                None => LogLevel::Warn,
            },
            r == level_of(filtering::text_view(self.log_level)),
    {
        match &self.log_level {
            Some(level) => match read_level(level.as_str()) {
                Some(l) => l,
                None => LogLevel::Info,
            },
            None => LogLevel::Warn,
        }
    }

    /// The zones.
    pub fn zones(&self) -> (r: &[ZoneConfig])
        ensures
            r@ == self.zones@,
    {
        self.zones.as_slice()
    }

    /// The remote lists of rules.
    pub fn filters(&self) -> (r: &[FilterConfig])
        ensures
            r@ == self.filters@,
    {
        self.filters.as_slice()
    }

    /// The local rules.
    pub fn user_rules(&self) -> (r: &[String])
        ensures
            r@ == self.user_rules@,
    {
        self.user_rules.as_slice()
    }

    /// How blocked queries are answered, and rewrites.
    pub fn filtering(&self) -> (r: &FilteringConfig)
        ensures
            *r == self.filtering,
    {
        &self.filtering
    }

    /// Whether there is anything to compile rules from.
    pub open spec fn has_rules(self) -> bool {
        filtering::any_enabled(self.filters@) || self.user_rules@.len() > 0
            || self.filtering.rewrites@.len() > 0
    }

    /// What the rules are compiled from, if there is anything.
    pub fn adblock_runtime_config(&self) -> (r: Option<AdblockRuntimeConfig>)
        ensures
            match r {
                Some(config) => config@ == (AdblockView {
                    filters: filtering::filter_views(self.filters@),
                    user_rules: text::texts(self.user_rules@),
                    filtering: self.filtering@,
                }),
                None => true,
            },
            r is Some == (filtering::any_enabled(self.filters@) || self.user_rules@.len() > 0
                || self.filtering.rewrites@.len() > 0),
            r is Some == self.has_rules(),
    {
        let mut lan_hosts = LanHostsConfig::default();
        lan_hosts.enabled = false;
        if !filtering::is_adblock_enabled(
            self.filters.as_slice(),
            self.user_rules.as_slice(),
            &self.filtering,
            &lan_hosts,
        ) {
            return None;
        }
        Some(
            AdblockRuntimeConfig {
                filters: filtering::copied_filters(&self.filters),
                user_rules: filtering::copied_texts(&self.user_rules),
                filtering: self.filtering.clone(),
            },
        )
    }

    /// The servers of the short form, if it names any.
    pub open spec fn upstreams(self) -> Seq<UpstreamDnsConfig> {
        match self.dns {
            Some(dns) => dns.upstream_dns@,
            None => Seq::empty(),
        }
    }

    /// Turns the short form of forwarding into a zone. Both forms together
    /// are refused.
    pub fn normalize(self) -> (r: Result<Config, String>)
        ensures
            match r {
                Ok(config) => if self.upstreams().len() == 0 {
                    config == self
                } else {
                    self.zones@.len() == 0 && config.zones@.len() == 1 && is_root_forward(
                        config.zones@[0],
                        self.upstreams(),
                    ) && config == (Config { zones: config.zones, ..self })
                },
                Err(e) => self.upstreams().len() > 0 && if self.zones@.len() > 0 {
                    e@ == mixed_styles_text()
                } else {
                    upstream_list(self.upstreams()) == Err::<Seq<NameServerView>, Seq<char>>(e@)
                },
            },
            match r {
                Ok(config) => match short_form(self.zones@.len(), self.upstreams()) {
                    Ok(None) => config == self,
                    Ok(Some(_)) => config.zones@.len() == 1 && is_root_forward(
                        config.zones@[0],
                        self.upstreams(),
                    ),
                    Err(_) => false,
                },
                Err(e) => short_form(self.zones@.len(), self.upstreams()) == Err::<
                    Option<Seq<NameServerView>>,
                    Seq<char>,
                >(e@),
            },
    {
        let mut config = self;
        match &config.dns {
            None => Ok(config),
            Some(dns) => {
                if dns.upstream_dns.len() == 0 {
                    return Ok(config);
                }
                if config.zones.len() > 0 {
                    return Err(
                        "cannot configure both `zones` and `dns.upstream_dns`; use one style".to_owned(),
                    );
                }
                match ZoneConfig::root_forward(&dns.upstream_dns) {
                    Ok(zone) => {
                        config.zones = vec![zone];
                        Ok(config)
                    },
                    Err(e) => Err(e),
                }
            },
        }
    }
}

/// A server upstream as its address names it: behind `udp://`, `tcp://` or
/// nothing an address with a port, or one without for the default port.
pub open spec fn upstream_text(address: Seq<char>) -> Result<NameServerView, Seq<char>> {
    let (protocol, rest) = if ("udp://"@).is_prefix_of(address) {
        (Protocol::Udp, address.skip(6))
    } else if ("tcp://"@).is_prefix_of(address) {
        (Protocol::Tcp, address.skip(6))
    } else {
        (Protocol::Udp, address)
    };
    let socket_addr = match ip::socket_text(rest) {
        Some(addr) => Some(addr),
        None => match ip::ip_text(rest) {
            Some(ip) => Some(SocketAddr { ip, port: DEFAULT_PORT, scope_id: 0 }),
            None => None,
        },
    };
    match socket_addr {
        Some(socket_addr) => Ok(
            NameServerView {
                socket_addr,
                protocol,
                tls_dns_name: None,
                http_endpoint: None,
                trust_negative_responses: false,
                bind_addr: None,
            },
        ),
        None => Err(bad_upstream_text(rest)),
    }
}

/// The words about a text that is no address of a server.
pub open spec fn bad_upstream_text(address: Seq<char>) -> Seq<char> {
    "invalid upstream DNS address `"@ + address
        + "`; expected `IP`, `IP:PORT`, `udp://IP:PORT`, or `tcp://IP:PORT`"@
}

/// Reads the address of a server upstream.
pub fn parse_upstream_dns_address(address: &str) -> (r: Result<NameServerConfig, String>)
    ensures
        match r {
            Ok(server) => upstream_text(address@) == Ok::<NameServerView, Seq<char>>(server@),
            Err(e) => upstream_text(address@) == Err::<NameServerView, Seq<char>>(e@),
        },
{
    proof {
        reveal_strlit("udp://");
        reveal_strlit("tcp://");
    }
    let chars = text::chars_of(address);
    let udp = text::starts(&chars, "udp://");
    let tcp = text::starts(&chars, "tcp://");
    let (protocol, rest) = if udp {
        (Protocol::Udp, text::after(&chars, 6))
    } else if tcp {
        (Protocol::Tcp, text::after(&chars, 6))
    } else {
        (Protocol::Udp, chars.as_slice())
    };
    let socket_addr = match ip::read_socket(rest) {
        Some(addr) => addr,
        None => match ip::read_ip(rest) {
            Some(ip) => SocketAddr { ip, port: DEFAULT_PORT, scope_id: 0 },
            None => {
                let mut message = "invalid upstream DNS address `".to_owned();
                let shown = text::string_of(rest);
                message.append(shown.as_str());
                message.append("`; expected `IP`, `IP:PORT`, `udp://IP:PORT`, or `tcp://IP:PORT`");
                return Err(message);
            },
        },
    };
    Ok(
        NameServerConfig {
            socket_addr,
            protocol,
            tls_dns_name: None,
            http_endpoint: None,
            trust_negative_responses: false,
            bind_addr: None,
        },
    )
}

/// The server that an entry of the short form names.
pub open spec fn upstream_server(upstream: UpstreamDnsConfig) -> Result<
    NameServerView,
    Seq<char>,
> {
    match upstream {
        UpstreamDnsConfig::Address(address) => upstream_text(address@),
        UpstreamDnsConfig::Detailed(config) => Ok(config@),
    }
}

/// The servers that the entries name; the error of the first one that names
/// none.
pub open spec fn upstream_list(upstreams: Seq<UpstreamDnsConfig>) -> Result<
    Seq<NameServerView>,
    Seq<char>,
>
    decreases upstreams.len(),
{
    if upstreams.len() == 0 {
        Ok(Seq::empty())
    } else {
        match upstream_list(upstreams.drop_last()) {
            Err(e) => Err(e),
            Ok(list) => match upstream_server(upstreams.last()) {
                Ok(server) => Ok(list.push(server)),
                Err(e) => Err(e),
            },
        }
    }
}

proof fn lemma_upstream_list_err(upstreams: Seq<UpstreamDnsConfig>, i: int)
    requires
        0 <= i <= upstreams.len(),
        upstream_list(upstreams.take(i)) is Err,
    ensures
        upstream_list(upstreams) == upstream_list(upstreams.take(i)),
    decreases upstreams.len() - i,
{
    if i < upstreams.len() {
        assert(upstreams.take(i + 1).drop_last() =~= upstreams.take(i));
        lemma_upstream_list_err(upstreams, i + 1);
    } else {
        assert(upstreams.take(i) =~= upstreams);
    }
}

impl UpstreamDnsConfig {
    /// The server that the entry names.
    pub fn name_server_config(&self) -> (r: Result<NameServerConfig, String>)
        ensures
            match r {
                Ok(server) => upstream_server(*self) == Ok::<NameServerView, Seq<char>>(server@),
                Err(e) => upstream_server(*self) == Err::<NameServerView, Seq<char>>(e@),
            },
    {
        match self {
            UpstreamDnsConfig::Address(address) => parse_upstream_dns_address(address.as_str()),
            UpstreamDnsConfig::Detailed(config) => Ok(config.clone()),
        }
    }
}

/// What the short form comes to beside this many zones: nothing where it names
/// no servers, else the servers of a zone, unless there are zones already.
pub open spec fn short_form(zones: nat, upstreams: Seq<UpstreamDnsConfig>) -> Result<
    Option<Seq<NameServerView>>,
    Seq<char>,
> {
    if upstreams.len() == 0 {
        Ok(None)
    } else if zones > 0 {
        Err(mixed_styles_text())
    } else {
        match upstream_list(upstreams) {
            Ok(list) => Ok(Some(list)),
            Err(e) => Err(e),
        }
    }
}

/// Whether `zone` is the root and forwards everything to the servers that
/// `upstreams` name.
pub open spec fn is_root_forward(zone: ZoneConfig, upstreams: Seq<UpstreamDnsConfig>) -> bool {
    &&& zone.zone@ == "."@
    &&& match zone.zone_type_config {
        ZoneTypeConfig::External { stores } => stores@.len() == 1 && match stores@[0] {
            ExternalStoreConfig::Forward(forward) => upstream_list(upstreams) == Ok::<
                Seq<NameServerView>,
                Seq<char>,
            >(name_servers(forward.name_servers@)) && forward.options is None,
            ExternalStoreConfig::Default => false,
        },
    }
}

impl ZoneConfig {
    /// The root zone that forwards everything to the servers that `upstreams`
    /// name.
    pub fn root_forward(upstreams: &Vec<UpstreamDnsConfig>) -> (r: Result<ZoneConfig, String>)
        ensures
            match r {
                Ok(zone) => is_root_forward(zone, upstreams@),
                Err(e) => upstream_list(upstreams@) == Err::<Seq<NameServerView>, Seq<char>>(e@),
            },
    {
        let mut servers: Vec<NameServerConfig> = Vec::new();
        let mut i: usize = 0;
        proof {
            assert(upstreams@.take(0) =~= Seq::<UpstreamDnsConfig>::empty());
            assert(name_servers(servers@) =~= Seq::<NameServerView>::empty());
        }
        while i < upstreams.len()
            invariant
                i <= upstreams@.len(),
                upstream_list(upstreams@.take(i as int)) == Ok::<Seq<NameServerView>, Seq<char>>(
                    name_servers(servers@),
                ),
            decreases upstreams@.len() - i,
        {
            assert(upstreams@.take(i + 1).drop_last() =~= upstreams@.take(i as int));
            match upstreams[i].name_server_config() {
                Ok(server) => {
                    let ghost before = servers@;
                    let ghost said = server@;
                    servers.push(server);
                    assert(name_servers(servers@) =~= name_servers(before).push(said));
                },
                Err(e) => {
                    proof {
                        lemma_upstream_list_err(upstreams@, i + 1);
                    }
                    return Err(e);
                },
            }
            i = i + 1;
        }
        assert(upstreams@.take(upstreams@.len() as int) =~= upstreams@);
        Ok(
            ZoneConfig {
                zone: ".".to_owned(),
                zone_type_config: ZoneTypeConfig::External {
                    stores: vec![
                        ExternalStoreConfig::Forward(
                            ForwardConfig { name_servers: servers, options: None },
                        ),
                    ],
                },
            },
        )
    }

    /// The name of the zone.
    pub fn zone(&self) -> (r: Result<DomainName, String>)
        ensures
            match r {
                Ok(name) => name::name_parse(self.zone@) == Ok::<
                    (Seq<Seq<u8>>, bool),
                    Seq<char>,
                >((name.label_view(), name.is_full())) && name.is_full(),
                Err(e) => name::name_parse(self.zone@) == Err::<
                    (Seq<Seq<u8>>, bool),
                    Seq<char>,
                >(e@),
            },
            self.zone@ == "."@ ==> r is Ok && r->Ok_0.label_view().len() == 0,
    {
        name::parse_name(self.zone.as_str())
    }

    /// The type of the zone.
    pub fn zone_type(&self) -> (r: ZoneType)
        ensures
            r == match self.zone_type_config {
                ZoneTypeConfig::External { .. } => ZoneType::External,
            },
    {
        match &self.zone_type_config {
            ZoneTypeConfig::External { .. } => ZoneType::External,
        }
    }

    /// The stores of the zone.
    pub open spec fn stores(self) -> Seq<ExternalStoreConfig> {
        match self.zone_type_config {
            ZoneTypeConfig::External { stores } => stores@,
        }
    }

    /// How many of the stores forward.
    pub fn forward_stores(&self) -> (r: usize)
        ensures
            r == self.stores().filter(|s: ExternalStoreConfig| s is Forward).len(),
    {
        let ghost forwards = |s: ExternalStoreConfig| s is Forward;
        let ghost all = self.stores();
        match &self.zone_type_config {
            ZoneTypeConfig::External { stores } => {
                let mut count: usize = 0;
                let mut i: usize = 0;
                proof {
                    reveal(Seq::filter);
                    assert(all.take(0).filter(forwards).len() == 0);
                }
                while i < stores.len()
                    invariant
                        i <= stores@.len(),
                        all == stores@,
                        count <= i,
                        forwards == (|s: ExternalStoreConfig| s is Forward),
                        count == all.take(i as int).filter(forwards).len(),
                    decreases stores@.len() - i,
                {
                    proof {
                        reveal(Seq::filter);
                        assert(all.take(i + 1).drop_last() =~= all.take(i as int));
                    }
                    match &stores[i] {
                        ExternalStoreConfig::Forward(_) => {
                            count = count + 1;
                        },
                        ExternalStoreConfig::Default => {},
                    }
                    i = i + 1;
                }
                assert(all.take(all.len() as int) =~= all);
                count
            },
        }
    }
}

/// The words about a zone without a store.
pub open spec fn empty_stores_text() -> Seq<char> {
    "empty [[zones.stores]] in config"@
}

/// The error of a zone without a store.
pub fn empty_stores_error<T>() -> (r: Result<T, String>)
    ensures
        r matches Err(e) && e@ == empty_stores_text(),
{
    Err("empty [[zones.stores]] in config".to_owned())
}

impl Default for ExternalStoreConfig {
    fn default() -> (r: ExternalStoreConfig)
        ensures
            r is Default,
    {
        ExternalStoreConfig::Default
    }
}

/// The stores of a zone that names none: one, of the default kind.
pub fn store_config_default<S: Default>() -> (r: Vec<S>)
    ensures
        r@.len() == 1,
        call_ensures(S::default, (), r@[0]),
{
    let store = S::default();
    let r = vec![store];
    r
}

} // verus!
