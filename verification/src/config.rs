//! What a configuration holds, what it defaults to and which configurations
//! are refused, with which words.
use crate::net::{IpAddr, Ipv6Addr, SocketAddr};
use crate::number::Number;
use crate::text;
use crate::text::{parse_port, starts_with, to_decimal};
use crate::time::Duration;
use vstd::prelude::*;

verus! {

/// The largest number of workers that a listener may ask for.
pub const MAX_WORKERS: u16 = 1024;

/// Why there is no configuration.
#[derive(Debug)]
pub enum ConfigError {
    /// The file could not be read; with what the system said.
    ReadFile(String),
    /// The text could not be parsed; with what the parser said.
    Parse(String),
    /// It was parsed and refused; with what is wrong.
    Validation(String),
}

impl ConfigError {
    pub open spec fn text(self) -> Seq<char> {
        match self {
            ConfigError::ReadFile(e) => "failed to read config file: "@ + e@,
            ConfigError::Parse(e) => "failed to parse config: "@ + e@,
            ConfigError::Validation(e) => "validation error: "@ + e@,
        }
    }

    /// The error in words.
    pub fn message(&self) -> (m: String)
        ensures
            m@ == self.text(),
    {
        match self {
            ConfigError::ReadFile(e) => "failed to read config file: ".to_string().concat(
                e.as_str(),
            ),
            ConfigError::Parse(e) => "failed to parse config: ".to_string().concat(e.as_str()),
            ConfigError::Validation(e) => "validation error: ".to_string().concat(e.as_str()),
        }
    }
}

/// A text that should name an address and a port. `literal` is how it reads
/// as an IP address with a port, or why it does not.
#[derive(Debug)]
pub struct AddressText {
    pub text: String,
    pub literal: Result<SocketAddr, String>,
}

impl Clone for AddressText {
    fn clone(&self) -> (c: AddressText)
        ensures
            c.text@ == self.text@,
            address_of(c) == address_of(*self),
    {
        let literal = match &self.literal {
            Ok(a) => Ok(*a),
            Err(e) => Err(e.clone()),
        };
        AddressText { text: self.text.clone(), literal }
    }
}

/// A text that should name an IP address, with how it reads or why it does
/// not.
#[derive(Debug)]
pub struct IpText {
    pub text: String,
    pub value: Result<IpAddr, String>,
}

impl Clone for IpText {
    fn clone(&self) -> (c: IpText)
        ensures
            c.text@ == self.text@,
            match self.value {
                Ok(ip) => c.value == Ok::<IpAddr, String>(ip),
                Err(e) => c.value matches Err(m) && m@ == e@,
            },
    {
        let value = match &self.value {
            Ok(ip) => Ok(*ip),
            Err(e) => Err(e.clone()),
        };
        IpText { text: self.text.clone(), value }
    }
}

/// A number, with its usual notation.
#[derive(Debug, Clone)]
pub struct Quantity {
    pub value: Number,
    pub text: String,
}

/// How a backend is chosen.
#[derive(Debug, Clone, Copy, PartialEq, Eq, Structural)]
pub enum Algorithm {
    Wrr,
    Rh,
    Maglev,
}

impl Default for Algorithm {
    fn default() -> (a: Algorithm)
        ensures
            a == Algorithm::Wrr,
    {
        Algorithm::Wrr
    }
}

/// How a listener reads its packets: one socket, or one per worker.
#[derive(Debug, Clone, Copy, PartialEq, Eq, Structural)]
pub enum ListenerMode {
    Standard,
    Batch,
}

impl Default for ListenerMode {
    fn default() -> (m: ListenerMode)
        ensures
            m == ListenerMode::Batch,
    {
        ListenerMode::Batch
    }
}

/// A part of the key that flows are hashed by.
#[derive(Debug, Clone, Copy, PartialEq, Eq, Structural)]
pub enum HashKeyField {
    SrcIp,
    DstIp,
    SrcPort,
    DstPort,
    Ipfix,
    IpfixTemplateId,
}

#[derive(Debug, Clone)]
pub struct Config {
    pub status: AddressText,
    pub servers: Vec<ServerConfig>,
}

#[derive(Debug, Clone)]
pub struct ServerConfig {
    pub address: AddressText,
    pub listener_mode: ListenerMode,
    pub listener_workers: u16,
    pub balancer: Option<BalancerConfig>,
    pub mirror: Option<MirrorSectionConfig>,
}

#[derive(Debug, Clone)]
pub struct MirrorSectionConfig {
    pub targets: Vec<MirrorConfig>,
}

#[derive(Debug, Clone)]
pub struct BalancerConfig {
    pub algorithm: Algorithm,
    pub hash_key: Vec<HashKeyField>,
    pub proxy_timeout: Duration,
    pub backends: Vec<BackendConfig>,
}

#[derive(Debug, Clone)]
pub struct BackendConfig {
    pub address: AddressText,
    pub weight: Quantity,
    pub preserve_src_address: bool,
    pub source_address: Option<IpText>,
    pub fallback_source_address: Option<IpText>,
    pub healthcheck: Option<HealthCheckConfig>,
}

#[derive(Debug, Clone)]
pub struct HealthCheckConfig {
    pub url: String,
    pub interval: Duration,
    pub timeout: Duration,
}

#[derive(Debug, Clone)]
pub struct MirrorConfig {
    pub address: AddressText,
    pub preserve_src_address: bool,
    pub source_address: Option<IpText>,
    pub fallback_source_address: Option<IpText>,
    pub probability: Quantity,
}

pub fn default_status_addr() -> (t: String)
    ensures
        t@ == ":8989"@,
{
    ":8989".to_string()
}

pub fn default_hash_key() -> (k: Vec<HashKeyField>)
    ensures
        k@ == seq![
            HashKeyField::SrcIp,
            HashKeyField::DstIp,
            HashKeyField::SrcPort,
            HashKeyField::DstPort,
        ],
{
    vec![HashKeyField::SrcIp, HashKeyField::DstIp, HashKeyField::SrcPort, HashKeyField::DstPort]
}

/// A copy of the fields of a key.
pub(crate) fn copy_hash_key(fields: &[HashKeyField]) -> (v: Vec<HashKeyField>)
    ensures
        v@ == fields@,
{
    let mut v: Vec<HashKeyField> = Vec::new();
    let mut i: usize = 0;
    while i < fields.len()
        invariant
            i <= fields@.len(),
            v@ == fields@.take(i as int),
        decreases fields@.len() - i,
    {
        v.push(fields[i]);
        assert(fields@.take(i + 1) =~= fields@.take(i as int).push(fields@[i as int]));
        i = i + 1;
    }
    assert(fields@.take(i as int) =~= fields@);
    v
}

pub fn default_proxy_timeout() -> (d: Duration)
    ensures
        d == Duration::of_secs(30),
{
    Duration::from_secs(30)
}

pub fn default_weight() -> (w: Number)
    ensures
        w == Number::unit(),
{
    Number::one()
}

pub fn default_check_interval() -> (d: Duration)
    ensures
        d == Duration::of_secs(5),
{
    Duration::from_secs(5)
}

pub fn default_check_timeout() -> (d: Duration)
    ensures
        d == Duration::of_secs(2),
{
    Duration::from_secs(2)
}

pub fn default_probability() -> (p: Number)
    ensures
        p == Number::unit(),
{
    Number::one()
}

/// The IPv6 address that stands for any.
pub open spec fn unspecified() -> IpAddr {
    IpAddr::V6(Ipv6Addr { octets: [0, 0, 0, 0, 0, 0, 0, 0, 0, 0, 0, 0, 0, 0, 0, 0] })
}

/// The address that a text stands for. A colon and a port is that port on
/// every address, of either family; anything else is an address with a port.
pub open spec fn address_of(a: AddressText) -> Result<SocketAddr, Seq<char>> {
    if a.text@.len() > 0 && a.text@[0] == ':' {
        match text::port_of(a.text@.skip(1)) {
            Ok(port) => Ok(SocketAddr::of(unspecified(), port as u16)),
            Err(e) => Err("invalid port: "@ + e.text()),
        }
    } else {
        match a.literal {
            Ok(address) => Ok(address),
            Err(e) => Err("invalid address: "@ + e@),
        }
    }
}

/// Reads an address.
pub fn parse_address(addr: &AddressText) -> (r: Result<SocketAddr, String>)
    ensures
        match address_of(*addr) {
            Ok(a) => r == Ok::<SocketAddr, String>(a),
            Err(e) => r matches Err(m) && m@ == e,
        },
{
    let t = addr.text.as_str();
    let len: usize = t.unicode_len();
    if len > 0 && t.get_char(0) == ':' {
        let rest = t.substring_char(1, len);
        assert(rest@ =~= addr.text@.skip(1));
        match parse_port(rest) {
            Ok(port) => {
                let any = Ipv6Addr { octets: [0, 0, 0, 0, 0, 0, 0, 0, 0, 0, 0, 0, 0, 0, 0, 0] };
                Ok(SocketAddr::new(IpAddr::V6(any), port))
            },
            Err(e) => Err("invalid port: ".to_string().concat(e.message().as_str())),
        }
    } else {
        match &addr.literal {
            Ok(a) => Ok(*a),
            Err(e) => Err("invalid address: ".to_string().concat(e.as_str())),
        }
    }
}

/// Reads an address.
pub fn parse_socket_addr(addr: &AddressText) -> (r: Result<SocketAddr, String>)
    ensures
        match address_of(*addr) {
            Ok(a) => r == Ok::<SocketAddr, String>(a),
            Err(e) => r matches Err(m) && m@ == e,
        },
{
    parse_address(addr)
}

pub open spec fn server_place(i: int) -> Seq<char> {
    "server["@ + text::decimal(i as nat) + "]"@
}

pub open spec fn backend_place(i: int, j: int) -> Seq<char> {
    server_place(i) + ".backend["@ + text::decimal(j as nat) + "]"@
}

pub open spec fn mirror_place(i: int, j: int) -> Seq<char> {
    server_place(i) + ".mirror.targets["@ + text::decimal(j as nat) + "]"@
}

/// What is wrong with a text as the address of `place`.
pub open spec fn address_problem(place: Seq<char>, a: AddressText) -> Option<Seq<char>> {
    match address_of(a) {
        Ok(_) => None,
        Err(e) => Some(place + ": invalid address '"@ + a.text@ + "': "@ + e),
    }
}

/// What is wrong with an address to fall back on.
pub open spec fn fallback_problem(place: Seq<char>, preserve: bool, fallback: IpText) -> Option<
    Seq<char>,
> {
    if !preserve {
        Some(place + ": fallback_source_address requires preserve_src_address"@)
    } else {
        match fallback.value {
            Err(e) => Some(
                place + ": invalid fallback_source_address '"@ + fallback.text@ + "': "@ + e@,
            ),
            Ok(ip) => if ip is V6 {
                Some(place + ": fallback_source_address must be IPv4"@)
            } else {
                None
            },
        }
    }
}

/// What is wrong with a fixed source towards `address`. `noun` is what is
/// there. IPv4 towards IPv6 is mapped; IPv6 towards IPv4 cannot be.
pub open spec fn source_problem(
    place: Seq<char>,
    source: IpText,
    address: SocketAddr,
    noun: Seq<char>,
) -> Option<Seq<char>> {
    match source.value {
        Err(e) => Some(place + ": invalid source_address '"@ + source.text@ + "': "@ + e@),
        Ok(ip) => if ip is V6 && address.ip is V4 {
            Some(place + ": IPv6 source_address cannot be used with IPv4 "@ + noun)
        } else {
            None
        },
    }
}

/// What is wrong with the source addresses of a backend or a mirror.
pub open spec fn sources_problem(
    place: Seq<char>,
    preserve: bool,
    source: Option<IpText>,
    fallback: Option<IpText>,
    address: SocketAddr,
    noun: Seq<char>,
) -> Option<Seq<char>> {
    if preserve && source is Some {
        Some(place + ": cannot use both preserve_src_address and source_address"@)
    } else if fallback is Some && fallback_problem(place, preserve, fallback->0) is Some {
        fallback_problem(place, preserve, fallback->0)
    } else if source is Some {
        source_problem(place, source->0, address, noun)
    } else {
        None
    }
}

/// What is wrong with a health check.
pub open spec fn healthcheck_problem(place: Seq<char>, check: HealthCheckConfig) -> Option<
    Seq<char>,
> {
    if !"http://"@.is_prefix_of(check.url@) && !"https://"@.is_prefix_of(check.url@) {
        Some(place + ": healthcheck.url must start with http:// or https://"@)
    } else if check.interval.nanos == 0 {
        Some(place + ": healthcheck.interval must be greater than 0"@)
    } else if check.timeout.nanos == 0 {
        Some(place + ": healthcheck.timeout must be greater than 0"@)
    } else {
        None
    }
}

/// The first thing that is wrong with a backend.
pub open spec fn backend_problem(b: BackendConfig, i: int, j: int) -> Option<Seq<char>> {
    let place = backend_place(i, j);
    if address_problem(place, b.address) is Some {
        address_problem(place, b.address)
    } else if !Number::nought().below(b.weight.value) {
        Some(place + ": weight must be positive, got "@ + b.weight.text@)
    } else {
        let sources = sources_problem(
            place,
            b.preserve_src_address,
            b.source_address,
            b.fallback_source_address,
            address_of(b.address)->Ok_0,
            "backend"@,
        );
        if sources is Some {
            sources
        } else if b.healthcheck is Some {
            healthcheck_problem(place, b.healthcheck->0)
        } else {
            None
        }
    }
}

/// The first thing that is wrong with a mirror.
pub open spec fn mirror_problem(m: MirrorConfig, i: int, j: int) -> Option<Seq<char>> {
    let place = mirror_place(i, j);
    if address_problem(place, m.address) is Some {
        address_problem(place, m.address)
    } else if !(Number::nought().at_most(m.probability.value) && m.probability.value.at_most(
        Number::unit(),
    )) {
        Some(place + ": probability must be between 0.0 and 1.0, got "@ + m.probability.text@)
    } else {
        sources_problem(
            place,
            m.preserve_src_address,
            m.source_address,
            m.fallback_source_address,
            address_of(m.address)->Ok_0,
            "mirror"@,
        )
    }
}

/// The first thing that is wrong with a backend at `j` or after it.
pub open spec fn backends_problem(backends: Seq<BackendConfig>, i: int, j: int) -> Option<
    Seq<char>,
>
    decreases backends.len() - j,
{
    if j < 0 || j >= backends.len() {
        None
    } else if backend_problem(backends[j], i, j) is Some {
        backend_problem(backends[j], i, j)
    } else {
        backends_problem(backends, i, j + 1)
    }
}

/// The first thing that is wrong with a mirror at `j` or after it.
pub open spec fn mirrors_problem(mirrors: Seq<MirrorConfig>, i: int, j: int) -> Option<Seq<char>>
    decreases mirrors.len() - j,
{
    if j < 0 || j >= mirrors.len() {
        None
    } else if mirror_problem(mirrors[j], i, j) is Some {
        mirror_problem(mirrors[j], i, j)
    } else {
        mirrors_problem(mirrors, i, j + 1)
    }
}

/// The name of an algorithm that needs a key.
pub open spec fn algorithm_name(a: Algorithm) -> Seq<char> {
    match a {
        Algorithm::Rh => "rh"@,
        Algorithm::Maglev => "maglev"@,
        Algorithm::Wrr => "wrr"@,
    }
}

/// The first thing that is wrong with a balancer.
pub open spec fn balancer_problem(b: BalancerConfig, i: int) -> Option<Seq<char>> {
    if b.backends@.len() == 0 {
        Some(server_place(i) + ": balancer must have at least one backend"@)
    } else if b.algorithm != Algorithm::Wrr && b.hash_key@.len() == 0 {
        Some(
            server_place(i) + ": "@ + algorithm_name(b.algorithm)
                + " algorithm requires at least one hash_key field"@,
        )
    } else if b.proxy_timeout.nanos == 0 {
        Some(server_place(i) + ": proxy_timeout must be greater than 0"@)
    } else {
        backends_problem(b.backends@, i, 0)
    }
}

/// The first thing that is wrong with a server.
pub open spec fn server_problem(s: ServerConfig, i: int) -> Option<Seq<char>> {
    let place = server_place(i);
    if address_problem(place, s.address) is Some {
        address_problem(place, s.address)
    } else if s.listener_workers > MAX_WORKERS {
        Some(
            place + ": listener_workers must be 0-1024, got "@ + text::decimal(
                s.listener_workers as nat,
            ),
        )
    } else if s.balancer is None && (s.mirror is None || s.mirror->0.targets@.len() == 0) {
        Some(place + ": must have at least one balancer or mirror"@)
    } else if s.balancer is Some && balancer_problem(s.balancer->0, i) is Some {
        balancer_problem(s.balancer->0, i)
    } else if s.mirror is Some {
        mirrors_problem(s.mirror->0.targets@, i, 0)
    } else {
        None
    }
}

/// The first thing that is wrong with a server at `i` or after it.
pub open spec fn servers_problem(servers: Seq<ServerConfig>, i: int) -> Option<Seq<char>>
    decreases servers.len() - i,
{
    if i < 0 || i >= servers.len() {
        None
    } else if server_problem(servers[i], i) is Some {
        server_problem(servers[i], i)
    } else {
        servers_problem(servers, i + 1)
    }
}

/// What is wrong with a text as the address of the status server.
pub open spec fn status_problem(a: AddressText) -> Option<Seq<char>> {
    match address_of(a) {
        Ok(_) => None,
        Err(e) => Some("invalid status address '"@ + a.text@ + "': "@ + e),
    }
}

/// The first thing that is wrong with a configuration.
pub open spec fn config_problem(c: Config) -> Option<Seq<char>> {
    if status_problem(c.status) is Some {
        status_problem(c.status)
    } else {
        servers_problem(c.servers@, 0)
    }
}

/// A verdict says no more and no less than what is wrong.
pub open spec fn verdict(r: Result<(), ConfigError>, problem: Option<Seq<char>>) -> bool {
    match problem {
        None => r is Ok,
        Some(p) => r matches Err(ConfigError::Validation(m)) && m@ == p,
    }
}

fn refuse(place: &String, words: &str) -> (r: Result<(), ConfigError>)
    ensures
        verdict(r, Some(place@ + words@)),
{
    Err(ConfigError::Validation(place.clone().concat(words)))
}

fn server_name(index: usize) -> (t: String)
    ensures
        t@ == server_place(index as int),
{
    "server[".to_string().concat(to_decimal(index as u64).as_str()).concat("]")
}

fn validate_address(place: &String, addr: &AddressText) -> (r: Result<(), ConfigError>)
    ensures
        verdict(r, address_problem(place@, *addr)),
{
    match parse_address(addr) {
        Ok(_) => Ok(()),
        Err(e) => Err(
            ConfigError::Validation(
                place.clone().concat(": invalid address '").concat(addr.text.as_str()).concat(
                    "': ",
                ).concat(e.as_str()),
            ),
        ),
    }
}

fn validate_fallback(place: &String, preserve: bool, fallback: &IpText) -> (r: Result<
    (),
    ConfigError,
>)
    ensures
        verdict(r, fallback_problem(place@, preserve, *fallback)),
{
    if !preserve {
        return refuse(place, ": fallback_source_address requires preserve_src_address");
    }
    match &fallback.value {
        Err(e) => Err(
            ConfigError::Validation(
                place.clone().concat(": invalid fallback_source_address '").concat(
                    fallback.text.as_str(),
                ).concat("': ").concat(e.as_str()),
            ),
        ),
        Ok(ip) => if ip.is_ipv6() {
            refuse(place, ": fallback_source_address must be IPv4")
        } else {
            Ok(())
        },
    }
}

fn validate_source(place: &String, source: &IpText, address: SocketAddr, noun: &str) -> (r: Result<
    (),
    ConfigError,
>)
    ensures
        verdict(r, source_problem(place@, *source, address, noun@)),
{
    match &source.value {
        Err(e) => Err(
            ConfigError::Validation(
                place.clone().concat(": invalid source_address '").concat(
                    source.text.as_str(),
                ).concat("': ").concat(e.as_str()),
            ),
        ),
        Ok(ip) => if ip.is_ipv6() && address.is_ipv4() {
            Err(
                ConfigError::Validation(
                    place.clone().concat(": IPv6 source_address cannot be used with IPv4 ").concat(
                        noun,
                    ),
                ),
            )
        } else {
            Ok(())
        },
    }
}

fn validate_sources(
    place: &String,
    preserve: bool,
    source: &Option<IpText>,
    fallback: &Option<IpText>,
    address: SocketAddr,
    noun: &str,
) -> (r: Result<(), ConfigError>)
    ensures
        verdict(r, sources_problem(place@, preserve, *source, *fallback, address, noun@)),
{
    if preserve && source.is_some() {
        return refuse(place, ": cannot use both preserve_src_address and source_address");
    }
    if let Some(fallback) = fallback {
        let v = validate_fallback(place, preserve, fallback);
        if v.is_err() {
            return v;
        }
    }
    match source {
        Some(source) => validate_source(place, source, address, noun),
        None => Ok(()),
    }
}

fn validate_healthcheck(place: &String, check: &HealthCheckConfig) -> (r: Result<(), ConfigError>)
    ensures
        verdict(r, healthcheck_problem(place@, *check)),
{
    if !starts_with(check.url.as_str(), "http://") && !starts_with(check.url.as_str(), "https://") {
        return refuse(place, ": healthcheck.url must start with http:// or https://");
    }
    if check.interval.is_zero() {
        return refuse(place, ": healthcheck.interval must be greater than 0");
    }
    if check.timeout.is_zero() {
        return refuse(place, ": healthcheck.timeout must be greater than 0");
    }
    Ok(())
}

impl Config {
    /// The configuration in a file, from what reading and then parsing it
    /// gave.
    pub fn from_file(content: Result<Result<Config, String>, String>) -> (r: Result<
        Config,
        ConfigError,
    >)
        ensures
            match content {
                Err(e) => r == Err::<Config, ConfigError>(ConfigError::ReadFile(e)),
                Ok(Err(e)) => r == Err::<Config, ConfigError>(ConfigError::Parse(e)),
                Ok(Ok(c)) => match config_problem(c) {
                    None => r == Ok::<Config, ConfigError>(c),
                    Some(p) => r matches Err(ConfigError::Validation(m)) && m@ == p,
                },
            },
    {
        match content {
            Err(e) => Err(ConfigError::ReadFile(e)),
            Ok(parsed) => Config::from_str(parsed),
        }
    }

    /// The configuration in a text, from what parsing it gave.
    pub fn from_str(parsed: Result<Config, String>) -> (r: Result<Config, ConfigError>)
        ensures
            match parsed {
                Err(e) => r == Err::<Config, ConfigError>(ConfigError::Parse(e)),
                Ok(c) => match config_problem(c) {
                    None => r == Ok::<Config, ConfigError>(c),
                    Some(p) => r matches Err(ConfigError::Validation(m)) && m@ == p,
                },
            },
    {
        match parsed {
            Err(e) => Err(ConfigError::Parse(e)),
            Ok(config) => match config.validate() {
                Ok(()) => Ok(config),
                Err(e) => Err(e),
            },
        }
    }

    /// Refuses a configuration that cannot be run.
    pub fn validate(&self) -> (r: Result<(), ConfigError>)
        ensures
            verdict(r, config_problem(*self)),
    {
        let v = self.validate_status_addr();
        if v.is_err() {
            return v;
        }
        let mut i: usize = 0;
        while i < self.servers.len()
            invariant
                i <= self.servers@.len(),
                config_problem(*self) == servers_problem(self.servers@, i as int),
            decreases self.servers@.len() - i,
        {
            let v = self.validate_server(&self.servers[i], i);
            if v.is_err() {
                return v;
            }
            i = i + 1;
        }
        Ok(())
    }

    fn validate_status_addr(&self) -> (r: Result<(), ConfigError>)
        ensures
            verdict(r, status_problem(self.status)),
    {
        match parse_address(&self.status) {
            Ok(_) => Ok(()),
            Err(e) => Err(
                ConfigError::Validation(
                    "invalid status address '".to_string().concat(
                        self.status.text.as_str(),
                    ).concat("': ").concat(e.as_str()),
                ),
            ),
        }
    }

    fn validate_server(&self, server: &ServerConfig, index: usize) -> (r: Result<(), ConfigError>)
        ensures
            verdict(r, server_problem(*server, index as int)),
    {
        let place = server_name(index);
        let v = validate_address(&place, &server.address);
        if v.is_err() {
            return v;
        }
        if server.listener_workers > MAX_WORKERS {
            return Err(
                ConfigError::Validation(
                    place.concat(": listener_workers must be 0-1024, got ").concat(
                        to_decimal(server.listener_workers as u64).as_str(),
                    ),
                ),
            );
        }
        let has_mirror = match &server.mirror {
            Some(section) => section.targets.len() > 0,
            None => false,
        };
        if server.balancer.is_none() && !has_mirror {
            return refuse(&place, ": must have at least one balancer or mirror");
        }
        if let Some(balancer) = &server.balancer {
            let v = self.validate_balancer(balancer, index);
            if v.is_err() {
                return v;
            }
        }
        if let Some(section) = &server.mirror {
            let mut j: usize = 0;
            while j < section.targets.len()
                invariant
                    j <= section.targets@.len(),
                    server_problem(*server, index as int) == mirrors_problem(
                        section.targets@,
                        index as int,
                        j as int,
                    ),
                decreases section.targets@.len() - j,
            {
                let v = self.validate_mirror(&section.targets[j], index, j);
                if v.is_err() {
                    return v;
                }
                j = j + 1;
            }
        }
        Ok(())
    }

    fn validate_balancer(&self, balancer: &BalancerConfig, index: usize) -> (r: Result<
        (),
        ConfigError,
    >)
        ensures
            verdict(r, balancer_problem(*balancer, index as int)),
    {
        let place = server_name(index);
        if balancer.backends.len() == 0 {
            return refuse(&place, ": balancer must have at least one backend");
        }
        if balancer.algorithm != Algorithm::Wrr && balancer.hash_key.len() == 0 {
            let name = match balancer.algorithm {
                Algorithm::Rh => "rh",
                Algorithm::Maglev => "maglev",
                Algorithm::Wrr => "wrr",
            };
            return Err(
                ConfigError::Validation(
                    place.concat(": ").concat(name).concat(
                        " algorithm requires at least one hash_key field",
                    ),
                ),
            );
        }
        if balancer.proxy_timeout.is_zero() {
            return refuse(&place, ": proxy_timeout must be greater than 0");
        }
        let mut j: usize = 0;
        while j < balancer.backends.len()
            invariant
                j <= balancer.backends@.len(),
                balancer_problem(*balancer, index as int) == backends_problem(
                    balancer.backends@,
                    index as int,
                    j as int,
                ),
            decreases balancer.backends@.len() - j,
        {
            let v = self.validate_backend(&balancer.backends[j], index, j);
            if v.is_err() {
                return v;
            }
            j = j + 1;
        }
        Ok(())
    }

    fn validate_backend(
        &self,
        backend: &BackendConfig,
        server_index: usize,
        backend_index: usize,
    ) -> (r: Result<(), ConfigError>)
        ensures
            verdict(r, backend_problem(*backend, server_index as int, backend_index as int)),
    {
        let place = server_name(server_index).concat(".backend[").concat(
            to_decimal(backend_index as u64).as_str(),
        ).concat("]");
        let v = validate_address(&place, &backend.address);
        if v.is_err() {
            return v;
        }
        if !Number::zero().is_below(backend.weight.value) {
            return Err(
                ConfigError::Validation(
                    place.concat(": weight must be positive, got ").concat(
                        backend.weight.text.as_str(),
                    ),
                ),
            );
        }
        if let Ok(address) = parse_address(&backend.address) {
            let v = validate_sources(
                &place,
                backend.preserve_src_address,
                &backend.source_address,
                &backend.fallback_source_address,
                address,
                "backend",
            );
            if v.is_err() {
                return v;
            }
        }
        match &backend.healthcheck {
            Some(healthcheck) => validate_healthcheck(&place, healthcheck),
            None => Ok(()),
        }
    }

    fn validate_mirror(&self, mirror: &MirrorConfig, server_index: usize, mirror_index: usize) -> (r:
        Result<(), ConfigError>)
        ensures
            verdict(r, mirror_problem(*mirror, server_index as int, mirror_index as int)),
    {
        let place = server_name(server_index).concat(".mirror.targets[").concat(
            to_decimal(mirror_index as u64).as_str(),
        ).concat("]");
        let v = validate_address(&place, &mirror.address);
        if v.is_err() {
            return v;
        }
        if !(Number::zero().is_at_most(mirror.probability.value)
            && mirror.probability.value.is_at_most(Number::one())) {
            return Err(
                ConfigError::Validation(
                    place.concat(": probability must be between 0.0 and 1.0, got ").concat(
                        mirror.probability.text.as_str(),
                    ),
                ),
            );
        }
        match parse_address(&mirror.address) {
            Ok(address) => validate_sources(
                &place,
                mirror.preserve_src_address,
                &mirror.source_address,
                &mirror.fallback_source_address,
                address,
                "mirror",
            ),
            Err(_) => Ok(()),
        }
    }
}

/// The sources can be used towards the address: not both kinds at once, a
/// fallback only to a kept source and only IPv4, and no IPv6 towards IPv4.
pub open spec fn sources_ok(
    preserve: bool,
    source: Option<IpText>,
    fallback: Option<IpText>,
    address: SocketAddr,
) -> bool {
    &&& !(preserve && source is Some)
    &&& fallback matches Some(f) ==> preserve && (f.value matches Ok(ip) && ip is V4)
    &&& source matches Some(s) ==> (s.value matches Ok(ip) && (ip is V4 || address.ip is V6))
}

pub open spec fn healthcheck_ok(check: HealthCheckConfig) -> bool {
    &&& "http://"@.is_prefix_of(check.url@) || "https://"@.is_prefix_of(check.url@)
    &&& check.interval.nanos > 0
    &&& check.timeout.nanos > 0
}

pub open spec fn backend_ok(b: BackendConfig) -> bool {
    &&& address_of(b.address) matches Ok(address) && sources_ok(
        b.preserve_src_address,
        b.source_address,
        b.fallback_source_address,
        address,
    )
    &&& Number::nought().below(b.weight.value)
    &&& b.healthcheck matches Some(check) ==> healthcheck_ok(check)
}

pub open spec fn mirror_ok(m: MirrorConfig) -> bool {
    &&& address_of(m.address) matches Ok(address) && sources_ok(
        m.preserve_src_address,
        m.source_address,
        m.fallback_source_address,
        address,
    )
    &&& Number::nought().at_most(m.probability.value)
    &&& m.probability.value.at_most(Number::unit())
}

pub open spec fn balancer_ok(b: BalancerConfig) -> bool {
    &&& b.backends@.len() > 0
    &&& b.algorithm != Algorithm::Wrr ==> b.hash_key@.len() > 0
    &&& b.proxy_timeout.nanos > 0
    &&& forall|j: int| 0 <= j < b.backends@.len() ==> backend_ok(#[trigger] b.backends@[j])
}

pub open spec fn server_ok(s: ServerConfig) -> bool {
    &&& address_of(s.address) is Ok
    &&& s.listener_workers <= MAX_WORKERS
    &&& s.balancer is Some || (s.mirror matches Some(m) && m.targets@.len() > 0)
    &&& s.balancer matches Some(b) ==> balancer_ok(b)
    &&& s.mirror matches Some(m) ==> forall|j: int|
        0 <= j < m.targets@.len() ==> mirror_ok(#[trigger] m.targets@[j])
}

pub open spec fn config_ok(c: Config) -> bool {
    &&& address_of(c.status) is Ok
    &&& forall|i: int| 0 <= i < c.servers@.len() ==> server_ok(#[trigger] c.servers@[i])
}

proof fn lemma_backends(backends: Seq<BackendConfig>, i: int, j: int)
    requires
        0 <= j <= backends.len(),
    ensures
        backends_problem(backends, i, j) is None <==> forall|k: int|
            j <= k < backends.len() ==> backend_ok(#[trigger] backends[k]),
    decreases backends.len() - j,
{
    if j < backends.len() {
        lemma_backends(backends, i, j + 1);
        assert(backend_problem(backends[j], i, j) is None <==> backend_ok(backends[j]));
    }
}

proof fn lemma_mirrors(mirrors: Seq<MirrorConfig>, i: int, j: int)
    requires
        0 <= j <= mirrors.len(),
    ensures
        mirrors_problem(mirrors, i, j) is None <==> forall|k: int|
            j <= k < mirrors.len() ==> mirror_ok(#[trigger] mirrors[k]),
    decreases mirrors.len() - j,
{
    if j < mirrors.len() {
        lemma_mirrors(mirrors, i, j + 1);
        assert(mirror_problem(mirrors[j], i, j) is None <==> mirror_ok(mirrors[j]));
    }
}

proof fn lemma_server(s: ServerConfig, i: int)
    ensures
        server_problem(s, i) is None <==> server_ok(s),
{
    if s.balancer is Some {
        lemma_backends(s.balancer->0.backends@, i, 0);
    }
    if s.mirror is Some {
        lemma_mirrors(s.mirror->0.targets@, i, 0);
    }
}

proof fn lemma_servers(servers: Seq<ServerConfig>, i: int)
    requires
        0 <= i <= servers.len(),
    ensures
        servers_problem(servers, i) is None <==> forall|k: int|
            i <= k < servers.len() ==> server_ok(#[trigger] servers[k]),
    decreases servers.len() - i,
{
    if i < servers.len() {
        lemma_servers(servers, i + 1);
        lemma_server(servers[i], i);
    }
}

/// A configuration is refused exactly when something in it cannot be run.
pub proof fn law_refused_exactly_when_unfit(c: Config)
    ensures
        config_problem(c) is None <==> config_ok(c),
{
    lemma_servers(c.servers@, 0);
}

/// A listener address of a colon and a port takes packets of either family
/// at that port.
pub proof fn law_port_alone_is_dual_stack(a: AddressText, port: u16)
    requires
        a.text@ == ":"@ + text::decimal(port as nat),
    ensures
        address_of(a) == Ok::<SocketAddr, Seq<char>>(SocketAddr::of(unspecified(), port)),
{
    reveal_strlit(":");
    assert(a.text@.skip(1) =~= text::decimal(port as nat));
    text::law_port_notation_reads_back(port as nat);
}

/// What follows a colon is a port, and the address is then that port on every
/// address; any other text stands for the address that it reads as. The words
/// for what does not read name the reason.
pub proof fn law_addresses_are_read(a: AddressText)
    ensures
        a.text@.len() > 0 && a.text@[0] == ':' ==> match text::port_of(a.text@.skip(1)) {
            Ok(port) => address_of(a) matches Ok(s) && s.ip == unspecified() && s.port == port
                && s.flowinfo == 0 && s.scope_id == 0,
            Err(e) => address_of(a) == Err::<SocketAddr, Seq<char>>("invalid port: "@ + e.text()),
        },
        a.text@.len() == 0 || a.text@[0] != ':' ==> match a.literal {
            Ok(s) => address_of(a) == Ok::<SocketAddr, Seq<char>>(s),
            Err(e) => address_of(a) == Err::<SocketAddr, Seq<char>>("invalid address: "@ + e@),
        },
{
    if a.text@.len() > 0 {
        text::law_ports_fit(a.text@.skip(1));
    }
}

/// The address that stands for any is sixteen octets of zero.
pub proof fn law_any_address_is_all_zeros(i: int)
    requires
        0 <= i < 16,
    ensures
        unspecified() is V6,
        unspecified().octets().len() == 16,
        unspecified().octets()[i] == 0,
{
}

/// Sources are refused exactly where both kinds are asked for at once, where a
/// fallback comes without a kept source, does not read or is not IPv4, or
/// where a fixed source does not read or is IPv6 towards IPv4.
pub proof fn law_refused_sources(
    place: Seq<char>,
    preserve: bool,
    source: Option<IpText>,
    fallback: Option<IpText>,
    address: SocketAddr,
    noun: Seq<char>,
)
    ensures
        sources_problem(place, preserve, source, fallback, address, noun) is Some <==> {
            ||| preserve && source is Some
            ||| fallback is Some && !preserve
            ||| fallback is Some && fallback->0.value is Err
            ||| fallback is Some && fallback->0.value->Ok_0 is V6 && fallback->0.value is Ok
            ||| source is Some && source->0.value is Err
            ||| source is Some && source->0.value is Ok && source->0.value->Ok_0 is V6
                && address.ip is V4
        },
        sources_ok(preserve, source, fallback, address) <==> sources_problem(
            place,
            preserve,
            source,
            fallback,
            address,
            noun,
        ) is None,
{
}

/// A health check is refused exactly where its URL starts with neither of the
/// two schemes, or where it would be made or waited for without any pause.
pub proof fn law_refused_checks(place: Seq<char>, check: HealthCheckConfig)
    ensures
        healthcheck_problem(place, check) is None <==> ("http://"@.is_prefix_of(check.url@)
            || "https://"@.is_prefix_of(check.url@)) && check.interval.nanos >= 1
            && check.timeout.nanos >= 1,
        healthcheck_ok(check) <==> healthcheck_problem(place, check) is None,
{
}

/// A backend is refused exactly where its address does not read, its weight is
/// not above nought, or its sources or its health check are refused.
pub proof fn law_refused_backends(b: BackendConfig, i: int, j: int)
    ensures
        backend_problem(b, i, j) is None <==> {
            &&& address_of(b.address) is Ok
            &&& Number::nought().below(b.weight.value)
            &&& sources_problem(
                backend_place(i, j),
                b.preserve_src_address,
                b.source_address,
                b.fallback_source_address,
                address_of(b.address)->Ok_0,
                "backend"@,
            ) is None
            &&& b.healthcheck is Some ==> healthcheck_problem(
                backend_place(i, j),
                b.healthcheck->0,
            ) is None
        },
        backend_ok(b) <==> backend_problem(b, i, j) is None,
{
}

/// A mirror is refused exactly where its address does not read, its
/// probability is not a number from nought to one, or its sources are refused.
pub proof fn law_refused_mirrors(m: MirrorConfig, i: int, j: int)
    ensures
        mirror_problem(m, i, j) is None <==> {
            &&& address_of(m.address) is Ok
            &&& Number::nought().at_most(m.probability.value)
            &&& m.probability.value.at_most(Number::unit())
            &&& sources_problem(
                mirror_place(i, j),
                m.preserve_src_address,
                m.source_address,
                m.fallback_source_address,
                address_of(m.address)->Ok_0,
                "mirror"@,
            ) is None
        },
        mirror_ok(m) <==> mirror_problem(m, i, j) is None,
{
}

/// A balancer is refused exactly where it has no backend, where it hashes and
/// has no field to hash by, where it waits for no time at all, or where one of
/// its backends is refused.
pub proof fn law_refused_balancers(b: BalancerConfig, i: int)
    ensures
        balancer_problem(b, i) is None <==> {
            &&& b.backends@.len() >= 1
            &&& b.algorithm is Wrr || b.hash_key@.len() >= 1
            &&& b.proxy_timeout.nanos >= 1
            &&& forall|j: int|
                0 <= j < b.backends@.len() ==> backend_problem(
                    #[trigger] b.backends@[j],
                    i,
                    j,
                ) is None
        },
{
    lemma_backends(b.backends@, i, 0);
    assert forall|j: int| 0 <= j < b.backends@.len() implies (backend_problem(
        #[trigger] b.backends@[j],
        i,
        j,
    ) is None <==> backend_ok(b.backends@[j])) by {
        law_refused_backends(b.backends@[j], i, j);
    }
}

/// A server is refused exactly where its address does not read, where it asks
/// for more than 1024 workers, where it has neither a balancer nor a mirror, or
/// where its balancer or one of its mirrors is refused.
pub proof fn law_refused_servers(s: ServerConfig, i: int)
    ensures
        server_problem(s, i) is None <==> {
            &&& address_of(s.address) is Ok
            &&& s.listener_workers <= 1024
            &&& s.balancer is Some || (s.mirror is Some && s.mirror->0.targets@.len() >= 1)
            &&& s.balancer is Some ==> balancer_problem(s.balancer->0, i) is None
            &&& s.mirror is Some ==> forall|j: int|
                0 <= j < s.mirror->0.targets@.len() ==> mirror_problem(
                    #[trigger] s.mirror->0.targets@[j],
                    i,
                    j,
                ) is None
        },
{
    if s.mirror is Some {
        let targets = s.mirror->0.targets@;
        lemma_mirrors(targets, i, 0);
        assert forall|j: int| 0 <= j < targets.len() implies (mirror_problem(
            #[trigger] targets[j],
            i,
            j,
        ) is None <==> mirror_ok(targets[j])) by {
            law_refused_mirrors(targets[j], i, j);
        }
    }
}

/// A configuration is refused exactly where the address of the status server
/// does not read, or one of its servers is refused, however many there are.
pub proof fn law_refused_configurations(c: Config)
    ensures
        config_problem(c) is None <==> address_of(c.status) is Ok && forall|i: int|
            0 <= i < c.servers@.len() ==> server_problem(#[trigger] c.servers@[i], i) is None,
{
    lemma_servers(c.servers@, 0);
    assert forall|i: int| 0 <= i < c.servers@.len() implies (server_problem(
        #[trigger] c.servers@[i],
        i,
    ) is None <==> server_ok(c.servers@[i])) by {
        lemma_server(c.servers@[i], i);
    }
}

/// What is told is the first thing that is wrong: where every server before
/// one is fit and that one is not, it is what is wrong with that one, found by
/// its number.
pub proof fn law_first_unfit_server_is_told(c: Config, i: int)
    requires
        address_of(c.status) is Ok,
        0 <= i < c.servers@.len(),
        server_problem(c.servers@[i], i) is Some,
        forall|k: int| 0 <= k < i ==> server_problem(#[trigger] c.servers@[k], k) is None,
    ensures
        config_problem(c) == server_problem(c.servers@[i], i),
{
    lemma_first_unfit_server(c.servers@, 0, i);
}

proof fn lemma_first_unfit_server(servers: Seq<ServerConfig>, from: int, i: int)
    requires
        0 <= from <= i < servers.len(),
        server_problem(servers[i], i) is Some,
        forall|k: int| from <= k < i ==> server_problem(#[trigger] servers[k], k) is None,
    ensures
        servers_problem(servers, from) == server_problem(servers[i], i),
    decreases i - from,
{
    if from < i {
        assert(server_problem(servers[from], from) is None);
        lemma_first_unfit_server(servers, from + 1, i);
    }
}

/// Of the backends of a balancer, too, it is the first unfit one that is told.
pub proof fn law_first_unfit_backend_is_told(b: BalancerConfig, i: int, j: int)
    requires
        b.algorithm is Wrr || b.hash_key@.len() >= 1,
        b.proxy_timeout.nanos >= 1,
        0 <= j < b.backends@.len(),
        backend_problem(b.backends@[j], i, j) is Some,
        forall|k: int| 0 <= k < j ==> backend_problem(#[trigger] b.backends@[k], i, k) is None,
    ensures
        balancer_problem(b, i) == backend_problem(b.backends@[j], i, j),
{
    lemma_first_unfit_backend(b.backends@, i, 0, j);
}

proof fn lemma_first_unfit_backend(backends: Seq<BackendConfig>, i: int, from: int, j: int)
    requires
        0 <= from <= j < backends.len(),
        backend_problem(backends[j], i, j) is Some,
        forall|k: int| from <= k < j ==> backend_problem(#[trigger] backends[k], i, k) is None,
    ensures
        backends_problem(backends, i, from) == backend_problem(backends[j], i, j),
    decreases j - from,
{
    if from < j {
        assert(backend_problem(backends[from], i, from) is None);
        lemma_first_unfit_backend(backends, i, from + 1, j);
    }
}

/// Of the mirrors of a server it is the first unfit one that is told, where
/// nothing else is wrong with the server.
pub proof fn law_first_unfit_mirror_is_told(s: ServerConfig, i: int, j: int)
    requires
        address_of(s.address) is Ok,
        s.listener_workers <= 1024,
        s.balancer is Some ==> balancer_problem(s.balancer->0, i) is None,
        s.mirror is Some,
        0 <= j < s.mirror->0.targets@.len(),
        mirror_problem(s.mirror->0.targets@[j], i, j) is Some,
        forall|k: int|
            0 <= k < j ==> mirror_problem(#[trigger] s.mirror->0.targets@[k], i, k) is None,
    ensures
        server_problem(s, i) == mirror_problem(s.mirror->0.targets@[j], i, j),
{
    lemma_first_unfit_mirror(s.mirror->0.targets@, i, 0, j);
}

proof fn lemma_first_unfit_mirror(mirrors: Seq<MirrorConfig>, i: int, from: int, j: int)
    requires
        0 <= from <= j < mirrors.len(),
        mirror_problem(mirrors[j], i, j) is Some,
        forall|k: int| from <= k < j ==> mirror_problem(#[trigger] mirrors[k], i, k) is None,
    ensures
        mirrors_problem(mirrors, i, from) == mirror_problem(mirrors[j], i, j),
    decreases j - from,
{
    if from < j {
        assert(mirror_problem(mirrors[from], i, from) is None);
        lemma_first_unfit_mirror(mirrors, i, from + 1, j);
    }
}

/// What is wrong with a backend or a mirror is told with its number and that of
/// its server before it.
pub proof fn law_refusals_name_their_place(b: BackendConfig, m: MirrorConfig, i: int, j: int)
    ensures
        backend_problem(b, i, j) matches Some(words) ==> ("server["@ + text::decimal(i as nat)
            + "]"@ + ".backend["@ + text::decimal(j as nat) + "]"@).is_prefix_of(words),
        mirror_problem(m, i, j) matches Some(words) ==> ("server["@ + text::decimal(i as nat)
            + "]"@ + ".mirror.targets["@ + text::decimal(j as nat) + "]"@).is_prefix_of(words),
{
    if backend_problem(b, i, j) is Some {
        let place = backend_place(i, j);
        let words = backend_problem(b, i, j)->0;
        assert(words.take(place.len() as int) =~= place);
        assert(words.subrange(0, place.len() as int) =~= place);
    }
    if mirror_problem(m, i, j) is Some {
        let place = mirror_place(i, j);
        let words = mirror_problem(m, i, j)->0;
        assert(words.take(place.len() as int) =~= place);
        assert(words.subrange(0, place.len() as int) =~= place);
    }
}

/// What is told of a backend whose weight is not above nought, and of a mirror
/// whose probability is out of range: the number, as it was written.
pub proof fn law_numbers_are_told_as_written(b: BackendConfig, m: MirrorConfig, i: int, j: int)
    ensures
        address_of(b.address) is Ok && !Number::nought().below(b.weight.value) ==> backend_problem(
            b,
            i,
            j,
        ) == Some(backend_place(i, j) + ": weight must be positive, got "@ + b.weight.text@),
        address_of(m.address) is Ok && !(Number::nought().at_most(m.probability.value)
            && m.probability.value.at_most(Number::unit())) ==> mirror_problem(m, i, j) == Some(
            mirror_place(i, j) + ": probability must be between 0.0 and 1.0, got "@
                + m.probability.text@,
        ),
{
}

/// What is told of sources, in the order in which they are looked at.
pub proof fn law_refused_sources_in_words(
    place: Seq<char>,
    preserve: bool,
    source: Option<IpText>,
    fallback: Option<IpText>,
    address: SocketAddr,
    noun: Seq<char>,
)
    ensures
        ({
            let told = sources_problem(place, preserve, source, fallback, address, noun);
            &&& preserve && source is Some ==> told == Some(
                place + ": cannot use both preserve_src_address and source_address"@,
            )
            &&& !preserve && fallback is Some ==> told == Some(
                place + ": fallback_source_address requires preserve_src_address"@,
            )
            &&& preserve && source is None && fallback is Some ==> match fallback->0.value {
                Err(e) => told == Some(
                    place + ": invalid fallback_source_address '"@ + fallback->0.text@ + "': "@
                        + e@,
                ),
                Ok(ip) => ip is V6 ==> told == Some(
                    place + ": fallback_source_address must be IPv4"@,
                ),
            }
            &&& !preserve && fallback is None && source is Some ==> match source->0.value {
                Err(e) => told == Some(
                    place + ": invalid source_address '"@ + source->0.text@ + "': "@ + e@,
                ),
                Ok(ip) => ip is V6 && address.ip is V4 ==> told == Some(
                    place + ": IPv6 source_address cannot be used with IPv4 "@ + noun,
                ),
            }
        }),
{
}

/// What is told of a server and of a balancer.
pub proof fn law_refusals_in_words(s: ServerConfig, b: BalancerConfig, i: int)
    ensures
        address_of(s.address) is Ok && s.listener_workers > 1024 ==> server_problem(s, i) == Some(
            "server["@ + text::decimal(i as nat) + "]"@ + ": listener_workers must be 0-1024, got "@
                + text::decimal(s.listener_workers as nat),
        ),
        address_of(s.address) is Ok && s.listener_workers <= 1024 && s.balancer is None && (
        s.mirror is None || s.mirror->0.targets@.len() == 0) ==> server_problem(s, i) == Some(
            "server["@ + text::decimal(i as nat) + "]"@
                + ": must have at least one balancer or mirror"@,
        ),
        b.backends@.len() == 0 ==> balancer_problem(b, i) == Some(
            "server["@ + text::decimal(i as nat) + "]"@
                + ": balancer must have at least one backend"@,
        ),
        b.backends@.len() > 0 && b.algorithm is Rh && b.hash_key@.len() == 0 ==> balancer_problem(
            b,
            i,
        ) == Some(
            "server["@ + text::decimal(i as nat) + "]"@ + ": "@ + "rh"@
                + " algorithm requires at least one hash_key field"@,
        ),
        b.backends@.len() > 0 && b.algorithm is Maglev && b.hash_key@.len() == 0 ==> balancer_problem(
            b,
            i,
        ) == Some(
            "server["@ + text::decimal(i as nat) + "]"@ + ": "@ + "maglev"@
                + " algorithm requires at least one hash_key field"@,
        ),
        b.backends@.len() > 0 && (b.algorithm is Wrr || b.hash_key@.len() > 0)
            && b.proxy_timeout.nanos == 0 ==> balancer_problem(b, i) == Some(
            "server["@ + text::decimal(i as nat) + "]"@
                + ": proxy_timeout must be greater than 0"@,
        ),
{
}

/// Why there is no configuration, in words.
pub proof fn law_config_errors_in_words(e: String)
    ensures
        ConfigError::ReadFile(e).text() == "failed to read config file: "@ + e@,
        ConfigError::Parse(e).text() == "failed to parse config: "@ + e@,
        ConfigError::Validation(e).text() == "validation error: "@ + e@,
{
}

/// A verdict is a refusal exactly where something is wrong, and says just what.
pub proof fn law_verdicts(r: Result<(), ConfigError>, problem: Option<Seq<char>>)
    requires
        verdict(r, problem),
    ensures
        r is Ok <==> problem is None,
        r matches Err(e) ==> e matches ConfigError::Validation(m) && Some(m@) == problem,
{
}

/// An address that does not read is told with its text and the reason, under
/// the place that it was given for.
pub proof fn law_unreadable_addresses_in_words(
    place: Seq<char>,
    a: AddressText,
    b: BackendConfig,
    m: MirrorConfig,
    s: ServerConfig,
    i: int,
    j: int,
)
    ensures
        address_of(a) is Ok ==> address_problem(place, a) is None && status_problem(a) is None,
        address_of(a) matches Err(e) ==> address_problem(place, a) == Some(
            place + ": invalid address '"@ + a.text@ + "': "@ + e,
        ) && status_problem(a) == Some("invalid status address '"@ + a.text@ + "': "@ + e),
        address_of(b.address) matches Err(e) ==> backend_problem(b, i, j) == Some(
            backend_place(i, j) + ": invalid address '"@ + b.address.text@ + "': "@ + e,
        ),
        address_of(m.address) matches Err(e) ==> mirror_problem(m, i, j) == Some(
            mirror_place(i, j) + ": invalid address '"@ + m.address.text@ + "': "@ + e,
        ),
        address_of(s.address) matches Err(e) ==> server_problem(s, i) == Some(
            server_place(i) + ": invalid address '"@ + s.address.text@ + "': "@ + e,
        ),
{
}

/// What is told of a health check, in the order in which it is looked at.
pub proof fn law_refused_checks_in_words(place: Seq<char>, check: HealthCheckConfig)
    ensures
        ({
            let http = "http://"@.is_prefix_of(check.url@) || "https://"@.is_prefix_of(check.url@);
            let told = healthcheck_problem(place, check);
            &&& !http ==> told == Some(
                place + ": healthcheck.url must start with http:// or https://"@,
            )
            &&& http && check.interval.nanos == 0 ==> told == Some(
                place + ": healthcheck.interval must be greater than 0"@,
            )
            &&& http && check.interval.nanos > 0 && check.timeout.nanos == 0 ==> told == Some(
                place + ": healthcheck.timeout must be greater than 0"@,
            )
        }),
{
}

} // verus!
