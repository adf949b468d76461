//! From a configuration to what is to be set up.
use crate::balancer::backend::SendMode;
use crate::config;
use crate::config::{
    copy_hash_key, parse_socket_addr, AddressText, Algorithm, BackendConfig, BalancerConfig, Config,
    HashKeyField, IpText, ListenerMode, MirrorConfig, ServerConfig,
};
use crate::net::{IpAddr, SocketAddr};
use crate::number::Number;
use crate::server::checker::HealthCheck;
use crate::time::Duration;
use vstd::prelude::*;

verus! {

/// The program, before it runs.
pub struct App {
    pub config: Config,
}

/// A backend or a mirror that is to be set up.
#[derive(Clone, Copy, PartialEq, Eq, Debug)]
pub struct Target {
    pub address: SocketAddr,
    pub mode: SendMode,
    pub probability: Number,
    pub weight: Number,
}

/// A backend with the check that watches it.
#[derive(Debug)]
pub struct BackendPlan {
    pub target: Target,
    pub check: Option<HealthCheck>,
}

/// A balancer that is to be set up.
#[derive(Debug)]
pub struct BalancerPlan {
    pub algorithm: Algorithm,
    pub hash_key: Vec<HashKeyField>,
    pub proxy_timeout: Duration,
    pub backends: Vec<BackendPlan>,
}

/// A server that is to be set up. An empty list of mirrors is none.
#[derive(Debug)]
pub struct ServerPlan {
    pub address: SocketAddr,
    /// The address as it was configured.
    pub listener_addr: String,
    pub listener_mode: ListenerMode,
    pub listener_workers: usize,
    pub balancer: Option<BalancerPlan>,
    pub mirror: Option<Vec<Target>>,
}

/// Everything that is to be set up.
#[derive(Debug)]
pub struct Plan {
    pub status: SocketAddr,
    pub servers: Vec<ServerPlan>,
}

/// How packets to a backend or a mirror carry their source.
pub open spec fn mode_of(preserve: bool, source: Option<IpText>, fallback: Option<IpText>) -> Result<
    SendMode,
    Seq<char>,
> {
    if preserve {
        match fallback {
            None => Ok(SendMode::PreserveSrcAddr { fallback_ipv4: None }),
            Some(f) => match f.value {
                Ok(IpAddr::V4(ip)) => Ok(SendMode::PreserveSrcAddr { fallback_ipv4: Some(ip) }),
                _ => Err("invalid IPv4 address syntax"@),
            },
        }
    } else {
        match source {
            None => Ok(SendMode::Standard),
            Some(s) => match s.value {
                Ok(ip) => Ok(SendMode::FakeSrcAddr(ip)),
                Err(e) => Err(e@),
            },
        }
    }
}

/// A backend or a mirror as it is set up, or why it cannot be.
pub open spec fn target_of(
    address: AddressText,
    preserve: bool,
    source: Option<IpText>,
    fallback: Option<IpText>,
    probability: Number,
    weight: Number,
) -> Result<Target, Seq<char>> {
    match config::address_of(address) {
        Err(e) => Err(e),
        Ok(a) => match mode_of(preserve, source, fallback) {
            Err(e) => Err(e),
            Ok(mode) => Ok(Target { address: a, mode, probability, weight }),
        },
    }
}

/// A backend is always sent to and counts by its weight.
pub open spec fn backend_target(b: BackendConfig) -> Result<Target, Seq<char>> {
    target_of(
        b.address,
        b.preserve_src_address,
        b.source_address,
        b.fallback_source_address,
        Number::unit(),
        b.weight.value,
    )
}

/// A mirror is sent to by its probability.
pub open spec fn mirror_target(m: MirrorConfig) -> Result<Target, Seq<char>> {
    target_of(
        m.address,
        m.preserve_src_address,
        m.source_address,
        m.fallback_source_address,
        m.probability.value,
        Number::unit(),
    )
}

/// The check that watches a backend: what is configured for it, under the
/// addresses as they were configured.
pub open spec fn watches(
    check: Option<HealthCheck>,
    server: ServerConfig,
    b: BackendConfig,
    i: int,
    j: int,
) -> bool {
    match b.healthcheck {
        None => check is None,
        Some(h) => {
            &&& check is Some
            &&& check->0.url@ == h.url@
            &&& check->0.interval == h.interval
            &&& check->0.timeout == h.timeout
            &&& check->0.alive
            &&& check->0.listener_addr@ == server.address.text@
            &&& check->0.backend_addr@ == b.address.text@
            &&& check->0.server == i
            &&& check->0.backend == j
        },
    }
}

pub open spec fn plans_backends(
    plans: Seq<BackendPlan>,
    server: ServerConfig,
    backends: Seq<BackendConfig>,
    i: int,
) -> bool {
    forall|j: int|
        0 <= j < plans.len() ==> backend_target(backends[j]) == Ok::<Target, Seq<char>>(
            (#[trigger] plans[j]).target,
        ) && watches(plans[j].check, server, backends[j], i, j)
}

pub open spec fn plans_mirrors(targets: Seq<Target>, mirrors: Seq<MirrorConfig>) -> bool {
    forall|j: int|
        0 <= j < targets.len() ==> mirror_target(mirrors[j]) == Ok::<Target, Seq<char>>(
            #[trigger] targets[j],
        )
}

/// What is set up for a server.
pub open spec fn plans_server(plan: ServerPlan, s: ServerConfig, i: int) -> bool {
    &&& config::address_of(s.address) == Ok::<SocketAddr, Seq<char>>(plan.address)
    &&& plan.listener_addr@ == s.address.text@
    &&& plan.listener_mode == s.listener_mode
    &&& plan.listener_workers == s.listener_workers
    &&& match s.balancer {
        None => plan.balancer is None,
        Some(b) => {
            &&& plan.balancer is Some
            &&& plan.balancer->0.algorithm == b.algorithm
            &&& plan.balancer->0.hash_key@ == b.hash_key@
            &&& plan.balancer->0.proxy_timeout == b.proxy_timeout
            &&& plan.balancer->0.backends@.len() == b.backends@.len()
            &&& plans_backends(plan.balancer->0.backends@, s, b.backends@, i)
        },
    }
    &&& match s.mirror {
        Some(m) => if m.targets@.len() > 0 {
            &&& plan.mirror is Some
            &&& plan.mirror->0@.len() == m.targets@.len()
            &&& plans_mirrors(plan.mirror->0@, m.targets@)
        } else {
            plan.mirror is None
        },
        None => plan.mirror is None,
    }
}

/// What is set up for a configuration.
pub open spec fn plans(plan: Plan, c: Config) -> bool {
    &&& config::address_of(c.status) == Ok::<SocketAddr, Seq<char>>(plan.status)
    &&& plan.servers@.len() == c.servers@.len()
    &&& forall|i: int|
        0 <= i < plan.servers@.len() ==> plans_server(#[trigger] plan.servers@[i], c.servers@[i], i)
}

/// Why a backend at `j` or after it cannot be set up.
pub open spec fn backends_fault(backends: Seq<BackendConfig>, j: int) -> Option<Seq<char>>
    decreases backends.len() - j,
{
    if j < 0 || j >= backends.len() {
        None
    } else {
        match backend_target(backends[j]) {
            Err(e) => Some(e),
            Ok(_) => backends_fault(backends, j + 1),
        }
    }
}

/// Why a mirror at `j` or after it cannot be set up.
pub open spec fn mirrors_fault(mirrors: Seq<MirrorConfig>, j: int) -> Option<Seq<char>>
    decreases mirrors.len() - j,
{
    if j < 0 || j >= mirrors.len() {
        None
    } else {
        match mirror_target(mirrors[j]) {
            Err(e) => Some(e),
            Ok(_) => mirrors_fault(mirrors, j + 1),
        }
    }
}

/// Why a server cannot be set up.
pub open spec fn server_fault(s: ServerConfig) -> Option<Seq<char>> {
    match config::address_of(s.address) {
        Err(e) => Some(e),
        Ok(_) => if s.balancer is Some && backends_fault(s.balancer->0.backends@, 0) is Some {
            backends_fault(s.balancer->0.backends@, 0)
        } else if s.mirror is Some {
            mirrors_fault(s.mirror->0.targets@, 0)
        } else {
            None
        },
    }
}

/// Why a server at `i` or after it cannot be set up.
pub open spec fn servers_fault(servers: Seq<ServerConfig>, i: int) -> Option<Seq<char>>
    decreases servers.len() - i,
{
    if i < 0 || i >= servers.len() {
        None
    } else if server_fault(servers[i]) is Some {
        server_fault(servers[i])
    } else {
        servers_fault(servers, i + 1)
    }
}

/// The first reason why a configuration cannot be set up.
pub open spec fn config_fault(c: Config) -> Option<Seq<char>> {
    match config::address_of(c.status) {
        Err(e) => Some(e),
        Ok(_) => servers_fault(c.servers@, 0),
    }
}

/// How packets to a backend or a mirror carry their source.
pub fn send_mode(preserve: bool, source: &Option<IpText>, fallback: &Option<IpText>) -> (r: Result<
    SendMode,
    String,
>)
    ensures
        match mode_of(preserve, *source, *fallback) {
            Ok(m) => r == Ok::<SendMode, String>(m),
            Err(e) => r matches Err(m) && m@ == e,
        },
{
    if preserve {
        match fallback {
            None => Ok(SendMode::PreserveSrcAddr { fallback_ipv4: None }),
            Some(f) => match f.value {
                Ok(IpAddr::V4(ip)) => Ok(SendMode::PreserveSrcAddr { fallback_ipv4: Some(ip) }),
                _ => Err("invalid IPv4 address syntax".to_string()),
            },
        }
    } else {
        match source {
            None => Ok(SendMode::Standard),
            Some(s) => match &s.value {
                Ok(ip) => Ok(SendMode::FakeSrcAddr(*ip)),
                Err(e) => Err(e.clone()),
            },
        }
    }
}

fn target(
    address: &AddressText,
    preserve: bool,
    source: &Option<IpText>,
    fallback: &Option<IpText>,
    probability: Number,
    weight: Number,
) -> (r: Result<Target, String>)
    ensures
        match target_of(*address, preserve, *source, *fallback, probability, weight) {
            Ok(t) => r == Ok::<Target, String>(t),
            Err(e) => r matches Err(m) && m@ == e,
        },
{
    match parse_socket_addr(address) {
        Err(e) => Err(e),
        Ok(address) => match send_mode(preserve, source, fallback) {
            Err(e) => Err(e),
            Ok(mode) => Ok(Target { address, mode, probability, weight }),
        },
    }
}

fn watch(server: &ServerConfig, b: &BackendConfig, i: usize, j: usize) -> (check: Option<HealthCheck>)
    ensures
        watches(check, *server, *b, i as int, j as int),
{
    match &b.healthcheck {
        None => None,
        Some(h) => Some(
            HealthCheck {
                url: h.url.clone(),
                interval: h.interval,
                timeout: h.timeout,
                alive: true,
                listener_addr: server.address.text.clone(),
                backend_addr: b.address.text.clone(),
                server: i,
                backend: j,
            },
        ),
    }
}

impl App {
    pub fn new(config: Config) -> (a: App)
        ensures
            a.config == config,
    {
        App { config }
    }

    /// What is to be set up, or the first reason why it cannot be.
    pub fn plan(&self) -> (r: Result<Plan, String>)
        ensures
            match config_fault(self.config) {
                None => r matches Ok(p) && plans(p, self.config),
                Some(e) => r matches Err(m) && m@ == e,
            },
    {
        let status = match parse_socket_addr(&self.config.status) {
            Ok(a) => a,
            Err(e) => {
                return Err(e);
            },
        };
        let mut servers: Vec<ServerPlan> = Vec::new();
        let mut i: usize = 0;
        while i < self.config.servers.len()
            invariant
                i <= self.config.servers@.len(),
                servers@.len() == i,
                config_fault(self.config) == servers_fault(self.config.servers@, i as int),
                forall|k: int|
                    0 <= k < i ==> plans_server(
                        #[trigger] servers@[k],
                        self.config.servers@[k],
                        k,
                    ),
            decreases self.config.servers@.len() - i,
        {
            match self.plan_server(&self.config.servers[i], i) {
                Ok(p) => servers.push(p),
                Err(e) => {
                    return Err(e);
                },
            }
            i = i + 1;
        }
        Ok(Plan { status, servers })
    }

    fn plan_server(&self, server: &ServerConfig, i: usize) -> (r: Result<ServerPlan, String>)
        ensures
            match server_fault(*server) {
                None => r matches Ok(p) && plans_server(p, *server, i as int),
                Some(e) => r matches Err(m) && m@ == e,
            },
    {
        let address = match parse_socket_addr(&server.address) {
            Ok(a) => a,
            Err(e) => {
                return Err(e);
            },
        };
        let balancer = match &server.balancer {
            None => None,
            Some(b) => match self.plan_balancer(server, b, i) {
                Ok(p) => Some(p),
                Err(e) => {
                    return Err(e);
                },
            },
        };
        let mirror = match &server.mirror {
            None => None,
            Some(section) => match self.create_mirror_backends(&section.targets) {
                Ok(targets) => if targets.len() > 0 {
                    Some(targets)
                } else {
                    None
                },
                Err(e) => {
                    return Err(e);
                },
            },
        };
        Ok(
            ServerPlan {
                address,
                listener_addr: server.address.text.clone(),
                listener_mode: server.listener_mode,
                listener_workers: server.listener_workers as usize,
                balancer,
                mirror,
            },
        )
    }

    fn plan_balancer(&self, server: &ServerConfig, b: &BalancerConfig, i: usize) -> (r: Result<
        BalancerPlan,
        String,
    >)
        ensures
            match backends_fault(b.backends@, 0) {
                None => r matches Ok(p) && p.algorithm == b.algorithm && p.hash_key@ == b.hash_key@
                    && p.proxy_timeout == b.proxy_timeout && p.backends@.len() == b.backends@.len()
                    && plans_backends(p.backends@, *server, b.backends@, i as int),
                Some(e) => r matches Err(m) && m@ == e,
            },
    {
        let mut backends: Vec<BackendPlan> = Vec::new();
        let mut j: usize = 0;
        while j < b.backends.len()
            invariant
                j <= b.backends@.len(),
                backends@.len() == j,
                backends_fault(b.backends@, 0) == backends_fault(b.backends@, j as int),
                plans_backends(backends@, *server, b.backends@, i as int),
            decreases b.backends@.len() - j,
        {
            let cfg = &b.backends[j];
            let target = target(
                &cfg.address,
                cfg.preserve_src_address,
                &cfg.source_address,
                &cfg.fallback_source_address,
                Number::one(),
                cfg.weight.value,
            );
            match target {
                Ok(target) => backends.push(
                    BackendPlan { target, check: watch(server, cfg, i, j) },
                ),
                Err(e) => {
                    return Err(e);
                },
            }
            j = j + 1;
        }
        Ok(
            BalancerPlan {
                algorithm: b.algorithm,
                hash_key: copy_hash_key(b.hash_key.as_slice()),
                proxy_timeout: b.proxy_timeout,
                backends,
            },
        )
    }

    /// The mirrors that are to be set up.
    pub fn create_mirror_backends(&self, configs: &Vec<MirrorConfig>) -> (r: Result<
        Vec<Target>,
        String,
    >)
        ensures
            match mirrors_fault(configs@, 0) {
                None => r matches Ok(t) && t@.len() == configs@.len() && plans_mirrors(
                    t@,
                    configs@,
                ),
                Some(e) => r matches Err(m) && m@ == e,
            },
    {
        let mut targets: Vec<Target> = Vec::new();
        let mut j: usize = 0;
        while j < configs.len()
            invariant
                j <= configs@.len(),
                targets@.len() == j,
                mirrors_fault(configs@, 0) == mirrors_fault(configs@, j as int),
                plans_mirrors(targets@, configs@),
            decreases configs@.len() - j,
        {
            let cfg = &configs[j];
            let target = target(
                &cfg.address,
                cfg.preserve_src_address,
                &cfg.source_address,
                &cfg.fallback_source_address,
                cfg.probability.value,
                Number::one(),
            );
            match target {
                Ok(target) => targets.push(target),
                Err(e) => {
                    return Err(e);
                },
            }
            j = j + 1;
        }
        Ok(targets)
    }
}

proof fn lemma_backends_fit(backends: Seq<BackendConfig>, j: int)
    requires
        0 <= j <= backends.len(),
        forall|k: int| j <= k < backends.len() ==> config::backend_ok(#[trigger] backends[k]),
    ensures
        backends_fault(backends, j) is None,
    decreases backends.len() - j,
{
    if j < backends.len() {
        assert(config::backend_ok(backends[j]));
        lemma_backends_fit(backends, j + 1);
    }
}

proof fn lemma_mirrors_fit(mirrors: Seq<MirrorConfig>, j: int)
    requires
        0 <= j <= mirrors.len(),
        forall|k: int| j <= k < mirrors.len() ==> config::mirror_ok(#[trigger] mirrors[k]),
    ensures
        mirrors_fault(mirrors, j) is None,
    decreases mirrors.len() - j,
{
    if j < mirrors.len() {
        assert(config::mirror_ok(mirrors[j]));
        lemma_mirrors_fit(mirrors, j + 1);
    }
}

proof fn lemma_servers_fit(servers: Seq<ServerConfig>, i: int)
    requires
        0 <= i <= servers.len(),
        forall|k: int| i <= k < servers.len() ==> config::server_ok(#[trigger] servers[k]),
    ensures
        servers_fault(servers, i) is None,
    decreases servers.len() - i,
{
    if i < servers.len() {
        let s = servers[i];
        assert(config::server_ok(s));
        if s.balancer is Some {
            lemma_backends_fit(s.balancer->0.backends@, 0);
        }
        if s.mirror is Some {
            lemma_mirrors_fit(s.mirror->0.targets@, 0);
        }
        lemma_servers_fit(servers, i + 1);
    }
}

/// A configuration that was not refused can be set up: every address in it
/// reads, and every source can be used.
pub proof fn law_accepted_configs_can_be_set_up(c: Config)
    requires
        config::config_problem(c) is None,
    ensures
        config_fault(c) is None,
{
    config::law_refused_exactly_when_unfit(c);
    lemma_servers_fit(c.servers@, 0);
}

/// In what is set up from an accepted configuration no IPv6 source is fixed
/// for a backend at an IPv4 address.
pub proof fn law_accepted_sources_fit_their_backends(b: BackendConfig)
    requires
        config::backend_ok(b),
    ensures
        backend_target(b) matches Ok(t) && (t.address.ip is V4 ==> (
        t.mode matches SendMode::FakeSrcAddr(ip) ==> ip is V4)),
{
}

/// How a source is carried: kept where that is asked for, with the fallback
/// where there is one; else the fixed one; else none.
pub proof fn law_modes_follow_the_configuration(
    preserve: bool,
    source: Option<IpText>,
    fallback: Option<IpText>,
)
    ensures
        ({
            let mode = mode_of(preserve, source, fallback);
            &&& preserve && fallback is None ==> mode == Ok::<SendMode, Seq<char>>(
                SendMode::PreserveSrcAddr { fallback_ipv4: None },
            )
            &&& preserve && fallback is Some ==> match fallback->0.value {
                Ok(IpAddr::V4(ip)) => mode == Ok::<SendMode, Seq<char>>(
                    SendMode::PreserveSrcAddr { fallback_ipv4: Some(ip) },
                ),
                _ => mode == Err::<SendMode, Seq<char>>("invalid IPv4 address syntax"@),
            }
            &&& !preserve && source is None ==> mode == Ok::<SendMode, Seq<char>>(
                SendMode::Standard,
            )
            &&& !preserve && source is Some ==> match source->0.value {
                Ok(ip) => mode == Ok::<SendMode, Seq<char>>(SendMode::FakeSrcAddr(ip)),
                Err(e) => mode == Err::<SendMode, Seq<char>>(e@),
            }
        }),
{
}

/// A backend is set up at its address, with its weight and its sources, and is
/// always sent to: its probability is one, whatever its weight.
pub proof fn law_backends_are_set_up_as_configured(b: BackendConfig)
    ensures
        backend_target(b) matches Ok(t) ==> {
            &&& config::address_of(b.address) == Ok::<SocketAddr, Seq<char>>(t.address)
            &&& mode_of(
                b.preserve_src_address,
                b.source_address,
                b.fallback_source_address,
            ) == Ok::<SendMode, Seq<char>>(t.mode)
            &&& t.weight == b.weight.value
            &&& t.probability.bits == 0x3FF0_0000_0000_0000
        },
        backend_target(b) is Ok <==> config::address_of(b.address) is Ok && mode_of(
            b.preserve_src_address,
            b.source_address,
            b.fallback_source_address,
        ) is Ok,
        config::address_of(b.address) matches Err(e) ==> backend_target(b) == Err::<
            Target,
            Seq<char>,
        >(e),
{
}

/// A mirror is set up at its address, with its probability and its sources.
pub proof fn law_mirrors_are_set_up_as_configured(m: MirrorConfig)
    ensures
        mirror_target(m) matches Ok(t) ==> {
            &&& config::address_of(m.address) == Ok::<SocketAddr, Seq<char>>(t.address)
            &&& mode_of(
                m.preserve_src_address,
                m.source_address,
                m.fallback_source_address,
            ) == Ok::<SendMode, Seq<char>>(t.mode)
            &&& t.probability == m.probability.value
            &&& t.weight.bits == 0x3FF0_0000_0000_0000
        },
        mirror_target(m) is Ok <==> config::address_of(m.address) is Ok && mode_of(
            m.preserve_src_address,
            m.source_address,
            m.fallback_source_address,
        ) is Ok,
        config::address_of(m.address) matches Err(e) ==> mirror_target(m) == Err::<
            Target,
            Seq<char>,
        >(e),
{
}

/// What is set up has every server of the configuration in its place, each
/// with its address, its listener's mode and workers, and its balancer's
/// algorithm, key and timeout.
pub proof fn law_servers_are_set_up_as_configured(plan: Plan, c: Config, i: int)
    requires
        plans(plan, c),
    ensures
        config::address_of(c.status) == Ok::<SocketAddr, Seq<char>>(plan.status),
        plan.servers@.len() == c.servers@.len(),
        0 <= i < c.servers@.len() ==> {
            let p = plan.servers@[i];
            let s = c.servers@[i];
            &&& config::address_of(s.address) == Ok::<SocketAddr, Seq<char>>(p.address)
            &&& p.listener_addr@ == s.address.text@
            &&& p.listener_mode == s.listener_mode
            &&& p.listener_workers == s.listener_workers
            &&& p.balancer is Some <==> s.balancer is Some
            &&& s.balancer matches Some(b) ==> {
                &&& p.balancer->0.algorithm == b.algorithm
                &&& p.balancer->0.hash_key@ == b.hash_key@
                &&& p.balancer->0.proxy_timeout == b.proxy_timeout
                &&& p.balancer->0.backends@.len() == b.backends@.len()
            }
            &&& p.mirror is Some <==> s.mirror is Some && s.mirror->0.targets@.len() > 0
            &&& p.mirror is Some ==> p.mirror->0@.len() == s.mirror->0.targets@.len()
        },
{
    if 0 <= i < c.servers@.len() {
        assert(plans_server(plan.servers@[i], c.servers@[i], i));
    }
}

/// Every backend is set up in its place, with its check: the check that is
/// configured for it and no other, under the texts of the two addresses and
/// the two places.
pub proof fn law_backends_are_watched_as_configured(plan: Plan, c: Config, i: int, j: int)
    requires
        plans(plan, c),
        0 <= i < c.servers@.len(),
        c.servers@[i].balancer is Some,
        0 <= j < c.servers@[i].balancer->0.backends@.len(),
    ensures
        ({
            let p = plan.servers@[i].balancer->0.backends@[j];
            let b = c.servers@[i].balancer->0.backends@[j];
            &&& backend_target(b) == Ok::<Target, Seq<char>>(p.target)
            &&& p.target.weight == b.weight.value
            &&& p.check is Some <==> b.healthcheck is Some
            &&& b.healthcheck matches Some(h) ==> {
                &&& p.check->0.url@ == h.url@
                &&& p.check->0.interval == h.interval
                &&& p.check->0.timeout == h.timeout
                &&& p.check->0.alive
                &&& p.check->0.listener_addr@ == c.servers@[i].address.text@
                &&& p.check->0.backend_addr@ == b.address.text@
                &&& p.check->0.server == i
                &&& p.check->0.backend == j
            }
        }),
{
    assert(plans_server(plan.servers@[i], c.servers@[i], i));
    assert(plan.servers@[i].balancer->0.backends@[j] == plan.servers@[i].balancer->0.backends@[j]);
}

/// Every mirror is set up in its place.
pub proof fn law_mirrors_are_set_up_in_order(plan: Plan, c: Config, i: int, j: int)
    requires
        plans(plan, c),
        0 <= i < c.servers@.len(),
        c.servers@[i].mirror is Some,
        0 <= j < c.servers@[i].mirror->0.targets@.len(),
    ensures
        mirror_target(c.servers@[i].mirror->0.targets@[j]) == Ok::<Target, Seq<char>>(
            plan.servers@[i].mirror->0@[j],
        ),
        plan.servers@[i].mirror->0@[j].probability
            == c.servers@[i].mirror->0.targets@[j].probability.value,
{
    assert(plans_server(plan.servers@[i], c.servers@[i], i));
    assert(plan.servers@[i].mirror->0@[j] == plan.servers@[i].mirror->0@[j]);
}

proof fn lemma_backends_fault(backends: Seq<BackendConfig>, j: int)
    requires
        0 <= j <= backends.len(),
    ensures
        backends_fault(backends, j) is None <==> forall|k: int|
            j <= k < backends.len() ==> backend_target(#[trigger] backends[k]) is Ok,
    decreases backends.len() - j,
{
    if j < backends.len() {
        lemma_backends_fault(backends, j + 1);
    }
}

proof fn lemma_mirrors_fault(mirrors: Seq<MirrorConfig>, j: int)
    requires
        0 <= j <= mirrors.len(),
    ensures
        mirrors_fault(mirrors, j) is None <==> forall|k: int|
            j <= k < mirrors.len() ==> mirror_target(#[trigger] mirrors[k]) is Ok,
    decreases mirrors.len() - j,
{
    if j < mirrors.len() {
        lemma_mirrors_fault(mirrors, j + 1);
    }
}

/// A server can be set up exactly where its address reads and each of its
/// backends and mirrors can be.
pub proof fn law_servers_that_can_be_set_up(s: ServerConfig)
    ensures
        server_fault(s) is None <==> {
            &&& config::address_of(s.address) is Ok
            &&& s.balancer is Some ==> forall|k: int|
                0 <= k < s.balancer->0.backends@.len() ==> backend_target(
                    #[trigger] s.balancer->0.backends@[k],
                ) is Ok
            &&& s.mirror is Some ==> forall|k: int|
                0 <= k < s.mirror->0.targets@.len() ==> mirror_target(
                    #[trigger] s.mirror->0.targets@[k],
                ) is Ok
        },
        config::address_of(s.address) matches Err(e) ==> server_fault(s) == Some(e),
{
    if s.balancer is Some {
        lemma_backends_fault(s.balancer->0.backends@, 0);
    }
    if s.mirror is Some {
        lemma_mirrors_fault(s.mirror->0.targets@, 0);
    }
}

/// A configuration can be set up exactly where the address of the status
/// server reads and each of its servers can be set up.
pub proof fn law_configurations_that_can_be_set_up(c: Config)
    ensures
        config_fault(c) is None <==> config::address_of(c.status) is Ok && forall|k: int|
            0 <= k < c.servers@.len() ==> server_fault(#[trigger] c.servers@[k]) is None,
{
    lemma_servers_fault(c.servers@, 0);
}

proof fn lemma_servers_fault(servers: Seq<ServerConfig>, i: int)
    requires
        0 <= i <= servers.len(),
    ensures
        servers_fault(servers, i) is None <==> forall|k: int|
            i <= k < servers.len() ==> server_fault(#[trigger] servers[k]) is None,
    decreases servers.len() - i,
{
    if i < servers.len() {
        lemma_servers_fault(servers, i + 1);
    }
}

/// It is the first server that cannot be set up whose reason is told.
pub proof fn law_first_fault_is_told(c: Config, i: int)
    requires
        config::address_of(c.status) is Ok,
        0 <= i < c.servers@.len(),
        server_fault(c.servers@[i]) is Some,
        forall|k: int| 0 <= k < i ==> server_fault(#[trigger] c.servers@[k]) is None,
    ensures
        config_fault(c) == server_fault(c.servers@[i]),
{
    lemma_first_fault(c.servers@, 0, i);
}

proof fn lemma_first_fault(servers: Seq<ServerConfig>, from: int, i: int)
    requires
        0 <= from <= i < servers.len(),
        server_fault(servers[i]) is Some,
        forall|k: int| from <= k < i ==> server_fault(#[trigger] servers[k]) is None,
    ensures
        servers_fault(servers, from) == server_fault(servers[i]),
    decreases i - from,
{
    if from < i {
        assert(server_fault(servers[from]) is None);
        lemma_first_fault(servers, from + 1, i);
    }
}

/// It is the first backend that cannot be set up whose reason is told, and a
/// mirror's only where every backend can be.
pub proof fn law_first_target_fault_is_told(s: ServerConfig, j: int)
    requires
        config::address_of(s.address) is Ok,
    ensures
        s.balancer is Some && 0 <= j < s.balancer->0.backends@.len() && (forall|k: int|
            0 <= k < j ==> backend_target(#[trigger] s.balancer->0.backends@[k]) is Ok) ==> (
        backend_target(s.balancer->0.backends@[j]) matches Err(e) ==> server_fault(s) == Some(e)),
        (s.balancer is Some ==> backends_fault(s.balancer->0.backends@, 0) is None)
            && s.mirror is Some && 0 <= j < s.mirror->0.targets@.len() && (forall|k: int|
            0 <= k < j ==> mirror_target(#[trigger] s.mirror->0.targets@[k]) is Ok) ==> (
        mirror_target(s.mirror->0.targets@[j]) matches Err(e) ==> server_fault(s) == Some(e)),
{
    if s.balancer is Some {
        let backends = s.balancer->0.backends@;
        if 0 <= j < backends.len() && backend_target(backends[j]) is Err && forall|k: int|
            0 <= k < j ==> backend_target(#[trigger] backends[k]) is Ok {
            lemma_first_backend_fault(backends, 0, j);
        }
    }
    if s.mirror is Some {
        let mirrors = s.mirror->0.targets@;
        if 0 <= j < mirrors.len() && mirror_target(mirrors[j]) is Err && forall|k: int|
            0 <= k < j ==> mirror_target(#[trigger] mirrors[k]) is Ok {
            lemma_first_mirror_fault(mirrors, 0, j);
        }
    }
}

proof fn lemma_first_backend_fault(backends: Seq<BackendConfig>, from: int, j: int)
    requires
        0 <= from <= j < backends.len(),
        backend_target(backends[j]) is Err,
        forall|k: int| from <= k < j ==> backend_target(#[trigger] backends[k]) is Ok,
    ensures
        backends_fault(backends, from) == Some(backend_target(backends[j])->Err_0),
    decreases j - from,
{
    if from < j {
        assert(backend_target(backends[from]) is Ok);
        lemma_first_backend_fault(backends, from + 1, j);
    }
}

proof fn lemma_first_mirror_fault(mirrors: Seq<MirrorConfig>, from: int, j: int)
    requires
        0 <= from <= j < mirrors.len(),
        mirror_target(mirrors[j]) is Err,
        forall|k: int| from <= k < j ==> mirror_target(#[trigger] mirrors[k]) is Ok,
    ensures
        mirrors_fault(mirrors, from) == Some(mirror_target(mirrors[j])->Err_0),
    decreases j - from,
{
    if from < j {
        assert(mirror_target(mirrors[from]) is Ok);
        lemma_first_mirror_fault(mirrors, from + 1, j);
    }
}

} // verus!
