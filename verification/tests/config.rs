use serde_yaml::Value;
use udp_balancer::app::App;
use udp_balancer::config::{
    default_check_interval, default_check_timeout, default_hash_key, default_probability,
    default_proxy_timeout, default_status_addr, default_weight, parse_address, parse_socket_addr,
    AddressText, Algorithm, BackendConfig, BalancerConfig, Config, ConfigError, HashKeyField,
    HealthCheckConfig, IpText, ListenerMode, MirrorConfig, MirrorSectionConfig, Quantity,
    ServerConfig,
};
use udp_balancer::net::{IpAddr, Ipv4Addr, Ipv6Addr, SocketAddr};
use udp_balancer::number::Number;
use udp_balancer::time::Duration;

fn n(x: f64) -> Number {
    Number::from_bits(x.to_bits())
}

fn f(x: Number) -> f64 {
    f64::from_bits(x.to_bits())
}

/// The addresses that the tests below name.
fn read_ip(text: &str) -> Result<IpAddr, String> {
    if text == "::1" {
        let mut octets = [0u8; 16];
        octets[15] = 1;
        return Ok(IpAddr::V6(Ipv6Addr { octets }));
    }
    let parts: Vec<u8> = text.split('.').filter_map(|p| p.parse().ok()).collect();
    if parts.len() == 4 {
        let octets = [parts[0], parts[1], parts[2], parts[3]];
        return Ok(IpAddr::V4(Ipv4Addr { octets }));
    }
    Err("invalid IP address syntax".to_string())
}

fn ip_text(text: &str) -> IpText {
    IpText { text: text.to_string(), value: read_ip(text) }
}

fn address(text: &str) -> AddressText {
    let bad = Err("invalid socket address syntax".to_string());
    let literal = match text.rsplit_once(':') {
        Some((host, port)) => {
            let host = host.trim_start_matches('[').trim_end_matches(']');
            match (read_ip(host), port.parse()) {
                (Ok(ip), Ok(port)) => Ok(SocketAddr::new(ip, port)),
                _ => bad,
            }
        }
        None => bad,
    };
    AddressText { text: text.to_string(), literal }
}

fn quantity(x: f64) -> Quantity {
    Quantity { value: n(x), text: format!("{}", x) }
}

fn text_of(v: &Value, key: &str) -> Option<String> {
    v.get(key).and_then(|x| x.as_str()).map(|x| x.to_string())
}

fn flag_of(v: &Value, key: &str) -> bool {
    v.get(key).and_then(|x| x.as_bool()).unwrap_or(false)
}

fn seconds_of(v: &Value, key: &str, default: Duration) -> Duration {
    match text_of(v, key) {
        Some(t) => Duration::from_secs(t.trim_end_matches('s').parse().unwrap()),
        None => default,
    }
}

fn list_of(v: &Value, key: &str) -> Vec<Value> {
    v.get(key).and_then(|x| x.as_sequence()).cloned().unwrap_or_default()
}

fn field(v: &Value) -> HashKeyField {
    match v.as_str().unwrap() {
        "src_ip" => HashKeyField::SrcIp,
        "dst_ip" => HashKeyField::DstIp,
        "src_port" => HashKeyField::SrcPort,
        "dst_port" => HashKeyField::DstPort,
        "ipfix" => HashKeyField::Ipfix,
        _ => HashKeyField::IpfixTemplateId,
    }
}

fn backend(v: &Value) -> BackendConfig {
    BackendConfig {
        address: address(&text_of(v, "address").unwrap()),
        weight: v
            .get("weight")
            .map(|w| quantity(w.as_f64().unwrap()))
            .unwrap_or(Quantity { value: default_weight(), text: "1".to_string() }),
        preserve_src_address: flag_of(v, "preserve_src_address"),
        source_address: text_of(v, "source_address").map(|t| ip_text(&t)),
        fallback_source_address: text_of(v, "fallback_source_address").map(|t| ip_text(&t)),
        healthcheck: v.get("healthcheck").map(|h| HealthCheckConfig {
            url: text_of(h, "url").unwrap(),
            interval: seconds_of(h, "interval", default_check_interval()),
            timeout: seconds_of(h, "timeout", default_check_timeout()),
        }),
    }
}

fn mirror(v: &Value) -> MirrorConfig {
    MirrorConfig {
        address: address(&text_of(v, "address").unwrap()),
        preserve_src_address: flag_of(v, "preserve_src_address"),
        source_address: text_of(v, "source_address").map(|t| ip_text(&t)),
        fallback_source_address: text_of(v, "fallback_source_address").map(|t| ip_text(&t)),
        probability: v
            .get("probability")
            .map(|w| quantity(w.as_f64().unwrap()))
            .unwrap_or(Quantity { value: default_probability(), text: "1".to_string() }),
    }
}

fn balancer(v: &Value) -> BalancerConfig {
    BalancerConfig {
        algorithm: match text_of(v, "algorithm").as_deref() {
            Some("rh") => Algorithm::Rh,
            Some("maglev") => Algorithm::Maglev,
            Some("wrr") => Algorithm::Wrr,
            _ => Algorithm::default(),
        },
        hash_key: match v.get("hash_key") {
            Some(_) => list_of(v, "hash_key").iter().map(field).collect(),
            None => default_hash_key(),
        },
        proxy_timeout: seconds_of(v, "proxy_timeout", default_proxy_timeout()),
        backends: list_of(v, "backends").iter().map(backend).collect(),
    }
}

fn server(v: &Value) -> ServerConfig {
    ServerConfig {
        address: address(&text_of(v, "address").unwrap()),
        listener_mode: match text_of(v, "listener_mode").as_deref() {
            Some("standard") => ListenerMode::Standard,
            _ => ListenerMode::default(),
        },
        listener_workers: v.get("listener_workers").and_then(|x| x.as_u64()).unwrap_or(0) as u16,
        balancer: v.get("balancer").map(balancer),
        mirror: v
            .get("mirror")
            .map(|m| MirrorSectionConfig { targets: list_of(m, "targets").iter().map(mirror).collect() }),
    }
}

fn parsed(yaml: &str) -> Result<Config, String> {
    let v: Value = serde_yaml::from_str(yaml).map_err(|e| e.to_string())?;
    Ok(Config {
        status: address(&text_of(&v, "status").unwrap_or(default_status_addr())),
        servers: list_of(&v, "servers").iter().map(server).collect(),
    })
}

fn from_str(yaml: &str) -> Result<Config, ConfigError> {
    Config::from_str(parsed(yaml))
}

#[test]
fn test_parse_address_with_port_only() {
    let addr = parse_address(&address(":8080")).unwrap();
    assert_eq!(addr.port(), 8080);
    assert_eq!(addr.ip(), IpAddr::V6(Ipv6Addr { octets: [0; 16] }));
}

#[test]
fn test_parse_address_full() {
    let addr = parse_address(&address("127.0.0.1:8080")).unwrap();
    assert_eq!(addr.port(), 8080);
    assert_eq!(addr.ip(), IpAddr::V4(Ipv4Addr { octets: [127, 0, 0, 1] }));
}

#[test]
fn test_parse_address_invalid() {
    assert!(parse_address(&address("invalid")).is_err());
    assert!(parse_address(&address(":invalid")).is_err());
    assert_eq!(
        parse_socket_addr(&address("invalid")),
        Err("invalid address: invalid socket address syntax".to_string())
    );
    assert_eq!(
        parse_socket_addr(&address(":invalid")),
        Err("invalid port: invalid digit found in string".to_string())
    );
    assert_eq!(
        parse_socket_addr(&address(":")),
        Err("invalid port: cannot parse integer from empty string".to_string())
    );
    assert_eq!(
        parse_socket_addr(&address(":65536")),
        Err("invalid port: number too large to fit in target type".to_string())
    );
}

#[test]
fn test_config_minimal_balancer() {
    let yaml = r#"
servers:
  - address: ":2055"
    balancer:
      backends:
        - address: "10.0.0.1:2055"
"#;
    let config = from_str(yaml).unwrap();
    assert_eq!(config.servers.len(), 1);
    assert_eq!(config.status.text, ":8989");
    let balancer = config.servers[0].balancer.as_ref().unwrap();
    assert_eq!(balancer.algorithm, Algorithm::Wrr);
    assert_eq!(balancer.backends.len(), 1);
    assert_eq!(f(balancer.backends[0].weight.value), 1.0);
}

#[test]
fn test_config_rh_algorithm() {
    let yaml = r#"
servers:
  - address: ":2055"
    balancer:
      algorithm: rh
      hash_key:
        - src_ip
        - dst_ip
      backends:
        - address: "10.0.0.1:2055"
          weight: 2.0
"#;
    let config = from_str(yaml).unwrap();
    let balancer = config.servers[0].balancer.as_ref().unwrap();
    assert_eq!(balancer.algorithm, Algorithm::Rh);
    assert_eq!(balancer.hash_key.len(), 2);
    assert_eq!(balancer.hash_key[0], HashKeyField::SrcIp);
    assert_eq!(balancer.hash_key[1], HashKeyField::DstIp);
}

#[test]
fn test_config_mirror_only() {
    let yaml = r#"
servers:
  - address: ":514"
    mirror:
      targets:
        - address: "10.0.0.1:514"
        - address: "10.0.0.2:514"
          probability: 0.5
"#;
    let config = from_str(yaml).unwrap();
    assert!(config.servers[0].balancer.is_none());
    let mirror = config.servers[0].mirror.as_ref().unwrap();
    assert_eq!(mirror.targets.len(), 2);
    assert_eq!(f(mirror.targets[0].probability.value), 1.0);
    assert_eq!(f(mirror.targets[1].probability.value), 0.5);
}

#[test]
fn test_config_with_health_check() {
    let yaml = r#"
servers:
  - address: ":2055"
    balancer:
      backends:
        - address: "10.0.0.1:2055"
          healthcheck:
            url: "http://10.0.0.1:8080/health"
            interval: 10s
            timeout: 3s
"#;
    let config = from_str(yaml).unwrap();
    let backend = &config.servers[0].balancer.as_ref().unwrap().backends[0];
    let healthcheck = backend.healthcheck.as_ref().unwrap();
    assert_eq!(healthcheck.url, "http://10.0.0.1:8080/health");
    assert_eq!(healthcheck.interval, Duration::from_secs(10));
    assert_eq!(healthcheck.timeout, Duration::from_secs(3));
}

#[test]
fn test_config_preserve_src_address() {
    let yaml = r#"
servers:
  - address: ":50000"
    mirror:
      targets:
        - address: "127.0.0.1:50001"
          preserve_src_address: true
"#;
    let config = from_str(yaml).unwrap();
    let mirror = config.servers[0].mirror.as_ref().unwrap();
    assert!(mirror.targets[0].preserve_src_address);
}

#[test]
fn test_config_source_address() {
    let yaml = r#"
servers:
  - address: ":50000"
    mirror:
      targets:
        - address: "10.0.0.100:50000"
          source_address: "192.0.2.1"
"#;
    let config = from_str(yaml).unwrap();
    let mirror = config.servers[0].mirror.as_ref().unwrap();
    assert_eq!(mirror.targets[0].source_address.as_ref().unwrap().text, "192.0.2.1");
}

#[test]
fn test_validation_no_balancer_or_mirror() {
    let yaml = r#"
servers:
  - address: ":2055"
"#;
    let result = from_str(yaml);
    assert!(result.is_err());
    let err = result.unwrap_err().message();
    assert!(err.contains("must have at least one balancer or mirror"));
    assert_eq!(
        err,
        "validation error: server[0]: must have at least one balancer or mirror"
    );
}

#[test]
fn test_validation_empty_backends() {
    let yaml = r#"
servers:
  - address: ":2055"
    balancer:
      backends: []
"#;
    let result = from_str(yaml);
    assert!(result.is_err());
    let err = result.unwrap_err().message();
    assert!(err.contains("must have at least one backend"));
}

#[test]
fn test_validation_invalid_weight() {
    let yaml = r#"
servers:
  - address: ":2055"
    balancer:
      backends:
        - address: "10.0.0.1:2055"
          weight: -1.0
"#;
    let result = from_str(yaml);
    assert!(result.is_err());
    let err = result.unwrap_err().message();
    assert!(err.contains("weight must be positive"));
    assert_eq!(
        err,
        "validation error: server[0].backend[0]: weight must be positive, got -1"
    );
}

#[test]
fn test_validation_invalid_probability() {
    let yaml = r#"
servers:
  - address: ":514"
    mirror:
      targets:
        - address: "10.0.0.1:514"
          probability: 1.5
"#;
    let result = from_str(yaml);
    assert!(result.is_err());
    let err = result.unwrap_err().message();
    assert!(err.contains("probability must be between 0.0 and 1.0"));
    assert_eq!(
        err,
        "validation error: server[0].mirror.targets[0]: probability must be between 0.0 and 1.0, \
         got 1.5"
    );
}

#[test]
fn what_is_not_a_number_is_refused() {
    let yaml = r#"
servers:
  - address: ":514"
    mirror:
      targets:
        - address: "10.0.0.1:514"
          probability: .nan
"#;
    assert_eq!(
        from_str(yaml).unwrap_err().message(),
        "validation error: server[0].mirror.targets[0]: probability must be between 0.0 and 1.0, \
         got NaN"
    );
    let yaml = r#"
servers:
  - address: ":2055"
    balancer:
      backends:
        - address: "10.0.0.1:2055"
          weight: .nan
"#;
    assert_eq!(
        from_str(yaml).unwrap_err().message(),
        "validation error: server[0].backend[0]: weight must be positive, got NaN"
    );
}

#[test]
fn test_validation_both_preserve_and_fake() {
    let yaml = r#"
servers:
  - address: ":514"
    mirror:
      targets:
        - address: "10.0.0.1:514"
          preserve_src_address: true
          source_address: "192.0.2.1"
"#;
    let result = from_str(yaml);
    assert!(result.is_err());
    let err = result.unwrap_err().message();
    assert!(err.contains("cannot use both preserve_src_address and source_address"));
}

#[test]
fn test_validation_ipv6_source_to_ipv4_backend() {
    let yaml = r#"
servers:
  - address: ":2055"
    balancer:
      backends:
        - address: "10.0.0.1:2055"
          source_address: "::1"
"#;
    let result = from_str(yaml);
    assert!(result.is_err());
    let err = result.unwrap_err().message();
    assert!(err.contains("IPv6 source_address cannot be used with IPv4 backend"));
}

#[test]
fn test_validation_ipv4_source_to_ipv6_backend() {
    let yaml = r#"
servers:
  - address: ":2055"
    balancer:
      backends:
        - address: "[::1]:2055"
          source_address: "192.0.2.1"
"#;
    let result = from_str(yaml);
    assert!(result.is_ok());
}

#[test]
fn test_validation_ipv6_source_to_ipv4_mirror() {
    let yaml = r#"
servers:
  - address: ":514"
    mirror:
      targets:
        - address: "10.0.0.1:514"
          source_address: "::1"
"#;
    let result = from_str(yaml);
    assert!(result.is_err());
    let err = result.unwrap_err().message();
    assert!(err.contains("IPv6 source_address cannot be used with IPv4 mirror"));
}

#[test]
fn test_validation_ipv4_source_to_ipv6_mirror() {
    let yaml = r#"
servers:
  - address: ":514"
    mirror:
      targets:
        - address: "[::1]:514"
          source_address: "192.0.2.1"
"#;
    let result = from_str(yaml);
    assert!(result.is_ok());
}

#[test]
fn test_validation_invalid_healthcheck_url() {
    let yaml = r#"
servers:
  - address: ":2055"
    balancer:
      backends:
        - address: "10.0.0.1:2055"
          healthcheck:
            url: "ftp://invalid"
"#;
    let result = from_str(yaml);
    assert!(result.is_err());
    let err = result.unwrap_err().message();
    assert!(err.contains("healthcheck.url must start with http://"));
}

#[test]
fn test_validation_rh_empty_hash_key() {
    let yaml = r#"
servers:
  - address: ":2055"
    balancer:
      algorithm: rh
      hash_key: []
      backends:
        - address: "10.0.0.1:2055"
"#;
    let result = from_str(yaml);
    assert!(result.is_err());
    let err = result.unwrap_err().message();
    assert!(err.contains("rh algorithm requires at least one hash_key"));
}

#[test]
fn test_validation_maglev_empty_hash_key() {
    let yaml = r#"
servers:
  - address: ":2055"
    balancer:
      algorithm: maglev
      hash_key: []
      backends:
        - address: "10.0.0.1:2055"
"#;
    let result = from_str(yaml);
    assert!(result.is_err());
    let err = result.unwrap_err().message();
    assert!(err.contains("maglev algorithm requires at least one hash_key"));
}

#[test]
fn test_config_maglev_algorithm() {
    let yaml = r#"
servers:
  - address: ":2055"
    balancer:
      algorithm: maglev
      hash_key:
        - src_ip
      backends:
        - address: "10.0.0.1:2055"
          weight: 1.0
"#;
    let config = from_str(yaml).unwrap();
    let balancer = config.servers[0].balancer.as_ref().unwrap();
    assert_eq!(balancer.algorithm, Algorithm::Maglev);
    assert_eq!(balancer.hash_key.len(), 1);
    assert_eq!(balancer.hash_key[0], HashKeyField::SrcIp);
}

#[test]
fn test_validation_zero_proxy_timeout() {
    let yaml = r#"
servers:
  - address: ":2055"
    balancer:
      proxy_timeout: 0s
      backends:
        - address: "10.0.0.1:2055"
"#;
    let result = from_str(yaml);
    assert!(result.is_err());
    let err = result.unwrap_err().message();
    assert!(err.contains("proxy_timeout must be greater than 0"));
}

#[test]
fn test_validation_listener_workers_range() {
    let yaml = r#"
servers:
  - address: ":2055"
    listener_workers: 2000
    balancer:
      backends:
        - address: "10.0.0.1:2055"
"#;
    let result = from_str(yaml);
    assert!(result.is_err());
    let err = result.unwrap_err().message();
    assert!(err.contains("listener_workers must be 0-1024"));
    assert_eq!(
        err,
        "validation error: server[0]: listener_workers must be 0-1024, got 2000"
    );
}

#[test]
fn test_default_hash_key_for_rh() {
    let yaml = r#"
servers:
  - address: ":2055"
    balancer:
      algorithm: rh
      backends:
        - address: "10.0.0.1:2055"
"#;
    let config = from_str(yaml).unwrap();
    let balancer = config.servers[0].balancer.as_ref().unwrap();
    assert_eq!(balancer.hash_key.len(), 4);
}

#[test]
fn test_proxy_timeout_parsing() {
    let yaml = r#"
servers:
  - address: ":2055"
    balancer:
      proxy_timeout: 60s
      backends:
        - address: "10.0.0.1:2055"
"#;
    let config = from_str(yaml).unwrap();
    let balancer = config.servers[0].balancer.as_ref().unwrap();
    assert_eq!(balancer.proxy_timeout, Duration::from_secs(60));
}

#[test]
fn test_app_creation() {
    let config = from_str(
        r#"
servers:
  - address: ":2055"
    balancer:
      backends:
        - address: "127.0.0.1:2055"
"#,
    )
    .unwrap();
    let app = App::new(config);
    assert_eq!(app.config.servers.len(), 1);
}

fn refusal(yaml: &str) -> String {
    from_str(yaml).unwrap_err().message()
}

#[test]
fn every_refusal_in_words() {
    assert_eq!(
        refusal("status: nowhere\n"),
        "validation error: invalid status address 'nowhere': invalid address: invalid socket \
         address syntax"
    );
    assert_eq!(
        refusal("servers:\n  - address: \":x\"\n"),
        "validation error: server[0]: invalid address ':x': invalid port: invalid digit found in \
         string"
    );
    let backend = |lines: &str| {
        refusal(&format!(
            "servers:\n  - address: \":1\"\n    balancer:\n      backends:\n        - address: \
             \"10.0.0.1:1\"\n        - address: \"10.0.0.2:2\"\n{}",
            lines
        ))
    };
    let at = "validation error: server[0].backend[1]: ";
    assert_eq!(
        backend("          fallback_source_address: \"192.0.2.1\"\n"),
        format!("{}fallback_source_address requires preserve_src_address", at)
    );
    assert_eq!(
        backend(
            "          preserve_src_address: true\n          fallback_source_address: \"bad\"\n"
        ),
        format!("{}invalid fallback_source_address 'bad': invalid IP address syntax", at)
    );
    assert_eq!(
        backend(
            "          preserve_src_address: true\n          fallback_source_address: \"::1\"\n"
        ),
        format!("{}fallback_source_address must be IPv4", at)
    );
    assert_eq!(
        backend("          source_address: \"bad\"\n"),
        format!("{}invalid source_address 'bad': invalid IP address syntax", at)
    );
    assert_eq!(
        backend("          healthcheck:\n            url: \"http://x\"\n            interval: 0s\n"),
        format!("{}healthcheck.interval must be greater than 0", at)
    );
    assert_eq!(
        backend("          healthcheck:\n            url: \"https://x\"\n            timeout: 0s\n"),
        format!("{}healthcheck.timeout must be greater than 0", at)
    );
    assert_eq!(
        refusal(
            "servers:\n  - address: \":1\"\n    mirror:\n      targets:\n        - address: \
             \"10.0.0.1:x\"\n"
        ),
        "validation error: server[0].mirror.targets[0]: invalid address '10.0.0.1:x': invalid \
         address: invalid socket address syntax"
    );
}

#[test]
fn files_that_cannot_be_read_or_parsed() {
    let unread = Config::from_file(Err("no such file".to_string()));
    assert_eq!(
        unread.unwrap_err().message(),
        "failed to read config file: no such file"
    );
    let unparsed = Config::from_file(Ok(Err("line 3".to_string())));
    assert_eq!(unparsed.unwrap_err().message(), "failed to parse config: line 3");
    let good = Config::from_file(Ok(parsed("servers: []\n")));
    assert_eq!(good.unwrap().servers.len(), 0);
}

#[test]
fn defaults() {
    assert_eq!(default_status_addr(), ":8989");
    assert_eq!(default_proxy_timeout(), Duration::from_secs(30));
    assert_eq!(default_check_interval(), Duration::from_secs(5));
    assert_eq!(default_check_timeout(), Duration::from_secs(2));
    assert_eq!(f(default_weight()), 1.0);
    assert_eq!(f(default_probability()), 1.0);
    assert_eq!(Algorithm::default(), Algorithm::Wrr);
    assert_eq!(ListenerMode::default(), ListenerMode::Batch);
    assert_eq!(
        default_hash_key(),
        vec![
            HashKeyField::SrcIp,
            HashKeyField::DstIp,
            HashKeyField::SrcPort,
            HashKeyField::DstPort
        ]
    );
}

#[test]
fn a_plan_holds_what_is_configured() {
    let config = from_str(
        r#"
status: "127.0.0.1:9000"
servers:
  - address: ":514"
    listener_mode: standard
    balancer:
      algorithm: maglev
      hash_key: [src_ip]
      backends:
        - address: "10.0.0.1:514"
          weight: 2.5
          preserve_src_address: true
          fallback_source_address: "192.0.2.100"
          healthcheck:
            url: "http://10.0.0.1/"
        - address: "[::1]:514"
    mirror:
      targets:
        - address: "10.0.0.9:514"
          source_address: "192.0.2.1"
          probability: 0.1
  - address: ":515"
    listener_workers: 4
    balancer:
      backends:
        - address: "10.0.0.1:515"
    mirror:
      targets: []
"#,
    )
    .unwrap();
    let plan = App::new(config).plan().unwrap();
    assert_eq!(plan.status.port(), 9000);
    assert_eq!(plan.servers.len(), 2);
    let first = &plan.servers[0];
    assert_eq!(first.listener_addr, ":514");
    assert_eq!(first.listener_mode, ListenerMode::Standard);
    let balancer = first.balancer.as_ref().unwrap();
    assert_eq!(balancer.algorithm, Algorithm::Maglev);
    assert_eq!(balancer.hash_key, vec![HashKeyField::SrcIp]);
    assert_eq!(balancer.proxy_timeout, Duration::from_secs(30));
    let target = balancer.backends[0].target;
    assert_eq!(f(target.weight), 2.5);
    assert_eq!(f(target.probability), 1.0);
    assert_eq!(
        target.mode,
        udp_balancer::balancer::backend::SendMode::PreserveSrcAddr {
            fallback_ipv4: Some(Ipv4Addr { octets: [192, 0, 2, 100] })
        }
    );
    let check = balancer.backends[0].check.as_ref().unwrap();
    assert_eq!(check.url, "http://10.0.0.1/");
    assert_eq!(check.interval, Duration::from_secs(5));
    assert_eq!(check.timeout, Duration::from_secs(2));
    assert_eq!(check.listener_addr, ":514");
    assert_eq!(check.backend_addr, "10.0.0.1:514");
    assert!(check.alive);
    assert!(balancer.backends[1].check.is_none());
    let mirrors = first.mirror.as_ref().unwrap();
    assert_eq!(mirrors.len(), 1);
    assert_eq!(f(mirrors[0].probability), 0.1);
    assert_eq!(
        mirrors[0].mode,
        udp_balancer::balancer::backend::SendMode::FakeSrcAddr(IpAddr::V4(Ipv4Addr {
            octets: [192, 0, 2, 1]
        }))
    );
    let second = &plan.servers[1];
    assert_eq!(second.listener_mode, ListenerMode::Batch);
    assert_eq!(second.listener_workers, 4);
    assert!(second.mirror.is_none());
}

#[test]
fn a_configuration_that_was_not_checked_may_not_plan() {
    let mut config = parsed("servers:\n  - address: \":1\"\n").unwrap();
    config.servers[0].address = address("bad");
    assert_eq!(
        App::new(config).plan().unwrap_err(),
        "invalid address: invalid socket address syntax"
    );
    let config = parsed(
        "servers:\n  - address: \":1\"\n    mirror:\n      targets:\n        - address: \
         \"10.0.0.1:1\"\n          preserve_src_address: true\n          fallback_source_address: \
         \"::1\"\n",
    )
    .unwrap();
    assert_eq!(App::new(config).plan().unwrap_err(), "invalid IPv4 address syntax");
}
