use prometheus::proto::{MetricFamily, MetricType};
use prometheus::{Histogram, HistogramOpts, IntCounterVec, IntGauge, Opts, Registry};
use udp_balancer::metrics::{
    exposed, gather_metrics, get_backend_stats, get_listener_stats, get_mirror_stats,
    init_metrics, BackendStats, MirrorStats,
};

#[test]
fn test_packets_received_metric() {
    let mut m = init_metrics();
    m.packets_received.inc(&[":2055"]);
    assert_eq!(m.packets_received.get(&[":2055"]), 1);
}

#[test]
fn test_bytes_received_metric() {
    let mut m = init_metrics();
    m.bytes_received.inc_by(&[":2055"], 100);
    assert_eq!(m.bytes_received.get(&[":2055"]), 100);
}

#[test]
fn test_balancer_packets_sent_metric() {
    let mut m = init_metrics();
    m.balancer_packets_sent.inc(&[":2055", "10.0.0.1:2055"]);
    assert_eq!(m.balancer_packets_sent.get(&[":2055", "10.0.0.1:2055"]), 1);
}

#[test]
fn test_balancer_bytes_sent_metric() {
    let mut m = init_metrics();
    m.balancer_bytes_sent.inc_by(&[":2055", "10.0.0.1:2055"], 512);
    assert_eq!(m.balancer_bytes_sent.get(&[":2055", "10.0.0.1:2055"]), 512);
}

#[test]
fn test_backend_alive_gauge() {
    let mut m = init_metrics();
    m.balancer_backend_alive.set(&[":2055", "10.0.0.1:2055"], 1);
    assert_eq!(m.balancer_backend_alive.get(&[":2055", "10.0.0.1:2055"]), 1);
    m.balancer_backend_alive.set(&[":2055", "10.0.0.1:2055"], 0);
    assert_eq!(m.balancer_backend_alive.get(&[":2055", "10.0.0.1:2055"]), 0);
}

#[test]
fn test_mirror_metrics() {
    let mut m = init_metrics();
    m.mirror_packets_sent.inc(&[":514", "10.0.0.1:514"]);
    m.mirror_bytes_sent.inc_by(&[":514", "10.0.0.1:514"], 256);
    m.mirror_packets_failed.inc(&[":514", "10.0.0.2:514"]);

    assert_eq!(m.mirror_packets_sent.get(&[":514", "10.0.0.1:514"]), 1);
    assert_eq!(m.mirror_bytes_sent.get(&[":514", "10.0.0.1:514"]), 256);
    assert_eq!(m.mirror_packets_failed.get(&[":514", "10.0.0.2:514"]), 1);
}

#[test]
fn test_health_check_metrics() {
    let mut m = init_metrics();
    m.health_check_total.inc(&[":2055", "10.0.0.1:2055"]);
    m.health_check_failed.inc(&[":2055", "10.0.0.1:2055"]);

    assert_eq!(m.health_check_total.get(&[":2055", "10.0.0.1:2055"]), 1);
    assert_eq!(m.health_check_failed.get(&[":2055", "10.0.0.1:2055"]), 1);
}

#[test]
fn test_gather_metrics() {
    let mut m = init_metrics();
    m.packets_received.inc(&["test_gather"]);
    m.bytes_received.inc(&["test_gather"]);
    m.balancer_packets_sent.inc(&["test_gather", "backend"]);
    m.balancer_backend_alive.set(&["test_gather", "backend"], 1);

    let output = gather_metrics(&m);
    assert!(output.contains("udp_balancer_packets_received_total"), "output: {}", output);
    assert!(output.contains("udp_balancer_bytes_received_total"), "output: {}", output);
    assert!(output.contains("udp_balancer_backend_packets_sent_total"), "output: {}", output);
    assert!(output.contains("udp_balancer_backend_alive"), "output: {}", output);
}

#[test]
fn every_metric_is_exposed_under_its_name() {
    let mut m = init_metrics();
    m.received("l", 10);
    m.replied("l", 20);
    m.forwarded("l", "b", 30);
    m.forward_failed("l", "b");
    m.answered("l", "b", 40);
    m.mirrored("l", "m", 50);
    m.mirror_failed("l", "m");
    m.health_check_total.inc(&["l", "b"]);
    m.health_check_failed.inc(&["l", "b"]);
    m.balancer_backend_alive.set(&["l", "b"], 1);
    let output = gather_metrics(&m);
    for line in [
        "udp_balancer_packets_received_total{listener=\"l\"} 1",
        "udp_balancer_bytes_received_total{listener=\"l\"} 10",
        "udp_balancer_packets_sent_total{listener=\"l\"} 1",
        "udp_balancer_bytes_sent_total{listener=\"l\"} 20",
        "udp_balancer_backend_packets_sent_total{backend=\"b\",listener=\"l\"} 1",
        "udp_balancer_backend_bytes_sent_total{backend=\"b\",listener=\"l\"} 30",
        "udp_balancer_backend_packets_failed_total{backend=\"b\",listener=\"l\"} 1",
        "udp_balancer_backend_responses_received_total{backend=\"b\",listener=\"l\"} 1",
        "udp_balancer_backend_response_bytes_received_total{backend=\"b\",listener=\"l\"} 40",
        "udp_balancer_backend_alive{backend=\"b\",listener=\"l\"} 1",
        "udp_balancer_mirror_packets_sent_total{listener=\"l\",mirror=\"m\"} 1",
        "udp_balancer_mirror_bytes_sent_total{listener=\"l\",mirror=\"m\"} 50",
        "udp_balancer_mirror_packets_failed_total{listener=\"l\",mirror=\"m\"} 1",
        "udp_balancer_health_check_total{backend=\"b\",listener=\"l\"} 1",
        "udp_balancer_health_check_failed_total{backend=\"b\",listener=\"l\"} 1",
    ] {
        assert!(output.contains(line), "{} in {}", line, output);
    }
}

#[test]
fn metrics_can_be_set_up_more_than_once() {
    let mut first = init_metrics();
    let second = init_metrics();
    first.received("l", 7);
    assert_eq!(gather_metrics(&second), "");
    assert_eq!(get_listener_stats(&first, "l"), (1, 7, 0, 0));
    assert_eq!(get_listener_stats(&second, "l"), (0, 0, 0, 0));
    assert!(gather_metrics(&first).contains("udp_balancer_bytes_received_total{listener=\"l\"} 7\n"));
}

#[test]
fn stats_read_back_what_was_counted() {
    let mut m = init_metrics();
    assert_eq!(get_listener_stats(&m, "l"), (0, 0, 0, 0));
    assert_eq!(get_backend_stats(&m, "l", "b"), BackendStats::default());
    assert_eq!(get_mirror_stats(&m, "l", "m"), MirrorStats::default());
    m.received("l", 100);
    m.received("l", 50);
    m.replied("l", 70);
    m.forwarded("l", "b", 150);
    m.forward_failed("l", "b");
    m.answered("l", "b", 70);
    m.mirrored("l", "m", 150);
    m.mirror_failed("l", "m");
    assert_eq!(get_listener_stats(&m, "l"), (2, 150, 1, 70));
    assert_eq!(
        get_backend_stats(&m, "l", "b"),
        BackendStats { tx_packets: 1, tx_bytes: 150, tx_failed: 1, rx_packets: 1, rx_bytes: 70 }
    );
    assert_eq!(
        get_mirror_stats(&m, "l", "m"),
        MirrorStats { tx_packets: 1, tx_bytes: 150, tx_failed: 1 }
    );
    // Other labels stand where they stood.
    assert_eq!(get_listener_stats(&m, "other"), (0, 0, 0, 0));
    assert_eq!(get_backend_stats(&m, "l", "other"), BackendStats::default());
}

#[test]
fn counters_are_found_by_their_labels_run_together() {
    let mut m = init_metrics();
    m.forwarded("ab", "c", 1);
    assert_eq!(get_backend_stats(&m, "a", "bc").tx_packets, 1);
    assert_eq!(get_backend_stats(&m, "a", "b").tx_packets, 0);
}

#[test]
fn counters_come_round_past_the_largest_number() {
    let mut m = init_metrics();
    m.bytes_received.inc_by(&["l"], u64::MAX);
    m.bytes_received.inc_by(&["l"], 3);
    assert_eq!(m.bytes_received.get(&["l"]), 2);
    // Another number of labels names no counter.
    assert_eq!(m.bytes_received.get(&["l", "b"]), 0);
}

/// One counter that stands at three.
fn counted_family() -> MetricFamily {
    let counters = IntCounterVec::new(Opts::new("seen_total", "Things seen"), &["kind"]).unwrap();
    counters.with_label_values(&["a"]).inc_by(3);
    let registry = Registry::new();
    registry.register(Box::new(counters)).unwrap();
    registry.gather().remove(0)
}

#[test]
fn families_are_exposed_one_after_the_other() {
    let level = IntGauge::new("level", "How high").unwrap();
    level.set(-2);
    let registry = Registry::new();
    registry.register(Box::new(level)).unwrap();
    let families = vec![counted_family(), registry.gather().remove(0)];
    assert_eq!(
        exposed(&families).unwrap(),
        "# HELP seen_total Things seen\n# TYPE seen_total counter\nseen_total{kind=\"a\"} 3\n\
         # HELP level How high\n# TYPE level gauge\nlevel -2\n"
    );
}

#[test]
fn no_families_are_no_text() {
    assert_eq!(exposed(&vec![]), Some(String::new()));
}

#[test]
fn histograms_and_summaries_are_exposed_as_such() {
    let spread = Histogram::with_opts(HistogramOpts::new("spread", "How wide")).unwrap();
    let registry = Registry::new();
    registry.register(Box::new(spread)).unwrap();
    let text = exposed(&registry.gather()).unwrap();
    assert!(text.contains("# TYPE spread histogram\n"), "text: {}", text);

    let mut family = counted_family();
    family.set_field_type(MetricType::SUMMARY);
    let text = exposed(&vec![family]).unwrap();
    assert!(text.contains("# TYPE seen_total summary\n"), "text: {}", text);
}

#[test]
fn families_without_a_form_are_not_exposed() {
    let mut nameless = counted_family();
    nameless.set_name(String::new());
    assert_eq!(exposed(&vec![counted_family(), nameless]), None);

    let mut untyped = counted_family();
    untyped.set_field_type(MetricType::UNTYPED);
    assert_eq!(exposed(&vec![untyped, counted_family()]), None);

    let mut unsampled = counted_family();
    unsampled.set_metric(vec![]);
    assert_eq!(exposed(&vec![unsampled]), None);
}

#[test]
fn gathered_families_come_in_the_order_of_their_names() {
    let mut m = init_metrics();
    m.received("order", 1);
    m.mirrored("order", "m", 1);
    m.forwarded("order", "b", 1);
    let output = gather_metrics(&m);
    let names: Vec<&str> = output
        .lines()
        .filter(|line| line.starts_with("# TYPE "))
        .map(|line| line.split(' ').nth(2).unwrap())
        .collect();
    assert!(names.len() >= 6);
    assert!(names.windows(2).all(|pair| pair[0] < pair[1]), "names: {:?}", names);
}
