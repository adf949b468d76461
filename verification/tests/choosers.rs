use std::collections::HashMap;
use udp_balancer::balancer::algorithm::Algorithm;
use udp_balancer::balancer::backend::{SendMode, UdpBackend};
use udp_balancer::balancer::maglev::Maglev;
use udp_balancer::balancer::rh::{select_best, RendezvousHashing};
use udp_balancer::balancer::wrr::{gcd_number, WeightedRoundRobin};
use udp_balancer::net::{IpAddr, Ipv4Addr, Ipv6Addr, SocketAddr};
use udp_balancer::number::Number;

fn n(x: f64) -> Number {
    Number::from_bits(x.to_bits())
}

fn f(x: Number) -> f64 {
    f64::from_bits(x.to_bits())
}

fn rest(a: Number, b: Number) -> Number {
    n(f(a) % f(b))
}

fn lower(a: Number, b: Number) -> Number {
    n(f(a) - f(b))
}

fn repetitions(a: Number, b: Number) -> usize {
    (f(a) / f(b)).round() as usize
}

fn score(hash: u64, weight: Number) -> Number {
    let normalized = (hash as f64) / (u64::MAX as f64);
    n((-normalized.ln()).powf(1.0 / f(weight)))
}

fn backends_from(first_port: u16, weights: &[f64]) -> Vec<UdpBackend> {
    let ip = IpAddr::V4(Ipv4Addr { octets: [127, 0, 0, 1] });
    weights
        .iter()
        .enumerate()
        .map(|(i, w)| {
            let port = first_port + i as u16;
            let label = format!("127.0.0.1:{}", port);
            UdpBackend::new(
                SocketAddr::new(ip, port),
                label,
                SendMode::Standard,
                n(1.0),
                n(*w),
                Ok(()),
            )
            .unwrap()
        })
        .collect()
}

fn create_backends(weights: &[f64]) -> Vec<UdpBackend> {
    backends_from(10000, weights)
}

fn create_backends_ipv6(first_port: u16, weights: &[f64]) -> Vec<UdpBackend> {
    let mut octets = [0u8; 16];
    octets[15] = 1;
    let ip = IpAddr::V6(Ipv6Addr { octets });
    weights
        .iter()
        .enumerate()
        .map(|(i, w)| {
            let port = first_port + i as u16;
            let label = format!("[::1]:{}", port);
            UdpBackend::new(
                SocketAddr::new(ip, port),
                label,
                SendMode::Standard,
                n(1.0),
                n(*w),
                Ok(()),
            )
            .unwrap()
        })
        .collect()
}

fn wrr(weights: &[f64]) -> WeightedRoundRobin {
    WeightedRoundRobin::new(create_backends(weights), &rest)
}

#[test]
fn test_wrr_single_backend() {
    let mut wrr = wrr(&[1.0]);
    for _ in 0..10 {
        assert_eq!(wrr.next(&lower), Some(0));
    }
}

#[test]
fn test_wrr_equal_weights() {
    let mut wrr = wrr(&[1.0, 1.0, 1.0]);
    let mut counts = [0usize; 3];
    for _ in 0..300 {
        counts[wrr.next(&lower).unwrap()] += 1;
    }
    for count in counts {
        assert!(count > 80 && count < 120);
    }
    assert_eq!(counts, [100, 100, 100]);
}

#[test]
fn test_wrr_weighted_distribution() {
    let mut wrr = wrr(&[2.0, 1.0]);
    let mut counts = [0usize; 2];
    for _ in 0..300 {
        counts[wrr.next(&lower).unwrap()] += 1;
    }
    assert!(counts[0] > counts[1]);
    assert_eq!(counts, [200, 100]);
}

#[test]
fn test_wrr_backend_failure() {
    let mut wrr = wrr(&[1.0, 1.0]);
    wrr.set_alive(0, false);
    for _ in 0..10 {
        assert_eq!(wrr.next(&lower), Some(1));
    }
}

#[test]
fn test_wrr_all_backends_down() {
    let mut wrr = wrr(&[1.0, 1.0]);
    wrr.set_alive(0, false);
    wrr.set_alive(1, false);
    assert!(wrr.next(&lower).is_none());
}

#[test]
fn test_wrr_empty() {
    let mut wrr = wrr(&[]);
    assert!(wrr.next(&lower).is_none());
    assert!(wrr.backends().is_empty());
}

#[test]
fn test_wrr_len() {
    let wrr = wrr(&[1.0, 2.0, 3.0]);
    assert_eq!(wrr.backends().len(), 3);
}

#[test]
fn wrr_goes_through_each_round_in_order() {
    let mut wrr = wrr(&[3.0, 1.0, 2.0]);
    let turns: Vec<usize> = (0..12).map(|_| wrr.next(&lower).unwrap()).collect();
    assert_eq!(turns, vec![0, 0, 2, 0, 1, 2, 0, 0, 2, 0, 1, 2]);
}

#[test]
fn wrr_passes_over_backends_that_are_down() {
    let mut wrr = wrr(&[3.0, 1.0, 2.0]);
    wrr.set_alive(0, false);
    let turns: Vec<usize> = (0..6).map(|_| wrr.next(&lower).unwrap()).collect();
    assert_eq!(turns, vec![2, 1, 2, 2, 1, 2]);
}

#[test]
fn wrr_without_weights_chooses_nobody() {
    let mut wrr = wrr(&[0.0, 0.0]);
    assert!(wrr.next(&lower).is_none());
}

#[test]
fn wrr_spreads_over_light_backends_when_the_heavy_one_is_down() {
    let mut wrr = wrr(&[1.0, 0.00005, 0.00005]);
    assert_eq!(wrr.next(&lower), Some(0));
    wrr.set_alive(0, false);
    let turns: Vec<usize> = (0..6).map(|_| wrr.next(&lower).unwrap()).collect();
    assert_eq!(turns, vec![1, 2, 1, 2, 1, 2]);
    wrr.set_alive(0, true);
    let turns: Vec<usize> = (0..3).map(|_| wrr.next(&lower).unwrap()).collect();
    assert_eq!(turns, vec![0, 0, 0]);
}

#[test]
fn wrr_goes_on_when_the_threshold_gets_stuck() {
    let mut wrr = wrr(&[1e17, 1.0, 1.0]);
    wrr.set_alive(0, false);
    let turns: Vec<usize> = (0..4).map(|_| wrr.next(&lower).unwrap()).collect();
    assert_eq!(turns, vec![1, 2, 1, 2]);

    let mut endless = self::wrr(&[f64::INFINITY, 2.0, 1.0]);
    assert_eq!(endless.next(&lower), Some(0));
    endless.set_alive(0, false);
    let turns: Vec<usize> = (0..4).map(|_| endless.next(&lower).unwrap()).collect();
    assert_eq!(turns, vec![1, 2, 1, 2]);
}

#[test]
fn wrr_keeps_the_proportion_in_every_window() {
    let weights = [6.0, 2.0, 4.0];
    let mut wrr = wrr(&weights);
    let turns: Vec<usize> = (0..60).map(|_| wrr.next(&lower).unwrap()).collect();
    for window in turns.windows(6) {
        for (i, share) in [3, 1, 2].iter().enumerate() {
            assert_eq!(window.iter().filter(|t| **t == i).count(), *share);
        }
    }
}

#[test]
fn common_divisors_of_weights() {
    assert_eq!(f(gcd_number(n(12.0), n(8.0), &rest)), 4.0);
    assert_eq!(f(gcd_number(n(0.0), n(2.5), &rest)), 2.5);
    assert_eq!(f(gcd_number(n(7.0), n(0.0), &rest)), 7.0);
    assert_eq!(f(gcd_number(n(1.5), n(1.0), &rest)), 0.5);
}

#[test]
fn test_rh_consistency() {
    let rh = RendezvousHashing::new(create_backends(&[1.0, 1.0, 1.0]));
    let first = rh.next(b"test_key", &score).unwrap();
    for _ in 0..100 {
        assert_eq!(rh.next(b"test_key", &score).unwrap(), first);
    }
}

#[test]
fn test_rh_different_keys() {
    let rh = RendezvousHashing::new(create_backends(&[1.0, 1.0, 1.0]));
    let mut results: HashMap<usize, usize> = HashMap::new();
    for i in 0..1000 {
        let key = format!("key_{}", i);
        *results.entry(rh.next(key.as_bytes(), &score).unwrap()).or_insert(0) += 1;
    }
    assert!(results.len() > 1);
}

#[test]
fn test_rh_single_backend() {
    let rh = RendezvousHashing::new(create_backends(&[1.0]));
    for i in 0..10 {
        let key = format!("key_{}", i);
        assert_eq!(rh.next(key.as_bytes(), &score), Some(0));
    }
}

#[test]
fn test_rh_backend_failure_minimal_redistribution() {
    let mut rh = RendezvousHashing::new(create_backends(&[1.0, 1.0, 1.0]));
    let mut before: HashMap<Vec<u8>, usize> = HashMap::new();
    for i in 0..100 {
        let key = format!("key_{}", i).into_bytes();
        let chosen = rh.next(&key, &score).unwrap();
        before.insert(key, chosen);
    }

    rh.set_alive(0, false);

    let mut redistributed = 0;
    for (key, old) in &before {
        let new = rh.next(key, &score).unwrap();
        if *old == 0 {
            assert_ne!(new, *old);
            redistributed += 1;
        } else {
            assert_eq!(new, *old);
        }
    }
    assert!(redistributed > 0);

    rh.set_alive(0, true);
    for (key, old) in &before {
        assert_eq!(rh.next(key, &score).unwrap(), *old);
    }
}

#[test]
fn test_rh_all_backends_down() {
    let mut rh = RendezvousHashing::new(create_backends(&[1.0, 1.0]));
    rh.set_alive(0, false);
    rh.set_alive(1, false);
    assert!(rh.next(b"key", &score).is_none());
}

#[test]
fn test_rh_empty() {
    let rh = RendezvousHashing::new(vec![]);
    assert!(rh.next(b"key", &score).is_none());
    assert!(rh.backends().is_empty());
}

#[test]
fn test_rh_weighted_distribution() {
    let rh = RendezvousHashing::new(create_backends(&[10.0, 1.0]));
    let mut counts = [0usize; 2];
    for i in 0..10000 {
        let key = format!("key_{}", i);
        counts[rh.next(key.as_bytes(), &score).unwrap()] += 1;
    }
    assert!(counts[0] > counts[1], "count0={} count1={}", counts[0], counts[1]);
}

#[test]
fn test_rh_len() {
    let rh = RendezvousHashing::new(create_backends(&[1.0, 2.0, 3.0]));
    assert_eq!(rh.backends().len(), 3);
}

#[test]
fn test_rh_consistency_ipv6() {
    let rh = RendezvousHashing::new(create_backends_ipv6(10000, &[1.0, 1.0, 1.0]));
    let first = rh.next(b"test_key", &score).unwrap();
    for _ in 0..100 {
        assert_eq!(rh.next(b"test_key", &score).unwrap(), first);
    }
}

#[test]
fn test_rh_different_keys_ipv6() {
    let rh = RendezvousHashing::new(create_backends_ipv6(10000, &[1.0, 1.0, 1.0]));
    let mut results: HashMap<usize, usize> = HashMap::new();
    for i in 0..1000 {
        let key = format!("key_{}", i);
        *results.entry(rh.next(key.as_bytes(), &score).unwrap()).or_insert(0) += 1;
    }
    assert!(results.len() > 1);
}

#[test]
fn test_rh_backend_failure_ipv6() {
    let mut rh = RendezvousHashing::new(create_backends_ipv6(10000, &[1.0, 1.0, 1.0]));
    let initial = rh.next(b"test_key", &score).unwrap();
    rh.set_alive(0, false);
    let after_failure = rh.next(b"test_key", &score).unwrap();
    if initial == 0 {
        assert_ne!(after_failure, initial);
    }
}

#[test]
fn rh_scores_are_those_of_the_joint_hash() {
    let backends = create_backends(&[1.0, 2.0]);
    let rh = RendezvousHashing::new(backends);
    // The hash of "k127.0.0.1:10000" and that of "k127.0.0.1:10001".
    let hash = |text: &str| {
        let mut h: u64 = 0xcbf2_9ce4_8422_2325;
        for b in text.bytes() {
            h = (h ^ b as u64).wrapping_mul(0x0100_0000_01b3);
        }
        h
    };
    let first = score(hash("k127.0.0.1:10000"), n(1.0));
    let second = score(hash("k127.0.0.1:10001"), n(2.0));
    let expected = if first.is_below(second) { 1 } else { 0 };
    assert_eq!(rh.next(b"k", &score), Some(expected));
}

#[test]
fn rh_lowest_scores_never_win() {
    let rh = RendezvousHashing::new(create_backends(&[1.0]));
    assert_eq!(rh.weighted_hash(0, n(1.0), &score), Number::neg_infinity());
    assert_eq!(rh.weighted_hash(5, n(0.0), &score), Number::neg_infinity());
    assert_eq!(rh.weighted_hash(5, n(-1.0), &score), Number::neg_infinity());
    assert_eq!(rh.weighted_hash(5, n(2.0), &score), score(5, n(2.0)));
    let rh = RendezvousHashing::new(create_backends(&[0.0, -1.0]));
    assert_eq!(rh.next(b"key", &score), None);
}

#[test]
fn the_first_of_the_best_is_selected() {
    assert_eq!(select_best(&[]), None);
    assert_eq!(select_best(&[None, None]), None);
    assert_eq!(select_best(&[Some(n(1.0)), Some(n(2.0)), Some(n(2.0))]), Some(1));
    assert_eq!(select_best(&[Some(n(f64::NAN)), None, Some(n(-3.0))]), Some(2));
    assert_eq!(select_best(&[Some(n(f64::NEG_INFINITY))]), None);
    assert_eq!(select_best(&[Some(n(f64::NAN))]), None);
}

fn maglev(weights: &[f64]) -> Maglev {
    Maglev::new(backends_from(20000, weights), &repetitions)
}

#[test]
fn test_maglev_consistency() {
    let mut maglev = maglev(&[1.0, 1.0, 1.0]);
    let first = maglev.next(b"test_key", &repetitions).unwrap();
    for _ in 0..100 {
        assert_eq!(maglev.next(b"test_key", &repetitions).unwrap(), first);
    }
}

#[test]
fn test_maglev_different_keys() {
    let mut maglev = maglev(&[1.0, 1.0, 1.0]);
    let mut results: HashMap<usize, usize> = HashMap::new();
    for i in 0..1000 {
        let key = format!("key_{}", i);
        *results.entry(maglev.next(key.as_bytes(), &repetitions).unwrap()).or_insert(0) += 1;
    }
    assert!(results.len() > 1);
}

#[test]
fn test_maglev_single_backend() {
    let mut maglev = maglev(&[1.0]);
    for i in 0..10 {
        let key = format!("key_{}", i);
        assert_eq!(maglev.next(key.as_bytes(), &repetitions), Some(0));
    }
}

#[test]
fn test_maglev_backend_failure_minimal_redistribution() {
    let mut maglev = maglev(&[1.0, 1.0, 1.0]);
    let mut before: HashMap<Vec<u8>, usize> = HashMap::new();
    for i in 0..100 {
        let key = format!("key_{}", i).into_bytes();
        let chosen = maglev.next(&key, &repetitions).unwrap();
        before.insert(key, chosen);
    }

    maglev.set_alive(0, false);
    maglev.rebuild_table(&repetitions);

    let mut redistributed = 0;
    for (key, old) in &before {
        let new = maglev.next(key, &repetitions).unwrap();
        if *old == 0 {
            assert_ne!(new, *old);
            redistributed += 1;
        }
    }
    assert!(redistributed > 0);
}

#[test]
fn test_maglev_all_backends_down() {
    let mut maglev = maglev(&[1.0, 1.0]);
    maglev.set_alive(0, false);
    maglev.set_alive(1, false);
    maglev.rebuild_table(&repetitions);
    assert!(maglev.next(b"key", &repetitions).is_none());
}

#[test]
fn test_maglev_empty() {
    let mut maglev = maglev(&[]);
    assert!(maglev.next(b"key", &repetitions).is_none());
    assert!(maglev.backends().is_empty());
}

#[test]
fn test_maglev_weighted_distribution() {
    let mut maglev = maglev(&[10.0, 1.0]);
    let mut counts = [0usize; 2];
    for i in 0..10000 {
        let key = format!("key_{}", i);
        counts[maglev.next(key.as_bytes(), &repetitions).unwrap()] += 1;
    }
    assert!(counts[0] > counts[1], "count0={} count1={}", counts[0], counts[1]);
}

#[test]
fn test_maglev_len() {
    let maglev = maglev(&[1.0, 2.0, 3.0]);
    assert_eq!(maglev.backends().len(), 3);
}

#[test]
fn test_maglev_consistency_ipv6() {
    let mut maglev = Maglev::new(create_backends_ipv6(20000, &[1.0, 1.0, 1.0]), &repetitions);
    let first = maglev.next(b"test_key", &repetitions).unwrap();
    for _ in 0..100 {
        assert_eq!(maglev.next(b"test_key", &repetitions).unwrap(), first);
    }
}

#[test]
fn test_maglev_different_keys_ipv6() {
    let mut maglev = Maglev::new(create_backends_ipv6(20000, &[1.0, 1.0, 1.0]), &repetitions);
    let mut results: HashMap<usize, usize> = HashMap::new();
    for i in 0..1000 {
        let key = format!("key_{}", i);
        *results.entry(maglev.next(key.as_bytes(), &repetitions).unwrap()).or_insert(0) += 1;
    }
    assert!(results.len() > 1);
}

#[test]
fn test_maglev_backend_failure_ipv6() {
    let mut maglev = Maglev::new(create_backends_ipv6(20000, &[1.0, 1.0, 1.0]), &repetitions);
    let initial = maglev.next(b"test_key", &repetitions).unwrap();
    maglev.set_alive(0, false);
    maglev.rebuild_table(&repetitions);
    let after_failure = maglev.next(b"test_key", &repetitions).unwrap();
    if initial == 0 {
        assert_ne!(after_failure, initial);
    }
}

#[test]
fn maglev_failure_spares_flows_until_the_table_is_filled_anew() {
    let mut maglev = maglev(&[1.0, 1.0, 1.0]);
    let keys: Vec<Vec<u8>> = (0..50).map(|i| format!("key_{}", i).into_bytes()).collect();
    let before: Vec<usize> =
        keys.iter().map(|k| maglev.next(k, &repetitions).unwrap()).collect();
    maglev.set_alive(1, false);
    for (key, old) in keys.iter().zip(&before) {
        if *old != 1 {
            assert_eq!(maglev.next(key, &repetitions), Some(*old));
        }
    }
    for (key, old) in keys.iter().zip(&before) {
        if *old == 1 {
            let new = maglev.next(key, &repetitions).unwrap();
            assert_ne!(new, 1);
        }
    }
}

#[test]
fn maglev_slots_follow_weights() {
    let mut maglev = maglev(&[2.0, 1.0]);
    let mut counts = [0usize; 2];
    for i in 0..3000u32 {
        counts[maglev.next(&i.to_be_bytes(), &repetitions).unwrap()] += 1;
    }
    assert!(counts[0] > 1700 && counts[0] < 2300, "{:?}", counts);
}

#[test]
fn maglev_without_positive_weights_chooses_nobody() {
    let mut maglev = maglev(&[0.0, 1.0]);
    assert_eq!(maglev.next(b"key", &repetitions), None);
}

fn fnv(bytes: &[u8]) -> u64 {
    let mut h: u64 = 0xcbf2_9ce4_8422_2325;
    for b in bytes {
        h = (h ^ *b as u64).wrapping_mul(0x0100_0000_01b3);
    }
    h
}

/// A table filled the plain way: every share in turn takes the next slot in
/// its permutation that is still free.
fn plain_table(weights: &[f64]) -> Vec<usize> {
    let size = 65537u64;
    let least = weights.iter().cloned().fold(f64::INFINITY, f64::min);
    let mut shares = Vec::new();
    for (i, w) in weights.iter().enumerate() {
        let label = format!("127.0.0.1:{}", 20000 + i).into_bytes();
        let mut marked = label.clone();
        marked.push(0xff);
        let offset = fnv(&label) % size;
        let skip = fnv(&marked) % (size - 1) + 1;
        for _ in 0..((w / least).round() as usize).max(1) {
            shares.push((i, offset, skip, 0u64));
        }
    }
    let mut table = vec![usize::MAX; size as usize];
    let mut filled = 0;
    'full: loop {
        for (i, offset, skip, next) in shares.iter_mut() {
            loop {
                let slot = ((*offset + *next * *skip) % size) as usize;
                *next += 1;
                if table[slot] == usize::MAX {
                    table[slot] = *i;
                    break;
                }
            }
            filled += 1;
            if filled == size {
                break 'full;
            }
        }
    }
    table
}

#[test]
fn maglev_tables_are_filled_in_turns() {
    let weights = [2.0, 1.0, 3.4];
    let table = plain_table(&weights);
    let mut maglev = maglev(&weights);
    for i in 0..5000u32 {
        let key = i.to_be_bytes();
        let slot = (fnv(&key) % 65537) as usize;
        assert_eq!(maglev.next(&key, &repetitions), Some(table[slot]));
    }
    let held = table.iter().filter(|b| **b == 0).count();
    // Two of six shares: between twice and twice one more than a sixth of the slots.
    assert!(held >= 2 * (65537 / 6) && held <= 2 * (65537 / 6 + 1));
}

#[test]
fn wrr_walks_the_ladder_of_weights() {
    let weights = [0.5, 1.25, 3.0, 0.25];
    let down = [false, true, false, false];
    let mut chooser = wrr(&weights);
    chooser.set_alive(1, false);
    // The step is 0.25 and the ladder goes from 3.0 down to 0.25.
    let mut expected = Vec::new();
    let mut threshold = 3.0;
    while threshold > 0.0 {
        for i in 0..4 {
            if !down[i] && weights[i] >= threshold {
                expected.push(i);
            }
        }
        threshold -= 0.25;
    }
    assert_eq!(expected.len(), 2 + 12 + 1);
    for round in 0..3 {
        for (k, i) in expected.iter().enumerate() {
            assert_eq!(chooser.next(&lower), Some(*i), "round {} choice {}", round, k);
        }
    }
}

#[test]
fn maglev_serves_again_once_a_backend_has_recovered() {
    let mut maglev = maglev(&[1.0]);
    maglev.set_alive(0, false);
    assert_eq!(maglev.next(b"key", &repetitions), None);
    assert_eq!(maglev.next(b"key", &repetitions), None);
    maglev.set_alive(0, true);
    assert_eq!(maglev.next(b"key", &repetitions), Some(0));
}

#[test]
fn rh_serves_exactly_while_one_is_up() {
    let mut rh = RendezvousHashing::new(create_backends(&[1.0, 2.0, 3.0]));
    for i in 0..50 {
        let key = format!("key_{}", i).into_bytes();
        let x = rh.next(&key, &score).unwrap();
        for y in 0..3 {
            rh.set_alive(y, false);
            let after = rh.next(&key, &score);
            if y == x {
                assert!(after.is_some() && after != Some(x));
            } else {
                assert_eq!(after, Some(x));
            }
            rh.set_alive(y, true);
        }
    }
    for y in 0..3 {
        assert!(rh.next(b"key", &score).is_some());
        rh.set_alive(y, false);
    }
    assert_eq!(rh.next(b"key", &score), None);
}

#[test]
fn rh_serves_even_where_nobody_has_a_score() {
    let rh = RendezvousHashing::new(create_backends(&[1.0, 2.0]));
    let nothing = |_: u64, _: Number| n(f64::NAN);
    assert_eq!(rh.next(b"key", &nothing), Some(0));
    assert_eq!(f(rh.weighted_hash(5, n(1.0), &nothing)), f64::MIN);
    let weightless = RendezvousHashing::new(create_backends(&[0.0, f64::NAN]));
    assert_eq!(weightless.next(b"key", &nothing), None);
}
