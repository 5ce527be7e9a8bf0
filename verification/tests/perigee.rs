use std::collections::HashMap;

use almeta_p2p::peer_id::PeerID;
use almeta_p2p::perigee::{collect_observations, Perigee};

fn sorted(mut v: Vec<u32>) -> Vec<u32> {
    v.sort();
    v
}

fn samples_of(p: &Perigee) -> Vec<(String, Vec<u32>)> {
    p.neighbor_samples().into_iter().map(|(peer, s)| (peer.0, sorted(s))).collect()
}

#[test]
fn new_perigee_keeps_nobody() {
    let p = Perigee::new();
    assert_eq!(p.keeper_count(), 0);
    assert!(!p.is_keeper(&PeerID::from("a")));
    assert!(p.neighbor_samples().is_empty());
}

#[test]
fn samples_count_packets_seen_three_times() {
    let mut p = Perigee::new();
    let (a, b, c, d): (PeerID, PeerID, PeerID, PeerID) = ("a".into(), "b".into(), "c".into(), "d".into());
    p.observe(&a, 1, 10);
    p.observe(&b, 1, 15);
    p.observe(&c, 1, 20);
    p.observe(&a, 2, 20);
    p.observe(&b, 2, 23);
    p.observe(&c, 2, 26);
    p.observe(&d, 2, 30);
    p.observe(&a, 3, 10);
    p.observe(&b, 3, 15);
    assert_eq!(
        samples_of(&p),
        vec![
            ("a".to_string(), vec![0, 0]),
            ("b".to_string(), vec![3, 5]),
            ("c".to_string(), vec![6, 10]),
            ("d".to_string(), vec![10]),
        ]
    );
}

#[test]
fn earlier_sighting_moves_the_first_back() {
    let mut p = Perigee::new();
    let (a, b, c): (PeerID, PeerID, PeerID) = ("a".into(), "b".into(), "c".into());
    p.observe(&a, 7, 50);
    p.observe(&b, 7, 40);
    p.observe(&c, 7, 45);
    assert_eq!(
        samples_of(&p),
        vec![("a".to_string(), vec![10]), ("b".to_string(), vec![0]), ("c".to_string(), vec![5])]
    );
}

#[test]
fn repeated_delivery_keeps_the_first_time() {
    let mut p = Perigee::new();
    let a: PeerID = "a".into();
    p.observe(&a, 1, 5);
    p.observe(&a, 1, 9);
    p.observe(&a, 1, 12);
    assert_eq!(samples_of(&p), vec![("a".to_string(), vec![0])]);
}

#[test]
fn garbage_collection_forgets_what_came_before_the_limit() {
    let mut p = Perigee::new();
    let (a, b, c): (PeerID, PeerID, PeerID) = ("a".into(), "b".into(), "c".into());
    for (packet, base) in [(1u128, 10i64), (2, 20)] {
        p.observe(&a, packet, base);
        p.observe(&b, packet, base + 1);
        p.observe(&c, packet, base + 2);
    }
    p.collect_garbage_after_limit(12);
    assert_eq!(
        samples_of(&p),
        vec![("a".to_string(), vec![0]), ("b".to_string(), vec![1]), ("c".to_string(), vec![2])]
    );
    p.collect_garbage_after_limit(12);
    assert_eq!(samples_of(&p).len(), 3);
}

#[test]
fn garbage_collection_keeps_the_latest_thirty() {
    let mut p = Perigee::new();
    let (a, b, c): (PeerID, PeerID, PeerID) = ("a".into(), "b".into(), "c".into());
    for packet in 0..40u128 {
        let t = packet as i64 * 10;
        p.observe(&a, packet, t);
        p.observe(&b, packet, t + 1);
        p.observe(&c, packet, t + 2);
    }
    p.collect_garbage_last_30s();
    let samples = samples_of(&p);
    assert_eq!(samples[0], ("a".to_string(), vec![0; 30]));
    assert_eq!(samples[1], ("b".to_string(), vec![1; 30]));
    assert_eq!(samples[2], ("c".to_string(), vec![2; 30]));
    let mut q = Perigee::new();
    for packet in 0..5u128 {
        q.observe(&a, packet, 100 - packet as i64);
    }
    q.collect_garbage_last_30s();
    assert_eq!(q.neighbor_samples()[0].1.len(), 0);
}

#[test]
fn ranking_without_samples_keeps_nobody() {
    let mut p = Perigee::new();
    p.observe(&"a".into(), 1, 3);
    assert_eq!(p.rank_unsampled(), None);
    assert_eq!(p.keeper_count(), 0);
}

#[test]
fn collect_observations_of_maps() {
    let mut deliveries: HashMap<u128, i64> = HashMap::new();
    deliveries.insert(1, 30);
    deliveries.insert(2, 5);
    deliveries.insert(3, 8);
    let mut firsts: HashMap<u128, (i8, i64)> = HashMap::new();
    firsts.insert(1, (3, 10));
    firsts.insert(2, (2, 1));
    firsts.insert(3, (4, 10));
    assert_eq!(sorted(collect_observations(&deliveries, &firsts)), vec![20, u32::MAX]);
}

#[test]
fn delays_that_overflow_are_detected() {
    let mut deliveries: HashMap<u128, i64> = HashMap::new();
    deliveries.insert(1, i64::MAX);
    let mut firsts: HashMap<u128, (i8, i64)> = HashMap::new();
    firsts.insert(1, (3, -1));
    assert!(!almeta_p2p::perigee::delays_fit_in(&deliveries, &firsts));
    firsts.insert(1, (2, -1));
    assert!(almeta_p2p::perigee::delays_fit_in(&deliveries, &firsts));
    let mut p = Perigee::new();
    let a: PeerID = "a".into();
    p.observe(&a, 1, 10);
    assert!(p.samples_fit());
}
