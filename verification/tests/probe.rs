use sidevm_probing::fixed::SCALE;
use sidevm_probing::table::Table;
use sidevm_probing::types::{CachedParameters, ProbeError, ProbeParameters, ProbeStatus};
use sidevm_probing::{Peer, Probe};

fn probe(last: u8) -> Probe {
    Probe::new(vec![0, 0, 0, last], &CachedParameters::empty())
}

fn id(n: u8) -> String {
    format!("0000000{}", n)
}

fn set_position(p: &mut Probe, who: &str, position: Vec<i64>) {
    match p.resolved.find(&who.to_string()) {
        Some(i) => p.resolved.set(i, position),
        None => p.resolved.push(who.to_string(), position),
    }
}

#[test]
fn new_probe_is_valid() {
    let p = probe(1);
    assert!(p.is_valid());
    assert_eq!(p.encoded_public_key, "00000001");
    assert_eq!(p.parameters.dim_size, 3);
    assert_eq!(p.telemetry.len(), 1);
    assert_eq!(p.telemetry.key(0), "00000001");
    assert_eq!(*p.telemetry.value(0), 0);
    assert_eq!(p.resolved.len(), 1);
    assert_eq!(p.resolved.key(0), "00000001");
    assert_eq!(p.peers.len(), 0);
    assert!(p.pending_peer_ids.is_empty());
    assert!(!p.status.is_optimizing);
    assert_eq!(p.status.precision_ms, 0);
    assert_eq!(p.status.epoch, 0);
}

#[test]
fn self_is_always_resolved() {
    let mut p = probe(1);
    assert!(p.resolved.contains_key(&p.encoded_public_key));
    p.add_peer(Peer::new(id(2)).unwrap());
    p.add_pending_peer(id(3));
    p.start_optimize();
    assert!(p.resolved.contains_key(&p.encoded_public_key));
    assert!(p.is_valid());
}

#[test]
fn own_coordinate_has_dim_size_components_in_the_unit_cube() {
    let mut c = CachedParameters::empty();
    c.dim_size = Some(7);
    let p = Probe::new(vec![1, 2], &c);
    assert_eq!(p.encoded_public_key, "0102");
    let v = p.resolved.value(0);
    assert_eq!(v.len(), 7);
    for x in v {
        assert!(0 <= *x && *x < SCALE);
    }
}

#[test]
fn no_peer_is_self() {
    let mut p = probe(1);
    assert!(!p.add_peer(Peer::new(id(1)).unwrap()));
    assert_eq!(p.peers.len(), 0);
    assert!(p.add_peer(Peer::new(id(2)).unwrap()));
    for i in 0..p.peers.len() {
        assert_ne!(p.peers.value(i).encoded_public_key, p.encoded_public_key);
    }
}

#[test]
fn add_peer_twice() {
    let mut p = probe(1);
    assert!(p.add_peer(Peer::new(id(2)).unwrap()));
    assert_eq!(p.peers.len(), 1);
    assert!(!p.add_peer(Peer::new(id(2)).unwrap()));
    assert_eq!(p.peers.len(), 1);
}

#[test]
fn add_peer_never_overwrites() {
    let mut p = probe(1);
    let mut first = Peer::new(id(2)).unwrap();
    first.mark_offline();
    assert!(p.add_peer(first));
    assert!(!p.add_peer(Peer::new(id(2)).unwrap()));
    assert_eq!(p.peers.value(0).offline_cnt, 1);
}

#[test]
fn add_peer_keeps_insertion_order() {
    let mut p = probe(0);
    assert!(p.add_peer(Peer::new(id(3)).unwrap()));
    assert!(p.add_peer(Peer::new(id(1)).unwrap()));
    assert_eq!(p.peers.key(0), "00000003");
    assert_eq!(p.peers.key(1), "00000001");
}

#[test]
fn add_pending_peer_self_is_a_no_op() {
    let mut p = probe(1);
    p.add_pending_peer(id(1));
    assert!(p.pending_peer_ids.is_empty());
    assert!(p.is_valid());
}

#[test]
fn add_pending_peer_queues_once() {
    let mut p = probe(1);
    p.add_pending_peer(id(2));
    p.add_pending_peer(id(3));
    p.add_pending_peer(id(2));
    assert_eq!(p.pending_peer_ids, vec![id(2), id(3)]);
}

#[test]
fn add_pending_peer_skips_peers() {
    let mut p = probe(1);
    p.add_peer(Peer::new(id(2)).unwrap());
    p.add_pending_peer(id(2));
    assert!(p.pending_peer_ids.is_empty());
}

#[test]
fn start_and_stop_optimize() {
    let mut p = probe(1);
    p.start_optimize();
    assert!(p.status.is_optimizing);
    p.stop_optimize();
    assert!(!p.status.is_optimizing);
    assert_eq!(p.status.epoch, 0);
}

#[test]
fn best_endpoint_of_a_peer() {
    let mut p = probe(1);
    p.add_peer(Peer::new(id(2)).unwrap());
    assert_eq!(p.get_best_endpoint_to(id(2)), Ok("127.0.0.1:2002".to_string()));
}

#[test]
fn best_endpoint_of_a_stranger() {
    let p = probe(1);
    assert_eq!(p.get_best_endpoint_to(id(2)), Err(ProbeError::NotAPeer));
    assert_eq!(p.get_best_endpoint_to(id(1)), Err(ProbeError::NotAPeer));
}

#[test]
fn best_endpoint_of_an_offline_peer() {
    let mut p = probe(1);
    let mut peer = Peer::new(id(2)).unwrap();
    peer.mark_offline();
    p.add_peer(peer);
    assert_eq!(p.get_best_endpoint_to(id(2)), Err(ProbeError::Offline));
}

#[test]
fn estimate_is_the_distance() {
    let mut p = probe(1);
    p.add_peer(Peer::new(id(2)).unwrap());
    p.add_peer(Peer::new(id(3)).unwrap());
    set_position(&mut p, "00000002", vec![0, 0, 0]);
    set_position(&mut p, "00000003", vec![3 * SCALE, 4 * SCALE, 0]);
    assert_eq!(p.estimate(id(2), id(3)), Ok(5 * SCALE));
}

#[test]
fn estimate_is_symmetric() {
    let mut p = probe(1);
    p.add_peer(Peer::new(id(2)).unwrap());
    p.add_peer(Peer::new(id(3)).unwrap());
    set_position(&mut p, "00000002", vec![17, -SCALE, 5 * SCALE]);
    set_position(&mut p, "00000003", vec![-3 * SCALE, 9, 12_345]);
    let there = p.estimate(id(2), id(3));
    let back = p.estimate(id(3), id(2));
    assert!(there.is_ok());
    assert_eq!(there, back);
}

#[test]
fn estimate_to_itself_is_zero() {
    let mut p = probe(1);
    p.add_peer(Peer::new(id(2)).unwrap());
    set_position(&mut p, "00000002", vec![17, -SCALE, 5 * SCALE]);
    assert_eq!(p.estimate(id(2), id(2)), Ok(0));
    assert_eq!(p.estimate(id(1), id(1)), Ok(0));
}

#[test]
fn estimate_allows_self_as_a_party() {
    let mut p = probe(1);
    p.add_peer(Peer::new(id(2)).unwrap());
    set_position(&mut p, "00000001", vec![0, 0, 0]);
    set_position(&mut p, "00000002", vec![0, 6 * SCALE, 8 * SCALE]);
    assert_eq!(p.estimate(id(1), id(2)), Ok(10 * SCALE));
    assert_eq!(p.estimate(id(2), id(1)), Ok(10 * SCALE));
}

#[test]
fn estimate_with_a_stranger() {
    let mut p = probe(1);
    p.add_peer(Peer::new(id(2)).unwrap());
    set_position(&mut p, "00000002", vec![0, 0, 0]);
    assert_eq!(p.estimate(id(3), id(2)), Err(ProbeError::NotAPeer));
    assert_eq!(p.estimate(id(2), id(3)), Err(ProbeError::NotAPeer));
}

#[test]
fn estimate_with_an_offline_peer() {
    let mut p = probe(1);
    let mut peer = Peer::new(id(2)).unwrap();
    peer.mark_offline();
    p.add_peer(peer);
    p.add_peer(Peer::new(id(3)).unwrap());
    set_position(&mut p, "00000002", vec![0, 0, 0]);
    set_position(&mut p, "00000003", vec![0, 0, 0]);
    assert_eq!(p.estimate(id(2), id(3)), Err(ProbeError::Offline));
    assert_eq!(p.estimate(id(3), id(2)), Err(ProbeError::Offline));
}

#[test]
fn estimate_without_coordinates() {
    let mut p = probe(1);
    p.add_peer(Peer::new(id(2)).unwrap());
    assert_eq!(p.estimate(id(1), id(2)), Err(ProbeError::NotResolved));
    assert_eq!(p.estimate(id(2), id(1)), Err(ProbeError::NotResolved));
}

#[test]
fn estimate_reports_a_stranger_before_an_offline_peer() {
    let mut p = probe(1);
    let mut offline = Peer::new(id(2)).unwrap();
    offline.mark_offline();
    p.add_peer(offline);
    // first party offline, second unknown
    assert_eq!(p.estimate(id(2), id(5)), Err(ProbeError::NotAPeer));
    // first party unknown, second offline
    assert_eq!(p.estimate(id(5), id(2)), Err(ProbeError::NotAPeer));
    // both known, one offline
    assert_eq!(p.estimate(id(2), id(1)), Err(ProbeError::Offline));
    assert_eq!(p.estimate(id(1), id(2)), Err(ProbeError::Offline));
}

#[test]
fn estimate_reports_an_offline_peer_before_a_missing_coordinate() {
    let mut p = probe(1);
    let mut offline = Peer::new(id(2)).unwrap();
    offline.mark_offline();
    p.add_peer(offline);
    p.add_peer(Peer::new(id(3)).unwrap());
    // peer 3 is online without a coordinate, peer 2 is offline
    assert_eq!(p.estimate(id(3), id(2)), Err(ProbeError::Offline));
    assert_eq!(p.estimate(id(2), id(3)), Err(ProbeError::Offline));
    assert_eq!(p.estimate(id(3), id(1)), Err(ProbeError::NotResolved));
}

#[test]
fn from_parts_accepts_a_valid_state() {
    let mut telemetry: Table<i64> = Table::new();
    telemetry.push("aa".to_string(), 0);
    let mut resolved: Table<Vec<i64>> = Table::new();
    resolved.push("aa".to_string(), vec![1, 2]);
    let mut parameters = ProbeParameters::from_cache(&CachedParameters::empty());
    parameters.dim_size = 2;
    let p = Probe::from_parts(
        "aa".to_string(),
        parameters,
        telemetry,
        resolved,
        Table::new(),
        vec!["bb".to_string()],
        ProbeStatus { is_optimizing: true, precision_ms: 5, epoch: 9 },
    )
    .unwrap();
    assert!(p.is_valid());
    assert_eq!(p.status.epoch, 9);
    assert_eq!(p.pending_peer_ids, vec!["bb".to_string()]);
}

fn parts_with(
    resolved: Table<Vec<i64>>,
    peers: Table<Peer>,
    pending: Vec<String>,
) -> Result<Probe, ProbeError> {
    let mut parameters = ProbeParameters::from_cache(&CachedParameters::empty());
    parameters.dim_size = 2;
    Probe::from_parts(
        "aa".to_string(),
        parameters,
        Table::new(),
        resolved,
        peers,
        pending,
        ProbeStatus::default(),
    )
}

#[test]
fn from_parts_rejects_a_state_without_own_coordinate() {
    let r = parts_with(Table::new(), Table::new(), vec![]);
    assert_eq!(r.err(), Some(ProbeError::DecodeFailed));
}

#[test]
fn from_parts_rejects_a_coordinate_of_the_wrong_length() {
    let mut resolved: Table<Vec<i64>> = Table::new();
    resolved.push("aa".to_string(), vec![1, 2]);
    resolved.push("bb".to_string(), vec![1, 2, 3]);
    let r = parts_with(resolved, Table::new(), vec![]);
    assert_eq!(r.err(), Some(ProbeError::DecodeFailed));
}

#[test]
fn from_parts_rejects_self_as_peer_or_pending() {
    let mut resolved: Table<Vec<i64>> = Table::new();
    resolved.push("aa".to_string(), vec![1, 2]);
    let mut peers: Table<Peer> = Table::new();
    peers.push(
        "aa".to_string(),
        Peer::from_parts("aa".to_string(), "e".to_string(), vec!["e".to_string()], 0).unwrap(),
    );
    assert_eq!(parts_with(resolved, peers, vec![]).err(), Some(ProbeError::DecodeFailed));

    let mut resolved: Table<Vec<i64>> = Table::new();
    resolved.push("aa".to_string(), vec![1, 2]);
    let r = parts_with(resolved, Table::new(), vec!["aa".to_string()]);
    assert_eq!(r.err(), Some(ProbeError::DecodeFailed));
}

#[test]
fn from_parts_rejects_a_peer_under_a_foreign_key() {
    let mut resolved: Table<Vec<i64>> = Table::new();
    resolved.push("aa".to_string(), vec![1, 2]);
    let mut peers: Table<Peer> = Table::new();
    peers.push(
        "bb".to_string(),
        Peer::from_parts("cc".to_string(), "e".to_string(), vec!["e".to_string()], 0).unwrap(),
    );
    assert_eq!(parts_with(resolved, peers, vec![]).err(), Some(ProbeError::DecodeFailed));
}

#[test]
fn table_insert_refuses_a_second_entry() {
    let mut t: Table<i64> = Table::new();
    assert!(t.insert("a".to_string(), 1));
    assert!(t.insert("b".to_string(), 2));
    assert!(!t.insert("a".to_string(), 3));
    assert_eq!(t.len(), 2);
    assert_eq!(*t.value(0), 1);
    assert_eq!(t.find(&"b".to_string()), Some(1));
    assert_eq!(t.find(&"c".to_string()), None);
    assert!(t.contains_key(&"a".to_string()));
    assert!(t.is_wf());
    t.set(1, 20);
    assert_eq!(*t.value(1), 20);
    assert_eq!(t.key(1), "b");
}
