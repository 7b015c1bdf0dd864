use sidevm_probing::fixed::SCALE;
use sidevm_probing::types::ProbeError;
use sidevm_probing::Peer;

fn peer_with(endpoints: &[&str]) -> Peer {
    Peer::from_parts(
        "00000009".to_string(),
        endpoints[0].to_string(),
        endpoints.iter().map(|e| e.to_string()).collect(),
        0,
    )
    .unwrap()
}

#[test]
fn new_peer_takes_its_endpoints_from_the_directory() {
    let p = Peer::new("00000002".to_string()).unwrap();
    assert_eq!(p.encoded_public_key, "00000002");
    assert_eq!(p.endpoints, vec!["127.0.0.1:2002".to_string()]);
    assert_eq!(p.best_endpoint, "127.0.0.1:2002");
    assert_eq!(p.offline_cnt, 0);
    assert!(p.is_online());
    assert!(p.is_valid());
}

#[test]
fn new_peer_fails_without_directory_entry() {
    assert_eq!(Peer::new("deadbeef".to_string()).err(), Some(ProbeError::DirectoryLookupFailed));
}

#[test]
fn from_parts_rejects_invalid_peers() {
    assert_eq!(
        Peer::from_parts("x".to_string(), "a".to_string(), vec![], 0).err(),
        Some(ProbeError::DecodeFailed)
    );
    assert_eq!(
        Peer::from_parts("x".to_string(), "c".to_string(), vec!["a".to_string()], 0).err(),
        Some(ProbeError::DecodeFailed)
    );
    let p = Peer::from_parts("x".to_string(), "b".to_string(), vec!["a".to_string(), "b".to_string()], 7)
        .unwrap();
    assert_eq!(p.best_endpoint, "b");
    assert_eq!(p.offline_cnt, 7);
    assert!(!p.is_online());
}

#[test]
fn echo_picks_the_fastest_endpoint() {
    let mut p = peer_with(&["a:1", "b:2", "c:3"]);
    let r = p.echo(&vec![Some(30), Some(12), Some(20)]);
    assert_eq!(r, Ok(112 * SCALE));
    assert_eq!(p.best_endpoint, "b:2");
}

#[test]
fn echo_adds_the_calibration_offset() {
    let mut p = peer_with(&["a:1"]);
    assert_eq!(p.echo(&vec![Some(0)]), Ok(100 * SCALE));
    assert_eq!(p.echo(&vec![Some(50)]), Ok(150 * SCALE));
}

#[test]
fn echo_tie_goes_to_the_first_endpoint() {
    let mut p = peer_with(&["a:1", "b:2", "c:3"]);
    let r = p.echo(&vec![Some(9), Some(7), Some(7)]);
    assert_eq!(r, Ok(107 * SCALE));
    assert_eq!(p.best_endpoint, "b:2");
}

#[test]
fn echo_skips_failed_endpoints() {
    let mut p = peer_with(&["a:1", "b:2", "c:3"]);
    let r = p.echo(&vec![None, None, Some(500)]);
    assert_eq!(r, Ok(600 * SCALE));
    assert_eq!(p.best_endpoint, "c:3");
}

#[test]
fn echo_with_every_endpoint_failing() {
    let mut p = peer_with(&["a:1", "b:2"]);
    assert_eq!(p.echo(&vec![None, None]), Err(ProbeError::AllEndpointsDown));
    assert_eq!(p.best_endpoint, "a:1");
    assert_eq!(p.offline_cnt, 0);
}

#[test]
fn echo_without_measurements_is_all_down() {
    let mut p = peer_with(&["a:1", "b:2"]);
    assert_eq!(p.echo(&vec![]), Err(ProbeError::AllEndpointsDown));
}

#[test]
fn echo_ignores_measurements_without_endpoint() {
    let mut p = peer_with(&["a:1"]);
    assert_eq!(p.echo(&vec![None, Some(1)]), Err(ProbeError::AllEndpointsDown));
}

#[test]
fn echo_saturates_on_huge_latency() {
    let mut p = peer_with(&["a:1"]);
    assert_eq!(p.echo(&vec![Some(u64::MAX)]), Ok(i64::MAX));
}

#[test]
fn observe_counts_failures_one_by_one() {
    let mut p = Peer::new("00000001".to_string()).unwrap();
    assert_eq!(p.observe(&vec![None]), None);
    assert_eq!(p.offline_cnt, 1);
    assert_eq!(p.observe(&vec![None]), None);
    assert_eq!(p.offline_cnt, 2);
    assert!(!p.is_online());
    assert_eq!(p.observe(&vec![Some(5)]), Some(105 * SCALE));
    assert_eq!(p.offline_cnt, 0);
    assert!(p.is_online());
}

#[test]
fn observe_stops_counting_at_255() {
    let mut p = Peer::from_parts(
        "00000001".to_string(),
        "127.0.0.1:2001".to_string(),
        vec!["127.0.0.1:2001".to_string()],
        254,
    )
    .unwrap();
    p.observe(&vec![None]);
    assert_eq!(p.offline_cnt, 255);
    p.observe(&vec![None]);
    assert_eq!(p.offline_cnt, 255);
}

#[test]
fn observe_refreshes_endpoints_from_the_directory() {
    let mut p = Peer::from_parts(
        "00000004".to_string(),
        "10.0.0.1:80".to_string(),
        vec!["10.0.0.1:80".to_string(), "10.0.0.2:80".to_string()],
        0,
    )
    .unwrap();
    assert_eq!(p.probe_targets(), vec!["127.0.0.1:2004".to_string()]);
    assert_eq!(p.observe(&vec![Some(1)]), Some(101 * SCALE));
    assert_eq!(p.endpoints, vec!["127.0.0.1:2004".to_string()]);
    assert_eq!(p.best_endpoint, "127.0.0.1:2004");
}

#[test]
fn unknown_peer_keeps_its_endpoints() {
    let mut p = peer_with(&["a:1", "b:2"]);
    assert_eq!(p.probe_targets(), vec!["a:1".to_string(), "b:2".to_string()]);
    assert_eq!(p.update_endpoints(), Err(ProbeError::DirectoryLookupFailed));
    assert_eq!(p.endpoints, vec!["a:1".to_string(), "b:2".to_string()]);
    assert_eq!(p.observe(&vec![Some(9), Some(3)]), Some(103 * SCALE));
    assert_eq!(p.best_endpoint, "b:2");
}

#[test]
fn update_endpoints_asks_the_directory() {
    let mut p = Peer::from_parts(
        "00000005".to_string(),
        "old:1".to_string(),
        vec!["old:1".to_string()],
        2,
    )
    .unwrap();
    assert_eq!(p.update_endpoints(), Ok(()));
    assert_eq!(p.endpoints, vec!["127.0.0.1:2005".to_string()]);
    assert_eq!(p.best_endpoint, "127.0.0.1:2005");
    assert_eq!(p.offline_cnt, 2);
}

#[test]
fn replace_endpoints_keeps_a_best_endpoint_that_is_still_listed() {
    let mut p = peer_with(&["a:1", "b:2"]);
    p.echo(&vec![Some(5), Some(1)]).unwrap();
    assert_eq!(p.best_endpoint, "b:2");
    assert!(p.replace_endpoints(vec!["c:3".to_string(), "b:2".to_string()]));
    assert_eq!(p.best_endpoint, "b:2");
    assert_eq!(p.endpoints, vec!["c:3".to_string(), "b:2".to_string()]);
}

#[test]
fn replace_endpoints_falls_back_to_the_first() {
    let mut p = peer_with(&["a:1", "b:2"]);
    assert!(p.replace_endpoints(vec!["c:3".to_string(), "d:4".to_string()]));
    assert_eq!(p.best_endpoint, "c:3");
}

#[test]
fn replace_endpoints_refuses_an_empty_list() {
    let mut p = peer_with(&["a:1", "b:2"]);
    assert!(!p.replace_endpoints(vec![]));
    assert_eq!(p.endpoints, vec!["a:1".to_string(), "b:2".to_string()]);
    assert_eq!(p.best_endpoint, "a:1");
}

#[test]
fn mark_offline_and_online() {
    let mut p = peer_with(&["a:1"]);
    p.mark_offline();
    p.mark_offline();
    assert_eq!(p.offline_cnt, 2);
    p.mark_online();
    assert_eq!(p.offline_cnt, 0);
}

#[test]
fn peer_urls() {
    let p = peer_with(&["10.1.2.3:2000"]);
    assert_eq!(p.resolved_url(), "http://10.1.2.3:2000/resolved");
    assert_eq!(
        p.notify_connected_url(&"00000001".to_string()),
        "http://10.1.2.3:2000/connected/00000001"
    );
    assert_eq!(
        Peer::echo_url(&"10.1.2.3:2000".to_string(), &"1700000000000".to_string()),
        "http://10.1.2.3:2000/echo/1700000000000"
    );
}

#[test]
fn clone_keeps_every_field() {
    let mut p = peer_with(&["a:1", "b:2"]);
    p.mark_offline();
    let q = p.clone();
    assert_eq!(q.encoded_public_key, p.encoded_public_key);
    assert_eq!(q.best_endpoint, p.best_endpoint);
    assert_eq!(q.endpoints, p.endpoints);
    assert_eq!(q.offline_cnt, 1);
}
