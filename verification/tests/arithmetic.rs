use sidevm_probing::aggregate::{
    aggregate, average, merge_remote, start_counts, vector_share, vector_sum,
};
use sidevm_probing::descent::{batch_force, descent_step, ensure_coordinates, Descent, Schedule};
use sidevm_probing::embedding::{add_force, momentum_step, position_step, smoothed, zeros};
use sidevm_probing::fixed::SCALE;
use sidevm_probing::loss::compute_loss;
use sidevm_probing::recenter::{centroid, recenter, shifted};
use sidevm_probing::table::Table;
use sidevm_probing::telemetry::{collect_telemetry, record_latency};
use sidevm_probing::types::{CachedParameters, ProbeError, ProbeParameters, ProbeStatus};
use sidevm_probing::{Peer, Probe};

fn id(n: u8) -> String {
    format!("0000000{}", n)
}

fn coordinates(entries: &[(&str, Vec<i64>)]) -> Table<Vec<i64>> {
    let mut t: Table<Vec<i64>> = Table::new();
    for (k, v) in entries {
        assert!(t.insert(k.to_string(), v.clone()));
    }
    t
}

fn latencies(entries: &[(&str, i64)]) -> Table<i64> {
    let mut t: Table<i64> = Table::new();
    for (k, v) in entries {
        assert!(t.insert(k.to_string(), *v));
    }
    t
}

fn peers(entries: &[(u8, u8)]) -> Table<Peer> {
    let mut t: Table<Peer> = Table::new();
    for (n, offline) in entries {
        let mut p = Peer::new(id(*n)).unwrap();
        for _ in 0..*offline {
            p.mark_offline();
        }
        assert!(t.insert(id(*n), p));
    }
    t
}

#[test]
fn zeros_are_zero() {
    assert_eq!(zeros(3), vec![0, 0, 0]);
    assert_eq!(zeros(0), Vec::<i64>::new());
}

#[test]
fn smoothing_is_an_exponential_moving_average() {
    // 100 * 0.9 + 200 * 0.1 = 110
    assert_eq!(smoothed(100 * SCALE, 200 * SCALE, 900_000_000), 110 * SCALE);
    // beta = 0 takes the new value, beta = 1 keeps the old one
    assert_eq!(smoothed(100 * SCALE, 200 * SCALE, 0), 200 * SCALE);
    assert_eq!(smoothed(100 * SCALE, 200 * SCALE, SCALE), 100 * SCALE);
}

#[test]
fn force_pushes_away_when_too_close() {
    // x at the origin, y at distance 5 along (3, 4); measured latency 10.
    // direction = (x - y) / (5 + eps) = (-0.6, -0.8) (up to eps), error = 10 - 5 = 5
    let x = vec![0, 0];
    let y = vec![3 * SCALE, 4 * SCALE];
    let f = add_force(&vec![0, 0], &x, &y, 10 * SCALE, 0);
    assert_eq!(f, vec![-3 * SCALE, -4 * SCALE]);
}

#[test]
fn force_pulls_closer_when_too_far() {
    let x = vec![0, 0];
    let y = vec![3 * SCALE, 4 * SCALE];
    let f = add_force(&vec![SCALE, SCALE], &x, &y, 0, 0);
    // error = -5, direction (-0.6, -0.8): force (3, 4) on top of (1, 1)
    assert_eq!(f, vec![4 * SCALE, 5 * SCALE]);
}

#[test]
fn force_with_eps_is_slightly_weaker() {
    let x = vec![0, 0];
    let y = vec![3 * SCALE, 4 * SCALE];
    // divisor 5.000001: -3 / 5.000001 = -0.599999880..., times 5 = -2.9999994
    let f = add_force(&vec![0, 0], &x, &y, 10 * SCALE, 1_000);
    assert_eq!(f, vec![-2_999_999_400, -3_999_999_200]);
}

#[test]
fn force_on_coinciding_points_is_zero() {
    let x = vec![SCALE, SCALE];
    assert_eq!(add_force(&vec![0, 0], &x, &x, 7 * SCALE, 1_000), vec![0, 0]);
    assert_eq!(add_force(&vec![0, 0], &x, &x, 7 * SCALE, 0), vec![0, 0]);
}

#[test]
fn momentum_follows_the_mean_force() {
    // m * 0.9 + (f / 2) * 0.1
    let m = momentum_step(&vec![10 * SCALE, 0], &vec![4 * SCALE, -8 * SCALE], 2, 900_000_000);
    assert_eq!(m, vec![9_200_000_000, -400_000_000]);
}

#[test]
fn position_moves_along_the_momentum() {
    let x = position_step(&vec![SCALE, SCALE], &vec![2 * SCALE, -4 * SCALE], 500_000_000);
    assert_eq!(x, vec![2 * SCALE, -SCALE]);
}

#[test]
fn vector_lengths_follow_the_shortest() {
    assert_eq!(position_step(&vec![1, 2, 3], &vec![0], SCALE), vec![1]);
    assert_eq!(momentum_step(&vec![1], &vec![0, 0], 1, SCALE), vec![1]);
    assert_eq!(vector_sum(&vec![1, 2, 3], &vec![10, 20]), vec![11, 22]);
    assert_eq!(shifted(&vec![5, 5, 5], &vec![1, 2]), vec![4, 3]);
}

#[test]
fn vector_sum_and_share() {
    assert_eq!(vector_sum(&vec![1, -2], &vec![10, 20]), vec![11, 18]);
    assert_eq!(vector_sum(&vec![i64::MAX], &vec![1]), vec![i64::MAX]);
    assert_eq!(vector_share(&vec![10, -9, 1], 2), vec![5, -4, 0]);
}

#[test]
fn schedule_keeps_the_least_loss() {
    let p = ProbeParameters::from_cache(&CachedParameters::empty());
    let mut s = Schedule::start(&p);
    assert_eq!(s.min_loss, i64::MAX);
    assert_eq!(s.lr, SCALE);
    assert!(s.is_due(&p));
    s.advance(50, &p);
    assert_eq!((s.min_loss, s.patience, s.iteration, s.lr), (50, 0, 1, SCALE));
    s.advance(50, &p);
    assert_eq!((s.min_loss, s.patience, s.iteration, s.lr), (50, 1, 2, SCALE));
    s.advance(60, &p);
    assert_eq!((s.min_loss, s.patience, s.iteration, s.lr), (50, 2, 3, SCALE));
    s.advance(40, &p);
    assert_eq!((s.min_loss, s.patience, s.iteration, s.lr), (40, 0, 4, SCALE));
}

#[test]
fn schedule_shrinks_the_learning_rate_when_patience_runs_out() {
    let mut p = ProbeParameters::from_cache(&CachedParameters::empty());
    p.patience = 2;
    let mut s = Schedule::start(&p);
    s.advance(10, &p);
    s.advance(10, &p);
    s.advance(10, &p);
    assert_eq!((s.patience, s.lr), (2, SCALE));
    s.advance(10, &p);
    assert_eq!((s.patience, s.lr), (0, 100_000_000));
    assert_eq!(s.iteration, 4);
}

#[test]
fn schedule_ends_below_the_least_learning_rate_or_after_max_iters() {
    let mut p = ProbeParameters::from_cache(&CachedParameters::empty());
    let s = Schedule { min_loss: 0, lr: p.min_lr, patience: 0, iteration: 0 };
    assert!(s.is_due(&p));
    let s = Schedule { min_loss: 0, lr: p.min_lr - 1, patience: 0, iteration: 0 };
    assert!(!s.is_due(&p));
    p.max_iters = 5;
    let s = Schedule { min_loss: 0, lr: SCALE, patience: 0, iteration: 5 };
    assert!(!s.is_due(&p));
    let s = Schedule { min_loss: 0, lr: SCALE, patience: 0, iteration: 4 };
    assert!(s.is_due(&p));
}

#[test]
fn loss_is_the_mean_error() {
    let me = id(0);
    let peers = peers(&[(1, 0), (2, 0)]);
    let telemetry = latencies(&[("00000000", 0), ("00000001", 7 * SCALE), ("00000002", 13 * SCALE)]);
    let resolved = coordinates(&[
        ("00000000", vec![0, 0]),
        ("00000001", vec![3 * SCALE, 4 * SCALE]),
        ("00000002", vec![0, 10 * SCALE]),
    ]);
    // |7 - 5| + |13 - 10| = 5, divided by 3 - 1 + 0
    assert_eq!(compute_loss(&me, &peers, &telemetry, &resolved, 0), Ok(2_500_000_000));
    // with eps = 1e-6 the divisor is 2.000001
    assert_eq!(compute_loss(&me, &peers, &telemetry, &resolved, 1_000), Ok(2_499_998_750));
}

#[test]
fn loss_skips_offline_unknown_and_unresolved_peers() {
    let me = id(0);
    let peers = peers(&[(1, 0), (2, 1), (3, 0)]);
    let telemetry = latencies(&[
        ("00000000", 99 * SCALE),
        ("00000001", 7 * SCALE),
        ("00000002", 13 * SCALE),
        ("00000003", 50 * SCALE),
        ("00000004", 50 * SCALE),
    ]);
    let resolved = coordinates(&[
        ("00000000", vec![0, 0]),
        ("00000001", vec![3 * SCALE, 4 * SCALE]),
        ("00000002", vec![0, 10 * SCALE]),
        ("00000004", vec![0, 0]),
    ]);
    // only peer 1 counts: |7 - 5| = 2, divided by 5 - 1
    assert_eq!(compute_loss(&me, &peers, &telemetry, &resolved, 0), Ok(500_000_000));
}

#[test]
fn loss_without_peers_is_zero() {
    let me = id(0);
    let telemetry = latencies(&[("00000000", 0)]);
    let resolved = coordinates(&[("00000000", vec![1, 2])]);
    assert_eq!(compute_loss(&me, &Table::new(), &telemetry, &resolved, 1_000), Ok(0));
    assert_eq!(compute_loss(&me, &Table::new(), &telemetry, &resolved, 0), Ok(0));
    assert_eq!(compute_loss(&me, &Table::new(), &Table::new(), &resolved, 1_000), Ok(0));
}

#[test]
fn loss_needs_the_own_coordinate() {
    let me = id(0);
    let telemetry = latencies(&[("00000000", 0)]);
    assert_eq!(
        compute_loss(&me, &Table::new(), &telemetry, &Table::new(), 1_000),
        Err(ProbeError::NotResolved)
    );
}

#[test]
fn record_latency_inserts_then_smooths() {
    let mut t: Table<i64> = Table::new();
    record_latency(&mut t, &id(1), 100 * SCALE, 900_000_000);
    assert_eq!(*t.value(0), 100 * SCALE);
    record_latency(&mut t, &id(1), 200 * SCALE, 900_000_000);
    assert_eq!(t.len(), 1);
    assert_eq!(*t.value(0), 110 * SCALE);
}

#[test]
fn collect_telemetry_updates_latencies_and_failure_counts() {
    let mut telemetry = latencies(&[("00000001", 100 * SCALE)]);
    let mut peers = peers(&[(1, 0), (2, 0), (3, 2)]);
    let batch = vec![id(1), id(2), id(3)];
    let answers = vec![vec![Some(100)], vec![None], vec![Some(20)]];
    let r = collect_telemetry(&mut telemetry, &mut peers, &batch, 900_000_000, &answers);
    assert_eq!(r, Ok(()));
    // peer 1: 100 * 0.9 + 200 * 0.1
    assert_eq!(*telemetry.value(telemetry.find(&id(1)).unwrap()), 110 * SCALE);
    // peer 2 failed: no telemetry, one failure
    assert_eq!(telemetry.find(&id(2)), None);
    assert_eq!(peers.value(1).offline_cnt, 1);
    // peer 3 answered: back online, first value taken as it is
    assert_eq!(*telemetry.value(telemetry.find(&id(3)).unwrap()), 120 * SCALE);
    assert_eq!(peers.value(2).offline_cnt, 0);
    assert_eq!(peers.value(0).offline_cnt, 0);
}

#[test]
fn collect_telemetry_stops_at_a_stranger() {
    let mut telemetry: Table<i64> = Table::new();
    let mut peers = peers(&[(1, 0), (2, 0)]);
    let batch = vec![id(1), id(5), id(2)];
    let answers = vec![vec![Some(1)], vec![Some(1)], vec![Some(1)]];
    let r = collect_telemetry(&mut telemetry, &mut peers, &batch, 0, &answers);
    assert_eq!(r, Err(ProbeError::NotAPeer));
    assert_eq!(telemetry.len(), 1);
    assert_eq!(telemetry.key(0), "00000001");
}

#[test]
fn collect_telemetry_counts_a_missing_measurement_as_failure() {
    let mut telemetry: Table<i64> = Table::new();
    let mut peers = peers(&[(1, 0)]);
    let r = collect_telemetry(&mut telemetry, &mut peers, &vec![id(1)], 0, &vec![]);
    assert_eq!(r, Ok(()));
    assert_eq!(peers.value(0).offline_cnt, 1);
    assert_eq!(telemetry.len(), 0);
}

#[test]
fn batch_force_counts_peers_with_latency_and_coordinate() {
    let telemetry = latencies(&[("00000001", 10 * SCALE), ("00000002", 0), ("00000003", SCALE)]);
    let resolved = coordinates(&[
        ("00000001", vec![3 * SCALE, 4 * SCALE]),
        ("00000002", vec![3 * SCALE, 4 * SCALE]),
    ]);
    let batch = vec![id(1), id(2), id(3), id(4)];
    let (force, k) = batch_force(&vec![0, 0], &telemetry, &resolved, &batch, 0);
    assert_eq!(k, 2);
    // peer 1 pushes (-3, -4), peer 2 pulls (3, 4)
    assert_eq!(force, vec![0, 0]);
    let (force, k) = batch_force(&vec![0, 0], &telemetry, &resolved, &vec![id(1)], 0);
    assert_eq!(k, 1);
    assert_eq!(force, vec![-3 * SCALE, -4 * SCALE]);
}

#[test]
fn batch_force_of_nothing_is_zero() {
    let (force, k) = batch_force(&vec![5, 5, 5], &Table::new(), &Table::new(), &vec![id(1)], 0);
    assert_eq!(k, 0);
    assert_eq!(force, vec![0, 0, 0]);
}

#[test]
fn ensure_coordinates_fills_in_measured_peers() {
    let telemetry = latencies(&[("00000001", SCALE), ("00000002", SCALE)]);
    let mut resolved = coordinates(&[("00000001", vec![7, 8])]);
    ensure_coordinates(&mut resolved, &telemetry, &vec![id(1), id(2), id(3)], 2);
    assert_eq!(resolved.len(), 2);
    assert_eq!(*resolved.value(0), vec![7, 8]);
    assert_eq!(resolved.key(1), "00000002");
    assert_eq!(resolved.value(1).len(), 2);
    for x in resolved.value(1) {
        assert!(0 <= *x && *x < SCALE);
    }
}

#[test]
fn aggregation_averages_with_the_count() {
    // merged into an existing entry: (old + new) / 2; a second time: (old + a + b) / 3
    let mut resolved = coordinates(&[("00000000", vec![10, 20]), ("00000001", vec![0, 0])]);
    let mut pending = Vec::new();
    let first = coordinates(&[("00000001", vec![30, 60]), ("00000002", vec![8, 9])]);
    let second = coordinates(&[("00000001", vec![60, 30]), ("00000002", vec![2, 1])]);
    let merged = aggregate(&mut resolved, &mut pending, &vec![Some(first), None, Some(second)], 2);
    assert!(merged);
    assert_eq!(*resolved.value(0), vec![10, 20]);
    assert_eq!(*resolved.value(1), vec![30, 30]);
    // new entry taken as it is with count 1, then added to with count 2
    assert_eq!(resolved.key(2), "00000002");
    assert_eq!(*resolved.value(2), vec![5, 5]);
    assert_eq!(pending, vec![id(1), id(2)]);
}

#[test]
fn aggregation_takes_a_new_entry_as_it_is() {
    let mut resolved = coordinates(&[("00000000", vec![10, 20])]);
    let mut pending = vec![id(5)];
    let remote = coordinates(&[("00000005", vec![9, 9]), ("00000006", vec![-4, 4])]);
    assert!(aggregate(&mut resolved, &mut pending, &vec![Some(remote)], 2));
    assert_eq!(resolved.len(), 3);
    assert_eq!(*resolved.value(1), vec![9, 9]);
    assert_eq!(*resolved.value(2), vec![-4, 4]);
    assert_eq!(pending, vec![id(5), id(6)]);
}

#[test]
fn aggregation_passes_over_vectors_of_the_wrong_length() {
    let mut resolved = coordinates(&[("00000000", vec![10, 20])]);
    let mut pending = Vec::new();
    let remote = coordinates(&[("00000000", vec![1, 2, 3]), ("00000003", vec![1])]);
    assert!(!aggregate(&mut resolved, &mut pending, &vec![Some(remote)], 2));
    assert_eq!(resolved.len(), 1);
    assert_eq!(*resolved.value(0), vec![10, 20]);
    assert_eq!(pending, vec![id(0), id(3)]);
}

#[test]
fn aggregation_of_nothing_changes_nothing() {
    let mut resolved = coordinates(&[("00000000", vec![10, 20])]);
    let mut pending = Vec::new();
    assert!(!aggregate(&mut resolved, &mut pending, &vec![None, None], 2));
    assert!(!aggregate(&mut resolved, &mut pending, &vec![], 2));
    assert_eq!(*resolved.value(0), vec![10, 20]);
    assert!(pending.is_empty());
}

#[test]
fn centroid_is_the_mean() {
    let resolved = coordinates(&[
        ("a", vec![0, 9]),
        ("b", vec![6, -9]),
        ("c", vec![3, 2]),
    ]);
    assert_eq!(centroid(&resolved, 2), vec![3, 0]);
}

#[test]
fn recentring_moves_the_centroid_to_the_origin() {
    let mut resolved = coordinates(&[
        ("a", vec![10 * SCALE, 0]),
        ("b", vec![20 * SCALE, 3 * SCALE]),
        ("c", vec![30 * SCALE, -9 * SCALE]),
    ]);
    recenter(&mut resolved, 2);
    assert_eq!(*resolved.value(0), vec![-10 * SCALE, 2 * SCALE]);
    assert_eq!(*resolved.value(1), vec![0, 5 * SCALE]);
    assert_eq!(*resolved.value(2), vec![10 * SCALE, -7 * SCALE]);
    assert_eq!(centroid(&resolved, 2), vec![0, 0]);
}

#[test]
fn recentred_columns_sum_to_less_than_the_number_of_vectors() {
    let mut resolved = coordinates(&[
        ("a", vec![1, 7, -5]),
        ("b", vec![0, 0, -5]),
        ("c", vec![0, 0, 3]),
        ("d", vec![1, 12, 0]),
    ]);
    recenter(&mut resolved, 3);
    let n = resolved.len() as i64;
    let mut norm_square: i128 = 0;
    for c in 0..3 {
        let mut sum: i64 = 0;
        for j in 0..resolved.len() {
            sum += resolved.value(j)[c];
        }
        assert!(-n < sum && sum < n);
        norm_square += (sum as i128) * (sum as i128);
    }
    // the centroid is shorter than a millionth: in billionths squared
    assert!(norm_square < 1_000_000 * (n as i128) * (n as i128));
}

fn round_of_two(eps: i64) -> Probe {
    let mut parameters = ProbeParameters::from_cache(&CachedParameters::empty());
    parameters.dim_size = 2;
    parameters.eps = eps;
    Probe::from_parts(
        id(0),
        parameters,
        latencies(&[("00000000", 0), ("00000001", 10 * SCALE)]),
        coordinates(&[("00000000", vec![0, 0]), ("00000001", vec![3 * SCALE, 4 * SCALE])]),
        peers(&[(1, 0)]),
        vec![],
        ProbeStatus { is_optimizing: true, precision_ms: 0, epoch: 0 },
    )
    .unwrap()
}

#[test]
fn descent_step_moves_along_the_smoothed_force() {
    let round = round_of_two(0);
    let mut d = Descent {
        x: vec![0, 0],
        m: vec![0, 0],
        schedule: Schedule::start(&round.parameters),
    };
    assert!(descent_step(&mut d, &round, &vec![id(1)]));
    // force (-3, -4) from one peer; momentum 0 * 0.9 + force * 0.1; position += momentum * 1
    assert_eq!(d.m, vec![-300_000_000, -400_000_000]);
    assert_eq!(d.x, vec![-300_000_000, -400_000_000]);
    // the loss is that of the round's coordinates: |10 - 5| / (2 - 1)
    assert_eq!(d.schedule.min_loss, 5 * SCALE);
    assert_eq!(d.schedule.patience, 0);
    assert_eq!(d.schedule.iteration, 1);
    assert!(descent_step(&mut d, &round, &vec![id(1)]));
    // now 5.5 away: direction (-0.6, -0.8), error 4.5, force (-2.7, -3.6)
    // momentum (-0.3, -0.4) * 0.9 + (-0.27, -0.36) = (-0.54, -0.72)
    assert_eq!(d.m, vec![-540_000_000, -720_000_000]);
    assert_eq!(d.x, vec![-840_000_000, -1_120_000_000]);
    assert_eq!(d.schedule.patience, 1);
    assert_eq!(d.schedule.iteration, 2);
}

#[test]
fn descent_step_without_pull_is_no_step() {
    let round = round_of_two(0);
    let mut d = Descent {
        x: vec![7, 7],
        m: vec![1, 1],
        schedule: Schedule::start(&round.parameters),
    };
    assert!(!descent_step(&mut d, &round, &vec![]));
    assert!(!descent_step(&mut d, &round, &vec![id(5)]));
    assert_eq!(d.x, vec![7, 7]);
    assert_eq!(d.m, vec![1, 1]);
    assert_eq!(d.schedule.iteration, 0);
}

#[test]
fn counts_start_at_zero_and_follow_the_merges() {
    let mut resolved = coordinates(&[("a", vec![10, 20]), ("b", vec![2, 4])]);
    let mut counts = start_counts(&resolved);
    assert_eq!(counts, vec![0, 0]);
    let mut met = Vec::new();
    merge_remote(
        &mut resolved,
        &mut counts,
        &mut met,
        &coordinates(&[("b", vec![4, 8]), ("c", vec![1, 1])]),
        2,
    );
    assert_eq!(counts, vec![0, 2, 1]);
    assert_eq!(met, vec!["b".to_string(), "c".to_string()]);
    assert_eq!(*resolved.value(1), vec![6, 12]);
    assert!(average(&mut resolved, &counts, 2));
    assert_eq!(*resolved.value(0), vec![10, 20]);
    assert_eq!(*resolved.value(1), vec![3, 6]);
    assert_eq!(*resolved.value(2), vec![1, 1]);
}

#[test]
fn average_without_counts_changes_nothing() {
    let mut resolved = coordinates(&[("a", vec![10, 20])]);
    assert!(!average(&mut resolved, &vec![0], 2));
    assert_eq!(*resolved.value(0), vec![10, 20]);
}
