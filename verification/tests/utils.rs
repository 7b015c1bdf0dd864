use sidevm_probing::fixed::SCALE;
use sidevm_probing::types::{
    CachedParameters, ProbeError, ProbeParameters, ProbeStatus, StoredParameters,
};
use sidevm_probing::utils::{
    cache_get, cache_get_byte, cache_value, encode_public_key, euclidean_distance, find_text,
    gen_random_vec, get_address_by_id,
};
use sidevm_probing::PhalaProbe;

#[test]
fn public_key_is_encoded_as_lowercase_hex() {
    assert_eq!(encode_public_key(&vec![0, 0, 0, 1]), "00000001");
    assert_eq!(encode_public_key(&vec![0xab, 0x0f, 0xf0, 0x9c]), "ab0ff09c");
    assert_eq!(encode_public_key(&vec![]), "");
}

#[test]
fn cached_count_is_little_endian() {
    assert_eq!(cache_get(&Some(vec![3, 0, 0, 0, 0, 0, 0, 0])), Ok(Some(3)));
    assert_eq!(cache_get(&Some(vec![0, 1, 0, 0, 0, 0, 0, 0])), Ok(Some(256)));
    assert_eq!(
        cache_get(&Some(vec![0xa0, 0xbb, 0x0d, 0, 0, 0, 0, 0])),
        Ok(Some(900_000))
    );
}

#[test]
fn cached_count_ignores_bytes_behind_the_eighth() {
    assert_eq!(cache_get(&Some(vec![1, 0, 0, 0, 0, 0, 0, 0, 9, 9])), Ok(Some(1)));
}

#[test]
fn missing_cache_key_is_no_error() {
    assert_eq!(cache_get(&None), Ok(None));
    assert_eq!(cache_get_byte(&None), Ok(None));
}

#[test]
fn short_cached_value_fails_to_decode() {
    assert_eq!(cache_get(&Some(vec![1, 2, 3])), Err(ProbeError::DecodeFailed));
    assert_eq!(cache_get_byte(&Some(vec![])), Err(ProbeError::DecodeFailed));
}

#[test]
fn cached_byte_is_the_first_byte() {
    assert_eq!(cache_get_byte(&Some(vec![16])), Ok(Some(16)));
    assert_eq!(cache_get_byte(&Some(vec![7, 1])), Ok(Some(7)));
}

#[test]
fn cache_value_round_trips() {
    assert_eq!(cache_value(3), vec![3, 0, 0, 0, 0, 0, 0, 0]);
    assert_eq!(cache_value(1_000_000), vec![0x40, 0x42, 0x0f, 0, 0, 0, 0, 0]);
    assert_eq!(cache_get(&Some(cache_value(u64::MAX))), Ok(Some(u64::MAX)));
}

#[test]
fn random_vector_lies_in_the_unit_cube() {
    let v = gen_random_vec(64);
    assert_eq!(v.len(), 64);
    for x in &v {
        assert!(0 <= *x && *x < SCALE);
    }
    assert_eq!(gen_random_vec(0).len(), 0);
}

#[test]
fn random_vectors_differ() {
    let a = gen_random_vec(16);
    let b = gen_random_vec(16);
    assert_ne!(a, b);
}

#[test]
fn distance_of_a_3_4_5_triangle() {
    let a = vec![0, 0];
    let b = vec![3 * SCALE, 4 * SCALE];
    assert_eq!(euclidean_distance(&a, &b), 5 * SCALE);
    assert_eq!(euclidean_distance(&b, &a), 5 * SCALE);
}

#[test]
fn distance_rounds_down() {
    // sqrt(2) = 1.41421356237...
    assert_eq!(euclidean_distance(&[0, 0], &[SCALE, SCALE]), 1_414_213_562);
}

#[test]
fn distance_to_itself_is_zero() {
    let a = vec![5, -7, 123_456_789];
    assert_eq!(euclidean_distance(&a, &a), 0);
}

#[test]
fn distance_uses_the_common_components() {
    assert_eq!(euclidean_distance(&[3, 100], &[0]), 3);
    assert_eq!(euclidean_distance(&[], &[1, 2]), 0);
}

#[test]
fn distance_saturates() {
    assert_eq!(euclidean_distance(&[i64::MAX, i64::MAX], &[i64::MIN, i64::MIN]), i64::MAX);
}

#[test]
fn directory_knows_eight_nodes() {
    assert_eq!(get_address_by_id("00000000"), Ok(vec!["127.0.0.1:2000".to_string()]));
    assert_eq!(get_address_by_id("00000003"), Ok(vec!["127.0.0.1:2003".to_string()]));
    assert_eq!(get_address_by_id("00000007"), Ok(vec!["127.0.0.1:2007".to_string()]));
}

#[test]
fn directory_fails_on_unknown_ids() {
    assert_eq!(get_address_by_id("00000008"), Err(ProbeError::DirectoryLookupFailed));
    assert_eq!(get_address_by_id("0000000"), Err(ProbeError::DirectoryLookupFailed));
    assert_eq!(get_address_by_id("000000001"), Err(ProbeError::DirectoryLookupFailed));
    assert_eq!(get_address_by_id("10000001"), Err(ProbeError::DirectoryLookupFailed));
    assert_eq!(get_address_by_id(""), Err(ProbeError::DirectoryLookupFailed));
    assert_eq!(get_address_by_id("0000000a"), Err(ProbeError::DirectoryLookupFailed));
}

#[test]
fn find_text_gives_the_first_position() {
    let v = vec!["a".to_string(), "b".to_string(), "a".to_string()];
    assert_eq!(find_text(&v, &"a".to_string()), Some(0));
    assert_eq!(find_text(&v, &"b".to_string()), Some(1));
    assert_eq!(find_text(&v, &"c".to_string()), None);
}

#[test]
fn default_parameters() {
    let p = ProbeParameters::from_cache(&CachedParameters::empty());
    assert_eq!(p.dim_size, 3);
    assert_eq!(p.sample_size, 10);
    assert_eq!(p.detection_size, 5);
    assert_eq!(p.batch_size, 64);
    assert_eq!(p.beta, 900_000_000);
    assert_eq!(p.lr, SCALE);
    assert_eq!(p.patience, 1000);
    assert_eq!(p.factor, 100_000_000);
    assert_eq!(p.min_lr, 1_000_000);
    assert_eq!(p.max_iters, 10_000);
    assert_eq!(p.max_offline_cnt, 16);
    assert_eq!(p.eps, 1_000);
}

#[test]
fn cached_parameters_override_defaults() {
    let mut c = CachedParameters::empty();
    c.dim_size = Some(2);
    c.beta = Some(500_000);
    c.max_offline_cnt = Some(3);
    c.lr = Some(u64::MAX);
    let p = ProbeParameters::from_cache(&c);
    assert_eq!(p.dim_size, 2);
    assert_eq!(p.beta, 500_000_000);
    assert_eq!(p.max_offline_cnt, 3);
    assert_eq!(p.lr, i64::MAX);
    assert_eq!(p.sample_size, 10);
}

#[test]
fn stored_parameters_decode() {
    let stored = StoredParameters {
        dim_size: Some(cache_value(4)),
        sample_size: None,
        detection_size: None,
        batch_size: None,
        beta: Some(cache_value(800_000)),
        lr: None,
        patience: None,
        factor: None,
        min_lr: None,
        max_iters: None,
        max_offline_cnt: Some(vec![5]),
    };
    let c = stored.decode().unwrap();
    assert_eq!(c.dim_size, Some(4));
    assert_eq!(c.beta, Some(800_000));
    assert_eq!(c.max_offline_cnt, Some(5));
    assert_eq!(c.lr, None);
}

#[test]
fn stored_parameters_fail_on_short_value() {
    let stored = StoredParameters {
        dim_size: None,
        sample_size: None,
        detection_size: None,
        batch_size: None,
        beta: None,
        lr: None,
        patience: Some(vec![1, 2]),
        factor: None,
        min_lr: None,
        max_iters: None,
        max_offline_cnt: None,
    };
    assert_eq!(stored.decode().err(), Some(ProbeError::DecodeFailed));
}

#[test]
fn zeroed_defaults() {
    let p = ProbeParameters::default();
    assert_eq!(p.dim_size, 0);
    assert_eq!(p.beta, 0);
    let s = ProbeStatus::default();
    assert!(!s.is_optimizing);
    assert_eq!(s.precision_ms, 0);
    assert_eq!(s.epoch, 0);
}

#[test]
fn deployment_caches_the_default_settings() {
    let handle = PhalaProbe::default();
    handle.test();
    let entries = handle.startup_cache();
    assert_eq!(entries.len(), 9);
    assert_eq!(entries[0].key, "sidevm_probing::param::dim_size");
    assert_eq!(entries[0].value, vec![3, 0, 0, 0, 0, 0, 0, 0]);
    assert_eq!(entries[4].key, "sidevm_probing::param::beta");
    assert_eq!(cache_get(&Some(entries[4].value.clone())), Ok(Some(900_000)));
    assert_eq!(entries[8].key, "sidevm_probing::param::min_lr");
    assert_eq!(cache_get(&Some(entries[8].value.clone())), Ok(Some(1_000)));
}
