//! Tests for the ranked bandwidth profile.
//!
//! Bandwidths are in thousandths of a unit, so a rate of 1.5 units is 1500.

use adaptive_runtime::profile::{Profile, Record};

#[derive(Clone, Copy, Debug)]
struct DummyConfig {
    pub v: usize,
}

fn create_profile(i: usize) -> Profile<DummyConfig> {
    let mut vec = Vec::new();
    // Populate sample test data: 1000 times 0.0, 1.0, 2.0, ...
    for k in 0..i {
        let c = DummyConfig { v: k };
        let record = Record { bandwidth: (k as u64) * 1000, config: c, accuracy: 0 };
        vec.push(record);
    }
    Profile::_with_vec(vec)
}

#[test]
fn test_profile_simple_get() {
    let mut profile = create_profile(4);
    assert_eq!(profile.init_config().v, 0);
    assert_eq!(profile.last_config().v, 3);
    assert_eq!(profile.current_config().v, 0);
    assert_eq!(profile.adjust_config(4000).unwrap().config.v, 3);
    assert_eq!(profile.adjust_config(1500).unwrap().config.v, 1);
}

#[test]
fn test_profile_with_one_record() {
    let mut profile = create_profile(1);
    assert_eq!(profile.init_config().v, 0);
    assert_eq!(profile.last_config().v, 0);
    assert_eq!(profile.current_config().v, 0);
    assert!(profile.adjust_config(1500).is_none());
}

fn ranked_table() -> Profile<u8> {
    // Thresholds 1.0, 2.0, 3.0, 4.0 with payloads A, B, C, D.
    let vec = vec![
        Record { bandwidth: 1000, config: b'A', accuracy: 900 },
        Record { bandwidth: 2000, config: b'B', accuracy: 920 },
        Record { bandwidth: 3000, config: b'C', accuracy: 950 },
        Record { bandwidth: 4000, config: b'D', accuracy: 990 },
    ];
    Profile::_with_vec(vec)
}

#[test]
fn adjust_example_table() {
    // Thresholds 0.0, 1.0, 2.0, 3.0 with payloads A, B, C, D.
    let vec = vec![
        Record { bandwidth: 0, config: b'A', accuracy: 900 },
        Record { bandwidth: 1000, config: b'B', accuracy: 920 },
        Record { bandwidth: 2000, config: b'C', accuracy: 950 },
        Record { bandwidth: 3000, config: b'D', accuracy: 990 },
    ];
    let mut profile = Profile::_with_vec(vec);
    assert_eq!(profile.adjust_config(4000).unwrap().config, b'D');
    assert_eq!(profile.adjust_config(1500).unwrap().config, b'B');
}

#[test]
fn locate_exact_matches() {
    let mut simple = ranked_table().simplify();
    // An exact threshold match selects exactly that level.
    assert_eq!(simple.adjust_level(2000), Some(1));
    assert_eq!(simple.adjust_level(3000), Some(2));
    assert_eq!(simple.adjust_level(1000), Some(0));
    assert_eq!(simple.adjust_level(4000), Some(3));
}

#[test]
fn locate_between_thresholds() {
    let mut simple = ranked_table().simplify();
    // A bandwidth strictly between two thresholds selects the lower level.
    assert_eq!(simple.adjust_level(2500), Some(1));
    assert_eq!(simple.adjust_level(3999), Some(2));
}

#[test]
fn locate_below_minimum_selects_level_zero() {
    let mut simple = ranked_table().simplify();
    // Documented quirk: below the smallest threshold level 0 stays selected.
    assert_eq!(simple.adjust_level(500), None);
    assert_eq!(simple.current(), 0);
    // And from a higher level it actively selects level 0.
    assert_eq!(simple.adjust_level(3000), Some(2));
    assert_eq!(simple.adjust_level(500), Some(0));
}

#[test]
fn adjust_is_idempotent() {
    let mut profile = ranked_table();
    // First call from a differing state reports the new record ...
    assert_eq!(profile.adjust_config(2500).unwrap().config, b'B');
    // ... and an immediate repeat with the same bandwidth reports nothing.
    assert!(profile.adjust_config(2500).is_none());
    assert_eq!(profile.current_config(), b'B');
}

#[test]
fn advance_reaches_top_then_stops() {
    let mut simple = ranked_table().simplify();
    assert!(!simple.is_max());
    assert_eq!(simple.advance_level(), Some(1));
    assert_eq!(simple.advance_level(), Some(2));
    assert_eq!(simple.advance_level(), Some(3));
    assert!(simple.is_max());
    // Idempotent at the boundary: every further call reports nothing.
    assert_eq!(simple.advance_level(), None);
    assert_eq!(simple.advance_level(), None);
    assert_eq!(simple.current(), 3);
}

#[test]
fn advance_config_returns_records() {
    let mut profile = ranked_table();
    assert_eq!(profile.advance_config().unwrap().config, b'B');
    assert_eq!(profile.advance_config().unwrap().config, b'C');
    assert_eq!(profile.advance_config().unwrap().config, b'D');
    assert!(profile.advance_config().is_none());
    assert_eq!(profile.current_level(), 3);
}

#[test]
fn next_rate_names_the_following_threshold() {
    let mut simple = ranked_table().simplify();
    assert_eq!(simple.next_rate(), Some(2000));
    simple.advance_level();
    assert_eq!(simple.next_rate(), Some(3000));
    simple.advance_level();
    simple.advance_level();
    assert_eq!(simple.next_rate(), None);
}

#[test]
fn nth_and_accessors() {
    let profile = ranked_table();
    assert_eq!(profile.nth(0), b'A');
    assert_eq!(profile.nth(2), b'C');
    assert_eq!(profile.current_level(), 0);
    assert_eq!(profile.current_config(), b'A');
    let simple = profile.simplify();
    assert_eq!(simple.current(), 0);
}
