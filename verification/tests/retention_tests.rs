use battery_graph::pruner::prune_old;
use battery_graph::state::{level_is_full, BatteryState};

fn s(ts: u32, level: f32, charging: bool) -> BatteryState {
    BatteryState::new(ts, level.to_bits(), charging)
}

#[test]
fn fresh_history_is_unchanged() {
    // One sample at the epoch, pruned half an hour in: within the six-hour
    // window and no full-charge checkpoint, so nothing is dropped.
    let h = vec![s(0, 50.0, false)];
    assert_eq!(prune_old(&h, 3600), h);
}

#[test]
fn empty_history_stays_empty() {
    let h: Vec<BatteryState> = vec![];
    assert_eq!(prune_old(&h, 123456), h);
}

#[test]
fn checkpoint_anchors_the_cut() {
    let now = 100_000;
    let h = vec![
        s(1_000, 40.0, false),
        s(50_000, 100.0, true),
        s(99_000, 95.0, false),
        s(99_900, 94.0, false),
    ];
    let kept = prune_old(&h, now);
    assert_eq!(kept, h[1..].to_vec());
}

#[test]
fn aged_out_sample_anchors_the_cut() {
    let now = 100_000;
    // The window floor is 78 400; the scan stops at the newest sample
    // below it and keeps it together with everything newer.
    let h = vec![s(10, 50.0, false), s(20, 50.0, false), s(95_000, 60.0, false)];
    let kept = prune_old(&h, now);
    assert_eq!(kept, h[1..].to_vec());
}

#[test]
fn recent_full_charge_is_not_a_checkpoint() {
    let now = 100_000;
    // Both full-charge samples are newer than now - 30 min (98 200).
    let h = vec![s(99_000, 100.0, true), s(99_500, 100.0, true)];
    assert_eq!(prune_old(&h, now), h);
}

#[test]
fn checkpoint_age_boundary() {
    let now = 100_000;
    let at_boundary = vec![s(98_200, 100.0, true), s(99_000, 99.0, false)];
    // Exactly now - 1800 counts as settled: the scan stops there.
    assert_eq!(prune_old(&at_boundary, now), at_boundary);
    let one_late = vec![s(98_201, 100.0, true), s(99_000, 99.0, false)];
    assert_eq!(prune_old(&one_late, now), one_late);
}

#[test]
fn window_boundary() {
    let now = 100_000;
    // Exactly now - 21600 is still within the window; one second older
    // has aged out.
    let inside = vec![s(78_400, 50.0, false), s(99_000, 49.0, false)];
    assert_eq!(prune_old(&inside, now), inside);
    let outside = vec![s(78_399, 50.0, false), s(99_000, 49.0, false)];
    assert_eq!(prune_old(&outside, now), outside.clone());
    // The aged sample itself is retained as the boundary; anything
    // strictly older goes.
    let two_old = vec![s(70_000, 51.0, false), s(78_399, 50.0, false), s(99_000, 49.0, false)];
    assert_eq!(prune_old(&two_old, now), two_old[1..].to_vec());
}

#[test]
fn early_clock_never_underflows() {
    // A clock before either horizon: no sample can match.
    let h = vec![s(0, 100.0, true), s(10, 99.0, false)];
    assert_eq!(prune_old(&h, 1000), h);
}

#[test]
fn pruning_twice_changes_nothing_more() {
    let now = 100_000;
    let h = vec![
        s(10, 50.0, false),
        s(50_000, 100.0, true),
        s(99_000, 95.0, false),
    ];
    let once = prune_old(&h, now);
    let twice = prune_old(&once, now);
    assert_eq!(twice, once);
}

#[test]
fn full_level_matches_single_precision_comparison() {
    let patterns = [
        100.0f32.to_bits(),
        100.00001f32.to_bits(),
        99.99999f32.to_bits(),
        0.0f32.to_bits(),
        (-0.0f32).to_bits(),
        (-100.0f32).to_bits(),
        f32::INFINITY.to_bits(),
        f32::NEG_INFINITY.to_bits(),
        f32::NAN.to_bits(),
        0x7F80_0001, // a NaN just above infinity's pattern
        0xFFC0_0000, // a negative NaN
        0x0000_0001, // smallest subnormal
        150.0f32.to_bits(),
    ];
    for &bits in patterns.iter() {
        assert_eq!(
            level_is_full(bits),
            f32::from_bits(bits) >= 100.0,
            "pattern {:#010x}",
            bits
        );
    }
}
