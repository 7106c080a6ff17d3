use battery_graph::state::{charging_from_status, BatteryGraph, BatteryState};

#[test]
fn status_line_maps_to_charging_flag() {
    assert!(charging_from_status("Charging"));
    assert!(charging_from_status("Full"));
    assert!(!charging_from_status("Discharging"));
    assert!(!charging_from_status("Unknown"));
    assert!(!charging_from_status(""));
    assert!(!charging_from_status("charging"));
}

#[test]
fn sample_accessors() {
    let mut s = BatteryState::new(42, 55.5f32.to_bits(), false);
    assert_eq!(s.get_timestamp(), 42);
    assert_eq!(f32::from_bits(s.get_level_bits()), 55.5);
    assert!(!s.get_charging());
    s.set_timestamp(43);
    s.set_level_bits(56.0f32.to_bits());
    s.set_charging(true);
    assert_eq!(s.get_timestamp(), 43);
    assert_eq!(f32::from_bits(s.get_level_bits()), 56.0);
    assert!(s.get_charging());
}

#[test]
fn graph_holds_its_states() {
    let mut g = BatteryGraph::new();
    assert!(g.get_states().is_empty());
    let samples = vec![
        BatteryState::new(1, 80.0f32.to_bits(), false),
        BatteryState::new(2, 79.5f32.to_bits(), true),
    ];
    g.set_states(samples.clone());
    assert_eq!(g.get_states(), &samples);
    let taken = g.take_states();
    assert_eq!(taken, samples);
    assert!(g.get_states().is_empty());
    g.set_states(samples);
    g.clear_states();
    assert!(g.get_states().is_empty());
}
