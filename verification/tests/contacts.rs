use load_runner::contact::{
    detect_climb_range, eq_either, ground_detection, match_either, start_event_filter,
    update_jumping, update_on_ground, Climber, ContactEvent, ContactSet, GroundDetection,
    GroundSensor, Jumping,
};

const SENSOR: u64 = 100;
const BODY_A: u64 = 1;
const BODY_B: u64 = 2;

fn collidables() -> Vec<u64> {
    vec![BODY_A, BODY_B]
}

#[test]
fn start_then_stop_in_one_tick_leaves_ground_clear() {
    let mut sensor = GroundSensor::new(SENSOR);
    let events = vec![
        ContactEvent::Started(BODY_A, SENSOR),
        ContactEvent::Stopped(BODY_A, SENSOR),
    ];
    sensor.process_events(SENSOR, &events, &collidables());
    let mut detection = GroundDetection { on_ground: true };
    update_on_ground(&mut detection, &sensor);
    assert!(!detection.on_ground);
    assert!(sensor.intersecting_ground_entities.is_empty());
}

#[test]
fn overlapping_starts_keep_ground_until_both_stop() {
    let mut sensor = GroundSensor::new(SENSOR);
    let mut detection = GroundDetection { on_ground: false };
    let coll = collidables();

    let tick1 = vec![
        ContactEvent::Started(BODY_A, SENSOR),
        ContactEvent::Started(BODY_B, SENSOR),
    ];
    sensor.process_events(SENSOR, &tick1, &coll);
    update_on_ground(&mut detection, &sensor);
    assert!(detection.on_ground);

    let tick2 = vec![ContactEvent::Stopped(BODY_A, SENSOR)];
    sensor.process_events(SENSOR, &tick2, &coll);
    update_on_ground(&mut detection, &sensor);
    assert!(detection.on_ground, "one body still touches the sensor");

    let tick3 = vec![ContactEvent::Stopped(BODY_B, SENSOR)];
    sensor.process_events(SENSOR, &tick3, &coll);
    update_on_ground(&mut detection, &sensor);
    assert!(!detection.on_ground);
}

#[test]
fn mirrored_pair_order_reaches_the_sensor() {
    // the sensor may appear as the first member of the pair
    let mut sensor = GroundSensor::new(SENSOR);
    let events = vec![ContactEvent::Started(SENSOR, BODY_A)];
    sensor.process_events(SENSOR, &events, &collidables());
    assert!(sensor.intersecting_ground_entities.contains(BODY_A));
}

#[test]
fn events_for_other_sensors_are_ignored() {
    let mut sensor = GroundSensor::new(SENSOR);
    let events = vec![ContactEvent::Started(BODY_A, 999)];
    sensor.process_events(SENSOR, &events, &collidables());
    assert!(sensor.intersecting_ground_entities.is_empty());
}

#[test]
fn ground_detection_updates_each_sensor_independently() {
    let sensors = vec![(100u64, GroundSensor::new(100)), (200u64, GroundSensor::new(200))];
    let events = vec![
        ContactEvent::Started(BODY_A, 100),
        ContactEvent::Started(BODY_B, 200),
        ContactEvent::Stopped(BODY_B, 200),
    ];
    let out = ground_detection(sensors, &events, &collidables());
    assert_eq!(out.len(), 2);
    assert!(out[0].1.intersecting_ground_entities.contains(BODY_A));
    assert!(out[1].1.intersecting_ground_entities.is_empty());
}

#[test]
fn contact_set_insert_is_idempotent_and_remove_is_safe() {
    let mut set = ContactSet::new();
    set.insert(5);
    set.insert(5);
    assert_eq!(set.len(), 1);
    set.remove(7);
    assert_eq!(set.len(), 1);
    set.remove(5);
    assert!(set.is_empty());
}

#[test]
fn climb_range_tracks_both_pair_orders() {
    let climber_entity = 42u64;
    let climbables = vec![70u64, 71u64];
    let mut climber = Climber::new();
    let events = vec![
        ContactEvent::Started(climber_entity, 70),
        ContactEvent::Started(71, climber_entity),
    ];
    climber.process_events(climber_entity, &events, &climbables);
    assert!(climber.intersecting_climbables.contains(70));
    assert!(climber.intersecting_climbables.contains(71));

    let stops = vec![
        ContactEvent::Stopped(climber_entity, 70),
        ContactEvent::Stopped(71, climber_entity),
    ];
    climber.process_events(climber_entity, &stops, &climbables);
    assert!(climber.intersecting_climbables.is_empty());
}

#[test]
fn climbing_mode_is_input_gated_and_force_cleared() {
    let climber_entity = 42u64;
    let climbables = vec![70u64];
    let mut climber = Climber::new();

    // no range: vertical input cannot start climbing
    climber.update_climbing(true);
    assert!(!climber.climbing);

    let enter = vec![ContactEvent::Started(climber_entity, 70)];
    climber.process_events(climber_entity, &enter, &climbables);
    // in range, no input: mode stays off
    climber.update_climbing(false);
    assert!(!climber.climbing);
    // in range, vertical input: mode on
    climber.update_climbing(true);
    assert!(climber.climbing);
    // mode is kept without input while still in range
    climber.update_climbing(false);
    assert!(climber.climbing);

    // leaving the range clears the mode at once
    let leave = vec![ContactEvent::Stopped(climber_entity, 70)];
    climber.process_events(climber_entity, &leave, &climbables);
    climber.update_climbing(false);
    assert!(!climber.climbing);
}

#[test]
fn detect_climb_range_dispatches_by_entity() {
    let climbables = vec![70u64];
    let climbers = vec![(1u64, Climber::new()), (2u64, Climber::new())];
    let events = vec![ContactEvent::Started(1, 70)];
    let out = detect_climb_range(climbers, &events, &climbables);
    assert!(out[0].1.intersecting_climbables.contains(70));
    assert!(out[1].1.intersecting_climbables.is_empty());
}

#[test]
fn jumping_clears_on_ground_contact() {
    let mut jumping = Jumping(true);
    update_jumping(&mut jumping, &GroundDetection { on_ground: true });
    assert!(!jumping.0);

    let mut airborne = Jumping(true);
    update_jumping(&mut airborne, &GroundDetection { on_ground: false });
    assert!(airborne.0);
}

#[test]
fn start_event_filter_keeps_only_starts() {
    assert_eq!(start_event_filter(&ContactEvent::Started(1, 2)), Some((1, 2)));
    assert_eq!(start_event_filter(&ContactEvent::Stopped(1, 2)), None);
}

#[test]
fn match_either_prefers_the_first_member() {
    let table = vec![1u64, 2u64];
    assert_eq!(match_either(1, 9, &table), Some((1, 9)));
    assert_eq!(match_either(9, 2, &table), Some((2, 9)));
    assert_eq!(match_either(1, 2, &table), Some((1, 2)));
    assert_eq!(match_either(8, 9, &table), None);
}

#[test]
fn eq_either_matches_either_side() {
    assert!(eq_either(3, 3, 9));
    assert!(eq_either(3, 9, 3));
    assert!(!eq_either(3, 8, 9));
}
