use hexalon::initiative_tracker::{Creature, Tracker, TrackerEvent};

fn creature(id: &str, initiative: i32, active: bool) -> Creature {
    Creature {
        id: id.to_string(),
        name: id.to_string(),
        initiative,
        player: Some(true),
        active,
        number: 0,
        cr: None,
        current_ac: 14,
    }
}

#[test]
fn first_known_turn_is_reported() {
    let tracker = Tracker::default();
    let fresh = vec![creature("a", 20, false), creature("b", 15, true)];
    match tracker.get_turn_event(&fresh) {
        Some(TrackerEvent::TurnUpdate(c)) => assert_eq!(c.id, "b"),
        None => panic!("a newly active creature must be reported"),
    }
}

#[test]
fn unchanged_turn_is_silent() {
    let mut tracker = Tracker::default();
    tracker.ordered = vec![creature("a", 20, true), creature("b", 15, false)];
    let same = vec![creature("a", 20, true), creature("b", 15, false)];
    assert!(tracker.get_turn_event(&same).is_none());
}

#[test]
fn turn_change_is_reported() {
    let mut tracker = Tracker::default();
    tracker.ordered = vec![creature("a", 20, true), creature("b", 15, false)];
    let advanced = vec![creature("a", 20, false), creature("b", 15, true)];
    match tracker.get_turn_event(&advanced) {
        Some(TrackerEvent::TurnUpdate(c)) => assert_eq!(c.id, "b"),
        None => panic!("an advanced turn must be reported"),
    }
}

#[test]
fn no_active_creature_is_silent() {
    let mut tracker = Tracker::default();
    tracker.ordered = vec![creature("a", 20, true)];
    let idle = vec![creature("a", 20, false)];
    assert!(tracker.get_turn_event(&idle).is_none());
}

#[test]
fn creature_equality_is_by_content() {
    let a = creature("a", 20, true);
    let b = creature("a", 20, true);
    assert!(a == b);
    let c = creature("a", 19, true);
    assert!(a != c);
    let d = creature("b", 20, true);
    assert!(a != d);
}
