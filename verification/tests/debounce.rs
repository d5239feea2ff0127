use esp_ward::debounce::{DebouncedInput, Event};

#[test]
fn starts_at_construction_level() {
    let pressed = DebouncedInput::new(true);
    assert!(pressed.settled_state());
    let released = DebouncedInput::new(false);
    assert!(!released.settled_state());
}

#[test]
fn constant_raw_emits_nothing_forever() {
    let mut input = DebouncedInput::new(false);
    for _ in 0..100 {
        assert_eq!(input.poll(false, false), Event::Nothing);
        assert!(!input.settled_state());
    }
    let mut held = DebouncedInput::new(true);
    for _ in 0..100 {
        assert_eq!(held.poll(true, true), Event::Nothing);
        assert!(held.settled_state());
    }
}

#[test]
fn confirmed_press_emits_one_edge() {
    let mut input = DebouncedInput::new(false);
    assert_eq!(input.poll(false, false), Event::Nothing);
    // the raw level rises and still reads high after the settle delay
    assert_eq!(input.poll(true, true), Event::Pressed);
    assert!(input.settled_state());
    // the level stays high: no further events
    for _ in 0..10 {
        assert_eq!(input.poll(true, true), Event::Nothing);
        assert!(input.settled_state());
    }
}

#[test]
fn confirmed_release_emits_one_edge() {
    let mut input = DebouncedInput::new(true);
    assert_eq!(input.poll(false, false), Event::Released);
    assert!(!input.settled_state());
    for _ in 0..10 {
        assert_eq!(input.poll(false, false), Event::Nothing);
    }
}

#[test]
fn glitch_within_settle_delay_is_ignored() {
    let mut input = DebouncedInput::new(false);
    // the raw level flickered high but read low again after the delay
    assert_eq!(input.poll(true, false), Event::Nothing);
    assert!(!input.settled_state());
    // same for a settled-high input flickering low
    let mut held = DebouncedInput::new(true);
    assert_eq!(held.poll(false, true), Event::Nothing);
    assert!(held.settled_state());
}

#[test]
fn transition_pending_tracks_disagreement() {
    let input = DebouncedInput::new(false);
    assert!(input.transition_pending(true));
    assert!(!input.transition_pending(false));
}

#[test]
fn is_pressed_reports_only_press_edges() {
    let mut input = DebouncedInput::new(false);
    assert!(input.is_pressed(true, true));
    // the edge is consumed: a held button does not read as pressed again
    assert!(!input.is_pressed(true, true));
    // a release edge is reported as false, indistinguishable from no change
    assert!(!input.is_pressed(false, false));
    assert!(!input.settled_state());
}
