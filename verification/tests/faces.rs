use teetotum_plugins::faces::{App, Counter, Event};

#[test]
fn the_knob_counts_and_a_tap_clears() {
    let mut counter = Counter { count: 0 };
    assert!(counter.event(Event::Clockwise));
    assert!(counter.event(Event::Clockwise));
    assert!(counter.event(Event::Anticlockwise));
    assert_eq!(counter.count, 1);
    assert!(counter.event(Event::Tap));
    assert_eq!(counter.count, 0);
    assert!(!counter.event(Event::Tap));
    assert!(!counter.event(Event::WipeLeft));
    assert_eq!(counter.count, 0);
}

#[test]
fn the_count_stops_at_the_ends() {
    let mut counter = Counter { count: i32::MAX };
    assert!(!counter.event(Event::Clockwise));
    assert_eq!(counter.count, i32::MAX);
    let mut counter = Counter { count: i32::MIN };
    assert!(!counter.event(Event::Anticlockwise));
    assert_eq!(counter.count, i32::MIN);
    assert!(counter.event(Event::Clockwise));
    assert_eq!(counter.count, i32::MIN + 1);
}

#[test]
fn a_turn_and_a_turn_back_leave_the_count() {
    let mut counter = Counter { count: -7 };
    counter.event(Event::Clockwise);
    counter.event(Event::Anticlockwise);
    assert_eq!(counter.count, -7);
}

#[test]
fn a_tap_switches_the_template() {
    let mut app = App { lit: false };
    assert_eq!(app.line(), "tap the glass");
    assert!(app.event(Event::Tap));
    assert!(app.lit);
    assert_eq!(app.line(), "tapped");
    assert!(!app.event(Event::Clockwise));
    assert!(app.lit);
    assert!(app.event(Event::Tap));
    assert!(!app.lit);
}

#[test]
fn the_template_is_lit_after_an_odd_number_of_taps() {
    let events = [Event::Tap, Event::Clockwise, Event::Tap, Event::WipeUp, Event::Tap, Event::Nearby];
    let mut app = App { lit: false };
    let mut taps = 0;
    for e in events {
        app.event(e);
        if e == Event::Tap {
            taps += 1;
        }
        assert_eq!(app.lit, taps % 2 == 1);
    }
}
