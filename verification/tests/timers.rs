use reworkspace::timers::{Due, Timers};

#[test]
fn the_next_tick_is_the_earliest_timer() {
    let mut t = Timers { save_at: None, refresh_at: 5000, type_until: None, pressed_until: None };
    assert_eq!(t.next_deadline(), Some(5000));
    t.dirty(1000);
    assert_eq!(t.save_at, Some(3000));
    t.type_until = Some(1700);
    t.pressed_until = Some((2, 1150));
    assert_eq!(t.next_deadline(), Some(1150));
}

#[test]
fn a_tick_says_what_is_due_and_sets_the_next_refresh() {
    let mut t = Timers { save_at: Some(3000), refresh_at: 5000, type_until: Some(1700), pressed_until: Some((2, 1150)) };
    let d = t.tick(1200, true, false);
    assert_eq!(d, Due { save: false, refresh: false, typeahead_over: false, unpressed: true });
    assert_eq!(t.pressed_until, None);
    let d = t.tick(5000, true, false);
    assert_eq!(d, Due { save: true, refresh: true, typeahead_over: true, unpressed: false });
    assert_eq!((t.save_at, t.type_until, t.refresh_at), (None, None, 10_000));
    // out of focus, the refresh comes round without doing its work
    let d = t.tick(10_000, false, false);
    assert!(!d.refresh);
    assert_eq!(t.refresh_at, 15_000);
    assert!(!t.tick(15_000, true, true).refresh);
}
