use aim_trainer::target::{hover_effect, spawner_may_spawn, Target};
use aim_trainer::timing::TimeSpan;

#[test]
fn counting_target_destroyed_by_last_hit() {
    let mut t = Target::Counter(3);
    assert!(!t.hit());
    assert!(!t.hit());
    assert_eq!(t, Target::Counter(1));
    assert!(t.hit());
    assert_eq!(t, Target::Counter(0));
    assert_eq!(Target::default(), Target::Counter(1));
}

#[test]
fn slider_target_ignores_hits() {
    let mut t = Target::Duration(TimeSpan::from_millis(100));
    assert!(!t.hit());
    assert!(!t.hit());
    assert_eq!(t, Target::Duration(TimeSpan::from_millis(100)));
}

#[test]
fn effects_and_spawner_limit() {
    assert_eq!(hover_effect(true, true), (1, false));
    assert_eq!(hover_effect(false, true), (0, true));
    assert_eq!(hover_effect(true, false), (0, false));
    assert!(spawner_may_spawn(None, Some(100)));
    assert!(spawner_may_spawn(Some(3), None));
    assert!(spawner_may_spawn(Some(3), Some(2)));
    assert!(!spawner_may_spawn(Some(3), Some(3)));
    assert!(!spawner_may_spawn(Some(0), None));
}
