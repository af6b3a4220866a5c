use aim_trainer::timing::{
    curve_hint_due, earliest, hit_error_ms, preempt_started, target_lifetime, tick_markers, Marker, TimeSpan,
};

fn ms(v: u64) -> TimeSpan {
    TimeSpan::from_millis(v)
}

#[test]
fn marker_hint_before_spawn() {
    let m = Marker::new(ms(2000), ms(1200));
    assert_eq!(m.time(), ms(2000));
    assert_eq!(m.hint_time(), ms(800));
    assert_eq!(m.lead_time(), ms(1200));
    let early = Marker::new(ms(500), ms(1200));
    assert_eq!(early.hint_time(), TimeSpan::zero());
    assert_eq!(early.lead_time(), ms(500));
}

#[test]
fn marker_triggers_in_closed_windows() {
    let m = Marker::new(ms(2000), ms(1200));
    assert_eq!(m.triggers(ms(0), ms(799)), (false, false));
    assert_eq!(m.triggers(ms(799), ms(800)), (true, false));
    assert_eq!(m.triggers(ms(800), ms(1999)), (true, false));
    assert_eq!(m.triggers(ms(1999), ms(2000)), (false, true));
    assert_eq!(m.triggers(ms(0), ms(3000)), (true, true));
    // positions visited in consecutive frames cover every marker time
    let positions = [0u64, 16, 700, 1000, 1990, 2016];
    let hits: Vec<(bool, bool)> =
        positions.windows(2).map(|w| m.triggers(ms(w[0]), ms(w[1]))).collect();
    assert!(hits.iter().any(|h| h.0));
    assert!(hits.iter().any(|h| h.1));
}

#[test]
fn ordering_and_earliest() {
    let a = Marker::new(ms(300), ms(10));
    let b = Marker::new(ms(100), ms(10));
    let c = Marker::new(ms(100), ms(50));
    assert!(b < a);
    assert!(!(a < b));
    assert!(b == c);
    assert!(a != b);
    assert_eq!(b.partial_cmp(&c), Some(std::cmp::Ordering::Equal));
    assert_eq!(a.partial_cmp(&b), Some(std::cmp::Ordering::Greater));
    let mut sorted = vec![a, b, c];
    sorted.sort_by(|x, y| x.partial_cmp(y).unwrap());
    assert_eq!(sorted[0].hint_time(), ms(90));
    assert_eq!(sorted[1].hint_time(), ms(50));
    assert_eq!(sorted[2].time(), ms(300));
    assert_eq!(earliest(&vec![a, b, c]), Some(1));
    assert_eq!(earliest(&vec![a]), Some(0));
    assert_eq!(earliest(&vec![]), None);
}

#[test]
fn durations() {
    assert_eq!(ms(5).checked_sub(ms(7)), None);
    assert_eq!(ms(7).checked_sub(ms(5)), Some(ms(2)));
    assert_eq!(ms(5).saturating_sub(ms(7)), TimeSpan::zero());
    assert_eq!(TimeSpan { nanos: 1_999_999 }.as_millis(), 1);
    let max = TimeSpan { nanos: u64::MAX as u128 * 1_000_000_000 + 999_999_999 };
    assert_eq!(max.checked_add(TimeSpan { nanos: 1 }), None);
    assert!(preempt_started(ms(300), ms(300)));
    assert!(!preempt_started(ms(301), ms(300)));
}

#[test]
fn hit_error_is_zero_on_the_beat() {
    let m = Marker::new(ms(2000), ms(1200));
    let life = target_lifetime(m.lead_time()).unwrap();
    assert_eq!(life, ms(1600));
    // at the hit time, the lifetime has run for the lead time
    assert_eq!(hit_error_ms(life.saturating_sub(ms(1200))), 0);
    // 50 ms early and 50 ms late
    assert_eq!(hit_error_ms(life.saturating_sub(ms(1150))), 50);
    assert_eq!(hit_error_ms(life.saturating_sub(ms(1250))), -50);
    assert_eq!(hit_error_ms(TimeSpan::zero()), -400);
}

#[test]
fn frame_events_in_marker_order() {
    let markers = vec![
        Marker::new(ms(2000), ms(1200)),
        Marker::new(ms(100), ms(10)),
        Marker::new(ms(100), ms(50)),
    ];
    assert_eq!(tick_markers(&markers, ms(0), ms(60)), (vec![2], vec![]));
    assert_eq!(tick_markers(&markers, ms(60), ms(100)), (vec![1], vec![1, 2]));
    assert_eq!(tick_markers(&markers, ms(100), ms(800)), (vec![0], vec![1, 2]));
    assert_eq!(tick_markers(&markers, ms(801), ms(2000)), (vec![], vec![0]));
    assert_eq!(tick_markers(&vec![], ms(0), ms(5000)), (vec![], vec![]));
    // every event of a play whose frames never go back is raised in some frame
    let frames = [0u64, 16, 33, 700, 850, 1999, 2016];
    let mut hints = vec![];
    let mut spawns = vec![];
    for w in frames.windows(2) {
        let (h, s) = tick_markers(&markers, ms(w[0]), ms(w[1]));
        hints.extend(h);
        spawns.extend(s);
    }
    for k in 0..markers.len() {
        assert!(hints.contains(&k));
        assert!(spawns.contains(&k));
    }
}

#[test]
fn slider_hint_within_one_frame_of_the_approach() {
    assert!(curve_hint_due(ms(1200), ms(1200), ms(16)));
    assert!(curve_hint_due(ms(1216), ms(1200), ms(16)));
    assert!(curve_hint_due(ms(1184), ms(1200), ms(16)));
    assert!(!curve_hint_due(ms(1217), ms(1200), ms(16)));
    assert!(!curve_hint_due(ms(1183), ms(1200), ms(16)));
    assert!(curve_hint_due(ms(0), ms(0), ms(0)));
}
