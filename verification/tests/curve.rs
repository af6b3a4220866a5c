use aim_trainer::curve::{
    curve_mesh_indices, extract_nary_bezier, plan_hit_object, slide_events, try_plan_hit_object,
    HitPlan, PlanError,
};
use aim_trainer::osu_parser::{CurveType, HitObject, Point, SliderParams};

fn p(x: i32, y: i32) -> Point {
    Point { x, y }
}

#[test]
fn bezier_2() {
    let points = vec![p(277, 184), p(208, 240), p(224, 352), p(224, 352), p(160, 256), p(64, 272), p(64, 272)];
    let curves = extract_nary_bezier(&points);
    assert_eq!(
        curves,
        vec![
            vec![p(277, 184), p(208, 240), p(224, 352)],
            vec![p(224, 352), p(160, 256), p(64, 272), p(64, 272)],
        ]
    );
}

#[test]
fn bezier_segments_without_repeats_and_with_middle_repeat() {
    let pts = vec![p(0, 0), p(0, 1), p(1, 1), p(2, 1)];
    assert_eq!(extract_nary_bezier(&pts), vec![pts.clone()]);
    let pts = vec![p(0, 0), p(1, 1), p(1, 1), p(2, 0)];
    assert_eq!(
        extract_nary_bezier(&pts),
        vec![vec![p(0, 0), p(1, 1)], vec![p(1, 1), p(2, 0)]]
    );
    let pts = vec![p(3, 3), p(3, 3), p(3, 3)];
    assert_eq!(extract_nary_bezier(&pts), vec![vec![p(3, 3)], vec![p(3, 3), p(3, 3)]]);
    let pts = vec![p(1, 2), p(1, 2)];
    assert_eq!(extract_nary_bezier(&pts), vec![vec![p(1, 2), p(1, 2)]]);
}

fn slider(curve_type: CurveType, points: Vec<Point>, slides: usize) -> HitObject {
    HitObject {
        position: p(0, 0),
        time: 10,
        type_bitmask: 2,
        hit_sound: 0,
        object_params: Some(SliderParams {
            curve_type,
            curve_points: points,
            slides,
            length: "100".to_string(),
        }),
        hit_sample: None,
    }
}

#[test]
fn plans_of_hit_objects() {
    let circle = HitObject {
        position: p(5, 6),
        time: 1,
        type_bitmask: 1,
        hit_sound: 0,
        object_params: None,
        hit_sample: None,
    };
    assert!(matches!(plan_hit_object(&circle), HitPlan::Circle(q) if q == p(5, 6)));
    assert!(matches!(try_plan_hit_object(&circle), Ok(HitPlan::Circle(q)) if q == p(5, 6)));
    match plan_hit_object(&slider(CurveType::Bezier, vec![p(1, 1), p(1, 1), p(2, 2)], 1)) {
        HitPlan::Bezier(segs) => {
            assert_eq!(segs, vec![vec![p(0, 0), p(1, 1)], vec![p(1, 1), p(2, 2)]])
        }
        other => panic!("{other:?}"),
    }
    match plan_hit_object(&slider(CurveType::Linear, vec![p(4, 4)], 2)) {
        HitPlan::Linear(pts) => assert_eq!(pts, vec![p(0, 0), p(4, 4)]),
        other => panic!("{other:?}"),
    }
    match plan_hit_object(&slider(CurveType::PerfectCircle, vec![p(1, 0), p(2, 2)], 1)) {
        HitPlan::PerfectCircle(a, b, c) => assert_eq!((a, b, c), (p(0, 0), p(1, 0), p(2, 2))),
        other => panic!("{other:?}"),
    }
    assert_eq!(
        try_plan_hit_object(&slider(CurveType::PerfectCircle, vec![p(1, 0)], 1)).err(),
        Some(PlanError::CircleNeedsThreePoints)
    );
    assert_eq!(
        try_plan_hit_object(&slider(CurveType::CentripetalCatmullRom, vec![p(1, 0)], 1)).err(),
        Some(PlanError::CatmullRom)
    );
    assert_eq!(
        try_plan_hit_object(&slider(CurveType::Linear, vec![p(1, 0)], 0)).err(),
        Some(PlanError::NoSlides)
    );
    assert_eq!(
        try_plan_hit_object(&slider(CurveType::Bezier, vec![p(0, 0), p(0, 0)], 1)).err(),
        Some(PlanError::SinglePointSegment)
    );
    assert_eq!(
        try_plan_hit_object(&slider(CurveType::Linear, vec![], 1)).err(),
        Some(PlanError::TooFewPoints)
    );
}

#[test]
fn tube_mesh_indices() {
    let res = 4;
    let segments = 3;
    let idx = curve_mesh_indices(res, segments);
    let vc = (res * segments) as u32;
    assert_eq!(idx.len(), 6 * res * segments);
    // first vertex of the first ring
    assert_eq!(&idx[0..6], &[0, 1, 4, 4, 1, 5]);
    // last vertex of a ring wraps to the start of the ring
    assert_eq!(&idx[18..24], &[3, 0, 7, 7, 0, 4]);
    // caps: bottom fan to vertex vc, top fan to vertex vc + 1
    let caps = &idx[6 * (res * segments - res)..];
    assert_eq!(&caps[0..3], &[1, 0, vc]);
    assert_eq!(&caps[3 * res..3 * res + 3], &[8, 9, vc + 1]);
    assert!(idx.iter().all(|&i| i < vc + 2));
    let one_ring = curve_mesh_indices(32, 1);
    assert_eq!(one_ring.len(), 6 * 32);
}

#[test]
fn slide_event_flags() {
    assert_eq!(slide_events(3), vec![(0, false), (1, false), (2, false), (3, true)]);
    assert_eq!(slide_events(1), vec![(0, false), (1, true)]);
    assert_eq!(slide_events(0), vec![(0, false)]);
}

#[test]
fn bezier_segment_count() {
    // repeats (other than of the last two points) plus one
    let pts = vec![p(0, 0), p(1, 1), p(1, 1), p(2, 2), p(2, 2), p(3, 3), p(3, 3)];
    assert_eq!(extract_nary_bezier(&pts).len(), 3);
    assert_eq!(extract_nary_bezier(&vec![p(0, 0), p(0, 0)]).len(), 1);
    assert_eq!(extract_nary_bezier(&vec![p(0, 0), p(1, 0), p(2, 0)]).len(), 1);
}
