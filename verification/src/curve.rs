//! Slider curves: the split of control points into Bezier segments, the plan
//! of the marker each hit object becomes, the index buffer of the tube mesh
//! drawn along a slider, and the slides that raise sound events.
use vstd::arithmetic::div_mod::{lemma_fundamental_div_mod, lemma_fundamental_div_mod_converse};
use vstd::prelude::*;

use crate::osu_parser::{CurveType, HitObject, HitObjectModel, Point};

verus! {

// ---------------------------------------------------------------------------
// Bezier segments
// ---------------------------------------------------------------------------

/// The segments of `p` from index `i` on, where the current segment started
/// at `s`. A segment closes after a point that the next point repeats; the
/// point after a closing repeat starts the next segment, except that a repeat
/// of the last two points closes nothing and the last point joins the final
/// segment.
pub open spec fn segments_from(p: Seq<Point>, s: int, i: int) -> Seq<Seq<Point>>
    decreases p.len() - i,
{
    if i + 1 >= p.len() {
        seq![p.subrange(s, p.len() as int)]
    } else if p[i] == p[i + 1] {
        if i + 2 == p.len() {
            seq![p.subrange(s, p.len() as int)]
        } else {
            seq![p.subrange(s, i + 1)] + segments_from(p, i + 1, i + 1)
        }
    } else {
        segments_from(p, s, i + 1)
    }
}

/// The Bezier segments of a slider's control points: consecutive runs, each
/// closed where a point is repeated.
pub open spec fn bezier_segments(p: Seq<Point>) -> Seq<Seq<Point>> {
    segments_from(p, 0, 0)
}

/// The segments of `p` (see `bezier_segments`), for two or more points.
pub fn extract_nary_bezier(points: &Vec<Point>) -> (r: Vec<Vec<Point>>)
    requires
        points.len() >= 2,
    ensures
        r.deep_view() == bezier_segments(points@),
{
    let mut curves: Vec<Vec<Point>> = Vec::new();
    let mut curr: Vec<Point> = Vec::new();
    let mut s: usize = 0;
    let mut i: usize = 0;
    let n = points.len();
    while i + 1 < n
        invariant
            n == points.len() >= 2,
            s <= i < n,
            curr@ == points@.subrange(s as int, i as int),
            bezier_segments(points@) == curves.deep_view() + segments_from(
                points@,
                s as int,
                i as int,
            ),
            forall|k: int| 0 <= k < curves@.len() ==> #[trigger] curves@[k]@.len() > 0,
        decreases n - i,
    {
        curr.push(points[i]);
        assert(curr@ =~= points@.subrange(s as int, i + 1));
        if points[i] == points[i + 1] {
            if i + 2 == n {
                let ghost before = curves.deep_view();
                curr.push(points[i + 1]);
                assert(curr@ =~= points@.subrange(s as int, n as int));
                assert(curr.deep_view() =~= curr@);
                curves.push(curr);
                assert(curves.deep_view() =~= before + seq![points@.subrange(s as int, n as int)]);
                return curves;
            }
            let ghost before = curves.deep_view();
            assert(curr.deep_view() =~= curr@);
            curves.push(curr);
            assert(curves.deep_view() =~= before + seq![points@.subrange(s as int, i + 1)]);
            assert(before + (seq![points@.subrange(s as int, i + 1)] + segments_from(
                points@,
                i + 1,
                i + 1,
            )) =~= curves.deep_view() + segments_from(points@, i + 1, i + 1));
            curr = Vec::new();
            s = i + 1;
            assert(curr@ =~= points@.subrange(s as int, s as int));
        }
        i = i + 1;
    }
    let ghost before = curves.deep_view();
    curr.push(points[n - 1]);
    assert(curr@ =~= points@.subrange(s as int, n as int));
    assert(curr.deep_view() =~= curr@);
    curves.push(curr);
    assert(curves.deep_view() =~= before + seq![points@.subrange(s as int, n as int)]);
    curves
}

/// All segments from `i` on concatenated give the points from `s` on.
proof fn lemma_segments_flatten(p: Seq<Point>, s: int, i: int)
    requires
        0 <= s <= i < p.len(),
    ensures
        segments_from(p, s, i).flatten() == p.subrange(s, p.len() as int),
    decreases p.len() - i,
{
    let segs = segments_from(p, s, i);
    if i + 1 >= p.len() || (p[i] == p[i + 1] && i + 2 == p.len()) {
        assert(segs.flatten() =~= p.subrange(s, p.len() as int)) by {
            assert(segs =~= seq![p.subrange(s, p.len() as int)]);
            lemma_flatten_single(p.subrange(s, p.len() as int));
        }
    } else if p[i] == p[i + 1] {
        lemma_segments_flatten(p, i + 1, i + 1);
        let head = p.subrange(s, i + 1);
        let rest = segments_from(p, i + 1, i + 1);
        assert(segs == seq![head] + rest);
        lemma_flatten_cons(head, rest);
        assert(head + p.subrange(i + 1, p.len() as int) =~= p.subrange(s, p.len() as int));
    } else {
        lemma_segments_flatten(p, s, i + 1);
    }
}

proof fn lemma_flatten_single(a: Seq<Point>)
    ensures
        seq![a].flatten() == a,
{
    assert(seq![a].drop_first() =~= Seq::<Seq<Point>>::empty());
    assert(seq![a].flatten() == a + seq![a].drop_first().flatten());
    assert(a + Seq::<Point>::empty() =~= a);
}

proof fn lemma_flatten_cons(a: Seq<Point>, rest: Seq<Seq<Point>>)
    ensures
        (seq![a] + rest).flatten() == a + rest.flatten(),
{
    let whole = seq![a] + rest;
    assert(whole.drop_first() =~= rest);
    assert(whole[0] == a);
}

/// Splitting control points into Bezier segments loses and adds no point:
/// the segments, concatenated, are the points.
pub proof fn lemma_bezier_segments_cover(p: Seq<Point>)
    requires
        p.len() >= 2,
    ensures
        bezier_segments(p).flatten() == p,
{
    lemma_segments_flatten(p, 0, 0);
    assert(p.subrange(0, p.len() as int) =~= p);
}

/// Facts of the segments from `i` on: none is empty; each but the last ends
/// with a point that the first point of the next one repeats; and the first
/// one starts at `p[s]`.
proof fn lemma_segments_joined(p: Seq<Point>, s: int, i: int)
    requires
        0 <= s <= i < p.len(),
    ensures
        segments_from(p, s, i).len() >= 1,
        segments_from(p, s, i)[0].len() >= 1,
        segments_from(p, s, i)[0][0] == p[s],
        forall|k: int|
            0 <= k < segments_from(p, s, i).len() ==> #[trigger] segments_from(p, s, i)[k].len()
                >= 1,
        forall|k: int|
            0 <= k < segments_from(p, s, i).len() - 1 ==> #[trigger] segments_from(p, s, i)[k].last()
                == segments_from(p, s, i)[k + 1][0],
    decreases p.len() - i,
{
    if i + 1 >= p.len() || (p[i] == p[i + 1] && i + 2 == p.len()) {
    } else if p[i] == p[i + 1] {
        lemma_segments_joined(p, i + 1, i + 1);
        let head = p.subrange(s, i + 1);
        let rest = segments_from(p, i + 1, i + 1);
        let segs = seq![head] + rest;
        assert(segments_from(p, s, i) == segs);
        assert forall|k: int| 0 <= k < segs.len() implies #[trigger] segs[k].len() >= 1 by {
            if k > 0 {
                assert(segs[k] == rest[k - 1]);
            }
        }
        assert forall|k: int| 0 <= k < segs.len() - 1 implies #[trigger] segs[k].last() == segs[k
            + 1][0] by {
            if k > 0 {
                assert(segs[k] == rest[k - 1]);
                assert(segs[k + 1] == rest[k]);
            } else {
                assert(segs[1] == rest[0]);
                assert(head.last() == p[i]);
            }
        }
    } else {
        lemma_segments_joined(p, s, i + 1);
    }
}

/// Consecutive Bezier segments share their joint: each one but the last ends
/// with a point that the next one starts with, so the curve is continuous.
pub proof fn lemma_bezier_segments_joined(p: Seq<Point>)
    requires
        p.len() >= 2,
    ensures
        bezier_segments(p).len() >= 1,
        forall|k: int|
            0 <= k < bezier_segments(p).len() ==> #[trigger] bezier_segments(p)[k].len() >= 1,
        forall|k: int|
            0 <= k < bezier_segments(p).len() - 1 ==> #[trigger] bezier_segments(p)[k].last()
                == bezier_segments(p)[k + 1][0],
{
    lemma_segments_joined(p, 0, 0);
}

/// The number of `i` in `from..p.len() - 2` where `p[i]` is repeated by
/// `p[i + 1]`: the repeats other than one of the last two points.
pub open spec fn inner_repeats(p: Seq<Point>, from: int) -> nat
    decreases p.len() - from,
{
    if from < 0 || from + 2 >= p.len() {
        0
    } else {
        (if p[from] == p[from + 1] {
            1nat
        } else {
            0nat
        }) + inner_repeats(p, from + 1)
    }
}

proof fn lemma_segments_count(p: Seq<Point>, s: int, i: int)
    requires
        0 <= s <= i < p.len(),
    ensures
        segments_from(p, s, i).len() == 1 + inner_repeats(p, i),
    decreases p.len() - i,
{
    if i + 1 >= p.len() {
    } else if p[i] == p[i + 1] {
        if i + 2 != p.len() {
            lemma_segments_count(p, i + 1, i + 1);
        }
    } else {
        lemma_segments_count(p, s, i + 1);
    }
}

/// A slider's control points give one Bezier segment more than they hold
/// repeated points, not counting a repeat of the last two points: each such
/// repeat closes a segment, and the last segment is closed by the end.
pub proof fn lemma_bezier_segment_count(p: Seq<Point>)
    requires
        p.len() >= 2,
    ensures
        bezier_segments(p).len() == 1 + inner_repeats(p, 0),
{
    lemma_segments_count(p, 0, 0);
}

// ---------------------------------------------------------------------------
// Hit object plans
// ---------------------------------------------------------------------------

/// The marker a hit object becomes: a circle target at its position, or a
/// slider along a curve through its position and its curve points.
#[derive(Debug)]
pub enum HitPlan {
    Circle(Point),
    Bezier(Vec<Vec<Point>>),
    Linear(Vec<Point>),
    PerfectCircle(Point, Point, Point),
}

/// Why a hit object has no marker.
#[derive(Clone, Copy, PartialEq, Eq, Structural, Debug)]
pub enum PlanError {
    /// A slider with zero slides.
    NoSlides,
    /// A Bezier or linear slider whose curve has fewer than two points.
    TooFewPoints,
    /// A centripetal Catmull-Rom slider.
    CatmullRom,
    /// A perfect-circle slider whose curve does not pass through exactly three points.
    CircleNeedsThreePoints,
    /// A Bezier slider with a segment of a single point.
    SinglePointSegment,
}

pub enum PlanModel {
    Circle(Point),
    Bezier(Seq<Seq<Point>>),
    Linear(Seq<Point>),
    PerfectCircle(Point, Point, Point),
}

impl View for HitPlan {
    type V = PlanModel;

    open spec fn view(&self) -> PlanModel {
        match self {
            HitPlan::Circle(p) => PlanModel::Circle(*p),
            HitPlan::Bezier(s) => PlanModel::Bezier(s.deep_view()),
            HitPlan::Linear(p) => PlanModel::Linear(p@),
            HitPlan::PerfectCircle(a, b, c) => PlanModel::PerfectCircle(*a, *b, *c),
        }
    }
}

/// The marker of a hit object: a circle at its position; for a slider (one
/// or more slides), the curve through its position and then its curve
/// points: Bezier segments (each of two or more points), a polyline, or the
/// circle through exactly three points.
pub open spec fn hit_plan(h: HitObjectModel) -> Result<PlanModel, PlanError> {
    match h.object_params {
        None => Ok(PlanModel::Circle(h.position)),
        Some(sp) => {
            let pts = seq![h.position] + sp.curve_points;
            if sp.slides < 1 {
                Err(PlanError::NoSlides)
            } else {
                match sp.curve_type {
                    CurveType::Bezier => if pts.len() < 2 {
                        Err(PlanError::TooFewPoints)
                    } else if forall|k: int|
                        0 <= k < bezier_segments(pts).len() ==> #[trigger] bezier_segments(
                            pts,
                        )[k].len() >= 2 {
                        Ok(PlanModel::Bezier(bezier_segments(pts)))
                    } else {
                        Err(PlanError::SinglePointSegment)
                    },
                    CurveType::CentripetalCatmullRom => Err(PlanError::CatmullRom),
                    CurveType::Linear => if pts.len() < 2 {
                        Err(PlanError::TooFewPoints)
                    } else {
                        Ok(PlanModel::Linear(pts))
                    },
                    CurveType::PerfectCircle => if pts.len() == 3 {
                        Ok(PlanModel::PerfectCircle(pts[0], pts[1], pts[2]))
                    } else {
                        Err(PlanError::CircleNeedsThreePoints)
                    },
                }
            }
        },
    }
}

/// A marker follows the hit object's points: a circle stands at its
/// position; a linear slider (one or more slides, one or more curve points)
/// is the polyline through its position and then every curve point in
/// order; the Bezier segments of a slider, joined, are its position and
/// then its curve points; a circle slider passes through its position and
/// its two curve points, in order.
pub proof fn lemma_plan_follows_points(h: HitObjectModel)
    ensures
        h.object_params is None ==> hit_plan(h) == Ok::<PlanModel, PlanError>(
            PlanModel::Circle(h.position),
        ),
        ({
            let sp = h.object_params->Some_0;
            h.object_params is Some && sp.slides >= 1 && sp.curve_type == CurveType::Linear
                && sp.curve_points.len() >= 1 ==> hit_plan(h) is Ok && hit_plan(h)->Ok_0 is Linear
                && hit_plan(h)->Ok_0->Linear_0.len() == 1 + sp.curve_points.len()
                && hit_plan(h)->Ok_0->Linear_0[0] == h.position && forall|k: int|
                0 <= k < sp.curve_points.len() ==> #[trigger] hit_plan(h)->Ok_0->Linear_0[k + 1]
                    == sp.curve_points[k]
        }),
        hit_plan(h) matches Ok(PlanModel::Bezier(segs)) ==> (h.object_params matches Some(sp)
            && segs.flatten() == seq![h.position] + sp.curve_points),
        hit_plan(h) matches Ok(PlanModel::PerfectCircle(a, b, c)) ==> (h.object_params matches Some(
            sp,
        ) && sp.curve_points.len() == 2 && a == h.position && b == sp.curve_points[0] && c
            == sp.curve_points[1]),
{
    if let Some(sp) = h.object_params {
        let pts = seq![h.position] + sp.curve_points;
        if pts.len() >= 2 {
            lemma_bezier_segments_cover(pts);
        }
        assert forall|k: int| 0 <= k < sp.curve_points.len() implies #[trigger] pts[k + 1]
            == sp.curve_points[k] by {}
    }
}

/// The marker of a hit object (see `hit_plan`), for a hit object that has one.
pub fn plan_hit_object(h: &HitObject) -> (r: HitPlan)
    requires
        hit_plan(h@) is Ok,
    ensures
        r@ == hit_plan(h@)->Ok_0,
{
    match try_plan_hit_object(h) {
        Ok(p) => p,
        Err(_) => HitPlan::Circle(h.position),
    }
}

/// The marker of a hit object (see `hit_plan`), or why it has none.
#[verifier::loop_isolation(false)]
pub fn try_plan_hit_object(h: &HitObject) -> (r: Result<HitPlan, PlanError>)
    ensures
        match hit_plan(h@) {
            Ok(m) => r matches Ok(p) && p@ == m,
            Err(e) => r matches Err(e2) && e2 == e,
        },
{
    match &h.object_params {
        None => Ok(HitPlan::Circle(h.position)),
        Some(sp) => {
            if sp.slides < 1 {
                return Err(PlanError::NoSlides);
            }
            let mut pts: Vec<Point> = Vec::new();
            pts.push(h.position);
            let mut k: usize = 0;
            while k < sp.curve_points.len()
                invariant
                    k <= sp.curve_points.len(),
                    pts@ == seq![h.position] + sp.curve_points@.take(k as int),
                decreases sp.curve_points.len() - k,
            {
                pts.push(sp.curve_points[k]);
                assert(pts@ =~= seq![h.position] + sp.curve_points@.take(k + 1));
                k = k + 1;
            }
            assert(sp.curve_points@.take(k as int) =~= sp.curve_points@);
            match sp.curve_type {
                CurveType::Bezier => {
                    if pts.len() < 2 {
                        return Err(PlanError::TooFewPoints);
                    }
                    let segs = extract_nary_bezier(&pts);
                    let mut j: usize = 0;
                    while j < segs.len()
                        invariant
                            j <= segs.len(),
                            segs.deep_view() == bezier_segments(pts@),
                            forall|m: int| 0 <= m < j ==> #[trigger] segs.deep_view()[m].len() >= 2,
                        decreases segs.len() - j,
                    {
                        assert(segs.deep_view()[j as int] =~= segs@[j as int]@);
                        if segs[j].len() < 2 {
                            assert(bezier_segments(pts@)[j as int].len() < 2);
                            return Err(PlanError::SinglePointSegment);
                        }
                        j = j + 1;
                    }
                    Ok(HitPlan::Bezier(segs))
                },
                CurveType::CentripetalCatmullRom => Err(PlanError::CatmullRom),
                CurveType::Linear => {
                    if pts.len() < 2 {
                        return Err(PlanError::TooFewPoints);
                    }
                    Ok(HitPlan::Linear(pts))
                },
                CurveType::PerfectCircle => {
                    if pts.len() == 3 {
                        Ok(HitPlan::PerfectCircle(pts[0], pts[1], pts[2]))
                    } else {
                        Err(PlanError::CircleNeedsThreePoints)
                    }
                },
            }
        },
    }
}

// ---------------------------------------------------------------------------
// Slider tube mesh
// ---------------------------------------------------------------------------

/// `i` modulo the ring resolution `res`.
pub open spec fn ring_local(res: int, i: int) -> int {
    i % res
}

/// Entry `j` (of six) of the two triangles that vertex `i` of the tube gets:
/// they join ring `i / res` to the next ring.
pub open spec fn tube_entry(res: int, i: int, j: int) -> int {
    let base = (i / res) * res;
    let next = base + res;
    if j == 0 {
        base + ring_local(res, i)
    } else if j == 1 {
        base + ring_local(res, i + 1)
    } else if j == 2 {
        next + ring_local(res, i)
    } else if j == 3 {
        next + ring_local(res, i)
    } else if j == 4 {
        base + ring_local(res, i + 1)
    } else {
        next + ring_local(res, i + 1)
    }
}

/// Entry `j` (of three) of the triangle that joins edge `i` of the first
/// (`b == 0`) or last (`b == 1`) ring to that end's cap vertex.
pub open spec fn cap_entry(res: int, vertex_count: int, b: int, i: int, j: int) -> int {
    let base = b * (vertex_count - res);
    if j == 0 {
        base + ring_local(res, i + (1 - b))
    } else if j == 1 {
        base + ring_local(res, i + b)
    } else {
        vertex_count + b
    }
}

/// Each tube triangle pair of vertex `i` joins its ring to the next one:
/// entry 0 is `i` itself, entries 0, 1 and 4 lie in ring `i / res` (the
/// ring of `i`), entries 2, 3 and 5 in ring `i / res + 1`, and entries 2
/// and 3 are vertex `i` moved one ring on.
pub proof fn lemma_tube_triangles_join_rings(res: int, i: int)
    requires
        res >= 1,
        i >= 0,
    ensures
        tube_entry(res, i, 0) == i,
        tube_entry(res, i, 2) == i + res,
        tube_entry(res, i, 3) == i + res,
        forall|j: int| (j == 0 || j == 1 || j == 4) ==> #[trigger] tube_entry(res, i, j) / res == i / res,
        forall|j: int|
            (j == 2 || j == 3 || j == 5) ==> #[trigger] tube_entry(res, i, j) / res == i / res + 1,
{
    let q = i / res;
    lemma_fundamental_div_mod(i, res);
    assert(res * q == q * res) by (nonlinear_arith);
    let m0 = i % res;
    let m1 = (i + 1) % res;
    assert(0 <= m0 < res && 0 <= m1 < res);
    lemma_fundamental_div_mod_converse(q * res + m0, res, q, m0);
    lemma_fundamental_div_mod_converse(q * res + m1, res, q, m1);
    assert((q + 1) * res == q * res + res) by (nonlinear_arith);
    lemma_fundamental_div_mod_converse(q * res + res + m0, res, q + 1, m0);
    lemma_fundamental_div_mod_converse(q * res + res + m1, res, q + 1, m1);
}

/// The index buffer (triangle list) of a tube of `segment_count` rings of
/// `resolution` vertices each, followed by the two cap vertices: two
/// triangles for every vertex of every ring but the last, then a fan of
/// triangles to each cap. Each index is cut to 32 bits.
pub fn curve_mesh_indices(resolution: usize, segment_count: usize) -> (r: Vec<u32>)
    requires
        resolution >= 1,
        segment_count >= 1,
        6 * resolution * segment_count <= usize::MAX,
    ensures
        r.len() == 6 * resolution * segment_count,
        forall|i: int, j: int|
            0 <= i < resolution * segment_count - resolution && 0 <= j < 6 ==> #[trigger] r@[6 * i
                + j] == tube_entry(resolution as int, i, j) as u32,
        forall|b: int, i: int, j: int|
            0 <= b < 2 && 0 <= i < resolution && 0 <= j < 3 ==> #[trigger] r@[6 * (resolution
                * segment_count - resolution) + 3 * (b * resolution + i) + j] == cap_entry(
                resolution as int,
                (resolution * segment_count) as int,
                b,
                i,
                j,
            ) as u32,
{
    proof {
        assert(resolution * segment_count >= resolution) by (nonlinear_arith)
            requires
                segment_count >= 1,
                resolution >= 1,
        ;
        assert(6 * resolution * segment_count == 6 * (resolution * segment_count)) by (
        nonlinear_arith);
    }
    let vertex_count = resolution * segment_count;
    let tube = vertex_count - resolution;
    let mut out: Vec<u32> = Vec::new();
    let mut i: usize = 0;
    while i < tube
        invariant
            tube == vertex_count - resolution,
            vertex_count == resolution * segment_count,
            resolution <= vertex_count,
            6 * vertex_count <= usize::MAX,
            resolution >= 1,
            i <= tube,
            out.len() == 6 * i,
            forall|a: int, j: int|
                0 <= a < i && 0 <= j < 6 ==> #[trigger] out@[6 * a + j] == tube_entry(
                    resolution as int,
                    a,
                    j,
                ) as u32,
        decreases tube - i,
    {
        let q = i / resolution;
        proof {
            assert(q * resolution <= i) by (nonlinear_arith)
                requires
                    q == i / resolution,
                    resolution >= 1,
            ;
        }
        let base = q * resolution;
        let next = base + resolution;
        let l0 = i % resolution;
        let l1 = (i + 1) % resolution;
        let ghost before = out@;
        out.push((base + l0) as u32);
        out.push((base + l1) as u32);
        out.push((next + l0) as u32);
        out.push((next + l0) as u32);
        out.push((base + l1) as u32);
        out.push((next + l1) as u32);
        assert forall|a: int, j: int| 0 <= a < i + 1 && 0 <= j < 6 implies #[trigger] out@[6 * a
            + j] == tube_entry(resolution as int, a, j) as u32 by {
            if a < i {
                assert(out@[6 * a + j] == before[6 * a + j]);
            }
        }
        i = i + 1;
    }
    let mut b: usize = 0;
    while b < 2
        invariant
            tube == vertex_count - resolution,
            vertex_count == resolution * segment_count,
            resolution <= vertex_count,
            6 * vertex_count <= usize::MAX,
            resolution >= 1,
            b <= 2,
            out.len() == 6 * tube + 3 * resolution * b,
            forall|a: int, j: int|
                0 <= a < tube && 0 <= j < 6 ==> #[trigger] out@[6 * a + j] == tube_entry(
                    resolution as int,
                    a,
                    j,
                ) as u32,
            forall|bb: int, a: int, j: int|
                0 <= bb < b && 0 <= a < resolution && 0 <= j < 3 ==> #[trigger] out@[6 * tube + 3
                    * (bb * resolution + a) + j] == cap_entry(
                    resolution as int,
                    vertex_count as int,
                    bb,
                    a,
                    j,
                ) as u32,
        decreases 2 - b,
    {
        let base = b * tube;
        let cap = vertex_count + b;
        let mut a: usize = 0;
        while a < resolution
            invariant
                tube == vertex_count - resolution,
                vertex_count == resolution * segment_count,
                resolution <= vertex_count,
                6 * vertex_count <= usize::MAX,
                resolution >= 1,
                b < 2,
                base == b * tube,
                cap == vertex_count + b,
                a <= resolution,
                out.len() == 6 * tube + 3 * resolution * b + 3 * a,
                forall|x: int, j: int|
                    0 <= x < tube && 0 <= j < 6 ==> #[trigger] out@[6 * x + j] == tube_entry(
                        resolution as int,
                        x,
                        j,
                    ) as u32,
                forall|bb: int, x: int, j: int|
                    0 <= bb < b && 0 <= x < resolution && 0 <= j < 3 ==> #[trigger] out@[6 * tube
                        + 3 * (bb * resolution + x) + j] == cap_entry(
                        resolution as int,
                        vertex_count as int,
                        bb,
                        x,
                        j,
                    ) as u32,
                forall|x: int, j: int|
                    0 <= x < a && 0 <= j < 3 ==> #[trigger] out@[6 * tube + 3 * (b * resolution + x)
                        + j] == cap_entry(resolution as int, vertex_count as int, b as int, x, j)
                        as u32,
            decreases resolution - a,
        {
            let ghost before = out@;
            let l_first = (a + (1 - b)) % resolution;
            let l_second = (a + b) % resolution;
            assert(base + l_first < vertex_count && base + l_second < vertex_count) by (nonlinear_arith)
                requires
                    base == b * tube,
                    b < 2,
                    l_first < resolution,
                    l_second < resolution,
                    tube == vertex_count - resolution,
                    resolution <= vertex_count,
            ;
            out.push((base + l_first) as u32);
            out.push((base + l_second) as u32);
            out.push(cap as u32);
            assert(3 * (b * resolution + a) == 3 * resolution * b + 3 * a) by (nonlinear_arith);
            assert forall|x: int, j: int| 0 <= x < tube && 0 <= j < 6 implies #[trigger] out@[6
                * x + j] == tube_entry(resolution as int, x, j) as u32 by {
                assert(out@[6 * x + j] == before[6 * x + j]);
            }
            assert forall|bb: int, x: int, j: int|
                0 <= bb < b && 0 <= x < resolution && 0 <= j < 3 implies #[trigger] out@[6 * tube
                + 3 * (bb * resolution + x) + j] == cap_entry(
                resolution as int,
                vertex_count as int,
                bb,
                x,
                j,
            ) as u32 by {
                assert(3 * (bb * resolution + x) + j < 3 * resolution * b) by (nonlinear_arith)
                    requires
                        0 <= bb < b,
                        0 <= x < resolution,
                        0 <= j < 3,
                ;
                assert(out@[6 * tube + 3 * (bb * resolution + x) + j] == before[6 * tube + 3 * (bb
                    * resolution + x) + j]);
            }
            assert forall|x: int, j: int| 0 <= x < a + 1 && 0 <= j < 3 implies #[trigger] out@[6
                * tube + 3 * (b * resolution + x) + j] == cap_entry(
                resolution as int,
                vertex_count as int,
                b as int,
                x,
                j,
            ) as u32 by {
                assert(3 * (b * resolution + x) == 3 * resolution * b + 3 * x) by (nonlinear_arith);
                if x < a {
                    assert(out@[6 * tube + 3 * (b * resolution + x) + j] == before[6 * tube + 3 * (b
                        * resolution + x) + j]);
                }
            }
            a = a + 1;
        }
        assert(3 * resolution * b + 3 * resolution == 3 * resolution * (b + 1)) by (
        nonlinear_arith);
        b = b + 1;
    }
    assert(6 * tube + 3 * resolution * 2 == 6 * resolution * segment_count);
    out
}

/// Every index of a tube mesh names one of its vertices (the rings' vertices
/// and the two caps), where all of them fit in 32 bits.
pub proof fn lemma_curve_mesh_indices_in_range(resolution: int, segment_count: int)
    requires
        resolution >= 1,
        segment_count >= 1,
        resolution * segment_count + 2 <= u32::MAX,
    ensures
        forall|i: int, j: int|
            0 <= i < resolution * segment_count - resolution && 0 <= j < 6 ==> 0 <= #[trigger] tube_entry(
                resolution,
                i,
                j,
            ) < resolution * segment_count,
        forall|b: int, i: int, j: int|
            0 <= b < 2 && 0 <= i < resolution && 0 <= j < 3 ==> 0 <= #[trigger] cap_entry(
                resolution,
                resolution * segment_count,
                b,
                i,
                j,
            ) < resolution * segment_count + 2,
{
    let vc = resolution * segment_count;
    assert(vc >= resolution) by (nonlinear_arith)
        requires
            resolution >= 1,
            segment_count >= 1,
            vc == resolution * segment_count,
    ;
    assert forall|i: int, j: int| 0 <= i < vc - resolution && 0 <= j < 6 implies 0
        <= #[trigger] tube_entry(resolution, i, j) < vc by {
        let q = i / resolution;
        let base = q * resolution;
        assert(0 <= q && q * resolution <= i && i < q * resolution + resolution) by (nonlinear_arith)
            requires
                q == i / resolution,
                resolution >= 1,
                i >= 0,
        ;
        assert(q <= segment_count - 2) by (nonlinear_arith)
            requires
                q * resolution <= i,
                i < resolution * segment_count - resolution,
                resolution >= 1,
                q >= 0,
        ;
        assert(base + resolution + resolution <= vc) by (nonlinear_arith)
            requires
                q <= segment_count - 2,
                base == q * resolution,
                vc == resolution * segment_count,
                resolution >= 1,
        ;
        assert(0 <= ring_local(resolution, i) < resolution);
        assert(0 <= ring_local(resolution, i + 1) < resolution);
    }
    assert forall|b: int, i: int, j: int|
        0 <= b < 2 && 0 <= i < resolution && 0 <= j < 3 implies 0 <= #[trigger] cap_entry(
        resolution,
        vc,
        b,
        i,
        j,
    ) < vc + 2 by {
        assert(0 <= ring_local(resolution, i + (1 - b)) < resolution);
        assert(0 <= ring_local(resolution, i + b) < resolution);
        assert(b * (vc - resolution) + resolution <= vc) by (nonlinear_arith)
            requires
                0 <= b < 2,
                vc >= resolution,
        ;
    }
}

// ---------------------------------------------------------------------------
// Slide sound events
// ---------------------------------------------------------------------------

/// The sound events of a slider with `slides` slides: one at its start,
/// numbered 0, then one at the end of each slide (where it changes
/// direction, and at the end), numbered from 1; only the last one is marked
/// as the slider's end.
pub fn slide_events(slides: usize) -> (r: Vec<(usize, bool)>)
    requires
        slides < usize::MAX,
    ensures
        r.len() == slides + 1,
        r@[0] == (0usize, false),
        forall|k: int| 1 <= k <= slides ==> #[trigger] r@[k] == ((k as usize), k == slides),
{
    let mut out: Vec<(usize, bool)> = Vec::new();
    out.push((0, false));
    let mut slide: usize = 1;
    while slide <= slides
        invariant
            1 <= slide <= slides + 1,
            slides < usize::MAX,
            out.len() == slide,
            out@[0] == (0usize, false),
            forall|k: int| 1 <= k < slide ==> #[trigger] out@[k] == ((k as usize), k == slides),
        decreases slides + 1 - slide,
    {
        out.push((slide, slide == slides));
        slide = slide + 1;
    }
    out
}

} // verus!
