//! Song positions and durations, markers and the playback windows that
//! trigger them, and the hit error of a target.
use std::cmp::Ordering;

use vstd::prelude::*;
use vstd::std_specs::cmp::{PartialEqSpecImpl, PartialOrdSpecImpl};

verus! {

/// Nanoseconds in a `std::time::Duration::MAX`.
pub open spec fn max_span_nanos() -> int {
    u64::MAX as int * 1_000_000_000 + 999_999_999
}

/// A span of time, or a position in a song measured from its start, in
/// nanoseconds: the value of a `std::time::Duration`.
#[derive(Clone, Copy, PartialEq, Eq, Structural, Debug)]
pub struct TimeSpan {
    pub nanos: u128,
}

impl TimeSpan {
    pub fn zero() -> (r: TimeSpan)
        ensures
            r.nanos == 0,
    {
        TimeSpan { nanos: 0 }
    }

    /// The span of `ms` milliseconds (`Duration::from_millis`).
    pub fn from_millis(ms: u64) -> (r: TimeSpan)
        ensures
            r.nanos == ms * 1_000_000,
    {
        TimeSpan { nanos: ms as u128 * 1_000_000 }
    }

    /// Whole milliseconds in the span (`Duration::as_millis`).
    pub fn as_millis(&self) -> (r: u128)
        ensures
            r == self.nanos / 1_000_000,
    {
        self.nanos / 1_000_000
    }

    pub fn is_zero(&self) -> (r: bool)
        ensures
            r == (self.nanos == 0),
    {
        self.nanos == 0
    }

    /// `self - other`, or `None` where `other` is longer (`Duration::checked_sub`).
    pub fn checked_sub(&self, other: TimeSpan) -> (r: Option<TimeSpan>)
        ensures
            match r {
                Some(d) => other.nanos <= self.nanos && d.nanos == self.nanos - other.nanos,
                None => other.nanos > self.nanos,
            },
    {
        if other.nanos <= self.nanos {
            Some(TimeSpan { nanos: self.nanos - other.nanos })
        } else {
            None
        }
    }

    /// `self - other`, or zero where `other` is longer (`Duration::saturating_sub`).
    pub fn saturating_sub(&self, other: TimeSpan) -> (r: TimeSpan)
        ensures
            r.nanos == if other.nanos <= self.nanos {
                self.nanos - other.nanos
            } else {
                0
            },
    {
        if other.nanos <= self.nanos {
            TimeSpan { nanos: self.nanos - other.nanos }
        } else {
            TimeSpan { nanos: 0 }
        }
    }

    /// `self + other`, or `None` beyond the longest `Duration` (`Duration::checked_add`).
    pub fn checked_add(&self, other: TimeSpan) -> (r: Option<TimeSpan>)
        ensures
            match r {
                Some(d) => d.nanos == self.nanos + other.nanos && d.nanos <= max_span_nanos(),
                None => self.nanos + other.nanos > max_span_nanos(),
            },
    {
        let max: u128 = 18_446_744_073_709_551_615_999_999_999;
        if self.nanos <= max && other.nanos <= max - self.nanos {
            Some(TimeSpan { nanos: self.nanos + other.nanos })
        } else {
            None
        }
    }
}

/// What a marker is, in song time: when it must be hit, and when its hint appears.
pub struct MarkerModel {
    pub spawn: nat,
    pub hint: nat,
}

/// A point of a beatmap: the song position where it must be hit, and the
/// position where its hint appears, which is never after it.
#[derive(Clone, Copy, Debug)]
pub struct Marker {
    spawn_time: TimeSpan,
    preempt: TimeSpan,
}

impl View for Marker {
    type V = MarkerModel;

    closed spec fn view(&self) -> MarkerModel {
        MarkerModel { spawn: self.spawn_time.nanos as nat, hint: self.preempt.nanos as nat }
    }
}

impl Marker {
    #[verifier::type_invariant]
    closed spec fn hint_not_after_spawn(self) -> bool {
        self.preempt.nanos <= self.spawn_time.nanos
    }

    /// The marker hit at `spawn_time` whose hint appears `preempt` earlier, or
    /// at the start of the song where `preempt` is longer than `spawn_time`.
    pub fn new(spawn_time: TimeSpan, preempt: TimeSpan) -> (r: Marker)
        ensures
            r@.spawn == spawn_time.nanos,
            r@.hint == if preempt.nanos <= spawn_time.nanos {
                spawn_time.nanos - preempt.nanos
            } else {
                0
            },
    {
        match spawn_time.checked_sub(preempt) {
            Some(p) => Marker { spawn_time, preempt: p },
            None => Marker { spawn_time, preempt: TimeSpan { nanos: 0 } },
        }
    }

    /// The song position where the marker must be hit.
    pub fn time(&self) -> (r: TimeSpan)
        ensures
            r.nanos == self@.spawn,
    {
        self.spawn_time
    }

    /// The song position where the marker's hint appears.
    pub fn hint_time(&self) -> (r: TimeSpan)
        ensures
            r.nanos == self@.hint,
            self@.hint <= self@.spawn,
    {
        proof {
            use_type_invariant(self);
        }
        self.preempt
    }

    /// How long the hint is shown before the marker must be hit.
    pub fn lead_time(&self) -> (r: TimeSpan)
        ensures
            r.nanos == self@.spawn - self@.hint,
    {
        proof {
            use_type_invariant(self);
        }
        TimeSpan { nanos: self.spawn_time.nanos - self.preempt.nanos }
    }

    /// The events a marker raises while the song plays from `from` to `to`:
    /// its hint appears where the hint time lies in `from..=to`, and it spawns
    /// where its hit time does.
    pub fn triggers(&self, from: TimeSpan, to: TimeSpan) -> (r: (bool, bool))
        ensures
            r.0 == in_window(self@.hint as int, from.nanos as int, to.nanos as int),
            r.1 == in_window(self@.spawn as int, from.nanos as int, to.nanos as int),
    {
        (
            from.nanos <= self.preempt.nanos && self.preempt.nanos <= to.nanos,
            from.nanos <= self.spawn_time.nanos && self.spawn_time.nanos <= to.nanos,
        )
    }
}

impl PartialEq for Marker {
    /// Markers compare equal when they must be hit at the same time.
    fn eq(&self, other: &Marker) -> (r: bool) {
        self.spawn_time.nanos == other.spawn_time.nanos
    }
}

impl PartialEqSpecImpl for Marker {
    open spec fn obeys_eq_spec() -> bool {
        true
    }

    open spec fn eq_spec(&self, other: &Marker) -> bool {
        self@.spawn == other@.spawn
    }
}

impl Eq for Marker {

}

impl PartialOrd for Marker {
    /// Markers are ordered by the time they must be hit.
    fn partial_cmp(&self, other: &Marker) -> (r: Option<Ordering>) {
        if self.spawn_time.nanos < other.spawn_time.nanos {
            Some(Ordering::Less)
        } else if self.spawn_time.nanos == other.spawn_time.nanos {
            Some(Ordering::Equal)
        } else {
            Some(Ordering::Greater)
        }
    }
}

impl PartialOrdSpecImpl for Marker {
    open spec fn obeys_partial_cmp_spec() -> bool {
        true
    }

    open spec fn partial_cmp_spec(&self, other: &Marker) -> Option<Ordering> {
        if self@.spawn < other@.spawn {
            Some(Ordering::Less)
        } else if self@.spawn == other@.spawn {
            Some(Ordering::Equal)
        } else {
            Some(Ordering::Greater)
        }
    }
}

/// `x` lies in the closed window `a..=b`.
pub open spec fn in_window(x: int, a: int, b: int) -> bool {
    a <= x <= b
}

/// The index of the first marker among those hit earliest, or `None` for no markers.
pub open spec fn is_first_earliest(ms: Seq<MarkerModel>, k: int) -> bool {
    &&& 0 <= k < ms.len()
    &&& forall|j: int| 0 <= j < ms.len() ==> ms[k].spawn <= #[trigger] ms[j].spawn
    &&& forall|j: int| 0 <= j < k ==> ms[k].spawn < #[trigger] ms[j].spawn
}

pub open spec fn markers_model(ms: Seq<Marker>) -> Seq<MarkerModel> {
    ms.map_values(|m: Marker| m@)
}

/// The index of the earliest marker, the first such one in order; `None`
/// where there are none (what the first element of a stable sort by hit time is).
pub fn earliest(ms: &Vec<Marker>) -> (r: Option<usize>)
    ensures
        match r {
            Some(k) => is_first_earliest(markers_model(ms@), k as int),
            None => ms.len() == 0,
        },
{
    if ms.len() == 0 {
        return None;
    }
    let mut best: usize = 0;
    let mut k: usize = 1;
    while k < ms.len()
        invariant
            1 <= k <= ms.len(),
            best < k,
            forall|j: int| 0 <= j < k ==> ms@[best as int]@.spawn <= #[trigger] ms@[j]@.spawn,
            forall|j: int| 0 <= j < best ==> ms@[best as int]@.spawn < #[trigger] ms@[j]@.spawn,
        decreases ms.len() - k,
    {
        if ms[k] < ms[best] {
            best = k;
        }
        k = k + 1;
    }
    Some(best)
}

/// The time of marker `m`'s hint (`spawn` false) or of its hit (`spawn` true).
pub open spec fn event_time(m: MarkerModel, spawn: bool) -> nat {
    if spawn {
        m.spawn
    } else {
        m.hint
    }
}

/// The indices, in increasing order, of the first `n` markers of `ms` whose
/// hint (`spawn` false) or hit time (`spawn` true) lies in `from..=to`.
pub open spec fn events_in(ms: Seq<MarkerModel>, from: int, to: int, spawn: bool, n: int) -> Seq<
    usize,
>
    decreases n,
{
    if n <= 0 {
        Seq::empty()
    } else {
        let before = events_in(ms, from, to, spawn, n - 1);
        if in_window(event_time(ms[n - 1], spawn) as int, from, to) {
            before.push((n - 1) as usize)
        } else {
            before
        }
    }
}

/// The indices of a frame's events are strictly increasing, hence each
/// marker appears at most once, and each is one of the markers looked at.
pub proof fn lemma_events_increasing(ms: Seq<MarkerModel>, from: int, to: int, spawn: bool, n: int)
    requires
        0 <= n <= ms.len() <= usize::MAX,
    ensures
        forall|i: int, j: int|
            0 <= i < j < events_in(ms, from, to, spawn, n).len() ==> #[trigger] events_in(
                ms,
                from,
                to,
                spawn,
                n,
            )[i] < #[trigger] events_in(ms, from, to, spawn, n)[j],
        forall|i: int|
            0 <= i < events_in(ms, from, to, spawn, n).len() ==> #[trigger] events_in(
                ms,
                from,
                to,
                spawn,
                n,
            )[i] < n,
    decreases n,
{
    if n > 0 {
        lemma_events_increasing(ms, from, to, spawn, n - 1);
        let before = events_in(ms, from, to, spawn, n - 1);
        let after = events_in(ms, from, to, spawn, n);
        if in_window(event_time(ms[n - 1], spawn) as int, from, to) {
            assert(after == before.push((n - 1) as usize));
            assert forall|i: int| 0 <= i < after.len() implies #[trigger] after[i] < n by {
                if i < before.len() {
                    assert(after[i] == before[i]);
                }
            }
            assert forall|i: int, j: int| 0 <= i < j < after.len() implies #[trigger] after[i]
                < #[trigger] after[j] by {
                assert(after[i] == before[i]);
                if j < before.len() {
                    assert(after[j] == before[j]);
                }
            }
        }
    }
}

/// One frame of a playing beatmap, the song having played from `from` (its
/// position at the previous frame) to `to`: the indices of the markers whose
/// hints appear, then of those whose targets spawn, each in increasing order.
pub fn tick_markers(ms: &Vec<Marker>, from: TimeSpan, to: TimeSpan) -> (r: (Vec<usize>, Vec<usize>))
    ensures
        r.0@ == events_in(markers_model(ms@), from.nanos as int, to.nanos as int, false, ms.len() as int),
        r.1@ == events_in(markers_model(ms@), from.nanos as int, to.nanos as int, true, ms.len() as int),
        forall|i: int, j: int| 0 <= i < j < r.0.len() ==> r.0@[i] < r.0@[j],
        forall|i: int, j: int| 0 <= i < j < r.1.len() ==> r.1@[i] < r.1@[j],
{
    let ghost model = markers_model(ms@);
    let mut hints: Vec<usize> = Vec::new();
    let mut spawns: Vec<usize> = Vec::new();
    let mut k: usize = 0;
    while k < ms.len()
        invariant
            k <= ms.len(),
            model == markers_model(ms@),
            hints@ == events_in(model, from.nanos as int, to.nanos as int, false, k as int),
            spawns@ == events_in(model, from.nanos as int, to.nanos as int, true, k as int),
        decreases ms.len() - k,
    {
        let (hint, spawn) = ms[k].triggers(from, to);
        assert(model[k as int] == ms@[k as int]@);
        if hint {
            hints.push(k);
        }
        if spawn {
            spawns.push(k);
        }
        k = k + 1;
    }
    proof {
        lemma_events_increasing(model, from.nanos as int, to.nanos as int, false, ms.len() as int);
        lemma_events_increasing(model, from.nanos as int, to.nanos as int, true, ms.len() as int);
    }
    (hints, spawns)
}

/// Every song position in `pos[0]..=pos[last]` lies in one of the windows
/// `pos[k]..=pos[k + 1]` of consecutive positions: a marker whose time was
/// played over raises its events in some window.
pub proof fn lemma_windows_cover(pos: Seq<int>, x: int)
    requires
        pos.len() >= 2,
        forall|k: int| 0 <= k < pos.len() - 1 ==> pos[k] <= #[trigger] pos[k + 1],
        pos[0] <= x <= pos[pos.len() - 1],
    ensures
        exists|k: int| 0 <= k < pos.len() - 1 && #[trigger] in_window(x, pos[k], pos[k + 1]),
    decreases pos.len(),
{
    let n = pos.len();
    if x >= pos[n - 2] {
        let k = n - 2;
        assert(pos[k] <= pos[k + 1]);
        assert(in_window(x, pos[k], pos[k + 1]));
    } else {
        let shorter = pos.drop_last();
        assert forall|k: int| 0 <= k < shorter.len() - 1 implies shorter[k] <= #[trigger] shorter[
            k + 1
        ] by {
            assert(shorter[k] == pos[k] && shorter[k + 1] == pos[k + 1]);
        }
        if shorter.len() >= 2 {
            lemma_windows_cover(shorter, x);
            let k = choose|k: int| 0 <= k < shorter.len() - 1 && #[trigger] in_window(
                x,
                shorter[k],
                shorter[k + 1],
            );
            assert(in_window(x, pos[k], pos[k + 1]));
        } else {
            let k: int = 0;
            assert(in_window(x, pos[k], pos[k + 1]));
        }
    }
}

/// Marker `k` is among a frame's events exactly when it is one of the
/// markers looked at and its event time lies in the frame's window.
pub proof fn lemma_events_in(
    ms: Seq<MarkerModel>,
    from: int,
    to: int,
    spawn: bool,
    n: int,
    k: usize,
)
    requires
        0 <= n <= ms.len() <= usize::MAX,
    ensures
        events_in(ms, from, to, spawn, n).contains(k) <==> (k < n && in_window(
            event_time(ms[k as int], spawn) as int,
            from,
            to,
        )),
    decreases n,
{
    if n > 0 {
        lemma_events_in(ms, from, to, spawn, n - 1, k);
        let before = events_in(ms, from, to, spawn, n - 1);
        if in_window(event_time(ms[n - 1], spawn) as int, from, to) {
            let after = before.push((n - 1) as usize);
            if before.contains(k) {
                let i = choose|i: int| 0 <= i < before.len() && before[i] == k;
                assert(after[i] == k);
            }
            if k == n - 1 {
                assert(after[before.len() as int] == k);
            }
            if after.contains(k) {
                let i = choose|i: int| 0 <= i < after.len() && after[i] == k;
                if i < before.len() {
                    assert(before[i] == k);
                }
            }
        }
    }
}

/// Over the frames of a play, where the song positions `pos` of consecutive
/// frames never go back, every marker whose hint (`spawn` false) or hit time
/// (`spawn` true) lies between the first and the last position raises that
/// event in the events of some frame.
pub proof fn lemma_every_event_raised(ms: Seq<MarkerModel>, pos: Seq<int>, spawn: bool, k: usize)
    requires
        pos.len() >= 2,
        forall|j: int| 0 <= j < pos.len() - 1 ==> pos[j] <= #[trigger] pos[j + 1],
        k < ms.len() <= usize::MAX,
        pos[0] <= event_time(ms[k as int], spawn) <= pos[pos.len() - 1],
    ensures
        exists|j: int|
            0 <= j < pos.len() - 1 && #[trigger] events_in(
                ms,
                pos[j],
                pos[j + 1],
                spawn,
                ms.len() as int,
            ).contains(k),
{
    let x = event_time(ms[k as int], spawn) as int;
    lemma_windows_cover(pos, x);
    let j = choose|j: int| 0 <= j < pos.len() - 1 && #[trigger] in_window(x, pos[j], pos[j + 1]);
    lemma_events_in(ms, pos[j], pos[j + 1], spawn, ms.len() as int, k);
    assert(events_in(ms, pos[j], pos[j + 1], spawn, ms.len() as int).contains(k));
}

/// Whether a target marker's approach has begun: `remaining` time to its hit
/// is no longer than its `preempt` window.
pub fn preempt_started(remaining: TimeSpan, preempt: TimeSpan) -> (r: bool)
    ensures
        r == (remaining.nanos <= preempt.nanos),
{
    remaining.saturating_sub(preempt).is_zero()
}

/// Whether a slider shows its hint in a frame of length `delta`: the time
/// `remaining` before the slider starts is within one frame of its approach
/// window `preempt`, on either side.
pub fn curve_hint_due(remaining: TimeSpan, preempt: TimeSpan, delta: TimeSpan) -> (r: bool)
    ensures
        r == (remaining.nanos - preempt.nanos <= delta.nanos && preempt.nanos - remaining.nanos
            <= delta.nanos),
{
    let gap = if remaining.nanos >= preempt.nanos {
        remaining.saturating_sub(preempt)
    } else {
        preempt.saturating_sub(remaining)
    };
    gap.nanos <= delta.nanos
}

// ---------------------------------------------------------------------------
// Hit error
// ---------------------------------------------------------------------------

/// Time a target stays after its hit time before it counts as missed: 400 ms.
pub open spec fn miss_window_nanos() -> int {
    400_000_000
}

/// How long a target lives once its hint appears: the marker's lead time
/// plus the miss window; `None` beyond the longest `Duration`.
pub fn target_lifetime(lead_time: TimeSpan) -> (r: Option<TimeSpan>)
    ensures
        match r {
            Some(d) => d.nanos == lead_time.nanos + miss_window_nanos(),
            None => lead_time.nanos + miss_window_nanos() > max_span_nanos(),
        },
{
    lead_time.checked_add(TimeSpan::from_millis(400))
}

/// Whether the hit error of a target with `remaining` lifetime fits `i32`
/// (whole milliseconds, cut to 32 bits, minus 400).
pub open spec fn hit_error_fits(remaining: TimeSpan) -> bool {
    ((remaining.nanos / 1_000_000) as i32) >= i32::MIN + 400
}

/// The hit error in milliseconds of a target whose lifetime has `remaining`
/// time left: whole milliseconds left, cut to 32 bits, minus the 400 ms miss
/// window. Positive when hit early, negative when late.
pub fn hit_error_ms(remaining: TimeSpan) -> (r: i32)
    requires
        hit_error_fits(remaining),
    ensures
        r == ((remaining.nanos / 1_000_000) as i32) - 400,
{
    let ms = remaining.as_millis();
    let cut = ms as i32;
    cut - 400
}

/// A target spawned when its marker's hint appears lives for the marker's
/// lead time plus the miss window. When the song is at `now`, no later than
/// the end of that lifetime, its hit error is the whole milliseconds from
/// `now` to the marker's hit time, rounded down: zero on the beat, positive
/// when early, negative when late.
pub proof fn lemma_hit_error_on_beat(spawn: int, hint: int, now: int, remaining: TimeSpan)
    requires
        0 <= hint <= now <= spawn + miss_window_nanos(),
        hint <= spawn,
        spawn + miss_window_nanos() < 0x8000_0000 * 1_000_000,
        remaining.nanos == (spawn - hint + miss_window_nanos()) - (now - hint),
    ensures
        hit_error_fits(remaining),
        ((remaining.nanos / 1_000_000) as i32) - 400 == (spawn - now) / 1_000_000,
{
    let ms = remaining.nanos / 1_000_000;
    assert(remaining.nanos == spawn - now + 400_000_000);
    assert(0 <= ms < 0x8000_0000);
    assert(ms == (spawn - now) / 1_000_000 + 400) by {
        assert((spawn - now + 400_000_000) / 1_000_000 == (spawn - now) / 1_000_000 + 400);
    }
    assert((ms as i32) == ms);
}

} // verus!
