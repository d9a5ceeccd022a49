use vstd::prelude::*;

use crate::error::MeshTextError;
use crate::geometry::{
    cubic_at, cubic_samples, flip, flip_spec, negatable, quad_at, quad_samples, GridPoint,
};

verus! {

/// An ordered loop of vertices, closed or open.
#[derive(Debug, Clone)]
pub struct Contour {
    pub vertices: Vec<GridPoint>,
    pub is_closed: bool,
}

impl View for Contour {
    type V = (Seq<GridPoint>, bool);

    open spec fn view(&self) -> (Seq<GridPoint>, bool) {
        (self.vertices@, self.is_closed)
    }
}

impl Contour {
    /// A copy of the contour.
    pub fn duplicate(&self) -> (r: Contour)
        ensures
            r@ == self@,
    {
        let mut vertices: Vec<GridPoint> = Vec::new();
        let mut i: usize = 0;
        while i < self.vertices.len()
            invariant
                i <= self.vertices@.len(),
                vertices@ == self.vertices@.take(i as int),
            decreases self.vertices@.len() - i,
        {
            vertices.push(self.vertices[i]);
            assert(self.vertices@.take(i as int + 1) =~= self.vertices@.take(i as int).push(
                self.vertices@[i as int],
            ));
            i += 1;
        }
        assert(self.vertices@.take(self.vertices@.len() as int) =~= self.vertices@);
        Contour { vertices, is_closed: self.is_closed }
    }
}

/// One command of an outline path, on the grid, scaled and centred but with
/// its y axis not yet mirrored into mesh space.
#[derive(Debug, Clone, Copy, PartialEq, Eq, Structural)]
pub enum PathEvent {
    Begin { at: GridPoint },
    Line { to: GridPoint },
    Quadratic { ctrl: GridPoint, to: GridPoint },
    Cubic { ctrl1: GridPoint, ctrl2: GridPoint, to: GridPoint },
    End { close: bool },
}

/// The vertices of `s` in order, each kept at its first occurrence only.
pub open spec fn dedup(s: Seq<GridPoint>) -> Seq<GridPoint>
    decreases s.len(),
{
    if s.len() == 0 {
        s
    } else {
        let rest = dedup(s.drop_last());
        if s.drop_last().contains(s.last()) {
            rest
        } else {
            rest.push(s.last())
        }
    }
}

/// Deduplication keeps exactly the points that occur, without repeating any.
pub proof fn lemma_dedup_contents(s: Seq<GridPoint>)
    ensures
        forall|p: GridPoint| dedup(s).contains(p) <==> s.contains(p),
        dedup(s).no_duplicates(),
        dedup(s).len() <= s.len(),
        s.len() > 0 ==> dedup(s).len() > 0 && dedup(s)[0] == s[0],
    decreases s.len(),
{
    if s.len() > 0 {
        let t = s.drop_last();
        lemma_dedup_contents(t);
        assert forall|p: GridPoint| s.contains(p) <==> (t.contains(p) || p == s.last()) by {
            if s.contains(p) {
                let i = choose|i: int| 0 <= i < s.len() && s[i] == p;
                if i < s.len() - 1 {
                    assert(t[i] == p);
                }
            }
            if t.contains(p) {
                let i = choose|i: int| 0 <= i < t.len() && t[i] == p;
                assert(s[i] == p);
            }
            if p == s.last() {
                assert(s[s.len() - 1] == p);
            }
        }
        let r = dedup(t);
        if !t.contains(s.last()) {
            assert forall|p: GridPoint| r.push(s.last()).contains(p) <==> (r.contains(p) || p == s.last()) by {
                if r.push(s.last()).contains(p) {
                    let i = choose|i: int| 0 <= i < r.len() + 1 && r.push(s.last())[i] == p;
                    if i < r.len() {
                        assert(r[i] == p);
                    }
                }
                if r.contains(p) {
                    let i = choose|i: int| 0 <= i < r.len() && r[i] == p;
                    assert(r.push(s.last())[i] == p);
                }
                if p == s.last() {
                    assert(r.push(s.last())[r.len() as int] == p);
                }
            }
            assert(r.push(s.last()).no_duplicates()) by {
                assert forall|i: int, j: int|
                    0 <= i < r.len() + 1 && 0 <= j < r.len() + 1 && i != j implies r.push(s.last())[i]
                    != r.push(s.last())[j] by {
                    if i < r.len() && j < r.len() {
                    } else if i < r.len() {
                        assert(r.contains(r[i]));
                    } else {
                        assert(r.contains(r[j]));
                    }
                }
            }
            if t.len() == 0 {
                assert(r.push(s.last())[0] == s[0]);
            } else {
                assert(t[0] == s[0]);
            }
        } else {
            if t.len() > 0 {
                assert(t[0] == s[0]);
            } else {
                assert(!t.contains(s.last()));
            }
        }
    }
}

/// A sequence without repeated vertices is its own deduplication.
pub proof fn lemma_dedup_distinct(s: Seq<GridPoint>)
    requires
        s.no_duplicates(),
    ensures
        dedup(s) == s,
    decreases s.len(),
{
    if s.len() > 0 {
        let t = s.drop_last();
        assert(t.no_duplicates()) by {
            assert forall|i: int, j: int| 0 <= i < t.len() && 0 <= j < t.len() && i != j implies t[i]
                != t[j] by {
                assert(s[i] == t[i] && s[j] == t[j]);
            }
        }
        lemma_dedup_distinct(t);
        if t.contains(s.last()) {
            let i = choose|i: int| 0 <= i < t.len() && t[i] == s.last();
            assert(s[i] == s[s.len() - 1]);
        }
        assert(t.push(s.last()) =~= s);
    }
}

/// Whether `s` holds `p`.
fn holds_point(s: &Vec<GridPoint>, p: GridPoint) -> (r: bool)
    ensures
        r == s@.contains(p),
{
    let mut i: usize = 0;
    while i < s.len()
        invariant
            i <= s.len(),
            forall|j: int| 0 <= j < i ==> s@[j] != p,
        decreases s.len() - i,
    {
        if s[i] == p {
            assert(s@[i as int] == p);
            return true;
        }
        i += 1;
    }
    false
}

/// The vertices of `vertices` in order, each kept at its first occurrence only.
pub fn deduplicated(vertices: &Vec<GridPoint>) -> (r: Vec<GridPoint>)
    ensures
        r@ == dedup(vertices@),
{
    let mut out: Vec<GridPoint> = Vec::new();
    let n = vertices.len();
    let mut i: usize = 0;
    while i < n
        invariant
            n == vertices.len(),
            i <= n,
            out@ == dedup(vertices@.take(i as int)),
        decreases n - i,
    {
        let v = vertices[i];
        let prefix = Ghost(vertices@.take(i as int));
        proof {
            lemma_dedup_contents(prefix@);
            assert(vertices@.take(i as int + 1).drop_last() =~= prefix@);
        }
        if !holds_point(&out, v) {
            out.push(v);
        }
        i += 1;
    }
    assert(vertices@.take(n as int) =~= vertices@);
    out
}

/// Removes repeated vertices, keeping the first occurrence of each.
pub fn deduplicate_vertices(vertices: &mut Vec<GridPoint>)
    ensures
        final(vertices)@ == dedup(old(vertices)@),
{
    *vertices = deduplicated(vertices);
}

/// The vertices of a closed or open loop once curves have ended: deduplicated,
/// and on a closed loop followed by its start again when the last vertex
/// differs from it; `None` when fewer than three distinct vertices remain.
pub open spec fn finished_loop(
    current: Seq<GridPoint>,
    start: GridPoint,
    close: bool,
) -> Option<(Seq<GridPoint>, bool)> {
    let d = dedup(current);
    if d.len() >= 3 {
        if close && d.last() != start {
            Some((d.push(start), close))
        } else {
            Some((d, close))
        }
    } else {
        None
    }
}

/// What the contour walk holds after some events: finished contours, the
/// vertices of the open loop, and that loop's start.
pub struct WalkState {
    pub done: Seq<(Seq<GridPoint>, bool)>,
    pub current: Seq<GridPoint>,
    pub start: GridPoint,
}

pub open spec fn origin() -> GridPoint {
    GridPoint { x: 0, y: 0 }
}

/// The last vertex of the open loop, or the origin when it has none.
pub open spec fn pen(current: Seq<GridPoint>) -> GridPoint {
    if current.len() > 0 {
        current.last()
    } else {
        origin()
    }
}

pub open spec fn walk_step(w: WalkState, e: PathEvent) -> WalkState {
    match e {
        PathEvent::Begin { at } => WalkState {
            done: w.done,
            current: seq![flip_spec(at)],
            start: flip_spec(at),
        },
        PathEvent::Line { to } => WalkState {
            current: w.current.push(flip_spec(to)),
            ..w
        },
        PathEvent::Quadratic { ctrl, to } => WalkState {
            current: w.current + quad_samples(pen(w.current), flip_spec(ctrl), flip_spec(to)),
            ..w
        },
        PathEvent::Cubic { ctrl1, ctrl2, to } => WalkState {
            current: w.current + cubic_samples(
                pen(w.current),
                flip_spec(ctrl1),
                flip_spec(ctrl2),
                flip_spec(to),
            ),
            ..w
        },
        PathEvent::End { close } => WalkState {
            done: match finished_loop(w.current, w.start, close) {
                Some(l) => w.done.push(l),
                None => w.done,
            },
            current: Seq::empty(),
            start: w.start,
        },
    }
}

/// The walk over the first `n` events.
pub open spec fn walk(events: Seq<PathEvent>, n: nat) -> WalkState
    decreases n,
{
    if n == 0 {
        WalkState { done: Seq::empty(), current: Seq::empty(), start: origin() }
    } else {
        walk_step(walk(events, (n - 1) as nat), events[n - 1])
    }
}

/// The contours of a path: each finished loop, then the loop left open at the
/// end of the path, if any, as an open contour.
pub open spec fn contours_of(events: Seq<PathEvent>) -> Seq<(Seq<GridPoint>, bool)> {
    let w = walk(events, events.len());
    match finished_loop(w.current, w.start, false) {
        Some(l) => w.done.push(l),
        None => w.done,
    }
}

/// Whether every point of an event can be mirrored within `i32`.
pub open spec fn event_flippable(e: PathEvent) -> bool {
    match e {
        PathEvent::Begin { at } => negatable(at.y),
        PathEvent::Line { to } => negatable(to.y),
        PathEvent::Quadratic { ctrl, to } => negatable(ctrl.y) && negatable(to.y),
        PathEvent::Cubic { ctrl1, ctrl2, to } => negatable(ctrl1.y) && negatable(ctrl2.y)
            && negatable(to.y),
        PathEvent::End { .. } => true,
    }
}

fn finish_loop(current: &Vec<GridPoint>, start: GridPoint, close: bool) -> (r: Option<Contour>)
    ensures
        match r {
            Some(c) => finished_loop(current@, start, close) == Some(c@),
            None => finished_loop(current@, start, close).is_none(),
        },
{
    let mut d = deduplicated(current);
    if d.len() >= 3 {
        if close && d[d.len() - 1] != start {
            d.push(start);
        }
        Some(Contour { vertices: d, is_closed: close })
    } else {
        None
    }
}

/// Splits a path into contours, mirrored across the x axis: curves become
/// eight (quadratic) or ten (cubic) segments, each loop is deduplicated, a
/// closed loop ends on its start again, and loops of fewer than three distinct
/// vertices are dropped.
pub fn extract_contours(events: &Vec<PathEvent>) -> (r: Vec<Contour>)
    requires
        forall|i: int| 0 <= i < events@.len() ==> event_flippable(#[trigger] events@[i]),
    ensures
        r@.map_values(|c: Contour| c@) == contours_of(events@),
{
    let mut done: Vec<Contour> = Vec::new();
    let mut current: Vec<GridPoint> = Vec::new();
    let mut start = GridPoint { x: 0, y: 0 };
    let mut i: usize = 0;
    while i < events.len()
        invariant
            i <= events.len(),
            forall|j: int| 0 <= j < events@.len() ==> event_flippable(#[trigger] events@[j]),
            done@.map_values(|c: Contour| c@) == walk(events@, i as nat).done,
            current@ == walk(events@, i as nat).current,
            start == walk(events@, i as nat).start,
        decreases events.len() - i,
    {
        let e = events[i];
        assert(event_flippable(events@[i as int]));
        let ghost before = done@.map_values(|c: Contour| c@);
        match e {
            PathEvent::Begin { at } => {
                start = flip(at);
                current = Vec::new();
                current.push(start);
                assert(current@ =~= seq![flip_spec(at)]);
            },
            PathEvent::Line { to } => {
                current.push(flip(to));
            },
            PathEvent::Quadratic { ctrl, to } => {
                let from = if current.len() > 0 {
                    current[current.len() - 1]
                } else {
                    GridPoint { x: 0, y: 0 }
                };
                let c = flip(ctrl);
                let t = flip(to);
                let ghost old_current = current@;
                let mut k: i64 = 1;
                while k <= 8
                    invariant
                        1 <= k <= 9,
                        current@ =~= old_current + quad_samples(from, c, t).take(k - 1),
                    decreases 9 - k,
                {
                    current.push(quad_at(from, c, t, k));
                    assert(quad_samples(from, c, t).take(k as int) =~= quad_samples(from, c, t).take(
                        k - 1,
                    ).push(quad_samples(from, c, t)[k - 1]));
                    k += 1;
                }
                assert(quad_samples(from, c, t).take(8) =~= quad_samples(from, c, t));
            },
            PathEvent::Cubic { ctrl1, ctrl2, to } => {
                let from = if current.len() > 0 {
                    current[current.len() - 1]
                } else {
                    GridPoint { x: 0, y: 0 }
                };
                let c1 = flip(ctrl1);
                let c2 = flip(ctrl2);
                let t = flip(to);
                let ghost old_current = current@;
                let mut k: i64 = 1;
                while k <= 10
                    invariant
                        1 <= k <= 11,
                        current@ =~= old_current + cubic_samples(from, c1, c2, t).take(k - 1),
                    decreases 11 - k,
                {
                    current.push(cubic_at(from, c1, c2, t, k));
                    assert(cubic_samples(from, c1, c2, t).take(k as int) =~= cubic_samples(
                        from,
                        c1,
                        c2,
                        t,
                    ).take(k - 1).push(cubic_samples(from, c1, c2, t)[k - 1]));
                    k += 1;
                }
                assert(cubic_samples(from, c1, c2, t).take(10) =~= cubic_samples(from, c1, c2, t));
            },
            PathEvent::End { close } => {
                match finish_loop(&current, start, close) {
                    Some(c) => {
                        done.push(c);
                        assert(done@.map_values(|c: Contour| c@) =~= before.push(c@));
                    },
                    None => {},
                }
                current = Vec::new();
                assert(current@ =~= Seq::<GridPoint>::empty());
            },
        }
        i += 1;
    }
    let ghost before = done@.map_values(|c: Contour| c@);
    match finish_loop(&current, start, false) {
        Some(c) => {
            done.push(c);
            assert(done@.map_values(|c: Contour| c@) =~= before.push(c@));
        },
        None => {},
    }
    assert(events@.len() == i);
    done
}

/// The vertices of a contour as an offsetting operation takes them:
/// deduplicated, with the contour's closedness; fewer than three distinct
/// vertices are refused.
pub open spec fn offset_ready(c: (Seq<GridPoint>, bool)) -> Option<(Seq<GridPoint>, bool)> {
    if dedup(c.0).len() >= 3 {
        Some((dedup(c.0), c.1))
    } else {
        None
    }
}

/// Cleans a contour up for polygon offsetting: repeated vertices go (among
/// them a closing vertex that repeats the first), and fewer than three
/// distinct vertices are refused with `InvalidContour`.
pub fn prepare_offset_contour(contour: &Contour) -> (r: Result<Contour, MeshTextError>)
    ensures
        match r {
            Ok(c) => offset_ready(contour@) == Some(c@),
            Err(e) => offset_ready(contour@).is_none() && e == MeshTextError::InvalidContour,
        },
{
    let vertices = deduplicated(&contour.vertices);
    if vertices.len() < 3 {
        Err(MeshTextError::InvalidContour)
    } else {
        Ok(Contour { vertices, is_closed: contour.is_closed })
    }
}

/// Preparing a contour of at least three distinct vertices for offsetting
/// hands back its vertices and closedness unchanged, so converting it to an
/// offset polygon and back reproduces it.
pub proof fn lemma_offset_round_trip(c: (Seq<GridPoint>, bool))
    requires
        c.0.len() >= 3,
        c.0.no_duplicates(),
    ensures
        offset_ready(c) == Some(c),
{
    lemma_dedup_distinct(c.0);
}

/// A loop whose vertices all coincide is never a contour and is never handed
/// to offsetting.
pub proof fn lemma_point_loop_dropped(s: Seq<GridPoint>, start: GridPoint, close: bool, p: GridPoint)
    requires
        forall|i: int| 0 <= i < s.len() ==> s[i] == p,
    ensures
        finished_loop(s, start, close).is_none(),
        offset_ready((s, close)).is_none(),
{
    lemma_dedup_contents(s);
    let d = dedup(s);
    if d.len() >= 2 {
        assert(d.contains(d[0]) && d.contains(d[1]));
        assert(s.contains(d[0]) && s.contains(d[1]));
        assert(d[0] == p && d[1] == p);
    }
}

proof fn lemma_walk_loops_sized(events: Seq<PathEvent>, n: nat)
    ensures
        forall|k: int| 0 <= k < walk(events, n).done.len() ==> (#[trigger] walk(events, n).done[k]).0.len() >= 3,
    decreases n,
{
    if n > 0 {
        lemma_walk_loops_sized(events, (n - 1) as nat);
        let w = walk(events, (n - 1) as nat);
        if let PathEvent::End { close } = events[n - 1] {
            if let Some(l) = finished_loop(w.current, w.start, close) {
                assert(walk(events, n).done == w.done.push(l));
                assert(l.0.len() >= 3);
            }
        }
    }
}

/// Every contour extracted from a path holds at least three vertices.
pub proof fn lemma_contours_sized(events: Seq<PathEvent>)
    ensures
        forall|k: int| 0 <= k < contours_of(events).len() ==> (#[trigger] contours_of(events)[k]).0.len() >= 3,
{
    lemma_walk_loops_sized(events, events.len());
}

} // verus!
