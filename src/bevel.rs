use vstd::prelude::*;

use crate::contour::{offset_ready, prepare_offset_contour, Contour};
use crate::geometry::GridPoint;

verus! {

/// The progressive inward offsets of one contour: the unshrunk boundary, the
/// innermost offset, and the offsets strictly between them, outermost first.
#[derive(Debug, Clone)]
pub struct BevelRings {
    pub outer_contour: Contour,
    pub inner_contour: Contour,
    pub rings: Vec<Contour>,
}

pub open spec fn contour_views(s: Seq<Contour>) -> Seq<(Seq<GridPoint>, bool)> {
    s.map_values(|c: Contour| c@)
}

pub proof fn lemma_views_push(s: Seq<Contour>, c: Contour)
    ensures
        contour_views(s.push(c)) == contour_views(s).push(c@),
{
    assert(contour_views(s.push(c)) =~= contour_views(s).push(c@));
}

impl View for BevelRings {
    type V = ((Seq<GridPoint>, bool), (Seq<GridPoint>, bool), Seq<(Seq<GridPoint>, bool)>);

    open spec fn view(&self) -> Self::V {
        (self.outer_contour@, self.inner_contour@, contour_views(self.rings@))
    }
}

impl BevelRings {
    /// The whole ring sequence: outer contour, intermediate rings, inner contour.
    pub open spec fn sequence(self) -> Seq<(Seq<GridPoint>, bool)> {
        seq![self.outer_contour@] + contour_views(self.rings@) + seq![self.inner_contour@]
    }
}

/// The rings of a sequence of offsets, read as a bevel: the first is the outer
/// contour, the last the inner one, and those strictly between are the
/// intermediate rings.
pub open spec fn assembled(s: Seq<(Seq<GridPoint>, bool)>) -> (
    (Seq<GridPoint>, bool),
    (Seq<GridPoint>, bool),
    Seq<(Seq<GridPoint>, bool)>,
) {
    (s[0], s.last(), if s.len() > 2 { s.subrange(1, s.len() - 1) } else { Seq::empty() })
}

/// The decisions of bevel ring generation for one contour. The host performs
/// each requested polygon offset and hands its loops back; the builder decides
/// what is kept and when to stop.
///
/// Ring 0 is the contour itself. The offset of step `k` (from 1 up to the
/// segment count) lies at `k` times the step width. Every loop of an offset
/// that is not degenerate joins the rings, up to `segments + 1` rings in all;
/// an offset that yields nothing else ends the bevel early.
pub struct RingBuilder {
    pub collected: Vec<Contour>,
    pub segments: usize,
    pub step: usize,
    pub finished: bool,
    pub vanished: bool,
}

impl RingBuilder {
    /// How many rings a full bevel has: one more than the segment count, which
    /// is at least one.
    pub open spec fn capacity(self) -> nat {
        if self.segments >= 1 {
            (self.segments + 1) as nat
        } else {
            2
        }
    }

    pub open spec fn wf(self) -> bool {
        &&& self.segments < usize::MAX
        &&& 1 <= self.collected@.len() <= self.capacity()
        &&& 1 <= self.step <= self.capacity()
        &&& self.collected@.len() >= self.step
        &&& self.finished <==> (self.vanished || self.collected@.len() == self.capacity())
    }

    /// Starts a bevel from a contour prepared for offsetting.
    pub fn new(outer: Contour, segments: usize) -> (r: RingBuilder)
        requires
            segments < usize::MAX,
        ensures
            r.wf(),
            contour_views(r.collected@) == seq![outer@],
            r.segments == segments,
            r.step == 1,
            !r.finished,
            !r.vanished,
    {
        let mut collected: Vec<Contour> = Vec::new();
        collected.push(outer);
        let r = RingBuilder { collected, segments, step: 1, finished: false, vanished: false };
        assert(contour_views(r.collected@) =~= seq![outer@]);
        r
    }

    /// The offset step to perform next, or `None` once the bevel is complete.
    pub fn pending_step(&self) -> (r: Option<usize>)
        requires
            self.wf(),
        ensures
            r == (if self.finished {
                None
            } else {
                Some(self.step)
            }),
            r matches Some(k) ==> 1 <= k <= self.capacity() - 1,
    {
        if self.finished {
            None
        } else {
            Some(self.step)
        }
    }

    /// Takes the loops of the pending offset. Loops of fewer than three
    /// distinct vertices are degenerate and dropped, the others cleaned up for
    /// offsetting. No loop left ends the bevel early; otherwise the loops join
    /// the rings in order until the bevel is full.
    pub fn accept(&mut self, offsets: Vec<Contour>)
        requires
            old(self).wf(),
            !old(self).finished,
        ensures
            final(self).wf(),
            final(self).segments == old(self).segments,
            offset_sources_of(contour_views(offsets@)).len() == 0 ==> {
                &&& final(self).collected@ == old(self).collected@
                &&& final(self).finished
                &&& final(self).vanished
            },
            offset_sources_of(contour_views(offsets@)).len() > 0 ==> {
                let l = offset_sources_of(contour_views(offsets@));
                let room = old(self).capacity() - old(self).collected@.len();
                let kept = if l.len() <= room { l.len() as int } else { room };
                &&& contour_views(final(self).collected@) == contour_views(old(self).collected@)
                    + l.take(kept)
                &&& final(self).step == old(self).step + 1
                &&& !final(self).vanished
                &&& final(self).finished == (final(self).collected@.len() == old(self).capacity())
            },
    {
        let loops = offset_sources(&offsets);
        if loops.len() == 0 {
            self.finished = true;
            self.vanished = true;
            return;
        }
        let cap: usize = if self.segments >= 1 {
            self.segments + 1
        } else {
            2
        };
        let ghost before = self.collected@;
        let ghost room = cap - before.len();
        let ghost kept = if loops@.len() <= room { loops@.len() as int } else { room };
        let mut i: usize = 0;
        while i < loops.len() && self.collected.len() < cap
            invariant
                cap == old(self).capacity(),
                before == old(self).collected@,
                room == cap - before.len(),
                kept == (if loops@.len() <= room { loops@.len() as int } else { room }),
                before.len() < cap,
                i <= loops@.len(),
                i <= room,
                self.collected@.len() == before.len() + i,
                contour_views(self.collected@) == contour_views(before) + contour_views(loops@).take(i as int),
                self.segments == old(self).segments,
                self.step == old(self).step,
                self.finished == old(self).finished,
                self.vanished == old(self).vanished,
            decreases loops@.len() - i,
        {
            let c = loops[i].duplicate();
            let ghost prior = self.collected@;
            self.collected.push(c);
            proof {
                lemma_views_push(prior, c);
            }
            assert(contour_views(loops@).take(i as int + 1) =~= contour_views(loops@).take(i as int).push(
                c@,
            ));
            assert(contour_views(self.collected@) =~= contour_views(before) + contour_views(loops@).take(
                i as int + 1,
            ));
            i += 1;
        }
        assert(i == kept);
        self.step = self.step + 1;
        self.finished = self.collected.len() == cap;
    }

    /// Reads the collected rings as a bevel.
    pub fn finish(self) -> (r: BevelRings)
        requires
            self.wf(),
        ensures
            r@ == assembled(contour_views(self.collected@)),
    {
        let n = self.collected.len();
        let outer = self.collected[0].duplicate();
        let inner = self.collected[n - 1].duplicate();
        let mut rings: Vec<Contour> = Vec::new();
        if n > 2 {
            let mut i: usize = 1;
            while i < n - 1
                invariant
                    n == self.collected@.len(),
                    1 <= i <= n - 1,
                    contour_views(rings@) == contour_views(self.collected@).subrange(1, i as int),
                decreases n - 1 - i,
            {
                let c = self.collected[i].duplicate();
                let ghost prior = rings@;
                rings.push(c);
                proof {
                    lemma_views_push(prior, c);
                }
                assert(contour_views(rings@) =~= contour_views(self.collected@).subrange(1, i as int + 1));
                i += 1;
            }
        } else {
            assert(contour_views(rings@) =~= Seq::empty());
        }
        BevelRings { outer_contour: outer, inner_contour: inner, rings }
    }
}

/// The contours that can be offset, each prepared for it; the others are
/// skipped.
pub open spec fn offset_sources_of(contours: Seq<(Seq<GridPoint>, bool)>) -> Seq<(Seq<GridPoint>, bool)>
    decreases contours.len(),
{
    if contours.len() == 0 {
        Seq::empty()
    } else {
        let rest = offset_sources_of(contours.drop_last());
        match offset_ready(contours.last()) {
            Some(c) => rest.push(c),
            None => rest,
        }
    }
}

/// Prepares every contour of a glyph for offsetting, skipping those that
/// cannot be offset.
pub fn offset_sources(contours: &Vec<Contour>) -> (r: Vec<Contour>)
    ensures
        contour_views(r@) == offset_sources_of(contour_views(contours@)),
{
    let mut out: Vec<Contour> = Vec::new();
    let mut i: usize = 0;
    while i < contours.len()
        invariant
            i <= contours@.len(),
            contour_views(out@) == offset_sources_of(contour_views(contours@).take(i as int)),
        decreases contours@.len() - i,
    {
        let ghost before = out@;
        assert(contour_views(contours@).take(i as int + 1).drop_last() =~= contour_views(contours@).take(
            i as int,
        ));
        match prepare_offset_contour(&contours[i]) {
            Ok(c) => {
                out.push(c);
                assert(contour_views(out@) =~= contour_views(before).push(c@));
            },
            Err(_) => {},
        }
        i += 1;
    }
    assert(contour_views(contours@).take(contours@.len() as int) =~= contour_views(contours@));
    out
}

/// Ring count law: a finished bevel never holds more than `segments + 1`
/// rings; it holds exactly that many, so that the intermediate rings number
/// `segments - 1`, whenever no offset vanished; and a single segment leaves no
/// intermediate ring.
pub proof fn lemma_ring_count(b: RingBuilder)
    requires
        b.wf(),
        b.finished,
        b.segments >= 1,
    ensures
        b.collected@.len() <= b.segments + 1,
        !b.vanished ==> b.collected@.len() == b.segments + 1,
        !b.vanished && b.segments >= 1 ==> assembled(contour_views(b.collected@)).2.len() + 2
            == b.segments + 1,
        b.segments == 1 ==> assembled(contour_views(b.collected@)).2.len() == 0,
{
}

} // verus!
