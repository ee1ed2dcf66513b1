//! A body and its trail: the bounded history of samples, and the outline
//! of the ribbon that is drawn from it.

use vstd::prelude::*;
use std::collections::VecDeque;
use crate::canvas::{Method, Path};
use crate::physics::{Point2, RK4Wrap};
use crate::vector::{Color, Vec2};

verus! {

/// One segment of the trail, ready to draw.  `pts` are the four control
/// points of the cubic from the newer sample (index 0) to the older one
/// (index 3); `rad` are the tapered half-widths at those points; `left` and
/// `right` are the control points moved by the half-width to either side of
/// the centre line.  `degenerate` tells that the segment spans too short a
/// time to have a direction.
#[derive(Clone, Copy, Debug, PartialEq)]
pub struct Curve<T> {
    pub pts: [Vec2<T>; 4],
    pub left: [Vec2<T>; 4],
    pub right: [Vec2<T>; 4],
    pub rad: [T; 4],
    pub dt: T,
    pub degenerate: bool,
}

/// A sample of the history with the segment that leads to it from the next
/// newer sample, or, for the newest sample, from where the body is now.
#[derive(Clone, Copy, Debug, PartialEq)]
pub struct Track<T> {
    pub point: Point2<T>,
    pub curve: Curve<T>,
}

/// How long the trail is.
#[derive(Clone, Copy, Debug, PartialEq)]
pub struct BodyCfg<T> {
    /// Most samples that the history keeps.
    pub track_len: usize,
    /// Time between two samples.
    pub step_dur: T,
}

/// A point mass with its look and its trail.
pub struct Body<T> {
    pub var: RK4Wrap<Point2<T>>,
    pub mass: T,
    pub color: Color<T>,
    pub rad: T,
    /// The samples that are kept, oldest first.
    pub tracks: VecDeque<Track<T>>,
    /// The time of the newest sample.
    pub last_step: T,
}

/// The history after one more sample: the sample is the new head, and where
/// that makes the history longer than `track_len`, the oldest sample leaves.
pub open spec fn sampled<T>(history: Seq<Track<T>>, head: Track<T>, track_len: nat) -> Seq<
    Track<T>,
> {
    let grown = history.push(head);
    if grown.len() > track_len {
        grown.subrange(1, grown.len() as int)
    } else {
        grown
    }
}

/// The stroke that follows the left side of a segment, from its newer end
/// to its older end; none for a degenerate segment.
pub open spec fn left_stroke<T>(t: Track<T>) -> Option<Path<T>> {
    if t.curve.degenerate {
        None
    } else {
        Some(Path::BezierTo { cp1: t.curve.left[1], cp2: t.curve.left[2], pos: t.curve.left[3] })
    }
}

/// The stroke that follows the right side of a segment, from its older end
/// back to its newer end; none for a degenerate segment.
pub open spec fn right_stroke<T>(t: Track<T>) -> Option<Path<T>> {
    if t.curve.degenerate {
        None
    } else {
        Some(
            Path::BezierTo { cp1: t.curve.right[2], cp2: t.curve.right[1], pos: t.curve.right[0] },
        )
    }
}

/// The left strokes of `tracks`, in their order.
pub open spec fn left_strokes<T>(tracks: Seq<Track<T>>) -> Seq<Path<T>> {
    tracks.filter_map(|t: Track<T>| left_stroke(t))
}

/// The right strokes of `tracks`, in their order.
pub open spec fn right_strokes<T>(tracks: Seq<Track<T>>) -> Seq<Path<T>> {
    tracks.filter_map(|t: Track<T>| right_stroke(t))
}

/// The closed outline of the trail of a non-empty history (oldest sample
/// first): from the left of the head down the left sides to the tail,
/// across to the right of the tail, back up the right sides to the head,
/// and closed.  Degenerate segments contribute no stroke.
pub open spec fn ribbon<T>(history: Seq<Track<T>>) -> Seq<Path<T>>
    recommends
        history.len() > 0,
{
    seq![Path::MoveTo { pos: history.last().curve.left[0] }] + left_strokes(history.reverse())
        + seq![Path::LineTo { pos: history[0].curve.right[3] }] + right_strokes(history)
        + seq![Path::Close]
}

/// What is drawn for the trail of a body with history `history` and colour
/// `color`: nothing for an empty history; else the filled ribbon, then a
/// filled disc that rounds off the tail, at the older end of the oldest
/// segment and as wide as the ribbon is there.
pub open spec fn is_trail_drawing<T>(
    out: Seq<(Path<T>, Method<T>)>,
    history: Seq<Track<T>>,
    color: Color<T>,
) -> bool {
    if history.len() == 0 {
        out.len() == 0
    } else {
        &&& out.len() == 2
        &&& out[0].0 matches Path::List { paths } && paths@ == ribbon(history)
        &&& out[0].1 == (Method::Fill { color })
        &&& out[1].0 == (Path::Circle {
            pos: history[0].curve.pts[3],
            rad: history[0].curve.rad[3],
        })
        &&& out[1].1 == (Method::Fill { color })
    }
}

impl<T: Copy> Body<T> {
    /// A body at `point` with an empty trail.  All four integration buffers
    /// start as the point itself, and the body is drawn as wide as it is
    /// heavy.  `last_step` is the time from which the first sample is
    /// counted.
    pub fn new(point: &Point2<T>, mass: T, color: Color<T>, cfg: &BodyCfg<T>, last_step: T) -> (b:
        Self)
        ensures
            b.var == (*point, *point, *point, *point),
            b.mass == mass,
            b.color == color,
            b.rad == mass,
            b.tracks@ == Seq::<Track<T>>::empty(),
            b.last_step == last_step,
    {
        Body {
            var: (*point, *point, *point, *point),
            mass,
            color,
            rad: mass,
            tracks: VecDeque::with_capacity(cfg.track_len),
            last_step,
        }
    }

    /// One tick of the history.  When a sample is `due`, the present state
    /// becomes the new head of the history, with `fresh` as its segment, the
    /// oldest sample leaves if the history has outgrown `cfg.track_len`, and
    /// `time` is noted as the time of the newest sample.  When none is due,
    /// nothing changes.  The geometry of the segments is the caller's to
    /// refresh afterwards.
    pub fn step(&mut self, cfg: &BodyCfg<T>, time: T, due: bool, fresh: Curve<T>)
        ensures
            final(self).var == old(self).var,
            final(self).mass == old(self).mass,
            final(self).color == old(self).color,
            final(self).rad == old(self).rad,
            due ==> final(self).tracks@ == sampled(
                old(self).tracks@,
                Track { point: old(self).var.0, curve: fresh },
                cfg.track_len as nat,
            ),
            due ==> final(self).last_step == time,
            !due ==> final(self).tracks@ == old(self).tracks@,
            !due ==> final(self).last_step == old(self).last_step,
    {
        if due {
            self.tracks.push_back(Track { point: self.var.0, curve: fresh });
            self.last_step = time;
            if self.tracks.len() > cfg.track_len {
                self.tracks.pop_front();
            }
        }
    }

    /// The samples between which the tail of the trail shrinks: the second
    /// oldest and the oldest, once the history has reached `cfg.track_len`.
    /// Before that, and while there is no second sample, the tail stays
    /// as it is.
    pub fn tail_span(&self, cfg: &BodyCfg<T>) -> (span: Option<(Point2<T>, Point2<T>)>)
        ensures
            span == if self.tracks@.len() >= cfg.track_len && self.tracks@.len() >= 2 {
                Some((self.tracks@[1].point, self.tracks@[0].point))
            } else {
                None
            },
    {
        let n: usize = self.tracks.len();
        if n >= cfg.track_len && n >= 2 {
            Some((self.tracks[1].point, self.tracks[0].point))
        } else {
            None
        }
    }

    /// The disc of the body: a circle of its radius where it is now, filled
    /// with its colour.
    pub fn draw(&self) -> (d: (Path<T>, Method<T>))
        ensures
            d.0 == (Path::Circle { pos: self.var.0.pos, rad: self.rad }),
            d.1 == (Method::Fill { color: self.color }),
    {
        (Path::Circle { pos: self.var.0.pos, rad: self.rad }, Method::Fill { color: self.color })
    }
}

impl<T: Copy> Body<T> {
    /// The trail of the body as the sink is to draw it: see
    /// [`is_trail_drawing`].
    pub fn draw_track(&self) -> (out: Vec<(Path<T>, Method<T>)>)
        ensures
            is_trail_drawing(out@, self.tracks@, self.color),
    {
        let mut out: Vec<(Path<T>, Method<T>)> = Vec::new();
        let n: usize = self.tracks.len();
        if n > 0 {
            let ghost h = self.tracks@;
            let mut paths: Vec<Path<T>> = Vec::new();
            paths.push(Path::MoveTo { pos: self.tracks[n - 1].curve.left[0] });
            let mut k: usize = 0;
            while k < n
                invariant
                    k <= n,
                    n == h.len(),
                    h == self.tracks@,
                    paths@ == seq![Path::MoveTo { pos: h.last().curve.left[0] }] + left_strokes(
                        h.reverse().take(k as int),
                    ),
                decreases n - k,
            {
                let track: &Track<T> = &self.tracks[n - 1 - k];
                proof {
                    let now = h.reverse().take(k as int + 1);
                    assert(now.drop_last() =~= h.reverse().take(k as int));
                    assert(now.last() == *track);
                }
                if !track.curve.degenerate {
                    paths.push(
                        Path::BezierTo {
                            cp1: track.curve.left[1],
                            cp2: track.curve.left[2],
                            pos: track.curve.left[3],
                        },
                    );
                }
                k += 1;
                assert(paths@ =~= seq![Path::MoveTo { pos: h.last().curve.left[0] }]
                    + left_strokes(h.reverse().take(k as int)));
            }
            assert(h.reverse().take(n as int) =~= h.reverse());
            paths.push(Path::LineTo { pos: self.tracks[0].curve.right[3] });
            let ghost upper = paths@;
            let mut i: usize = 0;
            while i < n
                invariant
                    i <= n,
                    n == h.len(),
                    h == self.tracks@,
                    paths@ == upper + right_strokes(h.take(i as int)),
                decreases n - i,
            {
                let track: &Track<T> = &self.tracks[i];
                proof {
                    let now = h.take(i as int + 1);
                    assert(now.drop_last() =~= h.take(i as int));
                    assert(now.last() == *track);
                }
                if !track.curve.degenerate {
                    paths.push(
                        Path::BezierTo {
                            cp1: track.curve.right[2],
                            cp2: track.curve.right[1],
                            pos: track.curve.right[0],
                        },
                    );
                }
                i += 1;
                assert(paths@ =~= upper + right_strokes(h.take(i as int)));
            }
            assert(h.take(n as int) =~= h);
            paths.push(Path::Close);
            assert(paths@ =~= ribbon(h));
            out.push((Path::List { paths }, Method::Fill { color: self.color }));
            out.push(
                (
                    Path::Circle {
                        pos: self.tracks[0].curve.pts[3],
                        rad: self.tracks[0].curve.rad[3],
                    },
                    Method::Fill { color: self.color },
                ),
            );
        }
        out
    }
}

/// Strokes are made segment by segment: those of two runs of segments put
/// together are the strokes of the first run, then those of the second.
pub proof fn lemma_strokes_concat<T>(a: Seq<Track<T>>, b: Seq<Track<T>>)
    ensures
        left_strokes(a + b) == left_strokes(a) + left_strokes(b),
        right_strokes(a + b) == right_strokes(a) + right_strokes(b),
    decreases b.len(),
{
    if b.len() == 0 {
        assert(a + b =~= a);
        assert(left_strokes(a) + left_strokes(b) =~= left_strokes(a));
        assert(right_strokes(a) + right_strokes(b) =~= right_strokes(a));
    } else {
        lemma_strokes_concat(a, b.drop_last());
        assert((a + b).drop_last() =~= a + b.drop_last());
        assert((a + b).last() == b.last());
        assert(left_strokes(a + b) =~= left_strokes(a) + left_strokes(b));
        assert(right_strokes(a + b) =~= right_strokes(a) + right_strokes(b));
    }
}

/// Every segment that has a stroke on the left has one on the right, in
/// whatever order the segments are taken.
pub proof fn lemma_sides_match<T>(tracks: Seq<Track<T>>)
    ensures
        left_strokes(tracks.reverse()).len() == right_strokes(tracks).len(),
    decreases tracks.len(),
{
    if tracks.len() > 0 {
        let rest = tracks.drop_last();
        let last = seq![tracks.last()];
        lemma_sides_match(rest);
        assert(tracks.reverse() =~= last + rest.reverse());
        lemma_strokes_concat(last, rest.reverse());
        assert(last.drop_last() =~= Seq::<Track<T>>::empty());
        assert(left_strokes(Seq::<Track<T>>::empty()).len() == 0);
        assert(left_strokes(last).len() == if tracks.last().curve.degenerate {
            0nat
        } else {
            1nat
        });
    } else {
        assert(tracks.reverse() =~= tracks);
    }
}

/// The outline is one closed figure: it starts with a move to the left of
/// the head, crosses over at the tail with its only line, comes back over
/// as many strokes as it went out, and ends closed.
pub proof fn lemma_ribbon_shape<T>(history: Seq<Track<T>>)
    requires
        history.len() > 0,
    ensures
        ribbon(history).len() == 3 + 2 * right_strokes(history).len(),
        ribbon(history).first() == (Path::MoveTo { pos: history.last().curve.left[0] }),
        ribbon(history)[1 + right_strokes(history).len() as int] == (Path::LineTo {
            pos: history[0].curve.right[3],
        }),
        ribbon(history).last() == Path::<T>::Close,
{
    lemma_sides_match(history);
}

/// A history within its bound stays within it, whatever is sampled.
pub proof fn lemma_sampled_bounded<T>(history: Seq<Track<T>>, head: Track<T>, track_len: nat)
    requires
        history.len() <= track_len,
    ensures
        sampled(history, head, track_len).len() <= track_len,
{
}

/// After a sample the newest entry is that sample, unless the bound is
/// zero and nothing is kept; the entries before it are the old ones in
/// their order, less the oldest where one had to leave.
pub proof fn lemma_sampled_order<T>(history: Seq<Track<T>>, head: Track<T>, track_len: nat)
    requires
        history.len() <= track_len,
    ensures
        track_len > 0 ==> sampled(history, head, track_len).last() == head,
        track_len == 0 ==> sampled(history, head, track_len).len() == 0,
        history.len() < track_len ==> sampled(history, head, track_len).drop_last() == history,
        history.len() == track_len && track_len > 0 ==> sampled(
            history,
            head,
            track_len,
        ).drop_last() == history.subrange(1, history.len() as int),
{
    let s = sampled(history, head, track_len);
    if history.len() < track_len {
        assert(s.drop_last() =~= history);
    } else if track_len > 0 {
        assert(s.drop_last() =~= history.subrange(1, history.len() as int));
    }
}

} // verus!
