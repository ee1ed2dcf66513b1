//! The vocabulary of the drawing sink: paths, and how they are painted.

use vstd::prelude::*;
use crate::vector::{Color, Vec2};

verus! {

/// How a path is painted.
#[derive(Clone, Copy, Debug, PartialEq)]
pub enum Method<T> {
    Fill { color: Color<T> },
    Stroke { color: Color<T>, width: T },
}

/// A path: one primitive of the sink, or a list of paths drawn in order.
#[derive(Debug, PartialEq)]
#[allow(inconsistent_fields)]
pub enum Path<T> {
    Arc { pos: Vec2<T>, rad: T, angle: Vec2<T> },
    Circle { pos: Vec2<T>, rad: T },
    MoveTo { pos: Vec2<T> },
    LineTo { pos: Vec2<T> },
    BezierTo { cp1: Vec2<T>, cp2: Vec2<T>, pos: Vec2<T> },
    QuadraticTo { cp1: Vec2<T>, pos: Vec2<T> },
    Ellipse { pos: Vec2<T>, rad: Vec2<T>, rot: T, angle: Vec2<T> },
    Rect { pos: Vec2<T>, size: Vec2<T> },
    Close,
    List { paths: Vec<Path<T>> },
}

impl<T> Path<T> {
    /// The primitives that drawing this path sends to the sink, in order: a
    /// primitive is itself, a list is its members' primitives one after the
    /// other.
    pub open spec fn strokes(self) -> Seq<Path<T>>
        decreases self, 0nat,
    {
        match self {
            Path::List { paths } => Self::strokes_of(paths, paths@.len()),
            _ => seq![self],
        }
    }

    /// The primitives of the first `n` members of a list.
    pub open spec fn strokes_of(paths: Vec<Path<T>>, n: nat) -> Seq<Path<T>>
        decreases paths, n,
    {
        if n == 0 || n > paths@.len() {
            Seq::empty()
        } else {
            Self::strokes_of(paths, (n - 1) as nat) + paths@[n - 1].strokes()
        }
    }
}

impl<T: Copy> Path<T> {
    /// Appends the primitives of this path to `out`, in drawing order.
    pub fn draw_into(&self, out: &mut Vec<Path<T>>)
        ensures
            final(out)@ == old(out)@ + self.strokes(),
        decreases self,
    {
        match self {
            Path::Arc { pos, rad, angle } => {
                out.push(Path::Arc { pos: *pos, rad: *rad, angle: *angle });
            },
            Path::Circle { pos, rad } => {
                out.push(Path::Circle { pos: *pos, rad: *rad });
            },
            Path::MoveTo { pos } => {
                out.push(Path::MoveTo { pos: *pos });
            },
            Path::LineTo { pos } => {
                out.push(Path::LineTo { pos: *pos });
            },
            Path::BezierTo { cp1, cp2, pos } => {
                out.push(Path::BezierTo { cp1: *cp1, cp2: *cp2, pos: *pos });
            },
            Path::QuadraticTo { cp1, pos } => {
                out.push(Path::QuadraticTo { cp1: *cp1, pos: *pos });
            },
            Path::Ellipse { pos, rad, rot, angle } => {
                out.push(Path::Ellipse { pos: *pos, rad: *rad, rot: *rot, angle: *angle });
            },
            Path::Rect { pos, size } => {
                out.push(Path::Rect { pos: *pos, size: *size });
            },
            Path::Close => {
                out.push(Path::Close);
            },
            Path::List { paths } => {
                let mut i: usize = 0;
                while i < paths.len()
                    invariant
                        i <= paths@.len(),
                        *self == (Path::List { paths: *paths }),
                        decreases_to!(*self => *paths),
                        out@ == old(out)@ + Self::strokes_of(*paths, i as nat),
                    decreases paths@.len() - i,
                {
                    proof {
                        assert(decreases_to!(*paths => paths[i as int]));
                    }
                    paths[i].draw_into(out);
                    assert(out@ == old(out)@ + Self::strokes_of(*paths, (i + 1) as nat)) by {
                        assert(out@ =~= old(out)@ + (Self::strokes_of(*paths, i as nat)
                            + paths@[i as int].strokes()));
                    }
                    i += 1;
                }
            },
        }
        proof {
            assert(final(out)@ =~= old(out)@ + self.strokes());
        }
    }

    /// The primitives that the sink receives for this path, in order.  None
    /// of them is a list.
    pub fn flatten(&self) -> (out: Vec<Path<T>>)
        ensures
            out@ == self.strokes(),
    {
        let mut out: Vec<Path<T>> = Vec::new();
        self.draw_into(&mut out);
        assert(out@ =~= self.strokes());
        out
    }
}

/// Drawing never hands a list to the sink: every primitive of a path is one
/// of the nine plain shapes.
pub proof fn lemma_strokes_are_plain<T>(p: Path<T>, k: int)
    requires
        0 <= k < p.strokes().len(),
    ensures
        !(p.strokes()[k] is List),
    decreases p, 0nat,
{
    match p {
        Path::List { paths } => {
            lemma_strokes_of_are_plain(paths, paths@.len(), k);
        },
        _ => {},
    }
}

/// As [`lemma_strokes_are_plain`], for the first `n` members of a list.
pub proof fn lemma_strokes_of_are_plain<T>(paths: Vec<Path<T>>, n: nat, k: int)
    requires
        0 <= k < Path::strokes_of(paths, n).len(),
    ensures
        !(Path::strokes_of(paths, n)[k] is List),
    decreases paths, n,
{
    if n == 0 || n > paths@.len() {
    } else {
        let head = Path::strokes_of(paths, (n - 1) as nat);
        if k < head.len() {
            lemma_strokes_of_are_plain(paths, (n - 1) as nat, k);
        } else {
            lemma_strokes_are_plain(paths@[n - 1], k - head.len());
        }
    }
}

} // verus!
