//! Differentiable state: the scalar slots of a value, and the buffers that an
//! integrator keeps beside it.

use vstd::prelude::*;
use crate::vector::Vec2;

verus! {

/// Mechanical state of one body.
#[derive(Clone, Copy, Debug, PartialEq)]
pub struct Point2<T> {
    pub pos: Vec2<T>,
    pub vel: Vec2<T>,
}

/// A value with its derivative.
pub type EulerWrap<T> = (T, T);

/// A value with the three scratch buffers of the four-stage method: the
/// stage value, the slope, the weighted slope sum and the value at the start
/// of the step.
pub type RK4Wrap<T> = (T, T, T, T);

/// Pairs a value with a derivative buffer of the same shape.
pub fn euler_wrap<T: Clone>(t: T) -> (w: EulerWrap<T>)
    ensures
        cloned(t, w.0),
        w.1 == t,
{
    (t.clone(), t)
}

/// As [`euler_wrap`], from a borrowed value.
pub fn euler_wrap_ref<T: Clone>(t: &T) -> (w: EulerWrap<T>)
    ensures
        cloned(*t, w.0),
        cloned(*t, w.1),
{
    (t.clone(), t.clone())
}

/// Puts a value beside three scratch buffers of the same shape.
pub fn rk4_wrap<T: Clone>(t: T) -> (w: RK4Wrap<T>)
    ensures
        cloned(t, w.0),
        cloned(t, w.1),
        cloned(t, w.2),
        w.3 == t,
{
    (t.clone(), t.clone(), t.clone(), t)
}

/// As [`rk4_wrap`], from a borrowed value.
pub fn rk4_wrap_ref<T: Clone>(t: &T) -> (w: RK4Wrap<T>)
    ensures
        cloned(*t, w.0),
        cloned(*t, w.1),
        cloned(*t, w.2),
        cloned(*t, w.3),
{
    (t.clone(), t.clone(), t.clone(), t.clone())
}

/// State that a four-stage integrator can advance: four buffers of one
/// shape, whose scalars are visited together, slot by slot.
pub trait RK4Var<T: Copy>: Sized {
    /// The scalars of the four buffers, zipped, in the order of the visit.
    spec fn slots(&self) -> Seq<RK4Wrap<T>>;

    /// Replaces every slot by what `f` makes of it and of `dt`.  The shape
    /// stays, and the slots are visited in order, each once.
    fn step<F: Fn(RK4Wrap<T>, T) -> RK4Wrap<T>>(&mut self, dt: T, f: &F)
        requires
            forall|i: int|
                0 <= i < old(self).slots().len() ==> f.requires(
                    (#[trigger] old(self).slots()[i], dt),
                ),
        ensures
            final(self).slots().len() == old(self).slots().len(),
            forall|i: int|
                0 <= i < old(self).slots().len() ==> f.ensures(
                    (old(self).slots()[i], dt),
                    #[trigger] final(self).slots()[i],
                ),
    ;
}

impl<T: Copy> RK4Var<T> for RK4Wrap<Vec2<T>> {
    /// The first components, then the second.
    open spec fn slots(&self) -> Seq<RK4Wrap<T>> {
        seq![
            (self.0.x, self.1.x, self.2.x, self.3.x),
            (self.0.y, self.1.y, self.2.y, self.3.y),
        ]
    }

    fn step<F: Fn(RK4Wrap<T>, T) -> RK4Wrap<T>>(&mut self, dt: T, f: &F) {
        let x: RK4Wrap<T> = f((self.0.x, self.1.x, self.2.x, self.3.x), dt);
        let y: RK4Wrap<T> = f((self.0.y, self.1.y, self.2.y, self.3.y), dt);
        *self = (
            Vec2 { x: x.0, y: y.0 },
            Vec2 { x: x.1, y: y.1 },
            Vec2 { x: x.2, y: y.2 },
            Vec2 { x: x.3, y: y.3 },
        );
    }
}

impl<T: Copy> RK4Var<T> for RK4Wrap<Point2<T>> {
    /// The slots of the positions, then those of the velocities.
    open spec fn slots(&self) -> Seq<RK4Wrap<T>> {
        (self.0.pos, self.1.pos, self.2.pos, self.3.pos).slots() + (
            self.0.vel,
            self.1.vel,
            self.2.vel,
            self.3.vel,
        ).slots()
    }

    fn step<F: Fn(RK4Wrap<T>, T) -> RK4Wrap<T>>(&mut self, dt: T, f: &F) {
        let mut pos: RK4Wrap<Vec2<T>> = (self.0.pos, self.1.pos, self.2.pos, self.3.pos);
        let mut vel: RK4Wrap<Vec2<T>> = (self.0.vel, self.1.vel, self.2.vel, self.3.vel);
        let ghost pos0 = pos;
        let ghost vel0 = vel;
        proof {
            assert forall|i: int| 0 <= i < pos0.slots().len() implies f.requires(
                (#[trigger] pos0.slots()[i], dt),
            ) by {
                assert(pos0.slots()[i] == old(self).slots()[i]);
            }
            assert forall|i: int| 0 <= i < vel0.slots().len() implies f.requires(
                (#[trigger] vel0.slots()[i], dt),
            ) by {
                assert(vel0.slots()[i] == old(self).slots()[i + 2]);
            }
        }
        pos.step(dt, f);
        vel.step(dt, f);
        *self = (
            Point2 { pos: pos.0, vel: vel.0 },
            Point2 { pos: pos.1, vel: vel.1 },
            Point2 { pos: pos.2, vel: vel.2 },
            Point2 { pos: pos.3, vel: vel.3 },
        );
        proof {
            assert(self.slots() =~= pos.slots() + vel.slots());
            assert forall|i: int| 0 <= i < old(self).slots().len() implies f.ensures(
                (old(self).slots()[i], dt),
                #[trigger] self.slots()[i],
            ) by {
                if i < 2 {
                    assert(old(self).slots()[i] == pos0.slots()[i]);
                    assert(self.slots()[i] == pos.slots()[i]);
                } else {
                    assert(old(self).slots()[i] == vel0.slots()[i - 2]);
                    assert(self.slots()[i] == vel.slots()[i - 2]);
                }
            }
        }
    }
}

/// The slots of the first `n` members of a sequence of states.
pub open spec fn slots_of<T: Copy, W: RK4Var<T>>(states: Seq<W>, n: nat) -> Seq<RK4Wrap<T>>
    decreases n,
{
    if n == 0 || n > states.len() {
        Seq::empty()
    } else {
        slots_of(states, (n - 1) as nat) + states[n - 1].slots()
    }
}

impl<T: Copy, W: RK4Var<T>> RK4Var<T> for Vec<W> {
    /// The slots of the members, one member after the other.
    open spec fn slots(&self) -> Seq<RK4Wrap<T>> {
        slots_of(self@, self@.len())
    }

    fn step<F: Fn(RK4Wrap<T>, T) -> RK4Wrap<T>>(&mut self, dt: T, f: &F) {
        let n: usize = self.len();
        let mut i: usize = 0;
        while i < n
            invariant
                i <= n,
                n == self@.len(),
                n == old(self)@.len(),
                forall|k: int|
                    0 <= k < slots_of(old(self)@, n as nat).len() ==> f.requires(
                        (#[trigger] slots_of(old(self)@, n as nat)[k], dt),
                    ),
                forall|j: int| i <= j < n ==> self@[j] == old(self)@[j],
                slots_of(self@, i as nat).len() == slots_of(old(self)@, i as nat).len(),
                forall|k: int|
                    0 <= k < slots_of(old(self)@, i as nat).len() ==> f.ensures(
                        (slots_of(old(self)@, i as nat)[k], dt),
                        #[trigger] slots_of(self@, i as nat)[k],
                    ),
            decreases n - i,
        {
            let ghost before = self@;
            proof {
                assert forall|m: int| 0 <= m < before[i as int].slots().len() implies f.requires(
                    (#[trigger] before[i as int].slots()[m], dt),
                ) by {
                    lemma_slots_of_member(old(self)@, n as nat, i as int, m);
                }
            }
            self[i].step(dt, f);
            proof {
                lemma_slots_of_prefix(before, self@, i as nat);
                let was = slots_of(old(self)@, i as nat);
                let is = slots_of(self@, i as nat);
                assert forall|k: int|
                    0 <= k < slots_of(old(self)@, (i + 1) as nat).len() implies f.ensures(
                    (slots_of(old(self)@, (i + 1) as nat)[k], dt),
                    #[trigger] slots_of(self@, (i + 1) as nat)[k],
                ) by {
                    if k < was.len() {
                        assert(slots_of(self@, (i + 1) as nat)[k] == is[k]);
                    } else {
                        assert(slots_of(self@, (i + 1) as nat)[k] == self@[i as int].slots()[k
                            - was.len()]);
                    }
                }
            }
            i += 1;
        }
    }
}

/// The slots of a member sit together, after the slots of the members
/// before it.
pub proof fn lemma_slots_of_member<T: Copy, W: RK4Var<T>>(states: Seq<W>, n: nat, j: int, m: int)
    requires
        0 <= j < n <= states.len(),
        0 <= m < states[j].slots().len(),
    ensures
        slots_of(states, j as nat).len() + m < slots_of(states, n).len(),
        slots_of(states, n)[slots_of(states, j as nat).len() + m] == states[j].slots()[m],
    decreases n,
{
    if j < n - 1 {
        lemma_slots_of_member(states, (n - 1) as nat, j, m);
    }
}

/// The slots of the first `n` members depend on those members alone.
pub proof fn lemma_slots_of_prefix<T: Copy, W: RK4Var<T>>(a: Seq<W>, b: Seq<W>, n: nat)
    requires
        n <= a.len(),
        n <= b.len(),
        forall|j: int| 0 <= j < n ==> a[j] == b[j],
    ensures
        slots_of(a, n) == slots_of(b, n),
    decreases n,
{
    if n > 0 {
        lemma_slots_of_prefix(a, b, (n - 1) as nat);
    }
}

/// State that a one-stage integrator can advance: a value and its
/// derivative, of one shape, whose scalars are visited together.
pub trait EulerVar<T: Copy>: Sized {
    /// The scalars of value and derivative, zipped, in the order of the visit.
    spec fn pairs(&self) -> Seq<EulerWrap<T>>;

    /// Replaces every pair by what `f` makes of it and of `dt`.  The shape
    /// stays, and the pairs are visited in order, each once.
    fn step<F: Fn(EulerWrap<T>, T) -> EulerWrap<T>>(&mut self, dt: T, f: &F)
        requires
            forall|i: int|
                0 <= i < old(self).pairs().len() ==> f.requires(
                    (#[trigger] old(self).pairs()[i], dt),
                ),
        ensures
            final(self).pairs().len() == old(self).pairs().len(),
            forall|i: int|
                0 <= i < old(self).pairs().len() ==> f.ensures(
                    (old(self).pairs()[i], dt),
                    #[trigger] final(self).pairs()[i],
                ),
    ;
}

impl<T: Copy> EulerVar<T> for EulerWrap<Vec2<T>> {
    /// The first components, then the second.
    open spec fn pairs(&self) -> Seq<EulerWrap<T>> {
        seq![(self.0.x, self.1.x), (self.0.y, self.1.y)]
    }

    fn step<F: Fn(EulerWrap<T>, T) -> EulerWrap<T>>(&mut self, dt: T, f: &F) {
        let x: EulerWrap<T> = f((self.0.x, self.1.x), dt);
        let y: EulerWrap<T> = f((self.0.y, self.1.y), dt);
        *self = (Vec2 { x: x.0, y: y.0 }, Vec2 { x: x.1, y: y.1 });
    }
}

impl<T: Copy> EulerVar<T> for EulerWrap<Point2<T>> {
    /// The pairs of the positions, then those of the velocities.
    open spec fn pairs(&self) -> Seq<EulerWrap<T>> {
        (self.0.pos, self.1.pos).pairs() + (self.0.vel, self.1.vel).pairs()
    }

    fn step<F: Fn(EulerWrap<T>, T) -> EulerWrap<T>>(&mut self, dt: T, f: &F) {
        let mut pos: EulerWrap<Vec2<T>> = (self.0.pos, self.1.pos);
        let mut vel: EulerWrap<Vec2<T>> = (self.0.vel, self.1.vel);
        let ghost pos0 = pos;
        let ghost vel0 = vel;
        proof {
            assert forall|i: int| 0 <= i < pos0.pairs().len() implies f.requires(
                (#[trigger] pos0.pairs()[i], dt),
            ) by {
                assert(pos0.pairs()[i] == old(self).pairs()[i]);
            }
            assert forall|i: int| 0 <= i < vel0.pairs().len() implies f.requires(
                (#[trigger] vel0.pairs()[i], dt),
            ) by {
                assert(vel0.pairs()[i] == old(self).pairs()[i + 2]);
            }
        }
        pos.step(dt, f);
        vel.step(dt, f);
        *self = (Point2 { pos: pos.0, vel: vel.0 }, Point2 { pos: pos.1, vel: vel.1 });
        proof {
            assert(self.pairs() =~= pos.pairs() + vel.pairs());
            assert forall|i: int| 0 <= i < old(self).pairs().len() implies f.ensures(
                (old(self).pairs()[i], dt),
                #[trigger] self.pairs()[i],
            ) by {
                if i < 2 {
                    assert(old(self).pairs()[i] == pos0.pairs()[i]);
                    assert(self.pairs()[i] == pos.pairs()[i]);
                } else {
                    assert(old(self).pairs()[i] == vel0.pairs()[i - 2]);
                    assert(self.pairs()[i] == vel.pairs()[i - 2]);
                }
            }
        }
    }
}

/// The flattened order is a property of the shape alone: two states of one
/// body have their scalars at the same places, position before velocity and
/// first component before second, so that buffers can be combined slot by
/// slot.
pub proof fn lemma_point_slots_layout<T: Copy>(w: RK4Wrap<Point2<T>>)
    ensures
        w.slots().len() == 4,
        w.slots()[0] == (w.0.pos.x, w.1.pos.x, w.2.pos.x, w.3.pos.x),
        w.slots()[1] == (w.0.pos.y, w.1.pos.y, w.2.pos.y, w.3.pos.y),
        w.slots()[2] == (w.0.vel.x, w.1.vel.x, w.2.vel.x, w.3.vel.x),
        w.slots()[3] == (w.0.vel.y, w.1.vel.y, w.2.vel.y, w.3.vel.y),
{
}

/// A state is its slots and nothing more: two states with the same slots
/// are the same state.  So what `step` promises of the slots fixes the state
/// that it leaves.
pub proof fn lemma_point_slots_determine<T: Copy>(a: RK4Wrap<Point2<T>>, b: RK4Wrap<Point2<T>>)
    requires
        a.slots() == b.slots(),
    ensures
        a == b,
{
    lemma_point_slots_layout(a);
    lemma_point_slots_layout(b);
}

/// As [`lemma_point_slots_determine`], for value and derivative.
pub proof fn lemma_point_pairs_determine<T: Copy>(a: EulerWrap<Point2<T>>, b: EulerWrap<Point2<T>>)
    requires
        a.pairs() == b.pairs(),
    ensures
        a == b,
{
    assert(a.pairs()[0] == b.pairs()[0]);
    assert(a.pairs()[1] == b.pairs()[1]);
    assert(a.pairs()[2] == b.pairs()[2]);
    assert(a.pairs()[3] == b.pairs()[3]);
}

} // verus!
