//! The simulated system as a whole: which frames run, and what a frame
//! draws.

use vstd::prelude::*;
use crate::body::{is_trail_drawing, Body, BodyCfg};
use crate::canvas::{Method, Path};
use crate::helper::UserEvent;
use crate::physics::{
    lemma_slots_of_member, lemma_slots_of_prefix, slots_of, Point2, RK4Var, RK4Wrap,
};

verus! {

/// What the user has asked for.
#[derive(Clone, Copy, Debug, PartialEq, Eq, Structural)]
pub struct Flags {
    /// The simulation stands still.
    pub pause: bool,
    /// The picture is stale although the simulation stands still.
    pub redraw: bool,
}

/// What one frame does.
#[derive(Clone, Copy, Debug, PartialEq, Eq, Structural)]
pub struct Frame {
    /// Advance the simulation by the time that has passed.
    pub step: bool,
    /// Clear the surface and draw every body.
    pub render: bool,
}

impl Flags {
    /// Running, with nothing stale.
    pub fn new() -> (f: Self)
        ensures
            f == (Flags { pause: false, redraw: false }),
    {
        Flags { pause: false, redraw: false }
    }

    /// Takes note of a user event: a pause message sets or clears the
    /// pause, a resize makes the picture stale.
    pub fn note(&mut self, event: UserEvent)
        ensures
            *final(self) == match event {
                UserEvent::Pause(pause) => Flags { pause, redraw: old(self).redraw },
                UserEvent::Resize => Flags { pause: old(self).pause, redraw: true },
            },
    {
        match event {
            UserEvent::Pause(pause) => {
                self.pause = pause;
            },
            UserEvent::Resize => {
                self.redraw = true;
            },
        }
    }

    /// Decides a frame.  A running simulation steps and draws; a paused one
    /// does not step, and draws only a stale picture.  A picture that is
    /// drawn is stale no longer.
    pub fn frame(&mut self) -> (f: Frame)
        ensures
            f.step == !old(self).pause,
            f.render == (!old(self).pause || old(self).redraw),
            final(self).pause == old(self).pause,
            final(self).redraw == (old(self).redraw && !f.render),
    {
        let step = !self.pause;
        let render = !self.pause || self.redraw;
        if render {
            self.redraw = false;
        }
        Frame { step, render }
    }
}

/// The bodies, with the constants that they share.
pub struct System<T> {
    pub bodies: Vec<Body<T>>,
    /// Strength of the attraction.
    pub g: T,
    /// Softening of the attraction, per unit of the two masses' sum.
    pub softening: T,
    pub body_cfg: BodyCfg<T>,
}

/// What is drawn for one body: its trail, then, over it, its disc.
pub open spec fn is_body_drawing<T>(out: Seq<(Path<T>, Method<T>)>, body: Body<T>) -> bool {
    &&& out.len() > 0
    &&& is_trail_drawing(out.drop_last(), body.tracks@, body.color)
    &&& out.last().0 == (Path::Circle { pos: body.var.0.pos, rad: body.rad })
    &&& out.last().1 == (Method::Fill { color: body.color })
}

/// Number of paths that are drawn for one body.
pub open spec fn drawn_len<T>(body: Body<T>) -> nat {
    if body.tracks@.len() == 0 {
        1
    } else {
        3
    }
}

/// What is drawn for `bodies`: the drawing of each, in the order of the
/// bodies.
pub open spec fn is_rendering<T>(out: Seq<(Path<T>, Method<T>)>, bodies: Seq<Body<T>>) -> bool
    decreases bodies.len(),
{
    if bodies.len() == 0 {
        out.len() == 0
    } else {
        let k = drawn_len(bodies.last());
        &&& out.len() >= k
        &&& is_rendering(out.take(out.len() - k), bodies.drop_last())
        &&& is_body_drawing(out.skip(out.len() - k), bodies.last())
    }
}

impl<T: Copy> System<T> {
    /// The paths of one frame, in drawing order.
    pub fn render(&self) -> (out: Vec<(Path<T>, Method<T>)>)
        ensures
            is_rendering(out@, self.bodies@),
    {
        let mut out: Vec<(Path<T>, Method<T>)> = Vec::new();
        let mut i: usize = 0;
        while i < self.bodies.len()
            invariant
                i <= self.bodies@.len(),
                is_rendering(out@, self.bodies@.take(i as int)),
            decreases self.bodies@.len() - i,
        {
            let body: &Body<T> = &self.bodies[i];
            let ghost before = out@;
            let mut trail = body.draw_track();
            let ghost trail0 = trail@;
            out.append(&mut trail);
            out.push(body.draw());
            proof {
                let now = self.bodies@.take(i as int + 1);
                let k = drawn_len(*body);
                assert(now.last() == *body);
                assert(now.drop_last() =~= self.bodies@.take(i as int));
                assert(out@.len() == before.len() + k);
                assert(out@.take(out@.len() - k) =~= before);
                assert(out@.skip(out@.len() - k).drop_last() =~= trail0);
            }
            i += 1;
        }
        assert(self.bodies@.take(i as int) =~= self.bodies@);
        out
    }
}

/// Two bodies that differ at most in their mechanical state.
pub open spec fn same_but_state<T>(a: Body<T>, b: Body<T>) -> bool {
    &&& a.mass == b.mass
    &&& a.color == b.color
    &&& a.rad == b.rad
    &&& a.tracks == b.tracks
    &&& a.last_step == b.last_step
}

/// The mechanical states of `bodies`, in their order.
pub open spec fn states<T>(bodies: Seq<Body<T>>) -> Seq<RK4Wrap<Point2<T>>> {
    bodies.map_values(|b: Body<T>| b.var)
}

impl<T: Copy> RK4Var<T> for System<T> {
    /// The slots of the bodies' mechanical states, one body after the
    /// other.  Mass, look and trail are no part of what is integrated.
    open spec fn slots(&self) -> Seq<RK4Wrap<T>> {
        slots_of(states(self.bodies@), self.bodies@.len())
    }

    /// One stage of the integrator over all bodies.  Only the mechanical
    /// state of the bodies changes.
    fn step<F: Fn(RK4Wrap<T>, T) -> RK4Wrap<T>>(&mut self, dt: T, f: &F)
        ensures
            final(self).g == old(self).g,
            final(self).softening == old(self).softening,
            final(self).body_cfg == old(self).body_cfg,
            final(self).bodies@.len() == old(self).bodies@.len(),
            forall|j: int|
                0 <= j < old(self).bodies@.len() ==> same_but_state(
                    #[trigger] final(self).bodies@[j],
                    old(self).bodies@[j],
                ),
    {
        let n: usize = self.bodies.len();
        let mut i: usize = 0;
        while i < n
            invariant
                i <= n,
                n == self.bodies@.len(),
                n == old(self).bodies@.len(),
                self.g == old(self).g,
                self.softening == old(self).softening,
                self.body_cfg == old(self).body_cfg,
                forall|k: int|
                    0 <= k < slots_of(states(old(self).bodies@), n as nat).len() ==> f.requires(
                        (#[trigger] slots_of(states(old(self).bodies@), n as nat)[k], dt),
                    ),
                forall|j: int| i <= j < n ==> self.bodies@[j] == old(self).bodies@[j],
                forall|j: int|
                    0 <= j < n ==> same_but_state(
                        #[trigger] self.bodies@[j],
                        old(self).bodies@[j],
                    ),
                slots_of(states(self.bodies@), i as nat).len() == slots_of(
                    states(old(self).bodies@),
                    i as nat,
                ).len(),
                forall|k: int|
                    0 <= k < slots_of(states(old(self).bodies@), i as nat).len() ==> f.ensures(
                        (slots_of(states(old(self).bodies@), i as nat)[k], dt),
                        #[trigger] slots_of(states(self.bodies@), i as nat)[k],
                    ),
            decreases n - i,
        {
            let ghost before = self.bodies@;
            proof {
                let var = before[i as int].var;
                assert(var == states(old(self).bodies@)[i as int]);
                assert forall|m: int| 0 <= m < var.slots().len() implies f.requires(
                    (#[trigger] var.slots()[m], dt),
                ) by {
                    lemma_slots_of_member(states(old(self).bodies@), n as nat, i as int, m);
                }
            }
            self.bodies[i].var.step(dt, f);
            proof {
                let was_all = states(old(self).bodies@);
                let is_all = states(self.bodies@);
                lemma_slots_of_prefix(states(before), is_all, i as nat);
                let was = slots_of(was_all, i as nat);
                let is = slots_of(is_all, i as nat);
                assert forall|k: int|
                    0 <= k < slots_of(was_all, (i + 1) as nat).len() implies f.ensures(
                    (slots_of(was_all, (i + 1) as nat)[k], dt),
                    #[trigger] slots_of(is_all, (i + 1) as nat)[k],
                ) by {
                    if k < was.len() {
                        assert(slots_of(is_all, (i + 1) as nat)[k] == is[k]);
                    } else {
                        assert(slots_of(is_all, (i + 1) as nat)[k] == is_all[i as int].slots()[k
                            - was.len()]);
                    }
                }
            }
            i += 1;
        }
    }
}

} // verus!
