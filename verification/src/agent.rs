//! The agent: a token that walks in a maze of gadgets.
//!
//! An [`Agent`] stores its position doubled (so edge midpoints are exact
//! integers) and a cardinal facing direction. Each step it locates the gadget
//! whose footprint edge it touches, asks it for its legal transitions
//! bucketed back/right/front/left relative to the facing, selects one by a
//! fixed deterministic policy, moves to the destination port, and mutates the
//! gadget's state through the grid.

use vstd::prelude::*;
use crate::gadget::{
    facing_offset, lemma_bucket_in_bounds, lemma_targets_in_bounds, spec_brfl_bucket,
    spec_port_position, spec_targets, Gadget, Port, State, SP,
};
use crate::grid::{
    covers, disjoint, edge_cell, entry_wf, lemma_kept_all, on_edge, perimeter_index, Grid, WH, XY,
};
use crate::math::{Vec2i, Vector2Ex};

verus! {

/// The destination the fixed policy picks from the four direction buckets,
/// given the requested input direction and the current facing:
/// - forward (`input == facing`): prefer "front"; else whichever of "left"
///   and "right" alone is non-empty (when both are, deliberately pick
///   neither); else "back";
/// - left turn: "left" only;
/// - right turn: "right" only;
/// - turning around never reaches a gadget at all.
pub open spec fn spec_chosen(
    back: Seq<SP>,
    right: Seq<SP>,
    front: Seq<SP>,
    left: Seq<SP>,
    input: XY,
    facing: XY,
) -> Option<SP> {
    if input.spec_dot(facing) == 1 {
        if front.len() > 0 {
            Some(front[0])
        } else if left.len() > 0 && right.len() == 0 {
            Some(left[0])
        } else if right.len() > 0 && left.len() == 0 {
            Some(right[0])
        } else if back.len() > 0 {
            Some(back[0])
        } else {
            None
        }
    } else if facing.spec_right_ccw() == input {
        if left.len() > 0 {
            Some(left[0])
        } else {
            None
        }
    } else if input.spec_dot(facing) == -1 {
        None
    } else {
        if right.len() > 0 {
            Some(right[0])
        } else {
            None
        }
    }
}

/// The facing an agent standing at doubled position `pos2` (relative to a
/// gadget's bottom-left corner) must have: derived purely from which
/// perimeter edge the position lies on — a horizontal edge (odd doubled x)
/// faces south on the bottom and north on the top; a vertical edge faces
/// west on the left and east on the right.
pub open spec fn spec_direction_from_position(pos2: (int, int)) -> XY {
    if pos2.0 % 2 != 0 {
        if pos2.1 == 0 {
            Vec2i { x: 0 as isize, y: (-1) as isize }
        } else {
            Vec2i { x: 0 as isize, y: 1 as isize }
        }
    } else {
        if pos2.0 == 0 {
            Vec2i { x: (-1) as isize, y: 0 as isize }
        } else {
            Vec2i { x: 1 as isize, y: 0 as isize }
        }
    }
}

/// Doubling keeps a number even, and one more than doubled is odd.
proof fn lemma_double_parity(a: int, b: int)
    ensures
        (2 * a + b) % 2 == b % 2,
{
    vstd::arithmetic::div_mod::lemma_mod_multiples_vanish(a, b, 2);
}

/// Nothing observable happened: no result, the grid as it was, the agent as
/// it was.
pub open spec fn spec_untouched(
    agent0: Agent,
    agent1: Agent,
    grid0: Seq<(Gadget, XY, WH)>,
    grid1: Seq<(Gadget, XY, WH)>,
    r: Option<(XY, State)>,
) -> bool {
    &&& r is None
    &&& grid1 == grid0
    &&& agent1 == agent0
}

/// Walks around in a maze of gadgets.
pub struct Agent {
    /// Double the position, because then it's integers.
    double_xy: XY,
    /// One of the four cardinal unit vectors.
    direction: XY,
}

impl Agent {
    /// The doubled position, as a spec value.
    pub closed spec fn spec_double_xy(&self) -> XY {
        self.double_xy
    }

    /// The facing direction, as a spec value.
    pub closed spec fn spec_direction(&self) -> XY {
        self.direction
    }

    /// Well-formedness: the agent stands on an edge midpoint, faces a
    /// cardinal direction, and faces across the edge it stands on (a
    /// horizontal edge is faced vertically and a vertical edge horizontally).
    pub open spec fn wf(&self) -> bool {
        &&& on_edge(self.spec_double_xy())
        &&& self.spec_direction().is_cardinal()
        &&& (self.spec_double_xy().x % 2 != 0) <==> (self.spec_direction().x == 0)
    }

    /// Creates an agent at a doubled position, facing a direction; the
    /// arguments must satisfy [`Agent::wf`].
    pub fn new(double_xy: XY, direction: XY) -> (a: Self)
        requires
            on_edge(double_xy),
            direction.is_cardinal(),
            (double_xy.x % 2 != 0) <==> (direction.x == 0),
        ensures
            a.wf(),
            a.spec_double_xy() == double_xy,
            a.spec_direction() == direction,
    {
        Agent { double_xy, direction }
    }

    /// The agent's position, doubled so that edge midpoints are integers.
    pub fn position(&self) -> (r: XY)
        ensures
            r == self.spec_double_xy(),
    {
        self.double_xy
    }

    pub fn direction(&self) -> (r: XY)
        ensures
            r == self.spec_direction(),
    {
        self.direction
    }

    /// Moves the agent to a doubled position on an edge midpoint, turning the
    /// direction a quarter turn where the new edge's orientation demands it,
    /// so the agent stays well-formed.
    pub fn set_position(&mut self, double_xy: XY)
        requires
            old(self).wf(),
            on_edge(double_xy),
        ensures
            final(self).wf(),
            final(self).spec_double_xy() == double_xy,
            final(self).spec_direction() == {
                let was_x_odd = old(self).spec_double_xy().x % 2 != 0;
                let now_x_odd = double_xy.x % 2 != 0;
                if was_x_odd && !now_x_odd {
                    old(self).spec_direction().spec_right_ccw()
                } else if !was_x_odd && now_x_odd {
                    old(self).spec_direction().spec_right_cw()
                } else {
                    old(self).spec_direction()
                }
            },
    {
        proof {
            crate::math::lemma_cardinal_preserved(old(self).spec_direction());
            crate::math::lemma_cardinal_cases(old(self).spec_direction());
        }
        let old_x_misaligned = self.double_xy.x.checked_rem_euclid(2).unwrap() != 0;
        self.double_xy = double_xy;
        let new_x_misaligned = self.double_xy.x.checked_rem_euclid(2).unwrap() != 0;

        if old_x_misaligned && !new_x_misaligned {
            self.direction = self.direction.right_ccw();
        } else if !old_x_misaligned && new_x_misaligned {
            self.direction = self.direction.right_cw();
        }
    }

    /// Flips the agent so it faces the opposite direction.
    pub fn flip(&mut self)
        requires
            old(self).wf(),
        ensures
            final(self).wf(),
            final(self).spec_double_xy() == old(self).spec_double_xy(),
            final(self).spec_direction() == old(self).spec_direction().spec_neg(),
    {
        proof {
            crate::math::lemma_cardinal_preserved(old(self).spec_direction());
        }
        self.direction = Vec2i { x: -self.direction.x, y: -self.direction.y };
    }
    /// Advances the agent according to internal rules.
    ///
    /// Turning around (input exactly opposite the facing) only flips the
    /// facing: no movement, no gadget query. Otherwise the agent queries the
    /// gadget whose footprint edge it touches; if the touched perimeter index
    /// maps to a port and the policy ([`spec_chosen`]) picks a destination,
    /// the agent moves to that destination port, faces away from the new
    /// edge, and sets the gadget's state — and returns the gadget's position
    /// and previous state, for the undo and save layers. In every other case
    /// nothing changes.
    ///
    /// The mutated gadget's grid entry moves to the end of the entry list;
    /// everything else about the grid is unchanged.
    #[verifier::rlimit(100)]
    #[verifier::spinoff_prover]
    pub fn advance(&mut self, grid: &mut Grid<Gadget>, input: XY) -> (r: Option<(XY, State)>)
        requires
            old(self).wf(),
            input.is_cardinal(),
            old(grid).wf(),
            forall|i: int| 0 <= i < old(grid)@.len() ==> (#[trigger] old(grid)@[i]).0.wf(),
        ensures
            final(self).wf(),
            final(grid).wf(),
            forall|i: int| 0 <= i < final(grid)@.len() ==> (#[trigger] final(grid)@[i]).0.wf(),
            ({
                let facing = old(self).spec_direction();
                let dxy = old(self).spec_double_xy();
                let cell = edge_cell(dxy, facing);
                let ux = dxy.x as int / 2;
                let uy = dxy.y as int / 2;
                let x_odd = dxy.x % 2 != 0;
                &&& (input.spec_dot(facing) == -1 ==> {
                    &&& r is None
                    &&& final(grid)@ == old(grid)@
                    &&& final(self).spec_double_xy() == dxy
                    &&& final(self).spec_direction() == facing.spec_neg()
                })
                &&& (input.spec_dot(facing) != -1 && !old(grid).occupied(cell.0, cell.1)
                    ==> spec_untouched(*old(self), *final(self), old(grid)@, final(grid)@, r))
                &&& (input.spec_dot(facing) != -1 ==> forall|i: int|
                    0 <= i < old(grid)@.len() && covers(
                        (#[trigger] old(grid)@[i]).1,
                        old(grid)@[i].2,
                        cell.0,
                        cell.1,
                    ) ==> {
                        let e = old(grid)@[i];
                        let g = e.0;
                        let pm = g.spec_port_map();
                        let pidx = perimeter_index(e.1, e.2, ux, uy, x_odd);
                        &&& ((forall|p: int| 0 <= p < pm.len() ==> (#[trigger] pm[p]) != pidx)
                            ==> spec_untouched(
                            *old(self),
                            *final(self),
                            old(grid)@,
                            final(grid)@,
                            r,
                        ))
                        &&& (forall|p: int|
                            0 <= p < pm.len() && (#[trigger] pm[p]) == pidx ==> {
                                let w = g.spec_size().0 as int;
                                let h = g.spec_size().1 as int;
                                let off = facing_offset(facing);
                                let targets = spec_targets(
                                    g.spec_def().spec_traversals(),
                                    (g.spec_state(), Port(p as usize)),
                                );
                                match spec_chosen(
                                    spec_brfl_bucket(targets, pm, w, h, off, 0),
                                    spec_brfl_bucket(targets, pm, w, h, off, 1),
                                    spec_brfl_bucket(targets, pm, w, h, off, 2),
                                    spec_brfl_bucket(targets, pm, w, h, off, 3),
                                    input,
                                    facing,
                                ) {
                                    Option::None => spec_untouched(
                                        *old(self),
                                        *final(self),
                                        old(grid)@,
                                        final(grid)@,
                                        r,
                                    ),
                                    Option::Some(sp) => {
                                        let pos2 = spec_port_position(
                                            pm[(sp.1).0 as int] as int,
                                            w,
                                            h,
                                        );
                                        &&& r == Some((e.1, g.spec_state()))
                                        &&& final(self).spec_direction()
                                            == spec_direction_from_position(pos2)
                                        &&& final(self).spec_double_xy().x as int == 2 * e.1.x
                                            + pos2.0
                                        &&& final(self).spec_double_xy().y as int == 2 * e.1.y
                                            + pos2.1
                                        &&& final(grid)@ == old(grid)@.remove(i).push(
                                            final(grid)@.last(),
                                        )
                                        &&& ({
                                            let ng = final(grid)@.last();
                                            &&& ng.1 == e.1
                                            &&& ng.2 == e.2
                                            &&& ng.0.spec_def() == g.spec_def()
                                            &&& ng.0.spec_size() == g.spec_size()
                                            &&& ng.0.spec_port_map() == pm
                                            &&& ng.0.spec_state() == sp.0
                                            &&& ng.0.spec_name() == g.spec_name()
                                        })
                                    },
                                }
                            })
                    })
            }),
    {
        let d = self.direction;
        if input.dot_ex(d) == -1 {
            // Turn around, that's it
            proof {
                crate::math::lemma_cardinal_preserved(d);
            }
            self.direction = Vec2i { x: -d.x, y: -d.y };
            return None;
        }

        proof {
            crate::math::lemma_cardinal_cases(d);
        }
        let q = grid.get_item_touching_edge(self.double_xy, d);
        match q {
            Option::None => None,
            Option::Some((i, exy, ewh, pidx)) => {
                proof {
                    assert(entry_wf(old(grid)@[i as int]));
                    assert(old(grid)@[i as int].0.wf());
                }
                let gadget_ref = &grid.iter()[i].0;
                let port = gadget_ref.port(pidx);
                match port {
                    Option::None => None,
                    Option::Some(port) => {
                        let (back, right, front, left) = gadget_ref.targets_from_state_port_brfl(
                            port,
                            d,
                        );
                        let sp: Option<SP> = if input.dot_ex(d) == 1 {
                            // Forward
                            if front.len() > 0 {
                                Some(front[0])
                            } else if left.len() > 0 && right.len() == 0 {
                                Some(left[0])
                            } else if right.len() > 0 && left.len() == 0 {
                                Some(right[0])
                            } else if back.len() > 0 {
                                Some(back[0])
                            } else {
                                None
                            }
                        } else if d.right_ccw() == input {
                            // Left
                            if left.len() > 0 {
                                Some(left[0])
                            } else {
                                None
                            }
                        } else {
                            // Right (turning around was handled above)
                            if right.len() > 0 {
                                Some(right[0])
                            } else {
                                None
                            }
                        };
                        match sp {
                            Option::None => None,
                            Option::Some((s1, p1)) => {
                                proof {
                                    let g = old(grid)@[i as int].0;
                                    let targets = spec_targets(
                                        g.spec_def().spec_traversals(),
                                        (g.spec_state(), port),
                                    );
                                    let pm = g.spec_port_map();
                                    let w = g.spec_size().0 as int;
                                    let h = g.spec_size().1 as int;
                                    let off = facing_offset(d);
                                    let ns = g.spec_def().spec_num_states() as int;
                                    let np = g.spec_def().spec_num_ports() as int;
                                    lemma_targets_in_bounds(
                                        g.spec_def().spec_traversals(),
                                        (g.spec_state(), port),
                                        ns,
                                        np,
                                    );
                                    lemma_bucket_in_bounds(targets, pm, w, h, off, 0, ns, np);
                                    lemma_bucket_in_bounds(targets, pm, w, h, off, 1, ns, np);
                                    lemma_bucket_in_bounds(targets, pm, w, h, off, 2, ns, np);
                                    lemma_bucket_in_bounds(targets, pm, w, h, off, 3, ns, np);
                                }
                                let (gxy, prev_state) = self.advance_move(grid, i, s1, p1);
                                Some((gxy, prev_state))
                            },
                        }
                    },
                }
            },
        }
    }
    /// The mutating tail of a step: moves the agent to destination port `p1`
    /// of the gadget at entry `i`, faces it away from the new edge, and sets
    /// that gadget's state to `s1`, reinserting its entry at the end of the
    /// grid's entry list. Returns the gadget's origin and previous state.
    #[verifier::rlimit(100)]
    #[verifier::spinoff_prover]
    fn advance_move(&mut self, grid: &mut Grid<Gadget>, i: usize, s1: State, p1: Port) -> (r: (
        XY,
        State,
    ))
        requires
            old(self).wf(),
            old(grid).wf(),
            forall|k: int| 0 <= k < old(grid)@.len() ==> (#[trigger] old(grid)@[k]).0.wf(),
            i < old(grid)@.len(),
            s1.0 < old(grid)@[i as int].0.spec_def().spec_num_states(),
            p1.0 < old(grid)@[i as int].0.spec_port_map().len(),
        ensures
            final(self).wf(),
            final(grid).wf(),
            forall|k: int| 0 <= k < final(grid)@.len() ==> (#[trigger] final(grid)@[k]).0.wf(),
            ({
                let e = old(grid)@[i as int];
                let g = e.0;
                let pm = g.spec_port_map();
                let pos2 = spec_port_position(
                    pm[p1.0 as int] as int,
                    g.spec_size().0 as int,
                    g.spec_size().1 as int,
                );
                &&& r == (e.1, g.spec_state())
                &&& final(self).spec_direction() == spec_direction_from_position(pos2)
                &&& final(self).spec_double_xy().x as int == 2 * e.1.x + pos2.0
                &&& final(self).spec_double_xy().y as int == 2 * e.1.y + pos2.1
                &&& final(grid)@ == old(grid)@.remove(i as int).push(final(grid)@.last())
                &&& ({
                    let ng = final(grid)@.last();
                    &&& ng.1 == e.1
                    &&& ng.2 == e.2
                    &&& ng.0.spec_def() == g.spec_def()
                    &&& ng.0.spec_size() == g.spec_size()
                    &&& ng.0.spec_port_map() == pm
                    &&& ng.0.spec_state() == s1
                    &&& ng.0.spec_name() == g.spec_name()
                })
            }),
    {
        proof {
            assert(entry_wf(old(grid)@[i as int]));
        }
        let (mut gadget, gxy, gwh) = grid.remove_at(i);
        let positions = gadget.port_positions();
        let pos2 = positions[p1.0];
        self.direction = if pos2.x.checked_rem_euclid(2).unwrap() != 0 {
            if pos2.y == 0 {
                // Bottom
                Vec2i { x: 0, y: -1 }
            } else {
                // Top
                Vec2i { x: 0, y: 1 }
            }
        } else {
            if pos2.x == 0 {
                // Left
                Vec2i { x: -1, y: 0 }
            } else {
                // Right
                Vec2i { x: 1, y: 0 }
            }
        };
        self.double_xy = Vec2i { x: 2 * gxy.x + pos2.x, y: 2 * gxy.y + pos2.y };
        let prev_state = gadget.state();
        gadget.set_state(s1);
        proof {
            let g = old(grid)@[i as int].0;
            let pm = g.spec_port_map();
            let w = g.spec_size().0 as int;
            let h = g.spec_size().1 as int;
            let pp = pm[p1.0 as int] as int;
            assert(pp < 2 * (w + h));
            lemma_double_parity(gxy.x as int, pos2.x as int);
            lemma_double_parity(gxy.y as int, pos2.y as int);
            lemma_double_parity(pp, 1);
            lemma_double_parity(2 * w + h - 1 - pp, 1);
            lemma_double_parity(pp - w, 1);
            lemma_double_parity(2 * w + 2 * h - 1 - pp, 1);
            lemma_double_parity(pp, 0);
            lemma_double_parity(w, 0);
            lemma_double_parity(h, 0);
            assert(self.wf());
            assert forall|k: int| 0 <= k < old(grid)@.remove(i as int).len() implies disjoint(
                (#[trigger] old(grid)@.remove(i as int)[k]).1,
                old(grid)@.remove(i as int)[k].2,
                gxy,
                gwh,
            ) by {
                if k < i as int {
                    assert(old(grid)@.remove(i as int)[k] == old(grid)@[k]);
                } else {
                    assert(old(grid)@.remove(i as int)[k] == old(grid)@[k + 1]);
                }
            }
            lemma_kept_all(old(grid)@.remove(i as int), gxy, gwh);
        }
        grid.insert(gadget, gxy, gwh);
        proof {
            let gs = final(grid)@;
            assert forall|k: int| 0 <= k < gs.len() implies (#[trigger] gs[k]).0.wf() by {
                if k < final(grid)@.len() - 1 {
                    if k < i as int {
                        assert(final(grid)@[k] == old(grid)@[k]);
                    } else {
                        assert(final(grid)@[k] == old(grid)@[k + 1]);
                    }
                }
            }
        }
        (gxy, prev_state)
    }
}

} // verus!
