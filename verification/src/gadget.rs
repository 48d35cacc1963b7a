//! Gadget definitions and placed gadgets.
//!
//! A [`GadgetDef`] is an immutable transition table: a number of states, a
//! number of ports, and a set of directed traversals
//! `(state, port) -> (state, port)`. A [`Gadget`] places such a definition in
//! space: it has a size, an injective map from each port to a position index
//! along its rectangular perimeter, and a current state. Gadgets implement
//! the grid's reorientation capability, so whole-grid transforms keep their
//! port maps geometrically consistent.

use vstd::prelude::*;
use std::rc::Rc;
use crate::grid::{GridItem, MAX_SIDE, WH, XY};
use crate::math::Vec2i;

verus! {

/// A small-integer id naming a connection point; unique within one
/// [`GadgetDef`].
#[derive(Copy, Clone, Debug, Eq, PartialEq, Structural, Hash, Ord, PartialOrd)]
pub struct Port(pub usize);

impl Port {
    /// Gets the id of this port.
    pub fn id(self) -> (r: usize)
        ensures
            r == self.0,
    {
        self.0
    }
}

/// A small-integer id naming an automaton mode; unique within one
/// [`GadgetDef`].
#[derive(Copy, Clone, Debug, Eq, PartialEq, Structural, Hash, Ord, PartialOrd)]
pub struct State(pub usize);

impl State {
    /// Gets the id of this state.
    pub fn id(self) -> (r: usize)
        ensures
            r == self.0,
    {
        self.0
    }
}

/// Type for (state, port) combinations.
pub type SP = (State, Port);

/// Type for (port, port) traversals.
pub type PP = (Port, Port);

/// Type for ((state, port), (state, port)) traversals.
pub type SPSP = (SP, SP);

/// Relies on std's `Rc::clone`: returns a new handle to the same allocation,
/// so the spec value of the clone equals the original.
#[verifier::external_body]
fn rc_clone<T>(rc: &Rc<T>) -> (r: Rc<T>)
    ensures
        r == *rc,
{
    Rc::clone(rc)
}

/// Definition of a gadget, including ports, states, and transitions.
#[derive(Clone, Debug)]
pub struct GadgetDef {
    num_states: usize,
    num_ports: usize,
    traversals: Vec<SPSP>,
}

/// The destinations reachable from `sp` through `trs`, in order.
pub open spec fn spec_targets(trs: Seq<SPSP>, sp: SP) -> Seq<SP>
    decreases trs.len(),
{
    if trs.len() == 0 {
        Seq::empty()
    } else {
        let rest = spec_targets(trs.drop_last(), sp);
        if trs.last().0 == sp {
            rest.push(trs.last().1)
        } else {
            rest
        }
    }
}

/// The port pairs of the traversals of `trs` whose source state is `state`,
/// in table order.
pub open spec fn spec_port_pairs(trs: Seq<SPSP>, state: State) -> Seq<PP>
    decreases trs.len(),
{
    if trs.len() == 0 {
        Seq::empty()
    } else {
        let rest = spec_port_pairs(trs.drop_last(), state);
        if (trs.last().0).0 == state {
            rest.push(((trs.last().0).1, (trs.last().1).1))
        } else {
            rest
        }
    }
}

impl GadgetDef {
    /// The number of states, as a spec value.
    pub closed spec fn spec_num_states(&self) -> usize {
        self.num_states
    }

    /// The number of ports, as a spec value.
    pub closed spec fn spec_num_ports(&self) -> usize {
        self.num_ports
    }

    /// The traversal table, as a spec value.
    pub closed spec fn spec_traversals(&self) -> Seq<SPSP> {
        self.traversals@
    }

    /// Validity: at least one state exists, and every state and port a
    /// traversal refers to is within bounds.
    pub open spec fn spec_valid(&self) -> bool {
        &&& self.spec_num_states() > 0
        &&& forall|i: int|
            0 <= i < self.spec_traversals().len() ==> {
                let t = #[trigger] self.spec_traversals()[i];
                &&& ((t.0).0).0 < self.spec_num_states()
                &&& ((t.1).0).0 < self.spec_num_states()
                &&& ((t.0).1).0 < self.spec_num_ports()
                &&& ((t.1).1).0 < self.spec_num_ports()
            }
    }

    /// Constructs the "nope" gadget definition: no traversals at all.
    pub fn new(num_states: usize, num_ports: usize) -> (def: Self)
        ensures
            def.spec_num_states() == num_states,
            def.spec_num_ports() == num_ports,
            def.spec_traversals() == Seq::<SPSP>::empty(),
    {
        GadgetDef { num_states, num_ports, traversals: Vec::new() }
    }

    /// Constructs a definition from its traversal table.
    pub fn from_traversals(num_states: usize, num_ports: usize, traversals: Vec<SPSP>) -> (def:
        Self)
        ensures
            def.spec_num_states() == num_states,
            def.spec_num_ports() == num_ports,
            def.spec_traversals() == traversals@,
    {
        GadgetDef { num_states, num_ports, traversals }
    }

    /// Checks the invariants of [`GadgetDef::spec_valid`]: used where a
    /// definition arrives from untrusted data.
    pub fn is_valid(&self) -> (r: bool)
        ensures
            r == self.spec_valid(),
    {
        if self.num_states == 0 {
            return false;
        }
        let n = self.traversals.len();
        let mut i: usize = 0;
        while i < n
            invariant
                n == self.spec_traversals().len(),
                0 <= i <= n,
                self.spec_num_states() > 0,
                forall|k: int|
                    0 <= k < i ==> {
                        let t = #[trigger] self.spec_traversals()[k];
                        &&& ((t.0).0).0 < self.spec_num_states()
                        &&& ((t.1).0).0 < self.spec_num_states()
                        &&& ((t.0).1).0 < self.spec_num_ports()
                        &&& ((t.1).1).0 < self.spec_num_ports()
                    },
            decreases n - i,
        {
            let ((s0, p0), (s1, p1)) = self.traversals[i];
            if !(s0.0 < self.num_states && s1.0 < self.num_states && p0.0 < self.num_ports
                && p1.0 < self.num_ports) {
                return false;
            }
            i = i + 1;
        }
        true
    }

    pub fn num_ports(&self) -> (r: usize)
        ensures
            r == self.spec_num_ports(),
    {
        self.num_ports
    }

    pub fn num_states(&self) -> (r: usize)
        ensures
            r == self.spec_num_states(),
    {
        self.num_states
    }

    /// The traversal table.
    pub fn traversals(&self) -> (r: &Vec<SPSP>)
        ensures
            r@ == self.spec_traversals(),
    {
        &self.traversals
    }

    /// Gets all the destinations allowed in some state and port.
    pub fn targets_from_state_port(&self, sp: SP) -> (r: Vec<SP>)
        ensures
            r@ == spec_targets(self.spec_traversals(), sp),
    {
        let ghost trs = self.spec_traversals();
        let n = self.traversals.len();
        let mut out: Vec<SP> = Vec::new();
        let mut i: usize = 0;
        while i < n
            invariant
                n == trs.len(),
                trs == self.spec_traversals(),
                0 <= i <= n,
                out@ == spec_targets(trs.subrange(0, i as int), sp),
            decreases n - i,
        {
            let (from, to) = self.traversals[i];
            proof {
                assert(trs.subrange(0, i + 1).drop_last() =~= trs.subrange(0, i as int));
                assert(trs.subrange(0, i + 1).last() == trs[i as int]);
            }
            if from.0.0 == sp.0.0 && from.1.0 == sp.1.0 {
                out.push(to);
            }
            i = i + 1;
        }
        proof {
            assert(trs.subrange(0, n as int) =~= trs);
        }
        out
    }

    /// Gets all the port-to-port traversals allowed in some state, direction
    /// collapsed, in the order they appear in the table (used for drawing,
    /// never for simulation decisions; the result may repeat a pair).
    pub fn port_traversals_in_state(&self, state: State) -> (r: Vec<PP>)
        ensures
            r@ == spec_port_pairs(self.spec_traversals(), state),
    {
        let ghost trs = self.spec_traversals();
        let n = self.traversals.len();
        let mut out: Vec<PP> = Vec::new();
        let mut i: usize = 0;
        while i < n
            invariant
                n == trs.len(),
                trs == self.spec_traversals(),
                0 <= i <= n,
                out@ == spec_port_pairs(trs.subrange(0, i as int), state),
            decreases n - i,
        {
            let (from, to) = self.traversals[i];
            proof {
                assert(trs.subrange(0, i + 1).drop_last() =~= trs.subrange(0, i as int));
                assert(trs.subrange(0, i + 1).last() == trs[i as int]);
            }
            if from.0.0 == state.0 {
                out.push((from.1, to.1));
            }
            i = i + 1;
        }
        proof {
            assert(trs.subrange(0, n as int) =~= trs);
        }
        out
    }
}

/// The port map with every position index shifted by `by` along the
/// perimeter `per` (positive = counterclockwise).
pub open spec fn shifted_ports(pm: Seq<usize>, by: int, per: int) -> Seq<usize> {
    Seq::new(pm.len(), |i: int| ((pm[i] + by) % per) as usize)
}

/// The port map mirrored across the x axis of a footprint of width `w` and
/// perimeter `per`.
pub open spec fn flipped_ports_x(pm: Seq<usize>, w: int, per: int) -> Seq<usize> {
    Seq::new(pm.len(), |i: int| ((w - pm[i] - 1) % per) as usize)
}

/// The port map mirrored across the y axis of a footprint of height `h` and
/// perimeter `per`.
pub open spec fn flipped_ports_y(pm: Seq<usize>, h: int, per: int) -> Seq<usize> {
    Seq::new(pm.len(), |i: int| ((per - h - pm[i] - 1) % per) as usize)
}

/// The port map with perimeter indices `w - 1` and `w` (the two positions
/// around the bottom-right corner) exchanged.
pub open spec fn twisted_ports(pm: Seq<usize>, w: int) -> Seq<usize> {
    Seq::new(
        pm.len(),
        |i: int|
            if pm[i] == w - 1 {
                w as usize
            } else if pm[i] == w {
                (w - 1) as usize
            } else {
                pm[i]
            },
    )
}

/// Port map, width and height after `n` counterclockwise quarter turns: each
/// turn shifts every port by the current height and swaps width and height.
pub open spec fn rotated_gadget(pm: Seq<usize>, w: int, h: int, n: nat) -> (Seq<usize>, int, int)
    decreases n,
{
    if n == 0 {
        (pm, w, h)
    } else {
        let p = rotated_gadget(pm, w, h, (n - 1) as nat);
        (shifted_ports(p.0, p.2, 2 * (p.1 + p.2)), p.2, p.1)
    }
}

/// Law: four quarter turns reproduce a gadget's port map and size exactly —
/// each turn shifts the ports by the current height and swaps the sides, and
/// the four shifts add up to one full perimeter.
pub proof fn lemma_gadget_rotate_four_times(pm: Seq<usize>, w: int, h: int)
    requires
        0 < w <= MAX_SIDE as int,
        0 < h <= MAX_SIDE as int,
        forall|i: int| 0 <= i < pm.len() ==> (#[trigger] pm[i]) < 2 * (w + h),
    ensures
        rotated_gadget(pm, w, h, 4) == (pm, w, h),
{
    let p = 2 * (w + h);
    reveal_with_fuel(rotated_gadget, 5);
    let r1 = rotated_gadget(pm, w, h, 1);
    let r2 = rotated_gadget(pm, w, h, 2);
    let r3 = rotated_gadget(pm, w, h, 3);
    let r4 = rotated_gadget(pm, w, h, 4);
    assert forall|i: int| 0 <= i < pm.len() implies r4.0[i] == pm[i] by {
        let a = pm[i] as int;
        vstd::arithmetic::div_mod::lemma_mod_bound(a + h, p);
        assert(r1.0[i] as int == (a + h) % p);
        vstd::arithmetic::div_mod::lemma_add_mod_noop_right(w, a + h, p);
        vstd::arithmetic::div_mod::lemma_mod_bound(a + h + w, p);
        assert(r2.0[i] as int == (a + h + w) % p);
        vstd::arithmetic::div_mod::lemma_add_mod_noop_right(h, a + h + w, p);
        vstd::arithmetic::div_mod::lemma_mod_bound(a + h + w + h, p);
        assert(r3.0[i] as int == (a + h + w + h) % p);
        vstd::arithmetic::div_mod::lemma_add_mod_noop_right(w, a + h + w + h, p);
        vstd::arithmetic::div_mod::lemma_mod_bound(a + h + w + h + w, p);
        assert(r4.0[i] as int == (a + p) % p);
        vstd::arithmetic::div_mod::lemma_mod_add_multiples_vanish(a, p);
        vstd::arithmetic::div_mod::lemma_small_mod(a as nat, p as nat);
    }
    assert(r4.0 =~= pm);
}

/// Law: mirroring a port map twice across the x axis is the identity.
pub proof fn lemma_gadget_flip_x_involution(pm: Seq<usize>, w: int, p: int)
    requires
        0 < w < p <= usize::MAX,
        forall|i: int| 0 <= i < pm.len() ==> (#[trigger] pm[i]) < p,
    ensures
        flipped_ports_x(flipped_ports_x(pm, w, p), w, p) == pm,
{
    let once = flipped_ports_x(pm, w, p);
    let twice = flipped_ports_x(once, w, p);
    assert forall|i: int| 0 <= i < pm.len() implies twice[i] == pm[i] by {
        let a = pm[i] as int;
        vstd::arithmetic::div_mod::lemma_mod_bound(w - a - 1, p);
        vstd::arithmetic::div_mod::lemma_fundamental_div_mod(w - a - 1, p);
        let q = (w - a - 1) / p;
        let b = once[i] as int;
        assert(w - b - 1 == a + p * q);
        vstd::arithmetic::div_mod::lemma_mod_multiples_vanish(q, a, p);
        vstd::arithmetic::div_mod::lemma_small_mod(a as nat, p as nat);
    }
    assert(twice =~= pm);
}

/// Law: mirroring a port map twice across the y axis is the identity.
pub proof fn lemma_gadget_flip_y_involution(pm: Seq<usize>, h: int, p: int)
    requires
        0 < h < p <= usize::MAX,
        forall|i: int| 0 <= i < pm.len() ==> (#[trigger] pm[i]) < p,
    ensures
        flipped_ports_y(flipped_ports_y(pm, h, p), h, p) == pm,
{
    let once = flipped_ports_y(pm, h, p);
    let twice = flipped_ports_y(once, h, p);
    assert forall|i: int| 0 <= i < pm.len() implies twice[i] == pm[i] by {
        let a = pm[i] as int;
        vstd::arithmetic::div_mod::lemma_mod_bound(p - h - a - 1, p);
        vstd::arithmetic::div_mod::lemma_fundamental_div_mod(p - h - a - 1, p);
        let q = (p - h - a - 1) / p;
        let b = once[i] as int;
        assert(p - h - b - 1 == a + p * q);
        vstd::arithmetic::div_mod::lemma_mod_multiples_vanish(q, a, p);
        vstd::arithmetic::div_mod::lemma_small_mod(a as nat, p as nat);
    }
    assert(twice =~= pm);
}

/// Two numbers less than one modulus apart with the same remainder are equal.
proof fn lemma_mod_injective(x: int, y: int, p: int)
    requires
        0 < p,
        x % p == y % p,
        -p < x - y < p,
    ensures
        x == y,
{
    vstd::arithmetic::div_mod::lemma_fundamental_div_mod(x, p);
    vstd::arithmetic::div_mod::lemma_fundamental_div_mod(y, p);
    let d = x / p - y / p;
    assert(x - y == p * d) by (nonlinear_arith)
        requires
            x == p * (x / p) + x % p,
            y == p * (y / p) + y % p,
            x % p == y % p,
            d == x / p - y / p,
    ;
    assert(d == 0) by (nonlinear_arith)
        requires
            -p < p * d < p,
            0 < p,
    ;
}

/// The doubled coordinates (so edge midpoints are whole numbers) of the
/// perimeter position `idx` of a footprint of width `w` and height `h`,
/// relative to the bottom-left corner: the walk starts just after that corner
/// and proceeds counterclockwise along bottom, right, top and left edges.
pub open spec fn spec_port_position(idx: int, w: int, h: int) -> (int, int) {
    if idx < w {
        (2 * idx + 1, 0)
    } else if idx < w + h {
        (2 * w, 2 * (idx - w) + 1)
    } else if idx < w + h + w {
        (2 * (2 * w + h - 1 - idx) + 1, 2 * h)
    } else {
        (0, 2 * (2 * w + 2 * h - 1 - idx) + 1)
    }
}

/// A gadget definition placed in space: a shared definition, a footprint
/// size, an injective port-to-perimeter-position map, and a current state.
#[derive(Debug)]
pub struct Gadget {
    name: String,
    def: Rc<GadgetDef>,
    size: WH,
    /// Ports are located at midpoints of unit segments along the perimeter,
    /// starting from the bottom left and going counterclockwise.
    /// This map maps each port to its position index along the perimeter.
    port_map: Vec<usize>,
    state: State,
    /// Set by every mutation; the renderer polls and clears it.
    dirty: bool,
}

impl Gadget {
    /// The gadget's definition, as a spec value.
    pub closed spec fn spec_def(&self) -> GadgetDef {
        *self.def
    }

    /// The gadget's size, as a spec value.
    pub closed spec fn spec_size(&self) -> WH {
        self.size
    }

    /// The port map, as a spec value.
    pub closed spec fn spec_port_map(&self) -> Seq<usize> {
        self.port_map@
    }

    /// The current state, as a spec value.
    pub closed spec fn spec_state(&self) -> State {
        self.state
    }

    /// The dirty flag, as a spec value.
    pub closed spec fn spec_dirty(&self) -> bool {
        self.dirty
    }

    /// The gadget's name, as a spec value.
    pub closed spec fn spec_name(&self) -> Seq<char> {
        self.name@
    }

    /// The number of unit segments along the footprint's perimeter.
    pub open spec fn spec_perimeter(&self) -> int {
        2 * (self.spec_size().0 + self.spec_size().1)
    }

    /// Well-formedness: a valid definition, a positive and bounded size, a
    /// state within bounds, and a port map with exactly one in-range
    /// perimeter position per port, all distinct. Constructors establish it
    /// and every method preserves it.
    pub open spec fn wf(&self) -> bool {
        &&& self.spec_def().spec_valid()
        &&& 0 < self.spec_size().0 <= MAX_SIDE
        &&& 0 < self.spec_size().1 <= MAX_SIDE
        &&& self.spec_state().0 < self.spec_def().spec_num_states()
        &&& self.spec_port_map().len() == self.spec_def().spec_num_ports()
        &&& forall|i: int|
            0 <= i < self.spec_port_map().len() ==> (#[trigger] self.spec_port_map()[i])
                < self.spec_perimeter()
        &&& forall|i: int, j: int|
            0 <= i < j < self.spec_port_map().len() ==> self.spec_port_map()[i]
                != self.spec_port_map()[j]
    }

    /// Constructs a new `Gadget` with a gadget definition, a size,
    /// and a port map; the arguments must satisfy [`Gadget::wf`].
    ///
    /// Ports are located at midpoints of unit segments along the perimeter,
    /// starting from the bottom left and going counterclockwise.
    /// The port map maps each port to its position index along the perimeter.
    pub fn new(def: &Rc<GadgetDef>, size: WH, port_map: Vec<usize>, state: State) -> (g: Self)
        requires
            (**def).spec_valid(),
            0 < size.0 <= MAX_SIDE,
            0 < size.1 <= MAX_SIDE,
            state.0 < (**def).spec_num_states(),
            port_map@.len() == (**def).spec_num_ports(),
            forall|i: int|
                0 <= i < port_map@.len() ==> (#[trigger] port_map@[i]) < 2 * (size.0 + size.1),
            forall|i: int, j: int|
                0 <= i < j < port_map@.len() ==> port_map@[i] != port_map@[j],
        ensures
            g.wf(),
            g.spec_def() == **def,
            g.spec_size() == size,
            g.spec_port_map() == port_map@,
            g.spec_state() == state,
            g.spec_dirty(),
            g.spec_name() == Seq::<char>::empty(),
    {
        Gadget {
            name: String::new(),
            def: rc_clone(def),
            size,
            port_map,
            state,
            dirty: true,
        }
    }

    /// Gives this gadget a name and returns it back.
    pub fn name_this(self, name: &str) -> (g: Self)
        ensures
            g.spec_name() == name@,
            g.spec_def() == self.spec_def(),
            g.spec_size() == self.spec_size(),
            g.spec_port_map() == self.spec_port_map(),
            g.spec_state() == self.spec_state(),
            g.spec_dirty() == self.spec_dirty(),
            self.wf() ==> g.wf(),
    {
        Gadget { name: name.to_owned(), ..self }
    }

    /// Gets the gadget's name.
    pub fn name(&self) -> (r: &str)
        ensures
            r@ == self.spec_name(),
    {
        self.name.as_str()
    }

    /// The shared definition.
    pub fn def(&self) -> (r: &Rc<GadgetDef>)
        ensures
            **r == self.spec_def(),
    {
        &self.def
    }

    pub fn size(&self) -> (r: WH)
        ensures
            r == self.spec_size(),
    {
        self.size
    }

    /// The number of unit segments along the footprint's perimeter.
    pub fn perimeter(&self) -> (r: usize)
        requires
            self.wf(),
        ensures
            r == self.spec_perimeter(),
    {
        2 * (self.size.0 + self.size.1)
    }

    /// The port at a perimeter position index: the inverse of the port map.
    pub fn port(&self, index: usize) -> (r: Option<Port>)
        ensures
            match r {
                Some(p) => p.0 < self.spec_port_map().len() && self.spec_port_map()[p.0 as int]
                    == index,
                None => forall|i: int|
                    0 <= i < self.spec_port_map().len() ==> (#[trigger] self.spec_port_map()[i])
                        != index,
            },
    {
        let n = self.port_map.len();
        let mut i: usize = 0;
        while i < n
            invariant
                n == self.spec_port_map().len(),
                0 <= i <= n,
                forall|k: int|
                    0 <= k < i ==> (#[trigger] self.spec_port_map()[k]) != index,
            decreases n - i,
        {
            if self.port_map[i] == index {
                return Some(Port(i));
            }
            i = i + 1;
        }
        None
    }

    pub fn state(&self) -> (r: State)
        ensures
            r == self.spec_state(),
    {
        self.state
    }

    /// The port map as perimeter position indices, in port order (what the
    /// persistence layer serializes).
    pub fn port_map(&self) -> (r: &Vec<usize>)
        ensures
            r@ == self.spec_port_map(),
    {
        &self.port_map
    }

    /// Sets the current state; it must be within the definition's bounds.
    pub fn set_state(&mut self, state: State)
        requires
            state.0 < old(self).spec_def().spec_num_states(),
        ensures
            final(self).spec_state() == state,
            final(self).spec_def() == old(self).spec_def(),
            final(self).spec_size() == old(self).spec_size(),
            final(self).spec_port_map() == old(self).spec_port_map(),
            final(self).spec_name() == old(self).spec_name(),
            final(self).spec_dirty(),
            old(self).wf() ==> final(self).wf(),
    {
        self.state = state;
        self.dirty = true;
    }

    /// Whether the gadget changed since the renderer last looked.
    pub fn is_dirty(&self) -> (r: bool)
        ensures
            r == self.spec_dirty(),
    {
        self.dirty
    }

    /// Clears the dirty flag; the renderer calls this after reading.
    pub fn clear_dirty(&mut self)
        ensures
            !final(self).spec_dirty(),
            final(self).spec_def() == old(self).spec_def(),
            final(self).spec_size() == old(self).spec_size(),
            final(self).spec_port_map() == old(self).spec_port_map(),
            final(self).spec_state() == old(self).spec_state(),
            final(self).spec_name() == old(self).spec_name(),
            old(self).wf() ==> final(self).wf(),
    {
        self.dirty = false;
    }

    /// Adds 1 to the state; resetting it to 0 in case of overflow.
    pub fn cycle_state(&mut self)
        requires
            old(self).wf(),
        ensures
            final(self).wf(),
            final(self).spec_state().0 == (old(self).spec_state().0 + 1) % (old(
                self,
            ).spec_def().spec_num_states() as int),
            final(self).spec_def() == old(self).spec_def(),
            final(self).spec_size() == old(self).spec_size(),
            final(self).spec_port_map() == old(self).spec_port_map(),
            final(self).spec_name() == old(self).spec_name(),
            final(self).spec_dirty(),
    {
        self.state = State((self.state.0 + 1) % self.def.num_states());
        self.dirty = true;
    }
}

impl Gadget {
    /// Rotates the ports of the gadget by some number of spaces.
    /// A positive number means counterclockwise,
    /// a negative number means clockwise.
    pub fn rotate_ports(&mut self, num_spaces: i32)
        requires
            old(self).wf(),
        ensures
            final(self).wf(),
            final(self).spec_port_map() == shifted_ports(
                old(self).spec_port_map(),
                num_spaces as int,
                old(self).spec_perimeter(),
            ),
            final(self).spec_def() == old(self).spec_def(),
            final(self).spec_size() == old(self).spec_size(),
            final(self).spec_state() == old(self).spec_state(),
            final(self).spec_name() == old(self).spec_name(),
            final(self).spec_dirty(),
    {
        let ghost pm = self.spec_port_map();
        let p: usize = 2 * (self.size.0 + self.size.1);
        let rem: usize = (num_spaces as i128).checked_rem_euclid(p as i128).unwrap() as usize;
        let n = self.port_map.len();
        let mut new_map: Vec<usize> = Vec::new();
        let mut i: usize = 0;
        while i < n
            invariant
                self.wf(),
                pm == self.spec_port_map(),
                n == pm.len(),
                p == self.spec_perimeter(),
                0 < p,
                rem == (num_spaces as int) % (p as int),
                rem < p,
                0 <= i <= n,
                new_map@.len() == i,
                forall|k: int|
                    0 <= k < i ==> (#[trigger] new_map@[k]) as int == (pm[k] + num_spaces as int)
                        % (p as int),
            decreases n - i,
        {
            let idx = self.port_map[i];
            let shifted = idx + rem;
            let v = if shifted >= p {
                shifted - p
            } else {
                shifted
            };
            proof {
                vstd::arithmetic::div_mod::lemma_add_mod_noop_right(
                    idx as int,
                    num_spaces as int,
                    p as int,
                );
                if shifted >= p {
                    vstd::arithmetic::div_mod::lemma_mod_sub_multiples_vanish(
                        shifted as int,
                        p as int,
                    );
                    vstd::arithmetic::div_mod::lemma_small_mod(
                        (shifted - p) as nat,
                        p as nat,
                    );
                } else {
                    vstd::arithmetic::div_mod::lemma_small_mod(shifted as nat, p as nat);
                }
            }
            new_map.push(v);
            i = i + 1;
        }
        proof {
            assert(new_map@ =~= shifted_ports(pm, num_spaces as int, p as int));
            assert forall|a: int, b: int| 0 <= a < b < n implies new_map@[a] != new_map@[b] by {
                if new_map@[a] == new_map@[b] {
                    lemma_mod_injective(
                        pm[a] + num_spaces as int,
                        pm[b] + num_spaces as int,
                        p as int,
                    );
                }
            }
        }
        self.port_map = new_map;
        self.dirty = true;
    }

    /// Rotates the gadget by some number of 90-degree turns.
    /// A positive number means counterclockwise,
    /// a negative number means clockwise. Each turn shifts every port by the
    /// current height and swaps width and height, reparametrizing the
    /// perimeter walk for the turned footprint.
    pub fn rotate(&mut self, num_turns: i32)
        requires
            old(self).wf(),
        ensures
            final(self).wf(),
            ({
                let r = rotated_gadget(
                    old(self).spec_port_map(),
                    old(self).spec_size().0 as int,
                    old(self).spec_size().1 as int,
                    ((num_turns as int) % 4) as nat,
                );
                &&& final(self).spec_port_map() == r.0
                &&& final(self).spec_size().0 as int == r.1
                &&& final(self).spec_size().1 as int == r.2
            }),
            final(self).spec_def() == old(self).spec_def(),
            final(self).spec_state() == old(self).spec_state(),
            final(self).spec_name() == old(self).spec_name(),
            final(self).spec_dirty() || num_turns as int % 4 == 0,
    {
        let ghost pm0 = self.spec_port_map();
        let ghost w0 = self.spec_size().0 as int;
        let ghost h0 = self.spec_size().1 as int;
        let t: usize = num_turns.checked_rem_euclid(4).unwrap() as usize;
        let mut k: usize = 0;
        while k < t
            invariant
                self.wf(),
                0 <= k <= t < 4,
                ({
                    let r = rotated_gadget(pm0, w0, h0, k as nat);
                    &&& self.spec_port_map() == r.0
                    &&& self.spec_size().0 as int == r.1
                    &&& self.spec_size().1 as int == r.2
                }),
                self.spec_def() == old(self).spec_def(),
                self.spec_state() == old(self).spec_state(),
                self.spec_name() == old(self).spec_name(),
                k > 0 ==> self.spec_dirty(),
            decreases t - k,
        {
            let h = self.size.1;
            self.rotate_ports(h as i32);
            self.size = (self.size.1, self.size.0);
            k = k + 1;
            proof {
                assert(rotated_gadget(pm0, w0, h0, k as nat) == {
                    let p = rotated_gadget(pm0, w0, h0, (k - 1) as nat);
                    (shifted_ports(p.0, p.2, 2 * (p.1 + p.2)), p.2, p.1)
                });
            }
        }
    }

    /// Flips ports across the x axis (mirror left-right).
    pub fn flip_ports_x(&mut self)
        requires
            old(self).wf(),
        ensures
            final(self).wf(),
            final(self).spec_port_map() == flipped_ports_x(
                old(self).spec_port_map(),
                old(self).spec_size().0 as int,
                old(self).spec_perimeter(),
            ),
            final(self).spec_def() == old(self).spec_def(),
            final(self).spec_size() == old(self).spec_size(),
            final(self).spec_state() == old(self).spec_state(),
            final(self).spec_name() == old(self).spec_name(),
            final(self).spec_dirty(),
    {
        let ghost pm = self.spec_port_map();
        let w = self.size.0;
        let p: usize = 2 * (self.size.0 + self.size.1);
        let n = self.port_map.len();
        let mut new_map: Vec<usize> = Vec::new();
        let mut i: usize = 0;
        while i < n
            invariant
                self.wf(),
                pm == self.spec_port_map(),
                n == pm.len(),
                w == self.spec_size().0,
                p == self.spec_perimeter(),
                0 < p,
                0 <= i <= n,
                new_map@.len() == i,
                forall|k: int|
                    0 <= k < i ==> (#[trigger] new_map@[k]) as int == (w - pm[k] - 1) % (p as int),
            decreases n - i,
        {
            let idx = self.port_map[i];
            let v = (w as isize - idx as isize - 1).checked_rem_euclid(p as isize).unwrap()
                as usize;
            new_map.push(v);
            i = i + 1;
        }
        proof {
            assert(new_map@ =~= flipped_ports_x(pm, w as int, p as int));
            assert forall|a: int, b: int| 0 <= a < b < n implies new_map@[a] != new_map@[b] by {
                if new_map@[a] == new_map@[b] {
                    lemma_mod_injective(
                        w as int - pm[a] - 1,
                        w as int - pm[b] - 1,
                        p as int,
                    );
                }
            }
            assert forall|k: int| 0 <= k < n implies (#[trigger] new_map@[k]) < p by {
                vstd::arithmetic::div_mod::lemma_mod_bound(w as int - pm[k] - 1, p as int);
            }
        }
        self.port_map = new_map;
        self.dirty = true;
    }

    /// Flips ports across the y axis (mirror top-bottom).
    pub fn flip_ports_y(&mut self)
        requires
            old(self).wf(),
        ensures
            final(self).wf(),
            final(self).spec_port_map() == flipped_ports_y(
                old(self).spec_port_map(),
                old(self).spec_size().1 as int,
                old(self).spec_perimeter(),
            ),
            final(self).spec_def() == old(self).spec_def(),
            final(self).spec_size() == old(self).spec_size(),
            final(self).spec_state() == old(self).spec_state(),
            final(self).spec_name() == old(self).spec_name(),
            final(self).spec_dirty(),
    {
        let ghost pm = self.spec_port_map();
        let h = self.size.1;
        let p: usize = 2 * (self.size.0 + self.size.1);
        let n = self.port_map.len();
        let mut new_map: Vec<usize> = Vec::new();
        let mut i: usize = 0;
        while i < n
            invariant
                self.wf(),
                pm == self.spec_port_map(),
                n == pm.len(),
                h == self.spec_size().1,
                p == self.spec_perimeter(),
                0 < p,
                0 <= i <= n,
                new_map@.len() == i,
                forall|k: int|
                    0 <= k < i ==> (#[trigger] new_map@[k]) as int == ((p as int) - h - pm[k] - 1)
                        % (p as int),
            decreases n - i,
        {
            let idx = self.port_map[i];
            let v = (p as isize - h as isize - idx as isize - 1).checked_rem_euclid(
                p as isize,
            ).unwrap() as usize;
            new_map.push(v);
            i = i + 1;
        }
        proof {
            assert(new_map@ =~= flipped_ports_y(pm, h as int, p as int));
            assert forall|a: int, b: int| 0 <= a < b < n implies new_map@[a] != new_map@[b] by {
                if new_map@[a] == new_map@[b] {
                    lemma_mod_injective(
                        p as int - h as int - pm[a] - 1,
                        p as int - h as int - pm[b] - 1,
                        p as int,
                    );
                }
            }
            assert forall|k: int| 0 <= k < n implies (#[trigger] new_map@[k]) < p by {
                vstd::arithmetic::div_mod::lemma_mod_bound(
                    p as int - h as int - pm[k] - 1,
                    p as int,
                );
            }
        }
        self.port_map = new_map;
        self.dirty = true;
    }

    /// Twists the bottom-right ports: exchanges perimeter indices
    /// `width - 1` and `width` wherever they occur in the port map.
    pub fn twist_bottom_right(&mut self)
        requires
            old(self).wf(),
        ensures
            final(self).wf(),
            final(self).spec_port_map() == twisted_ports(
                old(self).spec_port_map(),
                old(self).spec_size().0 as int,
            ),
            final(self).spec_def() == old(self).spec_def(),
            final(self).spec_size() == old(self).spec_size(),
            final(self).spec_state() == old(self).spec_state(),
            final(self).spec_name() == old(self).spec_name(),
            final(self).spec_dirty(),
    {
        let ghost pm = self.spec_port_map();
        let w = self.size.0;
        let t0 = w - 1;
        let t1 = w;
        let n = self.port_map.len();
        let mut new_map: Vec<usize> = Vec::new();
        let mut i: usize = 0;
        while i < n
            invariant
                self.wf(),
                pm == self.spec_port_map(),
                n == pm.len(),
                w == self.spec_size().0,
                0 < w,
                t0 == w - 1,
                t1 == w,
                0 <= i <= n,
                new_map@.len() == i,
                forall|k: int|
                    0 <= k < i ==> (#[trigger] new_map@[k]) == twisted_ports(pm, w as int)[k],
            decreases n - i,
        {
            let idx = self.port_map[i];
            let v = if idx == t0 {
                t1
            } else if idx == t1 {
                t0
            } else {
                idx
            };
            new_map.push(v);
            i = i + 1;
        }
        proof {
            assert(new_map@ =~= twisted_ports(pm, w as int));
        }
        self.port_map = new_map;
        self.dirty = true;
    }

    /// Gets the doubled positions of the ports of this gadget in port order:
    /// each is the midpoint of the port's perimeter unit segment, relative to
    /// the bottom-left corner, stored at twice its value so it is integral.
    pub fn port_positions(&self) -> (r: Vec<XY>)
        requires
            self.wf(),
        ensures
            r@.len() == self.spec_port_map().len(),
            forall|i: int|
                0 <= i < r@.len() ==> {
                    let pos = spec_port_position(
                        self.spec_port_map()[i] as int,
                        self.spec_size().0 as int,
                        self.spec_size().1 as int,
                    );
                    (#[trigger] r@[i]).x as int == pos.0 && r@[i].y as int == pos.1
                },
    {
        let w = self.size.0;
        let h = self.size.1;
        let n = self.port_map.len();
        let mut out: Vec<XY> = Vec::new();
        let mut i: usize = 0;
        while i < n
            invariant
                self.wf(),
                n == self.spec_port_map().len(),
                w == self.spec_size().0,
                h == self.spec_size().1,
                0 <= i <= n,
                out@.len() == i,
                forall|k: int|
                    0 <= k < i ==> {
                        let pos = spec_port_position(
                            self.spec_port_map()[k] as int,
                            w as int,
                            h as int,
                        );
                        (#[trigger] out@[k]).x as int == pos.0 && out@[k].y as int == pos.1
                    },
            decreases n - i,
        {
            let idx = self.port_map[i];
            proof {
                assert(self.spec_port_map()[i as int] < self.spec_perimeter());
            }
            let pos = if idx < w {
                Vec2i { x: 2 * (idx as isize) + 1, y: 0 }
            } else if idx < w + h {
                Vec2i { x: 2 * (w as isize), y: 2 * (idx - w) as isize + 1 }
            } else if idx < w + h + w {
                Vec2i { x: 2 * ((w + h + w - 1 - idx) as isize) + 1, y: 2 * (h as isize) }
            } else {
                Vec2i { x: 0, y: 2 * ((w + h + w + h - 1 - idx) as isize) + 1 }
            };
            out.push(pos);
            i = i + 1;
        }
        out
    }
}

/// The cyclic offset chosen from a facing direction, so that bucket 0 is
/// always "back" and bucket 2 always "front" relative to the facing: 0 when
/// facing +Y, 2 when facing -Y, 1 when facing +X, 3 when facing -X.
pub open spec fn facing_offset(direction: XY) -> int {
    if direction.x == 0 {
        if direction.y > 0 {
            0
        } else {
            2
        }
    } else {
        if direction.x > 0 {
            1
        } else {
            3
        }
    }
}

/// Which perimeter arc a position index lies on: 0 bottom, 1 right, 2 top,
/// 3 left, in the fixed counterclockwise order of the perimeter walk.
pub open spec fn arc_of(idx: int, w: int, h: int) -> int {
    if idx < w {
        0
    } else if idx < w + h {
        1
    } else if idx < w + h + w {
        2
    } else {
        3
    }
}

/// The targets whose destination port occupies, under port map `pm` on a
/// `w` by `h` footprint, the perimeter arc that lands in `bucket` after the
/// cyclic rotation by `off`; in target order.
pub open spec fn spec_brfl_bucket(
    targets: Seq<SP>,
    pm: Seq<usize>,
    w: int,
    h: int,
    off: int,
    bucket: int,
) -> Seq<SP>
    decreases targets.len(),
{
    if targets.len() == 0 {
        Seq::empty()
    } else {
        let rest = spec_brfl_bucket(targets.drop_last(), pm, w, h, off, bucket);
        if (arc_of(pm[(targets.last().1).0 as int] as int, w, h) + off) % 4 == bucket {
            rest.push(targets.last())
        } else {
            rest
        }
    }
}

/// In a valid definition, every target's state and port are within bounds.
pub proof fn lemma_targets_in_bounds(trs: Seq<SPSP>, sp: SP, num_states: int, num_ports: int)
    requires
        forall|i: int|
            0 <= i < trs.len() ==> {
                let t = #[trigger] trs[i];
                &&& ((t.0).0).0 < num_states
                &&& ((t.1).0).0 < num_states
                &&& ((t.0).1).0 < num_ports
                &&& ((t.1).1).0 < num_ports
            },
    ensures
        forall|i: int|
            0 <= i < spec_targets(trs, sp).len() ==> {
                let t = #[trigger] spec_targets(trs, sp)[i];
                &&& (t.0).0 < num_states
                &&& (t.1).0 < num_ports
            },
    decreases trs.len(),
{
    if trs.len() > 0 {
        assert(forall|i: int| 0 <= i < trs.len() - 1 ==> trs.drop_last()[i] == trs[i]);
        lemma_targets_in_bounds(trs.drop_last(), sp, num_states, num_ports);
        assert(trs.last() == trs[trs.len() - 1]);
        let full = spec_targets(trs, sp);
        let rest = spec_targets(trs.drop_last(), sp);
        if trs.last().0 == sp {
            assert(full == rest.push(trs.last().1));
        } else {
            assert(full == rest);
        }
    }
}

/// Every element of a direction bucket is an element of the target list, so
/// bounds on the targets carry over to the buckets.
pub proof fn lemma_bucket_in_bounds(
    targets: Seq<SP>,
    pm: Seq<usize>,
    w: int,
    h: int,
    off: int,
    bucket: int,
    num_states: int,
    num_ports: int,
)
    requires
        forall|i: int|
            0 <= i < targets.len() ==> ((#[trigger] targets[i]).0).0 < num_states && ((
            targets[i]).1).0 < num_ports,
    ensures
        forall|j: int|
            0 <= j < spec_brfl_bucket(targets, pm, w, h, off, bucket).len() ==> {
                let t = #[trigger] spec_brfl_bucket(targets, pm, w, h, off, bucket)[j];
                (t.0).0 < num_states && (t.1).0 < num_ports
            },
    decreases targets.len(),
{
    if targets.len() > 0 {
        assert(forall|i: int|
            0 <= i < targets.len() - 1 ==> targets.drop_last()[i] == targets[i]);
        lemma_bucket_in_bounds(
            targets.drop_last(),
            pm,
            w,
            h,
            off,
            bucket,
            num_states,
            num_ports,
        );
        assert(targets.last() == targets[targets.len() - 1]);
        let full = spec_brfl_bucket(targets, pm, w, h, off, bucket);
        let rest = spec_brfl_bucket(targets.drop_last(), pm, w, h, off, bucket);
        if (arc_of(pm[(targets.last().1).0 as int] as int, w, h) + off) % 4 == bucket {
            assert(full == rest.push(targets.last()));
        } else {
            assert(full == rest);
        }
    }
}

impl Gadget {
    /// Gets the traversals allowed in the current state, at some port,
    /// bucketed as (back, right, front, left) relative to a facing direction:
    /// each destination is classified by the perimeter arc its port occupies,
    /// cyclically rotated so that bucket 0 is "back" and bucket 2 is "front"
    /// whatever the facing.
    pub fn targets_from_state_port_brfl(&self, port: Port, direction: XY) -> (r: (
        Vec<SP>,
        Vec<SP>,
        Vec<SP>,
        Vec<SP>,
    ))
        requires
            self.wf(),
        ensures
            ({
                let targets = spec_targets(
                    self.spec_def().spec_traversals(),
                    (self.spec_state(), port),
                );
                let pm = self.spec_port_map();
                let w = self.spec_size().0 as int;
                let h = self.spec_size().1 as int;
                let off = facing_offset(direction);
                &&& r.0@ == spec_brfl_bucket(targets, pm, w, h, off, 0)
                &&& r.1@ == spec_brfl_bucket(targets, pm, w, h, off, 1)
                &&& r.2@ == spec_brfl_bucket(targets, pm, w, h, off, 2)
                &&& r.3@ == spec_brfl_bucket(targets, pm, w, h, off, 3)
            }),
    {
        let offset: usize = if direction.x == 0 {
            if direction.y > 0 {
                0
            } else {
                2
            }
        } else {
            if direction.x > 0 {
                1
            } else {
                3
            }
        };
        let w = self.size.0;
        let h = self.size.1;
        let targets = self.def.targets_from_state_port((self.state, port));
        let ghost tseq = targets@;
        proof {
            lemma_targets_in_bounds(
                self.spec_def().spec_traversals(),
                (self.spec_state(), port),
                self.spec_def().spec_num_states() as int,
                self.spec_def().spec_num_ports() as int,
            );
        }
        let n = targets.len();
        let mut back: Vec<SP> = Vec::new();
        let mut right: Vec<SP> = Vec::new();
        let mut front: Vec<SP> = Vec::new();
        let mut left: Vec<SP> = Vec::new();
        let mut i: usize = 0;
        while i < n
            invariant
                self.wf(),
                targets@ == tseq,
                n == tseq.len(),
                w == self.spec_size().0,
                h == self.spec_size().1,
                offset == facing_offset(direction),
                forall|k: int|
                    0 <= k < n ==> ((#[trigger] tseq[k]).1).0 < self.spec_port_map().len(),
                0 <= i <= n,
                back@ == spec_brfl_bucket(
                    tseq.subrange(0, i as int),
                    self.spec_port_map(),
                    w as int,
                    h as int,
                    offset as int,
                    0,
                ),
                right@ == spec_brfl_bucket(
                    tseq.subrange(0, i as int),
                    self.spec_port_map(),
                    w as int,
                    h as int,
                    offset as int,
                    1,
                ),
                front@ == spec_brfl_bucket(
                    tseq.subrange(0, i as int),
                    self.spec_port_map(),
                    w as int,
                    h as int,
                    offset as int,
                    2,
                ),
                left@ == spec_brfl_bucket(
                    tseq.subrange(0, i as int),
                    self.spec_port_map(),
                    w as int,
                    h as int,
                    offset as int,
                    3,
                ),
            decreases n - i,
        {
            let t = targets[i];
            proof {
                assert(tseq.subrange(0, i + 1).drop_last() =~= tseq.subrange(0, i as int));
                assert(tseq.subrange(0, i + 1).last() == tseq[i as int]);
            }
            let (_, tp) = t;
            let idx = self.port_map[tp.0];
            let arc: usize = if idx < w {
                0
            } else if idx < w + h {
                1
            } else if idx < w + h + w {
                2
            } else {
                3
            };
            let bucket = (arc + offset) % 4;
            if bucket == 0 {
                back.push(t);
            } else if bucket == 1 {
                right.push(t);
            } else if bucket == 2 {
                front.push(t);
            } else {
                left.push(t);
            }
            i = i + 1;
        }
        proof {
            assert(tseq.subrange(0, n as int) =~= tseq);
        }
        (back, right, front, left)
    }
}

impl GridItem for Gadget {
    open spec fn reorientable(self) -> bool {
        self.wf()
    }

    open spec fn rotated_in_grid(self, turns: int, r: Self) -> bool {
        let m = rotated_gadget(
            self.spec_port_map(),
            self.spec_size().0 as int,
            self.spec_size().1 as int,
            (turns % 4) as nat,
        );
        &&& r.spec_port_map() == m.0
        &&& r.spec_size().0 as int == m.1
        &&& r.spec_size().1 as int == m.2
        &&& r.spec_def() == self.spec_def()
        &&& r.spec_state() == self.spec_state()
        &&& r.spec_name() == self.spec_name()
    }

    open spec fn flipped_x_in_grid(self, r: Self) -> bool {
        &&& r.spec_port_map() == flipped_ports_x(
            self.spec_port_map(),
            self.spec_size().0 as int,
            self.spec_perimeter(),
        )
        &&& r.spec_size() == self.spec_size()
        &&& r.spec_def() == self.spec_def()
        &&& r.spec_state() == self.spec_state()
        &&& r.spec_name() == self.spec_name()
    }

    open spec fn flipped_y_in_grid(self, r: Self) -> bool {
        &&& r.spec_port_map() == flipped_ports_y(
            self.spec_port_map(),
            self.spec_size().1 as int,
            self.spec_perimeter(),
        )
        &&& r.spec_size() == self.spec_size()
        &&& r.spec_def() == self.spec_def()
        &&& r.spec_state() == self.spec_state()
        &&& r.spec_name() == self.spec_name()
    }

    fn rotate_in_grid(self, turns: isize) -> (r: Self) {
        let t: i32 = turns.checked_rem_euclid(4).unwrap() as i32;
        let mut g = self;
        g.rotate(t);
        proof {
            vstd::arithmetic::div_mod::lemma_small_mod((t as int) as nat, 4nat);
        }
        g
    }

    fn flip_x_in_grid(self) -> (r: Self) {
        let mut g = self;
        g.flip_ports_x();
        g
    }

    fn flip_y_in_grid(self) -> (r: Self) {
        let mut g = self;
        g.flip_ports_y();
        g
    }
}

} // verus!
