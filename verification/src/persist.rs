//! The untrusted-data boundary: plain serializable forms and their
//! validation.
//!
//! A saved grid arrives as a [`GadgetGridSerde`]: a list of gadget
//! definitions and, per placed gadget, an index into that list, a size, a
//! port map and a state, with an origin. Nothing here is trusted:
//! [`GadgetGridSerde::validate`] re-checks every structural invariant and
//! names the first violation, and only validated data reaches the
//! constructors.

use vstd::prelude::*;
use std::rc::Rc;
use crate::gadget::{Gadget, GadgetDef, State};
use crate::grid::{MAX_COORD, MAX_SIDE, WH};

verus! {

/// Why a saved grid was rejected; each variant carries the index of the
/// offending definition or gadget.
#[derive(Clone, Copy, Debug, Eq, PartialEq, Structural)]
pub enum Error {
    /// The definition at this index breaks [`GadgetDef::spec_valid`].
    InvalidDef(usize),
    /// The gadget at this index names a definition index out of bounds.
    DefOutOfBounds(usize),
    /// The gadget at this index has a zero width or height.
    SizeNotPositive(usize),
    /// The gadget at this index is wider or taller than [`MAX_SIDE`].
    SizeTooLarge(usize),
    /// The gadget at this index sits outside the coordinate bounds
    /// ([`MAX_COORD`]).
    PositionOutOfBounds(usize),
    /// The gadget at this index has a state outside its definition's bounds.
    StateOutOfBounds(usize),
    /// The gadget at this index has a port map whose length is not its
    /// definition's number of ports.
    PortMapWrongSize(usize),
    /// The gadget at this index maps a port outside its perimeter.
    PortMapOutOfBounds(usize),
    /// The gadget at this index maps two ports to the same position.
    PortMapNotOneToOne(usize),
}

/// Gadget that can be serialized and deserialized.
/// Instead of the gadget def, it contains an index
/// into a list of gadget defs.
/// No rendering info is stored.
#[derive(Debug)]
pub struct GadgetSerde {
    pub def: usize,
    pub size: WH,
    pub port_map: Vec<usize>,
    pub state: State,
}

/// A whole saved grid: definitions and placed gadgets with their origins.
#[derive(Debug)]
pub struct GadgetGridSerde {
    pub defs: Vec<GadgetDef>,
    pub gadgets: Vec<(GadgetSerde, (isize, isize))>,
}

/// The index of the first invalid definition at or after `i`, if any.
pub open spec fn first_invalid_def(defs: Seq<GadgetDef>, i: nat) -> Option<usize>
    decreases defs.len() - i when i <= defs.len()
{
    if i >= defs.len() {
        None
    } else if !defs[i as int].spec_valid() {
        Some(i as usize)
    } else {
        first_invalid_def(defs, i + 1)
    }
}

/// The first structural violation of the gadget `g` placed at `pos`, checked
/// in a fixed order, as the error naming gadget index `j`; `None` when the
/// gadget is sound.
pub open spec fn gadget_error(
    defs: Seq<GadgetDef>,
    g: GadgetSerde,
    pos: (isize, isize),
    j: usize,
) -> Option<Error> {
    if g.def >= defs.len() {
        Some(Error::DefOutOfBounds(j))
    } else if g.size.0 == 0 || g.size.1 == 0 {
        Some(Error::SizeNotPositive(j))
    } else if g.size.0 > MAX_SIDE || g.size.1 > MAX_SIDE {
        Some(Error::SizeTooLarge(j))
    } else if !(-MAX_COORD <= pos.0 && pos.0 + g.size.0 <= MAX_COORD && -MAX_COORD <= pos.1
        && pos.1 + g.size.1 <= MAX_COORD) {
        Some(Error::PositionOutOfBounds(j))
    } else if g.state.0 >= defs[g.def as int].spec_num_states() {
        Some(Error::StateOutOfBounds(j))
    } else if g.port_map@.len() != defs[g.def as int].spec_num_ports() {
        Some(Error::PortMapWrongSize(j))
    } else if exists|k: int|
        0 <= k < g.port_map@.len() && (#[trigger] g.port_map@[k]) >= 2 * (g.size.0 + g.size.1) {
        Some(Error::PortMapOutOfBounds(j))
    } else if exists|k: int, l: int|
        0 <= k < l < g.port_map@.len() && g.port_map@[k] == g.port_map@[l] {
        Some(Error::PortMapNotOneToOne(j))
    } else {
        None
    }
}

/// The first violation among the gadgets at or after index `j`, if any.
pub open spec fn first_gadget_error(
    defs: Seq<GadgetDef>,
    gadgets: Seq<(GadgetSerde, (isize, isize))>,
    j: nat,
) -> Option<Error>
    decreases gadgets.len() - j when j <= gadgets.len()
{
    if j >= gadgets.len() {
        None
    } else if gadget_error(defs, gadgets[j as int].0, gadgets[j as int].1, j as usize) is Some {
        gadget_error(defs, gadgets[j as int].0, gadgets[j as int].1, j as usize)
    } else {
        first_gadget_error(defs, gadgets, j + 1)
    }
}

impl GadgetGridSerde {
    /// The first violation anywhere in the saved grid: invalid definitions
    /// first, then the gadgets in order.
    pub open spec fn spec_first_error(&self) -> Option<Error> {
        match first_invalid_def(self.defs@, 0) {
            Some(i) => Some(Error::InvalidDef(i)),
            None => first_gadget_error(self.defs@, self.gadgets@, 0),
        }
    }

    /// Is a no-op if this is valid,
    /// but returns the first violation otherwise.
    pub fn validate(self) -> (r: Result<Self, Error>)
        ensures
            match r {
                Ok(out) => out == self && self.spec_first_error() is None,
                Err(e) => Some(e) == self.spec_first_error(),
            },
    {
        let nd = self.defs.len();
        let mut i: usize = 0;
        while i < nd
            invariant
                nd == self.defs@.len(),
                0 <= i <= nd,
                first_invalid_def(self.defs@, 0) == first_invalid_def(self.defs@, i as nat),
            decreases nd - i,
        {
            if !self.defs[i].is_valid() {
                return Err(Error::InvalidDef(i));
            }
            i = i + 1;
        }

        let ng = self.gadgets.len();
        let mut j: usize = 0;
        while j < ng
            invariant
                nd == self.defs@.len(),
                ng == self.gadgets@.len(),
                first_invalid_def(self.defs@, 0) is None,
                0 <= j <= ng,
                first_gadget_error(self.defs@, self.gadgets@, 0) == first_gadget_error(
                    self.defs@,
                    self.gadgets@,
                    j as nat,
                ),
            decreases ng - j,
        {
            let (g, pos) = &self.gadgets[j];
            if g.def >= nd {
                return Err(Error::DefOutOfBounds(j));
            }
            if g.size.0 == 0 || g.size.1 == 0 {
                return Err(Error::SizeNotPositive(j));
            }
            if g.size.0 > MAX_SIDE || g.size.1 > MAX_SIDE {
                return Err(Error::SizeTooLarge(j));
            }
            if !(-MAX_COORD <= pos.0 && pos.0 <= MAX_COORD - g.size.0 as isize && -MAX_COORD
                <= pos.1 && pos.1 <= MAX_COORD - g.size.1 as isize) {
                return Err(Error::PositionOutOfBounds(j));
            }
            if g.state.0 >= self.defs[g.def].num_states() {
                return Err(Error::StateOutOfBounds(j));
            }
            if g.port_map.len() != self.defs[g.def].num_ports() {
                return Err(Error::PortMapWrongSize(j));
            }
            let perimeter = 2 * (g.size.0 + g.size.1);
            if !ports_in_range(&g.port_map, perimeter) {
                return Err(Error::PortMapOutOfBounds(j));
            }
            if !ports_distinct(&g.port_map) {
                return Err(Error::PortMapNotOneToOne(j));
            }
            j = j + 1;
        }
        Ok(self)
    }
}

/// Whether every entry of `pm` is below `bound`.
fn ports_in_range(pm: &Vec<usize>, bound: usize) -> (r: bool)
    ensures
        r == forall|k: int| 0 <= k < pm@.len() ==> (#[trigger] pm@[k]) < bound,
{
    let n = pm.len();
    let mut k: usize = 0;
    while k < n
        invariant
            n == pm@.len(),
            0 <= k <= n,
            forall|m: int| 0 <= m < k ==> (#[trigger] pm@[m]) < bound,
        decreases n - k,
    {
        if pm[k] >= bound {
            return false;
        }
        k = k + 1;
    }
    true
}

/// Whether no two entries of `pm` are equal.
fn ports_distinct(pm: &Vec<usize>) -> (r: bool)
    ensures
        r == forall|k: int, l: int| 0 <= k < l < pm@.len() ==> pm@[k] != pm@[l],
{
    let n = pm.len();
    let mut k: usize = 0;
    while k < n
        invariant
            n == pm@.len(),
            0 <= k <= n,
            forall|a: int, b: int| 0 <= a < b < k ==> pm@[a] != pm@[b],
        decreases n - k,
    {
        let mut l: usize = 0;
        while l < k
            invariant
                n == pm@.len(),
                0 <= l <= k < n,
                forall|a: int, b: int| 0 <= a < b < k ==> pm@[a] != pm@[b],
                forall|b: int| 0 <= b < l ==> pm@[b] != pm@[k as int],
            decreases k - l,
        {
            if pm[l] == pm[k] {
                return false;
            }
            l = l + 1;
        }
        k = k + 1;
    }
    true
}

impl Gadget {
    /// Reconstructs a gadget from its validated serializable form: the data
    /// must have passed [`GadgetGridSerde::validate`] against these
    /// definitions.
    pub fn from_serializable(gadget: GadgetSerde, defs: &Vec<Rc<GadgetDef>>) -> (g: Gadget)
        requires
            gadget.def < defs@.len(),
            (*defs@[gadget.def as int]).spec_valid(),
            0 < gadget.size.0 <= MAX_SIDE,
            0 < gadget.size.1 <= MAX_SIDE,
            gadget.state.0 < (*defs@[gadget.def as int]).spec_num_states(),
            gadget.port_map@.len() == (*defs@[gadget.def as int]).spec_num_ports(),
            forall|i: int|
                0 <= i < gadget.port_map@.len() ==> (#[trigger] gadget.port_map@[i]) < 2 * (
                gadget.size.0 + gadget.size.1),
            forall|i: int, j: int|
                0 <= i < j < gadget.port_map@.len() ==> gadget.port_map@[i]
                    != gadget.port_map@[j],
        ensures
            g.wf(),
            g.spec_def() == *defs@[gadget.def as int],
            g.spec_size() == gadget.size,
            g.spec_port_map() == gadget.port_map@,
            g.spec_state() == gadget.state,
    {
        Gadget::new(&defs[gadget.def], gadget.size, gadget.port_map, gadget.state)
    }
}

} // verus!
