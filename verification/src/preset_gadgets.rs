//! The built-in palette of gadgets.
//!
//! Each preset pairs a shared [`GadgetDef`] with a placed [`Gadget`]
//! instance; every one is well-formed by construction.

use vstd::prelude::*;
use std::rc::Rc;
use crate::gadget::{Gadget, GadgetDef, Port, State, SPSP};

verus! {

/// One traversal `(s0, p0) -> (s1, p1)`, written with plain ids.
fn t(s0: usize, p0: usize, s1: usize, p1: usize) -> (r: SPSP)
    ensures
        r == ((State(s0), Port(p0)), (State(s1), Port(p1))),
{
    ((State(s0), Port(p0)), (State(s1), Port(p1)))
}

/// The built-in gadgets, in palette order; every one is well-formed.
pub fn preset_gadgets() -> (r: Vec<Gadget>)
    ensures
        r@.len() == 22,
        forall|i: int| 0 <= i < r@.len() ==> (#[trigger] r@[i]).wf(),
{
    let mut out: Vec<Gadget> = Vec::new();

    let def = Rc::new(GadgetDef::new(1, 0));
    out.push(Gadget::new(&def, (1, 1), vec![], State(0)).name_this("Nope"));

    let def = Rc::new(GadgetDef::from_traversals(1, 2, vec![t(0, 0, 0, 1), t(0, 1, 0, 0)]));
    out.push(Gadget::new(&def, (1, 1), vec![0, 2], State(0)).name_this("Straight"));
    out.push(Gadget::new(&def, (1, 1), vec![0, 1], State(0)).name_this("Turn"));

    let def = Rc::new(
        GadgetDef::from_traversals(
            1,
            4,
            vec![t(0, 0, 0, 1), t(0, 1, 0, 0), t(0, 2, 0, 3), t(0, 3, 0, 2)],
        ),
    );
    out.push(Gadget::new(&def, (1, 1), vec![0, 2, 1, 3], State(0)).name_this("Cross"));
    out.push(Gadget::new(&def, (1, 1), vec![0, 1, 2, 3], State(0)).name_this("2 turns"));

    let def = Rc::new(
        GadgetDef::from_traversals(
            1,
            3,
            vec![
                t(0, 0, 0, 1),
                t(0, 1, 0, 0),
                t(0, 1, 0, 2),
                t(0, 2, 0, 1),
                t(0, 2, 0, 0),
                t(0, 0, 0, 2),
            ],
        ),
    );
    out.push(Gadget::new(&def, (1, 1), vec![0, 1, 3], State(0)).name_this("3-way"));

    let def = Rc::new(
        GadgetDef::from_traversals(
            1,
            4,
            vec![
                t(0, 0, 0, 1),
                t(0, 1, 0, 0),
                t(0, 1, 0, 2),
                t(0, 2, 0, 1),
                t(0, 2, 0, 0),
                t(0, 0, 0, 2),
                t(0, 0, 0, 3),
                t(0, 3, 0, 0),
                t(0, 1, 0, 3),
                t(0, 3, 0, 1),
                t(0, 2, 0, 3),
                t(0, 3, 0, 2),
            ],
        ),
    );
    out.push(Gadget::new(&def, (1, 1), vec![0, 1, 2, 3], State(0)).name_this("4-way"));

    let def = Rc::new(GadgetDef::from_traversals(1, 2, vec![t(0, 0, 0, 1)]));
    out.push(Gadget::new(&def, (1, 1), vec![0, 2], State(0)).name_this("Diode"));

    let def = Rc::new(GadgetDef::from_traversals(2, 2, vec![t(0, 0, 1, 1), t(1, 1, 0, 0)]));
    out.push(Gadget::new(&def, (1, 1), vec![0, 2], State(0)).name_this("Toggle"));

    let def = Rc::new(GadgetDef::from_traversals(2, 2, vec![t(0, 0, 1, 1)]));
    out.push(Gadget::new(&def, (1, 1), vec![0, 2], State(0)).name_this("Directed crumbler"));

    let def = Rc::new(GadgetDef::from_traversals(2, 2, vec![t(0, 0, 1, 1), t(0, 1, 1, 0)]));
    out.push(Gadget::new(&def, (1, 1), vec![0, 2], State(0)).name_this("Crumbler"));

    let def = Rc::new(GadgetDef::from_traversals(2, 3, vec![t(0, 0, 1, 0), t(1, 1, 0, 2)]));
    out.push(Gadget::new(&def, (1, 1), vec![0, 3, 1], State(0)).name_this("Self-closing door"));

    let def = Rc::new(
        GadgetDef::from_traversals(
            2,
            4,
            vec![t(0, 0, 1, 1), t(1, 1, 0, 0), t(0, 2, 1, 3), t(1, 3, 0, 2)],
        ),
    );
    out.push(Gadget::new(&def, (1, 1), vec![0, 1, 2, 3], State(0)).name_this("2-toggle"));

    let def = Rc::new(
        GadgetDef::from_traversals(
            3,
            4,
            vec![t(0, 0, 1, 1), t(1, 1, 0, 0), t(0, 2, 2, 3), t(2, 3, 0, 2)],
        ),
    );
    out.push(Gadget::new(&def, (1, 1), vec![0, 1, 2, 3], State(0)).name_this("Locking 2-toggle"));

    let def = Rc::new(GadgetDef::from_traversals(2, 4, vec![t(0, 0, 1, 1), t(1, 2, 0, 3)]));
    out.push(
        Gadget::new(&def, (1, 1), vec![0, 1, 2, 3], State(0)).name_this("Mismatched dicrumblers"),
    );

    let def = Rc::new(
        GadgetDef::from_traversals(
            2,
            4,
            vec![t(0, 0, 1, 1), t(0, 1, 1, 0), t(1, 2, 0, 3), t(1, 3, 0, 2)],
        ),
    );
    out.push(
        Gadget::new(&def, (1, 1), vec![0, 1, 2, 3], State(0)).name_this("Mismatched crumblers"),
    );

    let def = Rc::new(GadgetDef::from_traversals(2, 4, vec![t(0, 0, 1, 1), t(0, 2, 1, 3)]));
    out.push(
        Gadget::new(&def, (1, 1), vec![0, 1, 2, 3], State(0)).name_this("Matched dicrumblers"),
    );

    let def = Rc::new(
        GadgetDef::from_traversals(
            2,
            4,
            vec![t(0, 0, 1, 1), t(0, 1, 1, 0), t(0, 2, 1, 3), t(0, 3, 1, 2)],
        ),
    );
    out.push(Gadget::new(&def, (1, 1), vec![0, 1, 2, 3], State(0)).name_this("Matched crumblers"));

    let def = Rc::new(
        GadgetDef::from_traversals(
            2,
            4,
            vec![t(0, 0, 1, 1), t(1, 1, 0, 0), t(0, 2, 0, 3), t(0, 3, 0, 2)],
        ),
    );
    out.push(Gadget::new(&def, (1, 1), vec![0, 1, 2, 3], State(0)).name_this("Toggle lock"));

    let def = Rc::new(
        GadgetDef::from_traversals(
            2,
            4,
            vec![
                t(0, 0, 1, 1),
                t(1, 1, 0, 0),
                t(0, 1, 1, 0),
                t(1, 0, 0, 1),
                t(0, 2, 0, 3),
                t(0, 3, 0, 2),
            ],
        ),
    );
    out.push(Gadget::new(&def, (1, 1), vec![0, 1, 2, 3], State(0)).name_this("Tripwire lock"));

    let def = Rc::new(
        GadgetDef::from_traversals(
            2,
            4,
            vec![
                t(0, 0, 1, 1),
                t(1, 1, 0, 0),
                t(0, 1, 1, 0),
                t(1, 0, 0, 1),
                t(0, 2, 1, 3),
                t(1, 3, 0, 2),
            ],
        ),
    );
    out.push(Gadget::new(&def, (1, 1), vec![0, 1, 2, 3], State(0)).name_this("Tripwire toggle"));

    let def = Rc::new(
        GadgetDef::from_traversals(
            2,
            6,
            vec![
                t(0, 0, 1, 1),
                t(0, 2, 0, 3),
                t(1, 0, 1, 1),
                t(1, 2, 0, 3),
                t(1, 4, 1, 5),
            ],
        ),
    );
    out.push(Gadget::new(&def, (2, 1), vec![4, 5, 1, 2, 0, 3], State(0)).name_this("Door"));

    out
}

} // verus!
