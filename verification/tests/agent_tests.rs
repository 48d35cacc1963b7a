use std::rc::Rc;

use gadget_core::agent::Agent;
use gadget_core::gadget::{Gadget, GadgetDef, Port, State, SPSP};
use gadget_core::grid::Grid;
use gadget_core::math::vec2;

fn tv(s0: usize, p0: usize, s1: usize, p1: usize) -> SPSP {
    ((State(s0), Port(p0)), (State(s1), Port(p1)))
}

#[test]
fn test_agent_end_to_end() {
    // A 1x1 gadget whose single traversal goes from port 0 (bottom) to
    // port 1 (top) without changing state.
    let def = Rc::new(GadgetDef::from_traversals(1, 2, vec![tv(0, 0, 0, 1)]));
    let gadget = Gadget::new(&def, (1, 1), vec![0, 2], State(0));
    let mut grid = Grid::new();
    grid.insert(gadget, vec2(0, 0), (1, 1));

    // Agent at doubled position (1, 0) — the bottom edge midpoint — facing
    // north, asked to go forward.
    let mut agent = Agent::new(vec2(1, 0), vec2(0, 1));
    let result = agent.advance(&mut grid, vec2(0, 1));

    assert_eq!(result, Some((vec2(0, 0), State(0))));
    assert_eq!(agent.position(), vec2(1, 2));
    assert_eq!(agent.direction(), vec2(0, 1));
    assert_eq!(grid.get(vec2(0, 0)).unwrap().0.state(), State(0));
}

#[test]
fn test_agent_turn_around_only_flips() {
    let def = Rc::new(GadgetDef::from_traversals(1, 2, vec![tv(0, 0, 0, 1)]));
    let gadget = Gadget::new(&def, (1, 1), vec![0, 2], State(0));
    let mut grid = Grid::new();
    grid.insert(gadget, vec2(0, 0), (1, 1));

    let mut agent = Agent::new(vec2(1, 0), vec2(0, 1));
    // Input exactly opposite the facing: only the facing flips.
    let result = agent.advance(&mut grid, vec2(0, -1));

    assert_eq!(result, None);
    assert_eq!(agent.position(), vec2(1, 0));
    assert_eq!(agent.direction(), vec2(0, -1));
    assert_eq!(grid.get(vec2(0, 0)).unwrap().0.state(), State(0));
}

#[test]
fn test_agent_dead_end_changes_nothing() {
    // Port 0 sits at perimeter index 0 (bottom); the top edge has no port.
    let def = Rc::new(GadgetDef::from_traversals(1, 1, vec![tv(0, 0, 0, 0)]));
    let gadget = Gadget::new(&def, (1, 1), vec![0], State(0));
    let mut grid = Grid::new();
    grid.insert(gadget, vec2(0, 0), (1, 1));

    // Standing at the top edge facing south: the touched perimeter index (2)
    // maps to no port.
    let mut agent = Agent::new(vec2(1, 2), vec2(0, -1));
    let result = agent.advance(&mut grid, vec2(0, -1));

    assert_eq!(result, None);
    assert_eq!(agent.position(), vec2(1, 2));
    assert_eq!(agent.direction(), vec2(0, -1));
    assert_eq!(grid.get(vec2(0, 0)).unwrap().0.state(), State(0));
}

#[test]
fn test_agent_no_gadget_changes_nothing() {
    let mut grid: Grid<Gadget> = Grid::new();
    let mut agent = Agent::new(vec2(1, 0), vec2(0, 1));

    let result = agent.advance(&mut grid, vec2(0, 1));

    assert_eq!(result, None);
    assert_eq!(agent.position(), vec2(1, 0));
    assert_eq!(agent.direction(), vec2(0, 1));
    assert!(grid.is_empty());
}

#[test]
fn test_agent_toggle_changes_state() {
    // A toggle: entering port 0 in state 0 exits at port 1 leaving state 1.
    let def = Rc::new(GadgetDef::from_traversals(2, 2, vec![tv(0, 0, 1, 1), tv(1, 1, 0, 0)]));
    let gadget = Gadget::new(&def, (1, 1), vec![0, 2], State(0));
    let mut grid = Grid::new();
    grid.insert(gadget, vec2(0, 0), (1, 1));

    let mut agent = Agent::new(vec2(1, 0), vec2(0, 1));
    let result = agent.advance(&mut grid, vec2(0, 1));

    assert_eq!(result, Some((vec2(0, 0), State(0))));
    assert_eq!(agent.position(), vec2(1, 2));
    assert_eq!(agent.direction(), vec2(0, 1));
    assert_eq!(grid.get(vec2(0, 0)).unwrap().0.state(), State(1));

    // Going forward again from the top edge: in state 1 only port 1 has an
    // exit, back through port 0.
    let result = agent.advance(&mut grid, vec2(0, 1));
    assert_eq!(result, None);
    assert_eq!(agent.position(), vec2(1, 2));
}

#[test]
fn test_agent_left_turn_uses_left_bucket() {
    // A 1x1 gadget: entering the bottom port exits at the left port.
    let def = Rc::new(GadgetDef::from_traversals(1, 2, vec![tv(0, 0, 0, 1)]));
    let gadget = Gadget::new(&def, (1, 1), vec![0, 3], State(0));
    let mut grid = Grid::new();
    grid.insert(gadget, vec2(0, 0), (1, 1));

    let mut agent = Agent::new(vec2(1, 0), vec2(0, 1));
    // Facing north, the left arc is the gadget's left edge; ask to turn left.
    let result = agent.advance(&mut grid, vec2(-1, 0));

    assert_eq!(result, Some((vec2(0, 0), State(0))));
    // Port 1 sits at perimeter index 3: the left edge midpoint (0, 0.5).
    assert_eq!(agent.position(), vec2(0, 1));
    assert_eq!(agent.direction(), vec2(-1, 0));
}

#[test]
fn test_agent_forward_ambiguity_picks_neither() {
    // From the bottom port both a left-edge and a right-edge exit are legal.
    let def = Rc::new(
        GadgetDef::from_traversals(1, 3, vec![tv(0, 0, 0, 1), tv(0, 0, 0, 2)]),
    );
    // Port 1 at the right edge (index 1), port 2 at the left edge (index 3).
    let gadget = Gadget::new(&def, (1, 1), vec![0, 1, 3], State(0));
    let mut grid = Grid::new();
    grid.insert(gadget, vec2(0, 0), (1, 1));

    let mut agent = Agent::new(vec2(1, 0), vec2(0, 1));
    // Going forward with a left and a right exit but no front or back exit:
    // the fixed policy deliberately picks neither.
    let result = agent.advance(&mut grid, vec2(0, 1));

    assert_eq!(result, None);
    assert_eq!(agent.position(), vec2(1, 0));
    assert_eq!(agent.direction(), vec2(0, 1));
}

#[test]
fn test_set_position_adjusts_direction() {
    let mut agent = Agent::new(vec2(1, 0), vec2(0, 1));

    // Moving to a vertical edge turns the facing a quarter turn.
    agent.set_position(vec2(0, 1));
    assert_eq!(agent.position(), vec2(0, 1));
    assert_eq!(agent.direction(), vec2(-1, 0));

    // Moving back to a horizontal edge turns it back.
    agent.set_position(vec2(1, 2));
    assert_eq!(agent.position(), vec2(1, 2));
    assert_eq!(agent.direction(), vec2(0, 1));

    // Staying on the same kind of edge leaves the facing alone.
    agent.set_position(vec2(5, 4));
    assert_eq!(agent.direction(), vec2(0, 1));
}

#[test]
fn test_agent_flip() {
    let mut agent = Agent::new(vec2(1, 0), vec2(0, 1));
    agent.flip();
    assert_eq!(agent.direction(), vec2(0, -1));
    assert_eq!(agent.position(), vec2(1, 0));
    agent.flip();
    assert_eq!(agent.direction(), vec2(0, 1));
}
