use std::collections::HashSet;
use std::rc::Rc;

use gadget_core::gadget::{Gadget, GadgetDef, Port, State, PP, SP, SPSP};
use gadget_core::math::vec2;

fn tr(s0: usize, p0: usize, s1: usize, p1: usize) -> SPSP {
    ((State(s0), Port(p0)), (State(s1), Port(p1)))
}

fn sp(s: usize, p: usize) -> SP {
    (State(s), Port(p))
}

fn assert_gadget_def_valid(def: &GadgetDef) {
    assert!(def.is_valid(), "Gadget def {:?} is not valid", def);
}

#[test]
fn test_nope() {
    let def = GadgetDef::new(4, 3);
    assert_eq!(3, def.num_ports());
    assert_eq!(4, def.num_states());
    assert_eq!(0, def.traversals().len());
}

#[test]
fn test_from_traversals() {
    let def = GadgetDef::from_traversals(2, 2, vec![tr(0, 0, 1, 1), tr(1, 1, 0, 0)]);
    assert_eq!(2, def.num_ports());
    assert_eq!(2, def.num_states());

    let expected = vec![tr(0, 0, 1, 1), tr(1, 1, 0, 0)].into_iter().collect::<HashSet<_>>();
    let result = def.traversals().iter().copied().collect::<HashSet<_>>();
    assert_eq!(result, expected);
}

#[test]
fn test_targets_from_state_port_empty() {
    let def = GadgetDef::from_traversals(2, 2, vec![tr(0, 0, 1, 1), tr(1, 1, 0, 0)]);

    let expected: HashSet<SP> = HashSet::new();
    let result = def.targets_from_state_port(sp(0, 1)).into_iter().collect::<HashSet<_>>();
    assert_eq!(result, expected);
}

#[test]
fn test_targets_from_state_port_one() {
    let def = GadgetDef::from_traversals(2, 2, vec![tr(0, 0, 1, 1), tr(1, 1, 0, 0)]);

    let expected = vec![sp(0, 0)].into_iter().collect::<HashSet<_>>();
    let result = def.targets_from_state_port(sp(1, 1)).into_iter().collect::<HashSet<_>>();
    assert_eq!(result, expected);
}

#[test]
fn test_targets_from_state_port_multiple() {
    let def = GadgetDef::from_traversals(2, 2, vec![tr(0, 0, 1, 1), tr(0, 0, 0, 1)]);

    let expected = vec![sp(1, 1), sp(0, 1)].into_iter().collect::<HashSet<_>>();
    let result = def.targets_from_state_port(sp(0, 0)).into_iter().collect::<HashSet<_>>();
    assert_eq!(result, expected);
}

#[test]
fn test_port_traversals_in_state_empty() {
    let def = GadgetDef::from_traversals(
        4,
        4,
        vec![tr(0, 0, 1, 1), tr(2, 0, 3, 1), tr(0, 2, 2, 3), tr(1, 2, 3, 3)],
    );

    let expected: HashSet<PP> = HashSet::new();
    let result = def.port_traversals_in_state(State(3)).into_iter().collect::<HashSet<_>>();
    assert_eq!(result, expected);
}

#[test]
fn test_port_traversals_in_state_one() {
    let def = GadgetDef::from_traversals(
        4,
        4,
        vec![tr(0, 0, 1, 1), tr(2, 0, 3, 1), tr(0, 2, 2, 3), tr(1, 2, 3, 3)],
    );

    let expected = vec![(Port(2), Port(3))].into_iter().collect::<HashSet<_>>();
    let result = def.port_traversals_in_state(State(1)).into_iter().collect::<HashSet<_>>();
    assert_eq!(result, expected);
}

#[test]
fn test_port_traversals_in_state_multiple() {
    let def = GadgetDef::from_traversals(
        4,
        4,
        vec![tr(0, 0, 1, 1), tr(2, 0, 3, 1), tr(0, 2, 2, 3), tr(1, 2, 3, 3)],
    );

    let expected = vec![(Port(0), Port(1)), (Port(2), Port(3))].into_iter().collect::<HashSet<_>>();
    let result = def.port_traversals_in_state(State(0)).into_iter().collect::<HashSet<_>>();
    assert_eq!(result, expected);
}

#[test]
fn test_gadget_def_valid() {
    let def = GadgetDef::new(1, 0);
    assert_gadget_def_valid(&def);

    let def = GadgetDef::from_traversals(2, 3, vec![tr(0, 0, 1, 1), tr(1, 2, 0, 0)]);
    assert_gadget_def_valid(&def);

    let def = GadgetDef::from_traversals(3, 2, vec![tr(0, 0, 1, 1), tr(2, 1, 0, 0)]);
    assert_gadget_def_valid(&def);
}

#[test]
#[should_panic(expected = "is not valid")]
fn test_gadget_def_invalid_no_states() {
    let def = GadgetDef::new(0, 3);
    assert_gadget_def_valid(&def);
}

#[test]
#[should_panic(expected = "is not valid")]
fn test_gadget_def_out_of_bounds_state() {
    let def = GadgetDef::from_traversals(2, 3, vec![tr(0, 0, 1, 1), tr(2, 1, 0, 0)]);
    assert_gadget_def_valid(&def);
}

#[test]
#[should_panic(expected = "is not valid")]
fn test_gadget_def_out_of_bounds_port() {
    let def = GadgetDef::from_traversals(3, 2, vec![tr(0, 0, 1, 1), tr(1, 2, 0, 0)]);
    assert_gadget_def_valid(&def);
}

#[test]
fn test_port_id() {
    assert_eq!(Port(3).id(), 3);
    assert_eq!(State(2).id(), 2);
}

#[test]
fn test_port_lookup() {
    let def = Rc::new(GadgetDef::new(1, 2));
    let gadget = Gadget::new(&def, (1, 1), vec![0, 2], State(0));
    assert_eq!(gadget.port(0), Some(Port(0)));
    assert_eq!(gadget.port(2), Some(Port(1)));
    assert_eq!(gadget.port(1), None);
    assert_eq!(gadget.port(3), None);
    assert_eq!(gadget.perimeter(), 4);
    assert_eq!(gadget.size(), (1, 1));
    assert_eq!(gadget.def().num_ports(), 2);
}

#[test]
fn test_port_positions_doubled() {
    let def = Rc::new(GadgetDef::new(1, 2));
    let gadget = Gadget::new(&def, (1, 1), vec![0, 2], State(0));
    // Bottom midpoint (0.5, 0) and top midpoint (0.5, 1), doubled.
    assert_eq!(gadget.port_positions(), vec![vec2(1, 0), vec2(1, 2)]);

    let def = Rc::new(GadgetDef::new(1, 6));
    let gadget = Gadget::new(&def, (2, 1), vec![0, 1, 2, 3, 4, 5], State(0));
    assert_eq!(
        gadget.port_positions(),
        vec![vec2(1, 0), vec2(3, 0), vec2(4, 1), vec2(3, 2), vec2(1, 2), vec2(0, 1)]
    );
}

#[test]
fn test_rotate_ports() {
    let def = Rc::new(GadgetDef::new(1, 2));
    let mut gadget = Gadget::new(&def, (1, 1), vec![0, 2], State(0));
    gadget.rotate_ports(1);
    assert_eq!(gadget.port_map(), &vec![1, 3]);
    gadget.rotate_ports(-1);
    assert_eq!(gadget.port_map(), &vec![0, 2]);
    gadget.rotate_ports(5);
    assert_eq!(gadget.port_map(), &vec![1, 3]);
}

#[test]
fn test_gadget_rotate_swaps_size() {
    let def = Rc::new(GadgetDef::new(1, 6));
    let mut gadget = Gadget::new(&def, (2, 1), vec![0, 1, 2, 3, 4, 5], State(0));
    gadget.rotate(1);
    assert_eq!(gadget.size(), (1, 2));
    // Each port shifted one space (the old height) along the perimeter.
    assert_eq!(gadget.port_map(), &vec![1, 2, 3, 4, 5, 0]);
}

#[test]
fn test_flip_ports() {
    let def = Rc::new(GadgetDef::new(1, 2));
    let mut gadget = Gadget::new(&def, (1, 1), vec![0, 1], State(0));
    gadget.flip_ports_x();
    assert_eq!(gadget.port_map(), &vec![0, 3]);

    let mut gadget = Gadget::new(&def, (1, 1), vec![0, 1], State(0));
    gadget.flip_ports_y();
    assert_eq!(gadget.port_map(), &vec![2, 1]);
}

#[test]
fn test_twist_bottom_right() {
    let def = Rc::new(GadgetDef::new(1, 2));
    let mut gadget = Gadget::new(&def, (1, 1), vec![0, 2], State(0));
    gadget.twist_bottom_right();
    assert_eq!(gadget.port_map(), &vec![1, 2]);
    gadget.twist_bottom_right();
    assert_eq!(gadget.port_map(), &vec![0, 2]);
}

#[test]
fn test_cycle_state() {
    let def = Rc::new(GadgetDef::new(3, 0));
    let mut gadget = Gadget::new(&def, (1, 1), vec![], State(0));
    gadget.cycle_state();
    assert_eq!(gadget.state(), State(1));
    gadget.cycle_state();
    assert_eq!(gadget.state(), State(2));
    gadget.cycle_state();
    assert_eq!(gadget.state(), State(0));
}

#[test]
fn test_rotate_four_times_is_identity() {
    let def = Rc::new(GadgetDef::new(1, 3));
    let mut gadget = Gadget::new(&def, (2, 1), vec![0, 2, 5], State(0));
    gadget.rotate(4);
    assert_eq!(gadget.size(), (2, 1));
    assert_eq!(gadget.port_map(), &vec![0, 2, 5]);
}

#[test]
fn test_flip_twice_is_identity() {
    let def = Rc::new(GadgetDef::new(1, 3));
    let mut gadget = Gadget::new(&def, (2, 1), vec![0, 2, 5], State(0));
    gadget.flip_ports_x();
    gadget.flip_ports_x();
    assert_eq!(gadget.port_map(), &vec![0, 2, 5]);
    gadget.flip_ports_y();
    gadget.flip_ports_y();
    assert_eq!(gadget.port_map(), &vec![0, 2, 5]);
}

fn assert_port_map_injective_in_range(gadget: &Gadget) {
    let pm = gadget.port_map();
    let (w, h) = gadget.size();
    for (i, a) in pm.iter().enumerate() {
        assert!(*a < 2 * (w + h), "port position {} out of range", a);
        for b in pm.iter().skip(i + 1) {
            assert_ne!(*a, *b, "two ports map to the same position");
        }
    }
}

#[test]
fn test_port_map_stays_injective_under_transforms() {
    let def = Rc::new(GadgetDef::new(2, 4));
    let mut gadget = Gadget::new(&def, (2, 1), vec![0, 1, 3, 4], State(1));
    assert_port_map_injective_in_range(&gadget);
    gadget.rotate(1);
    assert_port_map_injective_in_range(&gadget);
    gadget.flip_ports_x();
    assert_port_map_injective_in_range(&gadget);
    gadget.twist_bottom_right();
    assert_port_map_injective_in_range(&gadget);
    gadget.flip_ports_y();
    assert_port_map_injective_in_range(&gadget);
    gadget.rotate(-3);
    assert_port_map_injective_in_range(&gadget);
    gadget.rotate_ports(7);
    assert_port_map_injective_in_range(&gadget);
}

#[test]
fn test_targets_brfl_buckets() {
    // A toggle: entering port 0 in state 0 leaves at port 1, toggling.
    let def = Rc::new(GadgetDef::from_traversals(2, 2, vec![tr(0, 0, 1, 1), tr(1, 1, 0, 0)]));
    let gadget = Gadget::new(&def, (1, 1), vec![0, 2], State(0));

    // Facing north, the exit at the top arc is "front".
    let (back, right, front, left) = gadget.targets_from_state_port_brfl(Port(0), vec2(0, 1));
    assert_eq!(back, vec![]);
    assert_eq!(right, vec![]);
    assert_eq!(front, vec![sp(1, 1)]);
    assert_eq!(left, vec![]);

    // Facing south, that same top-arc exit is "back".
    let (back, right, front, left) = gadget.targets_from_state_port_brfl(Port(0), vec2(0, -1));
    assert_eq!(back, vec![sp(1, 1)]);
    assert_eq!(right, vec![]);
    assert_eq!(front, vec![]);
    assert_eq!(left, vec![]);

    // No traversal leaves port 1 in state 0.
    let (back, right, front, left) = gadget.targets_from_state_port_brfl(Port(1), vec2(0, 1));
    assert_eq!(back, vec![]);
    assert_eq!(right, vec![]);
    assert_eq!(front, vec![]);
    assert_eq!(left, vec![]);
}

#[test]
fn test_name_this() {
    let def = Rc::new(GadgetDef::new(1, 0));
    let gadget = Gadget::new(&def, (1, 1), vec![], State(0)).name_this("Nope");
    assert_eq!(gadget.name(), "Nope");
}

#[test]
fn test_dirty_flag() {
    let def = Rc::new(GadgetDef::new(2, 0));
    let mut gadget = Gadget::new(&def, (1, 1), vec![], State(0));
    assert!(gadget.is_dirty());
    gadget.clear_dirty();
    assert!(!gadget.is_dirty());
    gadget.cycle_state();
    assert!(gadget.is_dirty());
}
