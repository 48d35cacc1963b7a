use std::rc::Rc;

use gadget_core::gadget::{Gadget, GadgetDef, Port, State, SPSP};
use gadget_core::grid::{MAX_COORD, MAX_SIDE};
use gadget_core::persist::{Error, GadgetGridSerde, GadgetSerde};
use gadget_core::preset_gadgets::preset_gadgets;
use gadget_core::ui::{LeftMouseAction, Mode};

fn trav(s0: usize, p0: usize, s1: usize, p1: usize) -> SPSP {
    ((State(s0), Port(p0)), (State(s1), Port(p1)))
}

/// Panics with a human-readable message for each class of rejection, so the
/// should-panic tests can match on it the way a deserializer's caller would.
fn assert_gadget_grid_serde_valid(grid: GadgetGridSerde) {
    if let Err(e) = grid.validate() {
        match e {
            Error::InvalidDef(i) => panic!("Gadget def {} is not valid", i),
            Error::DefOutOfBounds(i) => {
                panic!("Gadget {} is not valid because its def is out of bounds", i)
            }
            Error::SizeNotPositive(i) => {
                panic!("Gadget {} is not valid because its size is not positive", i)
            }
            Error::SizeTooLarge(i) => {
                panic!("Gadget {} is not valid because its size is too large", i)
            }
            Error::PositionOutOfBounds(i) => {
                panic!("Gadget {} is not valid because its position is out of bounds", i)
            }
            Error::StateOutOfBounds(i) => {
                panic!("Gadget {} is not valid because its state is out of bounds", i)
            }
            Error::PortMapWrongSize(i) => {
                panic!("Gadget {} is not valid because its port map is not the right size", i)
            }
            Error::PortMapOutOfBounds(i) => {
                panic!(
                    "Gadget {} is not valid because a port position index is out of bounds",
                    i
                )
            }
            Error::PortMapNotOneToOne(i) => {
                panic!("Gadget {} is not valid because 2 ports map to the same position", i)
            }
        }
    }
}

fn one_gadget_grid(gadget: GadgetSerde) -> GadgetGridSerde {
    GadgetGridSerde { defs: vec![GadgetDef::new(2, 3)], gadgets: vec![(gadget, (1, -1))] }
}

#[test]
fn test_gadget_grid_serde_valid() {
    let grid = one_gadget_grid(GadgetSerde {
        def: 0,
        size: (1, 1),
        port_map: vec![0, 3, 1],
        state: State(1),
    });
    assert_gadget_grid_serde_valid(grid);
}

#[test]
#[should_panic(expected = "is not valid because its def is out of bounds")]
fn test_gadget_grid_serde_invalid_out_of_bounds_def() {
    let grid = one_gadget_grid(GadgetSerde {
        def: 1,
        size: (1, 1),
        port_map: vec![0, 3, 1],
        state: State(1),
    });
    assert_gadget_grid_serde_valid(grid);
}

#[test]
#[should_panic(expected = "is not valid because its size is not positive")]
fn test_gadget_grid_serde_invalid_zero_width() {
    let grid = one_gadget_grid(GadgetSerde {
        def: 0,
        size: (0, 1),
        port_map: vec![0, 3, 1],
        state: State(1),
    });
    assert_gadget_grid_serde_valid(grid);
}

#[test]
#[should_panic(expected = "is not valid because its size is not positive")]
fn test_gadget_grid_serde_invalid_zero_height() {
    let grid = one_gadget_grid(GadgetSerde {
        def: 0,
        size: (1, 0),
        port_map: vec![0, 3, 1],
        state: State(1),
    });
    assert_gadget_grid_serde_valid(grid);
}

#[test]
#[should_panic(expected = "is not valid because its state is out of bounds")]
fn test_gadget_grid_serde_invalid_out_of_bounds_state() {
    let grid = one_gadget_grid(GadgetSerde {
        def: 0,
        size: (1, 1),
        port_map: vec![0, 3, 1],
        state: State(2),
    });
    assert_gadget_grid_serde_valid(grid);
}

#[test]
#[should_panic(expected = "is not valid because its port map is not the right size")]
fn test_gadget_grid_serde_invalid_port_map_small() {
    let grid = one_gadget_grid(GadgetSerde {
        def: 0,
        size: (1, 1),
        port_map: vec![0, 3],
        state: State(1),
    });
    assert_gadget_grid_serde_valid(grid);
}

#[test]
#[should_panic(expected = "is not valid because its port map is not the right size")]
fn test_gadget_grid_serde_invalid_port_map_big() {
    let grid = one_gadget_grid(GadgetSerde {
        def: 0,
        size: (1, 1),
        port_map: vec![0, 3, 1, 2],
        state: State(1),
    });
    assert_gadget_grid_serde_valid(grid);
}

#[test]
#[should_panic(expected = "is not valid because a port position index is out of bounds")]
fn test_gadget_grid_serde_invalid_port_map_out_of_bounds() {
    let grid = one_gadget_grid(GadgetSerde {
        def: 0,
        size: (1, 1),
        port_map: vec![0, 4, 1],
        state: State(1),
    });
    assert_gadget_grid_serde_valid(grid);
}

#[test]
#[should_panic(expected = "is not valid because 2 ports map to the same position")]
fn test_gadget_grid_serde_invalid_port_map_not_one_to_one() {
    let grid = one_gadget_grid(GadgetSerde {
        def: 0,
        size: (1, 1),
        port_map: vec![0, 3, 3],
        state: State(1),
    });
    assert_gadget_grid_serde_valid(grid);
}

#[test]
fn test_validate_reports_invalid_def() {
    let grid = GadgetGridSerde {
        defs: vec![GadgetDef::new(1, 0), GadgetDef::new(0, 3)],
        gadgets: vec![],
    };
    assert_eq!(grid.validate().unwrap_err(), Error::InvalidDef(1));
}

#[test]
fn test_validate_reports_gadget_index() {
    let ok = GadgetSerde { def: 0, size: (1, 1), port_map: vec![0, 3, 1], state: State(1) };
    let bad = GadgetSerde { def: 0, size: (1, 1), port_map: vec![0, 3, 3], state: State(1) };
    let grid = GadgetGridSerde {
        defs: vec![GadgetDef::new(2, 3)],
        gadgets: vec![(ok, (0, 0)), (bad, (5, 5))],
    };
    assert_eq!(grid.validate().unwrap_err(), Error::PortMapNotOneToOne(1));
}

#[test]
fn test_validate_rejects_oversized_gadget() {
    let grid = one_gadget_grid(GadgetSerde {
        def: 0,
        size: (MAX_SIDE + 1, 1),
        port_map: vec![0, 3, 1],
        state: State(1),
    });
    assert_eq!(grid.validate().unwrap_err(), Error::SizeTooLarge(0));
}

#[test]
fn test_validate_rejects_far_position() {
    let gadget = GadgetSerde { def: 0, size: (1, 1), port_map: vec![0, 3, 1], state: State(1) };
    let grid = GadgetGridSerde {
        defs: vec![GadgetDef::new(2, 3)],
        gadgets: vec![(gadget, (MAX_COORD, 0))],
    };
    assert_eq!(grid.validate().unwrap_err(), Error::PositionOutOfBounds(0));
}

#[test]
fn test_from_serializable() {
    let defs = vec![Rc::new(GadgetDef::from_traversals(2, 2, vec![trav(0, 0, 1, 1)]))];
    let serde = GadgetSerde { def: 0, size: (1, 1), port_map: vec![0, 2], state: State(1) };

    let gadget = Gadget::from_serializable(serde, &defs);

    assert_eq!(gadget.size(), (1, 1));
    assert_eq!(gadget.state(), State(1));
    assert_eq!(gadget.port_map(), &vec![0, 2]);
    assert_eq!(gadget.def().num_ports(), 2);
}

#[test]
fn test_preset_gadgets_palette() {
    let presets = preset_gadgets();
    assert_eq!(presets.len(), 22);
    assert_eq!(presets[0].name(), "Nope");
    assert_eq!(presets[1].name(), "Straight");
    assert_eq!(presets[21].name(), "Door");
    assert_eq!(presets[21].size(), (2, 1));
    for gadget in &presets {
        let (w, h) = gadget.size();
        for idx in gadget.port_map() {
            assert!(*idx < 2 * (w + h));
        }
    }
}

#[test]
fn test_mode_values() {
    assert_ne!(Mode::Play, Mode::Select);
    assert_eq!(Mode::Idle, Mode::Idle);
    assert_ne!(LeftMouseAction::Pan, LeftMouseAction::Zoom);
}
