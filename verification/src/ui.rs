//! Interaction-mode vocabulary shared with the host application.
//!
//! The simulation core itself never branches on these: they name the modes in
//! which the host drives it (placing gadgets, moving the agent in play mode,
//! selecting, panning), and which whole-grid transform or agent operation a
//! given input should reach.

use vstd::prelude::*;

verus! {

/// Mode of editing.
#[derive(Clone, Copy, Eq, PartialEq, Structural, Debug)]
pub enum Mode {
    Idle,
    TilePaint,
    AgentPlace,
    Play,
    Select,
    Pan,
    Zoom,
    GadgetMove,
    GadgetPaste,
}

/// Action to be done with the left mouse button.
#[derive(Clone, Copy, Eq, PartialEq, Structural, Debug)]
pub enum LeftMouseAction {
    Idle,
    Pan,
    Zoom,
}

} // verus!
