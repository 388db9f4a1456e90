use vstd::prelude::*;
use crate::animation::PlayerAnimationMachineInput;
use crate::player::PlayerState;
use crate::scalar::Scalar;

verus! {

/// What one player does in one tick, for the scene to carry out.
#[derive(Clone, Copy, PartialEq, Eq, Debug, Structural)]
pub struct PlayerStep {
    /// The jet pushes the player up.
    pub thrust: bool,
    /// The player leaves the ground.
    pub jump: bool,
    /// The weapon goes off.
    pub fire: bool,
    /// What the animation is told.
    pub animation: PlayerAnimationMachineInput,
    /// The fuel to show to the user, where this is the player of the user.
    pub show_fuel: Option<u32>,
}

/// Something for the scene to do. The core writes these down in the order in
/// which they are to be done.
#[derive(Clone, Copy, PartialEq, Eq, Debug, Structural)]
pub enum Effect {
    /// Take the body of this player out of the scene.
    RemovePlayer { index: u32 },
    /// Take the scene of the level away.
    RemoveScene,
    /// Take the node of this index out of the scene, if it is there.
    RemoveNode { index: u32 },
    /// Put a body for this player into the scene.
    SpawnPlayer { index: u32, state: PlayerState, current_player: bool },
    /// Start or stop looking through the eyes of this player.
    SetCamera { index: u32, enabled: bool },
    /// Make this player look this way.
    SetOrientation { index: u32, yaw: Scalar, pitch: Scalar },
    /// Turn this player: take `yaw_delta` from its yaw and add `pitch_delta`
    /// to its pitch, which stays between straight down and straight up.
    Turn { index: u32, yaw_delta: Scalar, pitch_delta: Scalar },
    /// Tell the user that this player is out.
    Announce { index: u32 },
    /// Carry out what this player does in this tick.
    Step { index: u32, step: PlayerStep },
    /// Start to load the level that the game is waiting for under this ticket.
    LoadLevel { ticket: u64 },
    /// Put the scene that was loaded under this ticket in place.
    InstallLevel { ticket: u64 },
}

} // verus!
