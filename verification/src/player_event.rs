use vstd::prelude::*;
use crate::scalar::Scalar;

verus! {

/// A point or a direction in the level.
#[derive(Clone, Copy, PartialEq, Eq, Debug, Structural)]
pub struct SerializableVector {
    pub x: Scalar,
    pub y: Scalar,
    pub z: Scalar,
}

impl SerializableVector {
    /// The origin.
    pub open spec fn spec_zero() -> SerializableVector {
        SerializableVector { x: Scalar::spec_zero(), y: Scalar::spec_zero(), z: Scalar::spec_zero() }
    }

    /// The origin.
    #[verifier::when_used_as_spec(spec_zero)]
    pub fn zero() -> (r: SerializableVector)
        ensures
            r == SerializableVector::spec_zero(),
    {
        SerializableVector { x: Scalar::zero(), y: Scalar::zero(), z: Scalar::zero() }
    }
}

/// What a peer is told about a player that enters the level.
#[derive(Clone, Copy, PartialEq, Eq, Debug, Structural)]
pub struct SerializablePlayerState {
    pub position: SerializableVector,
    pub velocity: SerializableVector,
    pub yaw: Scalar,
    pub pitch: Scalar,
    pub shoot: bool,
}

impl SerializablePlayerState {
    /// A player at rest at `position`, looking straight ahead.
    pub open spec fn spec_at(position: SerializableVector) -> SerializablePlayerState {
        SerializablePlayerState {
            position,
            velocity: SerializableVector::spec_zero(),
            yaw: Scalar::spec_zero(),
            pitch: Scalar::spec_zero(),
            shoot: false,
        }
    }

    /// A player at rest at `position`, looking straight ahead.
    #[verifier::when_used_as_spec(spec_at)]
    pub fn at(position: SerializableVector) -> (r: SerializablePlayerState)
        ensures
            r == SerializablePlayerState::spec_at(position),
    {
        SerializablePlayerState {
            position,
            velocity: SerializableVector::zero(),
            yaw: Scalar::zero(),
            pitch: Scalar::zero(),
            shoot: false,
        }
    }
}

/// The name the scene gives to a collider: a slot and the generation of its
/// occupant.
#[derive(Clone, Copy, PartialEq, Eq, Debug, Structural)]
pub struct ColliderHandle {
    pub index: u32,
    pub generation: u32,
}

impl ColliderHandle {
    /// The handle that names no collider.
    pub open spec fn spec_none() -> ColliderHandle {
        ColliderHandle { index: 0, generation: 0 }
    }

    /// The handle that names no collider.
    #[verifier::when_used_as_spec(spec_none)]
    pub fn none() -> (r: ColliderHandle)
        ensures
            r == ColliderHandle::spec_none(),
    {
        ColliderHandle { index: 0, generation: 0 }
    }
}

/// Something that happens to one player, or that one player does.
#[derive(Clone, Copy, PartialEq, Eq, Debug, Structural)]
pub enum PlayerEvent {
    ShootWeapon { index: u32, active: bool, yaw: Scalar, pitch: Scalar },
    MoveForward { index: u32, active: bool, yaw: Scalar, pitch: Scalar },
    MoveBackward { index: u32, active: bool, yaw: Scalar, pitch: Scalar },
    MoveLeft { index: u32, active: bool, yaw: Scalar, pitch: Scalar },
    MoveRight { index: u32, active: bool, yaw: Scalar, pitch: Scalar },
    /// The player starts or stops flying; `fuel` is what is left in the tank.
    MoveUp { index: u32, active: bool, fuel: u32 },
    Jump { index: u32, active: bool },
    LookAround { index: u32, yaw_delta: Scalar, pitch_delta: Scalar },
    /// The authoritative state of a player at `timestamp`.
    UpdateState {
        timestamp: Scalar,
        index: u32,
        position: SerializableVector,
        velocity: SerializableVector,
        yaw: Scalar,
        pitch: Scalar,
        shoot: bool,
        fuel: u32,
    },
    DestroyBlock { index: u32 },
    KillPlayer { index: u32 },
    KillPlayerFromIntersection { collider: ColliderHandle },
    SpawnPlayer { state: SerializablePlayerState, index: u32, current_player: bool },
}

impl PlayerEvent {
    /// Whether this is one of the intents that a client applies to itself at
    /// once and that the authoritative side only passes on: looking around and
    /// the four directions.
    pub open spec fn is_movement(self) -> bool {
        self is LookAround || self is MoveForward || self is MoveBackward || self is MoveLeft
            || self is MoveRight
    }

    /// The same event, said of player `index`.
    pub open spec fn spec_with_index(self, index: u32) -> PlayerEvent {
        match self {
            PlayerEvent::ShootWeapon { active, yaw, pitch, .. } => PlayerEvent::ShootWeapon {
                index,
                active,
                yaw,
                pitch,
            },
            PlayerEvent::MoveForward { active, yaw, pitch, .. } => PlayerEvent::MoveForward {
                index,
                active,
                yaw,
                pitch,
            },
            PlayerEvent::MoveBackward { active, yaw, pitch, .. } => PlayerEvent::MoveBackward {
                index,
                active,
                yaw,
                pitch,
            },
            PlayerEvent::MoveLeft { active, yaw, pitch, .. } => PlayerEvent::MoveLeft {
                index,
                active,
                yaw,
                pitch,
            },
            PlayerEvent::MoveRight { active, yaw, pitch, .. } => PlayerEvent::MoveRight {
                index,
                active,
                yaw,
                pitch,
            },
            PlayerEvent::MoveUp { active, fuel, .. } => PlayerEvent::MoveUp { index, active, fuel },
            PlayerEvent::Jump { active, .. } => PlayerEvent::Jump { index, active },
            PlayerEvent::LookAround { yaw_delta, pitch_delta, .. } => PlayerEvent::LookAround {
                index,
                yaw_delta,
                pitch_delta,
            },
            PlayerEvent::UpdateState {
                timestamp,
                position,
                velocity,
                yaw,
                pitch,
                shoot,
                fuel,
                ..
            } => PlayerEvent::UpdateState {
                timestamp,
                index,
                position,
                velocity,
                yaw,
                pitch,
                shoot,
                fuel,
            },
            PlayerEvent::DestroyBlock { .. } => PlayerEvent::DestroyBlock { index },
            PlayerEvent::KillPlayer { .. } => PlayerEvent::KillPlayer { index },
            PlayerEvent::KillPlayerFromIntersection { collider } => self,
            PlayerEvent::SpawnPlayer { state, current_player, .. } => PlayerEvent::SpawnPlayer {
                state,
                index,
                current_player,
            },
        }
    }

    /// The same event, said of player `index`.
    #[verifier::when_used_as_spec(spec_with_index)]
    pub fn with_index(self, index: u32) -> (r: PlayerEvent)
        ensures
            r == self.spec_with_index(index),
    {
        match self {
            PlayerEvent::ShootWeapon { active, yaw, pitch, .. } => PlayerEvent::ShootWeapon {
                index,
                active,
                yaw,
                pitch,
            },
            PlayerEvent::MoveForward { active, yaw, pitch, .. } => PlayerEvent::MoveForward {
                index,
                active,
                yaw,
                pitch,
            },
            PlayerEvent::MoveBackward { active, yaw, pitch, .. } => PlayerEvent::MoveBackward {
                index,
                active,
                yaw,
                pitch,
            },
            PlayerEvent::MoveLeft { active, yaw, pitch, .. } => PlayerEvent::MoveLeft {
                index,
                active,
                yaw,
                pitch,
            },
            PlayerEvent::MoveRight { active, yaw, pitch, .. } => PlayerEvent::MoveRight {
                index,
                active,
                yaw,
                pitch,
            },
            PlayerEvent::MoveUp { active, fuel, .. } => PlayerEvent::MoveUp { index, active, fuel },
            PlayerEvent::Jump { active, .. } => PlayerEvent::Jump { index, active },
            PlayerEvent::LookAround { yaw_delta, pitch_delta, .. } => PlayerEvent::LookAround {
                index,
                yaw_delta,
                pitch_delta,
            },
            PlayerEvent::UpdateState {
                timestamp,
                position,
                velocity,
                yaw,
                pitch,
                shoot,
                fuel,
                ..
            } => PlayerEvent::UpdateState {
                timestamp,
                index,
                position,
                velocity,
                yaw,
                pitch,
                shoot,
                fuel,
            },
            PlayerEvent::DestroyBlock { .. } => PlayerEvent::DestroyBlock { index },
            PlayerEvent::KillPlayer { .. } => PlayerEvent::KillPlayer { index },
            PlayerEvent::KillPlayerFromIntersection { collider } => self,
            PlayerEvent::SpawnPlayer { state, current_player, .. } => PlayerEvent::SpawnPlayer {
                state,
                index,
                current_player,
            },
        }
    }
}

} // verus!
