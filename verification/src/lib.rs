//! The synchronisation core of a small multiplayer shooter.
//!
//! The core decides which actions of a client the authoritative side accepts,
//! what is relayed to whom, how queued events change the players of a level, when
//! state is replicated, and how a level is handed over once it has been loaded.
//! It never touches a socket, a clock or a scene graph. What it wants sent is
//! appended to the outbox of the [`network_manager::NetworkManager`]; what it
//! wants done to the scene is appended to a list of [`effect::Effect`]s; what it
//! needs to know about the scene is handed to it: what the bodies of the
//! players do as [`player::Observation`]s, and which blocks stand in a level
//! when the level has been loaded. Numbers with a fractional part are carried as
//! [`scalar::Scalar`]s and never computed with.

pub mod address;
pub mod animation;
pub mod applier;
pub mod effect;
pub mod game;
pub mod input;
pub mod level;
pub mod network_manager;
pub mod player;
pub mod player_event;
pub mod router;
pub mod scalar;
pub mod scheduler;
