use vstd::prelude::*;
use crate::game::{world, Game, World};
use crate::level::position_of;
use crate::network_manager::{repeated, ManagerView, NetworkManager, NetworkMessage};
use crate::player::{player_message, PlayerView};
use crate::player_event::PlayerEvent;
use crate::scalar::Scalar;

verus! {

/// A key that the user can press.
#[derive(Clone, Copy, PartialEq, Eq, Debug, Structural)]
pub enum Key {
    W,
    S,
    A,
    D,
    Space,
    Other,
}

/// Something that the user does.
#[derive(Clone, Copy, PartialEq, Eq, Debug, Structural)]
pub enum InputEvent {
    /// A key goes down or comes up.
    Key { key: Key, pressed: bool },
    /// The left button of the mouse goes down or comes up.
    LeftButton { pressed: bool },
    /// The mouse moves; the deltas are what the move is worth in degrees.
    Motion { yaw_delta: Scalar, pitch_delta: Scalar },
    /// Anything else.
    Other,
}

impl World {
    /// The player of the user, where it is known and in the level.
    pub open spec fn local_player(self) -> Option<PlayerView> {
        match (self.net.player_index, self.game.level) {
            (Some(index), Some(level)) => match position_of(level.players, index) {
                Some(k) => Some(level.players[k]),
                None => None,
            },
            _ => None,
        }
    }

    /// The player of the user does something that is not waited for: the
    /// server is told once, in a packet that may get lost, and the event is
    /// queued here.
    pub open spec fn predicted(self, index: u32, event: PlayerEvent) -> World {
        self.asked(index, event).enqueued(event)
    }

    /// The player of the user wants to do something that the server has to
    /// grant: the server is told once, in a packet that may get lost.
    pub open spec fn asked(self, index: u32, event: PlayerEvent) -> World {
        self.sending(
            repeated(
                ManagerView::unreliable_to(self.net.server_addr, player_message(index, event)),
                1,
            ),
        )
    }

    /// What a key makes the player `p` of the user do.
    pub open spec fn keyed(self, p: PlayerView, key: Key, pressed: bool) -> World {
        let index = p.index;
        let yaw = p.body.yaw;
        let pitch = p.body.pitch;
        match key {
            Key::W => self.predicted(
                index,
                PlayerEvent::MoveForward { index, active: pressed, yaw, pitch },
            ),
            Key::S => self.predicted(
                index,
                PlayerEvent::MoveBackward { index, active: pressed, yaw, pitch },
            ),
            Key::A => self.predicted(
                index,
                PlayerEvent::MoveLeft { index, active: pressed, yaw, pitch },
            ),
            Key::D => self.predicted(
                index,
                PlayerEvent::MoveRight { index, active: pressed, yaw, pitch },
            ),
            Key::Space => self.asked(
                index,
                PlayerEvent::MoveUp { index, active: pressed, fuel: p.flight_fuel },
            ),
            Key::Other => self,
        }
    }

    /// What the left button makes the player `p` of the user do: the server is
    /// asked, in a packet that arrives, to let it shoot or stop shooting.
    pub open spec fn triggered(self, p: PlayerView, pressed: bool) -> World {
        self.sending(
            seq![
                self.net.reliable_to(
                    self.net.server_addr,
                    player_message(
                        p.index,
                        PlayerEvent::ShootWeapon {
                            index: p.index,
                            active: pressed,
                            yaw: p.body.yaw,
                            pitch: p.body.pitch,
                        },
                    ),
                ),
            ],
        )
    }

    /// What a client makes of something that the user does. Until the index of
    /// the player of the user is known and a level is in place, nothing; the
    /// authoritative side has no user.
    pub open spec fn input(self, event: InputEvent) -> World {
        if self.net.server || self.net.player_index is None || self.game.level is None {
            self
        } else {
            match event {
                InputEvent::Key { key, pressed } => match self.local_player() {
                    Some(p) => self.keyed(p, key, pressed),
                    None => self,
                },
                InputEvent::LeftButton { pressed } => match self.local_player() {
                    Some(p) => self.triggered(p, pressed),
                    None => self,
                },
                InputEvent::Motion { yaw_delta, pitch_delta } => self.predicted(
                    self.net.player_index->0,
                    PlayerEvent::LookAround {
                        index: self.net.player_index->0,
                        yaw_delta,
                        pitch_delta,
                    },
                ),
                InputEvent::Other => self,
            }
        }
    }
}

fn predict(game: &mut Game, network_manager: &mut NetworkManager, index: u32, event: PlayerEvent)
    ensures
        old(game).wf() ==> final(game).wf(),
        world(final(game)@, final(network_manager)@, Seq::empty()) == world(
            old(game)@,
            old(network_manager)@,
            Seq::empty(),
        ).predicted(index, event),
{
    network_manager.send_to_server_unreliably(&NetworkMessage::PlayerEvent { index, event }, 0);
    game.enqueue(event);
}

fn ask(game: &Game, network_manager: &mut NetworkManager, index: u32, event: PlayerEvent)
    ensures
        world(game@, final(network_manager)@, Seq::empty()) == world(
            game@,
            old(network_manager)@,
            Seq::empty(),
        ).asked(index, event),
{
    network_manager.send_to_server_unreliably(&NetworkMessage::PlayerEvent { index, event }, 0);
}

/// What a key makes of the player of the user, which has this index, looks
/// this way and has this much fuel.
fn key_event(key: Key, pressed: bool, index: u32, yaw: Scalar, pitch: Scalar, fuel: u32) -> (r:
    Option<PlayerEvent>)
    ensures
        r == match key {
            Key::W => Some(PlayerEvent::MoveForward { index, active: pressed, yaw, pitch }),
            Key::S => Some(PlayerEvent::MoveBackward { index, active: pressed, yaw, pitch }),
            Key::A => Some(PlayerEvent::MoveLeft { index, active: pressed, yaw, pitch }),
            Key::D => Some(PlayerEvent::MoveRight { index, active: pressed, yaw, pitch }),
            Key::Space => Some(PlayerEvent::MoveUp { index, active: pressed, fuel }),
            Key::Other => None,
        },
{
    match key {
        Key::W => Some(PlayerEvent::MoveForward { index, active: pressed, yaw, pitch }),
        Key::S => Some(PlayerEvent::MoveBackward { index, active: pressed, yaw, pitch }),
        Key::A => Some(PlayerEvent::MoveLeft { index, active: pressed, yaw, pitch }),
        Key::D => Some(PlayerEvent::MoveRight { index, active: pressed, yaw, pitch }),
        Key::Space => Some(PlayerEvent::MoveUp { index, active: pressed, fuel }),
        Key::Other => None,
    }
}

/// Makes of something that the user does what a client makes of it: tells the
/// server, and queues what the player does without waiting for the server.
pub fn process_input_event(
    event: InputEvent,
    game: &mut Game,
    network_manager: &mut NetworkManager,
)
    ensures
        world(final(game)@, final(network_manager)@, Seq::empty()) == world(
            old(game)@,
            old(network_manager)@,
            Seq::empty(),
        ).input(event),
        old(game).wf() ==> final(game).wf(),
{
    if network_manager.server || game.level.is_none() {
        return ;
    }
    let index = match network_manager.player_index {
        Some(index) => index,
        None => {
            return ;
        },
    };
    let known = match game.player(index) {
        Some(p) => Some((p.index, p.get_yaw(), p.get_pitch(), p.flight_fuel)),
        None => None,
    };
    match event {
        InputEvent::Key { key, pressed } => match known {
            Some((own, yaw, pitch, fuel)) => match key_event(key, pressed, own, yaw, pitch, fuel) {
                Some(action) => match key {
                    Key::Space => {
                        ask(game, network_manager, own, action);
                    },
                    _ => {
                        predict(game, network_manager, own, action);
                    },
                },
                None => {},
            },
            None => {},
        },
        InputEvent::LeftButton { pressed } => match known {
            Some((own, yaw, pitch, fuel)) => {
                network_manager.send_to_server_reliably(
                    &NetworkMessage::PlayerEvent {
                        index: own,
                        event: PlayerEvent::ShootWeapon { index: own, active: pressed, yaw, pitch },
                    },
                );
            },
            None => {},
        },
        InputEvent::Motion { yaw_delta, pitch_delta } => {
            predict(
                game,
                network_manager,
                index,
                PlayerEvent::LookAround { index, yaw_delta, pitch_delta },
            );
        },
        InputEvent::Other => {},
    }
}

} // verus!
