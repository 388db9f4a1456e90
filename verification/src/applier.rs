use vstd::prelude::*;
use crate::effect::Effect;
use crate::game::{GameEvent, GameEventView};
use crate::level::{position_of, position_of_collider, Level, LevelState, LevelView};
use crate::network_manager::{broadcast, ManagerView, NetworkManager, NetworkMessage};
use crate::player::{player_message, ControllerView, PlayerController, PlayerState, PlayerView};
use crate::player_event::{ColliderHandle, PlayerEvent, SerializablePlayerState};
use crate::scalar::Scalar;

verus! {

/// Everything that applying an event can change: the level, the transport,
/// what the game has been told and what the scene has been asked to do.
pub struct Stage {
    pub level: LevelView,
    pub net: ManagerView,
    pub game_events: Seq<GameEventView>,
    pub effects: Seq<Effect>,
}

/// A list of game events as a mathematical value.
pub open spec fn game_events_view(events: Seq<GameEvent>) -> Seq<GameEventView> {
    events.map_values(|e: GameEvent| e@)
}

/// One of the things a player can be told to do or to stop doing.
#[derive(Clone, Copy, PartialEq, Eq, Debug, Structural)]
pub enum Intent {
    Shoot,
    Forward,
    Backward,
    Left,
    Right,
}

/// The controller `c` once it has been told to do `intent`, or to stop.
pub open spec fn intending(c: ControllerView, intent: Intent, active: bool) -> ControllerView {
    match intent {
        Intent::Shoot => ControllerView { shoot: active, ..c },
        Intent::Forward => ControllerView { move_forward: active, ..c },
        Intent::Backward => ControllerView { move_backward: active, ..c },
        Intent::Left => ControllerView { move_left: active, ..c },
        Intent::Right => ControllerView { move_right: active, ..c },
    }
}

/// The state in which a player enters that has been announced as `state`.
pub open spec fn entering_state(state: SerializablePlayerState) -> PlayerState {
    PlayerState {
        timestamp: Scalar::spec_zero(),
        position: state.position,
        velocity: state.velocity,
        yaw: state.yaw,
        pitch: state.pitch,
        shoot: state.shoot,
        fuel: 0,
    }
}

/// The game event that asks for the level of this name to be loaded afresh.
pub open spec fn reload(name: Seq<char>) -> GameEventView {
    GameEventView::LoadLevel { level: name, state: Seq::empty() }
}

impl Stage {
    /// The same, with the player at place `k` replaced by `p`.
    pub open spec fn with_player(self, k: int, p: PlayerView) -> Stage {
        Stage {
            level: LevelView { players: self.level.players.update(k, p), ..self.level },
            ..self
        }
    }

    /// The same, with `effects` added to what the scene is asked to do.
    pub open spec fn doing(self, effects: Seq<Effect>) -> Stage {
        Stage { effects: self.effects + effects, ..self }
    }

    /// A player is told to do something, or to stop, while it looks the way of
    /// `yaw` and `pitch`. The way it looks is taken over unless it is the
    /// player of the user, who knows better.
    pub open spec fn intent(
        self,
        index: u32,
        intent: Intent,
        active: bool,
        yaw: Scalar,
        pitch: Scalar,
    ) -> Stage {
        match position_of(self.level.players, index) {
            Some(k) => {
                let p = self.level.players[k];
                self.with_player(
                    k,
                    PlayerView { controller: intending(p.controller, intent, active), ..p },
                ).doing(
                    if self.net.player_index != Some(index) {
                        seq![Effect::SetOrientation { index, yaw, pitch }]
                    } else {
                        Seq::empty()
                    },
                )
            },
            None => self,
        }
    }

    /// A player is told to jump.
    pub open spec fn jumped(self, index: u32) -> Stage {
        match position_of(self.level.players, index) {
            Some(k) => {
                let p = self.level.players[k];
                self.with_player(
                    k,
                    PlayerView { controller: ControllerView { jump: true, ..p.controller }, ..p },
                )
            },
            None => self,
        }
    }

    /// A player is told to fly, or to stop. A client takes the word of the
    /// authoritative side for the fuel that is left.
    pub open spec fn flown(self, index: u32, active: bool, fuel: u32) -> Stage {
        match position_of(self.level.players, index) {
            Some(k) => {
                let p = self.level.players[k];
                self.with_player(
                    k,
                    PlayerView {
                        controller: ControllerView { fly: active, ..p.controller },
                        flight_fuel: if self.net.server {
                            p.flight_fuel
                        } else {
                            fuel
                        },
                        ..p
                    },
                )
            },
            None => self,
        }
    }

    /// A player turns.
    pub open spec fn turned(self, index: u32, yaw_delta: Scalar, pitch_delta: Scalar) -> Stage {
        if position_of(self.level.players, index) is Some {
            self.doing(seq![Effect::Turn { index, yaw_delta, pitch_delta }])
        } else {
            self
        }
    }

    /// The authoritative state of a player has come in.
    pub open spec fn updated(self, index: u32, snapshot: PlayerState) -> Stage {
        match position_of(self.level.players, index) {
            Some(k) => {
                let p = self.level.players[k];
                self.with_player(k, PlayerView { controller: p.controller.accepted(snapshot), ..p })
            },
            None => self,
        }
    }

    /// A block is destroyed, where it stands.
    pub open spec fn demolished(self, index: u32) -> Stage {
        Stage {
            level: self.level.destroyed(seq![index], self.net.server),
            effects: self.effects + crate::level::demolitions(self.level.blocks, seq![index]),
            ..self
        }
    }

    /// Something deadly has touched the collider `collider`. Only the
    /// authoritative side acts on that. With three players or more, the player
    /// that owns the collider is out: everyone is told, and its death is queued.
    /// With fewer, the level is loaded afresh instead.
    pub open spec fn touched(self, collider: ColliderHandle) -> Stage {
        match position_of_collider(self.level.players, collider) {
            Some(k) => {
                let index = self.level.players[k].index;
                if !self.net.server {
                    self
                } else if self.level.players.len() >= 3 {
                    Stage {
                        net: self.net.posting(
                            broadcast(
                                self.net.connections,
                                None,
                                player_message(index, PlayerEvent::KillPlayer { index }),
                                true,
                                1,
                            ),
                        ),
                        level: self.level.queued(PlayerEvent::KillPlayer { index }),
                        ..self
                    }
                } else {
                    Stage { game_events: self.game_events.push(reload(self.level.name)), ..self }
                }
            },
            None => self,
        }
    }

    /// What the user is shown once the player of this index is out: where it
    /// was the player of the user, the view of the first player that is left.
    pub open spec fn spectating(self, index: u32) -> Seq<Effect> {
        let left = self.level.removed(index).players;
        if self.net.player_index == Some(index) && left.len() > 0 {
            seq![Effect::SetCamera { index: left[0].index, enabled: true }]
        } else {
            Seq::empty()
        }
    }

    /// A player is out.
    pub open spec fn killed(self, index: u32) -> Stage {
        Stage {
            level: self.level.removed(index),
            effects: self.effects + seq![Effect::Announce { index }] + self.level.removal(index)
                + self.spectating(index),
            ..self
        }
    }

    /// A player enters.
    pub open spec fn spawned(self, index: u32, state: PlayerState, current_player: bool) -> Stage {
        Stage {
            level: self.level.entered(index, state, current_player),
            effects: self.effects + self.level.entry(index, state, current_player),
            net: if self.level.admits(index) && current_player {
                ManagerView { player_index: Some(index), ..self.net }
            } else {
                self.net
            },
            ..self
        }
    }

    /// What `event` makes of the stage.
    pub open spec fn applied(self, event: PlayerEvent) -> Stage {
        match event {
            PlayerEvent::ShootWeapon { index, active, yaw, pitch } => self.intent(
                index,
                Intent::Shoot,
                active,
                yaw,
                pitch,
            ),
            PlayerEvent::MoveForward { index, active, yaw, pitch } => self.intent(
                index,
                Intent::Forward,
                active,
                yaw,
                pitch,
            ),
            PlayerEvent::MoveBackward { index, active, yaw, pitch } => self.intent(
                index,
                Intent::Backward,
                active,
                yaw,
                pitch,
            ),
            PlayerEvent::MoveLeft { index, active, yaw, pitch } => self.intent(
                index,
                Intent::Left,
                active,
                yaw,
                pitch,
            ),
            PlayerEvent::MoveRight { index, active, yaw, pitch } => self.intent(
                index,
                Intent::Right,
                active,
                yaw,
                pitch,
            ),
            PlayerEvent::MoveUp { index, active, fuel } => self.flown(index, active, fuel),
            PlayerEvent::Jump { index, active } => self.jumped(index),
            PlayerEvent::LookAround { index, yaw_delta, pitch_delta } => self.turned(
                index,
                yaw_delta,
                pitch_delta,
            ),
            PlayerEvent::UpdateState {
                timestamp,
                index,
                position,
                velocity,
                yaw,
                pitch,
                shoot,
                fuel,
            } => self.updated(
                index,
                PlayerState { timestamp, position, velocity, yaw, pitch, shoot, fuel },
            ),
            PlayerEvent::DestroyBlock { index } => self.demolished(index),
            PlayerEvent::KillPlayer { index } => self.killed(index),
            PlayerEvent::KillPlayerFromIntersection { collider } => self.touched(collider),
            PlayerEvent::SpawnPlayer { state, index, current_player } => self.spawned(
                index,
                entering_state(state),
                current_player,
            ),
        }
    }
}

/// The stage made of a level, a transport, what the game has been told and what
/// the scene has been asked to do.
pub open spec fn stage(
    level: LevelView,
    net: ManagerView,
    game_events: Seq<GameEvent>,
    effects: Seq<Effect>,
) -> Stage {
    Stage { level, net, game_events: game_events_view(game_events), effects }
}

/// How much work a queue of events stands for: applying an event is one piece
/// of work, and a deadly touch may queue a death, which is one more.
pub open spec fn weight(events: Seq<PlayerEvent>) -> nat
    decreases events.len(),
{
    if events.len() == 0 {
        0
    } else {
        weight(events.drop_last()) + if events.last() is KillPlayerFromIntersection {
            2nat
        } else {
            1nat
        }
    }
}

/// Taking the first event off a queue takes its work off the queue.
pub proof fn lemma_weight_skip(events: Seq<PlayerEvent>)
    requires
        events.len() > 0,
    ensures
        weight(events) == weight(events.skip(1)) + if events[0] is KillPlayerFromIntersection {
            2nat
        } else {
            1nat
        },
    decreases events.len(),
{
    if events.len() == 1 {
        assert(events.drop_last() =~= Seq::<PlayerEvent>::empty());
        assert(events.skip(1) =~= Seq::<PlayerEvent>::empty());
        assert(weight(events.drop_last()) == 0);
    } else {
        lemma_weight_skip(events.drop_last());
        assert(events.drop_last().skip(1) =~= events.skip(1).drop_last());
        assert(events.skip(1).last() == events.last());
        assert(events.drop_last()[0] == events[0]);
    }
}

/// Applying an event leaves the queue as it is, but for a deadly touch, which
/// may add one death to it.
pub proof fn lemma_applied_events(s: Stage, event: PlayerEvent)
    ensures
        s.applied(event).level.events == s.level.events || (event is KillPlayerFromIntersection
            && exists|index: u32|
            s.applied(event).level.events == s.level.events.push(
                PlayerEvent::KillPlayer { index },
            )),
        s.applied(event).level.name == s.level.name,
        s.applied(event).net.server == s.net.server,
        s.applied(event).net.connections == s.net.connections,
        s.applied(event).net.server_addr == s.net.server_addr,
        s.applied(event).net.highest_player_index == s.net.highest_player_index,
{
}

/// Applying the first event of a queue leaves less work than there was.
pub proof fn lemma_applied_weight(s: Stage)
    requires
        s.level.events.len() > 0,
    ensures
        weight(s.popped().applied(s.level.events[0]).level.events) < weight(s.level.events),
{
    let event = s.level.events[0];
    let rest = s.popped();
    lemma_weight_skip(s.level.events);
    lemma_applied_events(rest, event);
    let after = rest.applied(event).level.events;
    if after != rest.level.events {
        let index = choose|index: u32|
            after == rest.level.events.push(PlayerEvent::KillPlayer { index });
        assert(after.drop_last() =~= rest.level.events);
    }
}

/// Applying the destruction of a block a second time changes nothing, and
/// neither does the destruction of what names no standing block.
pub proof fn lemma_destroy_twice(s: Stage, index: u32)
    ensures
        s.applied(PlayerEvent::DestroyBlock { index }).applied(PlayerEvent::DestroyBlock { index })
            == s.applied(PlayerEvent::DestroyBlock { index }),
        !s.level.blocks.contains(index) ==> s.applied(PlayerEvent::DestroyBlock { index }) == s,
{
    crate::level::lemma_destroy_idempotent(s.level, index, s.net.server);
    let once = s.applied(PlayerEvent::DestroyBlock { index });
    assert(once.effects + Seq::<Effect>::empty() =~= once.effects);
    assert(s.effects + Seq::<Effect>::empty() =~= s.effects);
}

/// Applying an event keeps a level well formed: no two players come to share
/// an index, and no list of a controller grows longer than it may be.
pub proof fn lemma_applied_wf(s: Stage, event: PlayerEvent)
    requires
        s.level.wf(),
    ensures
        s.applied(event).level.wf(),
{
    let players = s.level.players;
    match event {
        PlayerEvent::ShootWeapon { index, active, .. } => {
            lemma_intent_wf(s.level, index, Intent::Shoot, active);
        },
        PlayerEvent::MoveForward { index, active, .. } => {
            lemma_intent_wf(s.level, index, Intent::Forward, active);
        },
        PlayerEvent::MoveBackward { index, active, .. } => {
            lemma_intent_wf(s.level, index, Intent::Backward, active);
        },
        PlayerEvent::MoveLeft { index, active, .. } => {
            lemma_intent_wf(s.level, index, Intent::Left, active);
        },
        PlayerEvent::MoveRight { index, active, .. } => {
            lemma_intent_wf(s.level, index, Intent::Right, active);
        },
        PlayerEvent::MoveUp { index, active, fuel } => {
            crate::level::lemma_position_of(players, index, 0);
            if position_of(players, index) is Some {
                let k = position_of(players, index)->0;
                let p = players[k];
                crate::player::lemma_same_lists_wf(
                    p.controller,
                    ControllerView { fly: active, ..p.controller },
                );
                crate::level::lemma_replaced_wf(
                    s.level,
                    k,
                    PlayerView {
                        controller: ControllerView { fly: active, ..p.controller },
                        flight_fuel: if s.net.server {
                            p.flight_fuel
                        } else {
                            fuel
                        },
                        ..p
                    },
                );
            }
        },
        PlayerEvent::Jump { index, .. } => {
            crate::level::lemma_position_of(players, index, 0);
            if position_of(players, index) is Some {
                let k = position_of(players, index)->0;
                let p = players[k];
                crate::player::lemma_same_lists_wf(
                    p.controller,
                    ControllerView { jump: true, ..p.controller },
                );
                crate::level::lemma_replaced_wf(
                    s.level,
                    k,
                    PlayerView { controller: ControllerView { jump: true, ..p.controller }, ..p },
                );
            }
        },
        PlayerEvent::LookAround { .. } => {},
        PlayerEvent::UpdateState {
            timestamp,
            index,
            position,
            velocity,
            yaw,
            pitch,
            shoot,
            fuel,
        } => {
            let snapshot = PlayerState { timestamp, position, velocity, yaw, pitch, shoot, fuel };
            crate::level::lemma_position_of(players, index, 0);
            if position_of(players, index) is Some {
                let k = position_of(players, index)->0;
                let p = players[k];
                crate::player::lemma_controller_wf(p.controller, snapshot);
                crate::level::lemma_replaced_wf(
                    s.level,
                    k,
                    PlayerView { controller: p.controller.accepted(snapshot), ..p },
                );
            }
        },
        PlayerEvent::DestroyBlock { .. } => {},
        PlayerEvent::KillPlayer { index } => {
            crate::level::lemma_removed_wf(s.level, index);
        },
        PlayerEvent::KillPlayerFromIntersection { .. } => {},
        PlayerEvent::SpawnPlayer { state, index, current_player } => {
            crate::level::lemma_entered_wf(s.level, index, entering_state(state), current_player);
        },
    }
}

/// Telling a player to do something, or to stop, keeps a level well formed.
pub proof fn lemma_intent_wf(level: LevelView, index: u32, intent: Intent, active: bool)
    requires
        level.wf(),
    ensures
        match position_of(level.players, index) {
            Some(k) => (LevelView {
                players: level.players.update(
                    k,
                    PlayerView {
                        controller: intending(level.players[k].controller, intent, active),
                        ..level.players[k]
                    },
                ),
                ..level
            }).wf(),
            None => true,
        },
{
    crate::level::lemma_position_of(level.players, index, 0);
    if position_of(level.players, index) is Some {
        let k = position_of(level.players, index)->0;
        let p = level.players[k];
        crate::player::lemma_same_lists_wf(p.controller, intending(p.controller, intent, active));
        crate::level::lemma_replaced_wf(
            level,
            k,
            PlayerView { controller: intending(p.controller, intent, active), ..p },
        );
    }
}

/// Working off the queue leaves the connections of the transport, its side
/// and the name of the level as they are.
pub proof fn lemma_drained_frame(s: Stage)
    ensures
        s.drained().net.connections == s.net.connections,
        s.drained().net.highest_player_index == s.net.highest_player_index,
        s.drained().net.server == s.net.server,
        s.drained().net.server_addr == s.net.server_addr,
        s.drained().level.name == s.level.name,
    decreases weight(s.level.events),
{
    if s.level.events.len() > 0 {
        lemma_applied_weight(s);
        lemma_applied_events(s.popped(), s.level.events[0]);
        lemma_drained_frame(s.popped().applied(s.level.events[0]));
    }
}

/// Working off the queue keeps a level well formed, and leaves the queue
/// empty.
pub proof fn lemma_drained_wf(s: Stage)
    requires
        s.level.wf(),
    ensures
        s.drained().level.wf(),
        s.drained().level.events.len() == 0,
    decreases weight(s.level.events),
{
    if s.level.events.len() > 0 {
        lemma_applied_weight(s);
        lemma_applied_wf(s.popped(), s.level.events[0]);
        lemma_drained_wf(s.popped().applied(s.level.events[0]));
    }
}

impl Stage {
    /// The same, with the first event taken off the queue.
    pub open spec fn popped(self) -> Stage {
        Stage { level: LevelView { events: self.level.events.skip(1), ..self.level }, ..self }
    }

    /// What becomes of the stage when the queue is worked off: each event is
    /// taken off the front and applied, those that are queued on the way too,
    /// until none is left.
    pub open spec fn drained(self) -> Stage
        decreases weight(self.level.events),
    {
        if self.level.events.len() == 0 {
            self
        } else {
            proof {
                lemma_applied_weight(self);
            }
            self.popped().applied(self.level.events[0]).drained()
        }
    }
}

impl PlayerController {
    /// Tells the controller to do `intent`, or to stop.
    pub fn intend(&mut self, intent: Intent, active: bool)
        ensures
            final(self)@ == intending(old(self)@, intent, active),
    {
        match intent {
            Intent::Shoot => {
                self.shoot = active;
            },
            Intent::Forward => {
                self.move_forward = active;
            },
            Intent::Backward => {
                self.move_backward = active;
            },
            Intent::Left => {
                self.move_left = active;
            },
            Intent::Right => {
                self.move_right = active;
            },
        }
    }
}

impl Level {
    fn set_intent(
        &mut self,
        engine: &mut Vec<Effect>,
        network_manager: &NetworkManager,
        game_events: &Vec<GameEvent>,
        index: u32,
        intent: Intent,
        active: bool,
        yaw: Scalar,
        pitch: Scalar,
    )
        ensures
            stage(final(self)@, network_manager@, game_events@, final(engine)@) == stage(
                old(self)@,
                network_manager@,
                game_events@,
                old(engine)@,
            ).intent(index, intent, active, yaw, pitch),
    {
        match self.find(index) {
            Some(k) => {
                let ghost p = self@.players[k as int];
                self.players[k].controller.intend(intent, active);
                assert(self@.players =~= old(self)@.players.update(
                    k as int,
                    PlayerView { controller: intending(p.controller, intent, active), ..p },
                ));
                let local = match network_manager.player_index {
                    Some(id) => id == index,
                    None => false,
                };
                if !local {
                    engine.push(Effect::SetOrientation { index, yaw, pitch });
                    assert(engine@ =~= old(engine)@ + seq![
                        Effect::SetOrientation { index, yaw, pitch },
                    ]);
                } else {
                    assert(engine@ =~= old(engine)@ + Seq::<Effect>::empty());
                }
            },
            None => {},
        }
    }

    fn set_jump(
        &mut self,
        engine: &Vec<Effect>,
        network_manager: &NetworkManager,
        game_events: &Vec<GameEvent>,
        index: u32,
    )
        ensures
            stage(final(self)@, network_manager@, game_events@, engine@) == stage(
                old(self)@,
                network_manager@,
                game_events@,
                engine@,
            ).jumped(index),
    {
        match self.find(index) {
            Some(k) => {
                let ghost p = self@.players[k as int];
                self.players[k].controller.jump = true;
                assert(self@.players =~= old(self)@.players.update(
                    k as int,
                    PlayerView { controller: ControllerView { jump: true, ..p.controller }, ..p },
                ));
            },
            None => {},
        }
    }

    fn set_fly(
        &mut self,
        engine: &Vec<Effect>,
        network_manager: &NetworkManager,
        game_events: &Vec<GameEvent>,
        index: u32,
        active: bool,
        fuel: u32,
    )
        ensures
            stage(final(self)@, network_manager@, game_events@, engine@) == stage(
                old(self)@,
                network_manager@,
                game_events@,
                engine@,
            ).flown(index, active, fuel),
    {
        match self.find(index) {
            Some(k) => {
                let ghost p = self@.players[k as int];
                self.players[k].controller.fly = active;
                if !network_manager.server {
                    self.players[k].flight_fuel = fuel;
                }
                assert(self@.players =~= old(self)@.players.update(
                    k as int,
                    PlayerView {
                        controller: ControllerView { fly: active, ..p.controller },
                        flight_fuel: if network_manager.server {
                            p.flight_fuel
                        } else {
                            fuel
                        },
                        ..p
                    },
                ));
            },
            None => {},
        }
    }

    fn turn(
        &self,
        engine: &mut Vec<Effect>,
        network_manager: &NetworkManager,
        game_events: &Vec<GameEvent>,
        index: u32,
        yaw_delta: Scalar,
        pitch_delta: Scalar,
    )
        ensures
            stage(self@, network_manager@, game_events@, final(engine)@) == stage(
                self@,
                network_manager@,
                game_events@,
                old(engine)@,
            ).turned(index, yaw_delta, pitch_delta),
    {
        if self.find(index).is_some() {
            engine.push(Effect::Turn { index, yaw_delta, pitch_delta });
            assert(engine@ =~= old(engine)@ + seq![Effect::Turn { index, yaw_delta, pitch_delta }]);
        }
    }

    fn take_snapshot(
        &mut self,
        engine: &Vec<Effect>,
        network_manager: &NetworkManager,
        game_events: &Vec<GameEvent>,
        index: u32,
        snapshot: PlayerState,
    )
        ensures
            stage(final(self)@, network_manager@, game_events@, engine@) == stage(
                old(self)@,
                network_manager@,
                game_events@,
                engine@,
            ).updated(index, snapshot),
    {
        match self.find(index) {
            Some(k) => {
                let ghost p = self@.players[k as int];
                self.players[k].controller.accept(snapshot);
                assert(self@.players =~= old(self)@.players.update(
                    k as int,
                    PlayerView { controller: p.controller.accepted(snapshot), ..p },
                ));
            },
            None => {},
        }
    }

    fn touch(
        &mut self,
        engine: &Vec<Effect>,
        network_manager: &mut NetworkManager,
        game_events: &mut Vec<GameEvent>,
        collider: ColliderHandle,
    )
        ensures
            stage(final(self)@, final(network_manager)@, final(game_events)@, engine@) == stage(
                old(self)@,
                old(network_manager)@,
                old(game_events)@,
                engine@,
            ).touched(collider),
    {
        if !network_manager.server {
            return ;
        }
        match self.find_collider(collider) {
            Some(k) => {
                let index = self.players[k].index;
                if self.players.len() >= 3 {
                    let event = PlayerEvent::KillPlayer { index };
                    let message = NetworkMessage::PlayerEvent { index, event };
                    network_manager.send_to_all_reliably(&message);
                    self.events.push(event);
                } else {
                    let event = GameEvent::LoadLevel {
                        level: self.name.clone(),
                        state: LevelState::new(),
                    };
                    game_events.push(event);
                    assert(game_events_view(game_events@) =~= game_events_view(
                        old(game_events)@,
                    ).push(reload(self@.name)));
                }
            },
            None => {},
        }
    }

    fn kill(
        &mut self,
        engine: &mut Vec<Effect>,
        network_manager: &NetworkManager,
        game_events: &Vec<GameEvent>,
        index: u32,
    )
        ensures
            stage(final(self)@, network_manager@, game_events@, final(engine)@) == stage(
                old(self)@,
                network_manager@,
                game_events@,
                old(engine)@,
            ).killed(index),
    {
        engine.push(Effect::Announce { index });
        self.remove_player(engine, index);
        let local = match network_manager.player_index {
            Some(id) => id == index,
            None => false,
        };
        if local && self.players.len() > 0 {
            engine.push(Effect::SetCamera { index: self.players[0].index, enabled: true });
        }
        assert(engine@ =~= old(engine)@ + seq![Effect::Announce { index }] + old(self)@.removal(
            index,
        ) + stage(old(self)@, network_manager@, game_events@, old(engine)@).spectating(index));
    }

    fn demolish(
        &mut self,
        engine: &mut Vec<Effect>,
        network_manager: &NetworkManager,
        game_events: &Vec<GameEvent>,
        index: u32,
    )
        ensures
            stage(final(self)@, network_manager@, game_events@, final(engine)@) == stage(
                old(self)@,
                network_manager@,
                game_events@,
                old(engine)@,
            ).demolished(index),
    {
        self.destroy_block(engine, index, network_manager.server);
    }

    fn spawn(
        &mut self,
        engine: &mut Vec<Effect>,
        network_manager: &mut NetworkManager,
        game_events: &Vec<GameEvent>,
        index: u32,
        state: SerializablePlayerState,
        current_player: bool,
    )
        ensures
            stage(final(self)@, final(network_manager)@, game_events@, final(engine)@) == stage(
                old(self)@,
                old(network_manager)@,
                game_events@,
                old(engine)@,
            ).spawned(index, entering_state(state), current_player),
    {
        let entering = PlayerState {
            timestamp: Scalar::zero(),
            position: state.position,
            velocity: state.velocity,
            yaw: state.yaw,
            pitch: state.pitch,
            shoot: state.shoot,
            fuel: 0,
        };
        self.spawn_player(engine, index, entering, current_player, network_manager);
    }

    /// Applies one event to the level.
    pub fn apply_event(
        &mut self,
        event: PlayerEvent,
        engine: &mut Vec<Effect>,
        network_manager: &mut NetworkManager,
        game_events: &mut Vec<GameEvent>,
    )
        ensures
            stage(final(self)@, final(network_manager)@, final(game_events)@, final(engine)@)
                == stage(
                old(self)@,
                old(network_manager)@,
                old(game_events)@,
                old(engine)@,
            ).applied(event),
            old(self).wf() ==> final(self).wf(),
    {
        proof {
            if old(self).wf() {
                lemma_applied_wf(
                    stage(old(self)@, old(network_manager)@, old(game_events)@, old(engine)@),
                    event,
                );
            }
        }
        match event {
            PlayerEvent::ShootWeapon { index, active, yaw, pitch } => {
                self.set_intent(
                    engine,
                    network_manager,
                    game_events,
                    index,
                    Intent::Shoot,
                    active,
                    yaw,
                    pitch,
                );
            },
            PlayerEvent::MoveForward { index, active, yaw, pitch } => {
                self.set_intent(
                    engine,
                    network_manager,
                    game_events,
                    index,
                    Intent::Forward,
                    active,
                    yaw,
                    pitch,
                );
            },
            PlayerEvent::MoveBackward { index, active, yaw, pitch } => {
                self.set_intent(
                    engine,
                    network_manager,
                    game_events,
                    index,
                    Intent::Backward,
                    active,
                    yaw,
                    pitch,
                );
            },
            PlayerEvent::MoveLeft { index, active, yaw, pitch } => {
                self.set_intent(
                    engine,
                    network_manager,
                    game_events,
                    index,
                    Intent::Left,
                    active,
                    yaw,
                    pitch,
                );
            },
            PlayerEvent::MoveRight { index, active, yaw, pitch } => {
                self.set_intent(
                    engine,
                    network_manager,
                    game_events,
                    index,
                    Intent::Right,
                    active,
                    yaw,
                    pitch,
                );
            },
            PlayerEvent::MoveUp { index, active, fuel } => {
                self.set_fly(engine, network_manager, game_events, index, active, fuel);
            },
            PlayerEvent::Jump { index, active } => {
                self.set_jump(engine, network_manager, game_events, index);
            },
            PlayerEvent::LookAround { index, yaw_delta, pitch_delta } => {
                self.turn(engine, network_manager, game_events, index, yaw_delta, pitch_delta);
            },
            PlayerEvent::UpdateState {
                timestamp,
                index,
                position,
                velocity,
                yaw,
                pitch,
                shoot,
                fuel,
            } => {
                self.take_snapshot(
                    engine,
                    network_manager,
                    game_events,
                    index,
                    PlayerState { timestamp, position, velocity, yaw, pitch, shoot, fuel },
                );
            },
            PlayerEvent::DestroyBlock { index } => {
                self.demolish(engine, network_manager, game_events, index);
            },
            PlayerEvent::KillPlayer { index } => {
                self.kill(engine, network_manager, game_events, index);
            },
            PlayerEvent::KillPlayerFromIntersection { collider } => {
                self.touch(engine, network_manager, game_events, collider);
            },
            PlayerEvent::SpawnPlayer { state, index, current_player } => {
                self.spawn(engine, network_manager, game_events, index, state, current_player);
            },
        }
    }

    /// Works off the queue of the level: applies each event in the order in
    /// which it was queued, those that are queued on the way too, until none
    /// is left.
    pub fn apply_events(
        &mut self,
        engine: &mut Vec<Effect>,
        network_manager: &mut NetworkManager,
        game_events: &mut Vec<GameEvent>,
    )
        ensures
            stage(final(self)@, final(network_manager)@, final(game_events)@, final(engine)@)
                == stage(
                old(self)@,
                old(network_manager)@,
                old(game_events)@,
                old(engine)@,
            ).drained(),
            final(self)@.events.len() == 0,
            old(self).wf() ==> final(self).wf(),
    {
        while self.events.len() > 0
            invariant
                old(self).wf() ==> self.wf(),
                stage(self@, network_manager@, game_events@, engine@).drained() == stage(
                    old(self)@,
                    old(network_manager)@,
                    old(game_events)@,
                    old(engine)@,
                ).drained(),
            decreases weight(self@.events),
        {
            let ghost before = stage(self@, network_manager@, game_events@, engine@);
            let event = self.events.remove(0);
            assert(self@.events =~= before.level.events.skip(1));
            assert(before.level.wf() ==> before.popped().level.wf());
            assert(stage(self@, network_manager@, game_events@, engine@) == before.popped());
            self.apply_event(event, engine, network_manager, game_events);
            proof {
                lemma_applied_weight(before);
            }
        }
    }
}

} // verus!
