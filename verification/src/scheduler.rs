use vstd::prelude::*;
use crate::applier::{stage, Stage};
use crate::effect::Effect;
use crate::level::{position_of, Level, LevelView};
use crate::network_manager::{broadcast, ManagerView, NetworkManager, NetworkMessage, PacketView};
use crate::player::{player_message, Hit, Player, PlayerState, PlayerView, Shot, SYNC_FREQUENCY};
use crate::player_event::PlayerEvent;
use crate::scalar::Scalar;

verus! {

/// Whether the state of the players is told to everyone in the tick of this
/// number. Ticks are counted from one.
pub open spec fn is_sync_tick(tick: u64) -> bool {
    tick % (SYNC_FREQUENCY as u64) == 0
}

impl PlayerView {
    /// The player once the state it is in at `elapsed` has been written down
    /// among its past states.
    pub open spec fn noted(self, elapsed: Scalar) -> PlayerView {
        PlayerView { controller: self.controller.recorded(self.state(elapsed)), ..self }
    }

    /// What is sent out so that every peer learns the state of the player at
    /// `elapsed`: one packet each, which may get lost.
    pub open spec fn replication(self, net: ManagerView, elapsed: Scalar) -> Seq<PacketView> {
        broadcast(
            net.connections,
            None,
            player_message(self.index, self.update_event(elapsed)),
            false,
            1,
        )
    }
}

impl Stage {
    /// The stage after the player at place `k` has lived through one tick. On
    /// the authoritative side its state is told to everyone first, where
    /// `sync` is set. Then the state is written down under the time `elapsed`,
    /// the player decides what it does, and the scene is asked to carry that
    /// out. On the authoritative side a player that has fallen out of the level
    /// is touched by death.
    pub open spec fn player_ticked(self, k: int, sync: bool, elapsed: Scalar) -> Stage {
        let p = self.level.players[k];
        Stage {
            level: LevelView {
                players: self.level.players.update(k, p.noted(elapsed).stepped()),
                events: if self.net.server && p.body.fallen {
                    self.level.events.push(
                        PlayerEvent::KillPlayerFromIntersection { collider: p.collider },
                    )
                } else {
                    self.level.events
                },
                ..self.level
            },
            net: self.net.posting(
                (if self.net.server && sync {
                    p.replication(self.net, elapsed)
                } else {
                    Seq::empty()
                }) + p.noted(elapsed).step_packets(self.net),
            ),
            effects: self.effects.push(Effect::Step { index: p.index, step: p.noted(elapsed).step() }),
            ..self
        }
    }

    /// The stage after the first `n` players have lived through one tick, one
    /// after the other.
    pub open spec fn ticked(self, n: nat, sync: bool, elapsed: Scalar) -> Stage
        decreases n,
    {
        if n == 0 {
            self
        } else {
            self.ticked((n - 1) as nat, sync, elapsed).player_ticked(n - 1, sync, elapsed)
        }
    }
}

impl Stage {
    /// The stage after one update of the level: the queue is worked off, and
    /// then every player that is in the level lives through one tick.
    pub open spec fn advanced(self, sync: bool, elapsed: Scalar) -> Stage {
        self.drained().ticked(self.drained().level.players.len(), sync, elapsed)
    }
}

/// What the game has been told has no part in a tick.
pub proof fn lemma_ticked_game_events(
    s: Stage,
    game_events: Seq<crate::game::GameEventView>,
    n: nat,
    sync: bool,
    elapsed: Scalar,
)
    ensures
        (Stage { game_events, ..s }).ticked(n, sync, elapsed) == (Stage {
            game_events,
            ..s.ticked(n, sync, elapsed)
        }),
    decreases n,
{
    if n > 0 {
        lemma_ticked_game_events(s, game_events, (n - 1) as nat, sync, elapsed);
    }
}

/// A tick leaves the players in their places and the transport with the same
/// connections.
pub proof fn lemma_ticked_frame(s: Stage, n: nat, sync: bool, elapsed: Scalar)
    requires
        n <= s.level.players.len(),
    ensures
        s.ticked(n, sync, elapsed).level.players.len() == s.level.players.len(),
        forall|j: int|
            n <= j < s.level.players.len() ==> s.ticked(n, sync, elapsed).level.players[j]
                == s.level.players[j],
        forall|j: int|
            0 <= j < s.level.players.len() ==> s.ticked(n, sync, elapsed).level.players[j].index
                == s.level.players[j].index,
        s.ticked(n, sync, elapsed).net == (ManagerView {
            sent: s.ticked(n, sync, elapsed).net.sent,
            ..s.net
        }),
        s.ticked(n, sync, elapsed).game_events == s.game_events,
        s.ticked(n, sync, elapsed).level.name == s.level.name,
        s.ticked(n, sync, elapsed).level.state == s.level.state,
    decreases n,
{
    if n > 0 {
        lemma_ticked_frame(s, (n - 1) as nat, sync, elapsed);
    }
}

/// In a tick in which the state is told, the authoritative side sends the
/// state of every player, as it was before the tick, to every peer.
pub proof fn lemma_replication_reaches_all(s: Stage, n: nat, elapsed: Scalar)
    requires
        s.net.server,
        n <= s.level.players.len(),
    ensures
        s.ticked(n, true, elapsed).net.sent.len() >= s.net.sent.len(),
        forall|i: int|
            0 <= i < s.net.sent.len() ==> s.ticked(n, true, elapsed).net.sent[i] == s.net.sent[i],
        forall|j: int, k: int|
            0 <= j < n && 0 <= k < s.net.connections.len() ==> s.ticked(
                n,
                true,
                elapsed,
            ).net.sent.contains(
                ManagerView::unreliable_to(
                    (#[trigger] s.net.connections[k]).socket_addr,
                    player_message(
                        (#[trigger] s.level.players[j]).index,
                        s.level.players[j].update_event(elapsed),
                    ),
                ),
            ),
    decreases n,
{
    if n > 0 {
        let before = s.ticked((n - 1) as nat, true, elapsed);
        let after = s.ticked(n, true, elapsed);
        lemma_replication_reaches_all(s, (n - 1) as nat, elapsed);
        lemma_ticked_frame(s, (n - 1) as nat, true, elapsed);
        let p = before.level.players[n - 1];
        assert(p == s.level.players[n - 1]);
        let told = p.replication(before.net, elapsed);
        let added = told + p.noted(elapsed).step_packets(before.net);
        assert(after.net.sent == before.net.sent + added);
        crate::network_manager::lemma_broadcast(
            s.net.connections,
            None,
            player_message(p.index, p.update_event(elapsed)),
            false,
            1,
        );
        assert forall|j: int, k: int|
            0 <= j < n && 0 <= k < s.net.connections.len() implies after.net.sent.contains(
            ManagerView::unreliable_to(
                (#[trigger] s.net.connections[k]).socket_addr,
                player_message(
                    (#[trigger] s.level.players[j]).index,
                    s.level.players[j].update_event(elapsed),
                ),
            ),
        ) by {
            let q = ManagerView::unreliable_to(
                s.net.connections[k].socket_addr,
                player_message(s.level.players[j].index, s.level.players[j].update_event(elapsed)),
            );
            if j < n - 1 {
                let i = choose|i: int| 0 <= i < before.net.sent.len() && before.net.sent[i] == q;
                assert(after.net.sent[i] == q);
            } else {
                assert(q == crate::network_manager::packet_for(
                    s.net.connections[k],
                    player_message(p.index, p.update_event(elapsed)),
                    false,
                ));
                let i = choose|i: int| 0 <= i < told.len() && told[i] == q;
                assert(added[i] == q);
                assert(after.net.sent[before.net.sent.len() + i] == q);
            }
        }
    }
}

/// A tick keeps a level well formed.
pub proof fn lemma_ticked_wf(s: Stage, n: nat, sync: bool, elapsed: Scalar)
    requires
        s.level.wf(),
        n <= s.level.players.len(),
    ensures
        s.ticked(n, sync, elapsed).level.wf(),
    decreases n,
{
    if n > 0 {
        let before = s.ticked((n - 1) as nat, sync, elapsed);
        lemma_ticked_wf(s, (n - 1) as nat, sync, elapsed);
        lemma_ticked_frame(s, (n - 1) as nat, sync, elapsed);
        let p = before.level.players[n - 1];
        crate::player::lemma_controller_wf(p.controller, p.state(elapsed));
        crate::player::lemma_same_lists_wf(
            p.noted(elapsed).controller,
            p.noted(elapsed).stepped().controller,
        );
        crate::level::lemma_replaced_wf(before.level, n - 1, p.noted(elapsed).stepped());
    }
}

impl Player {
    /// Writes down the state the player is in at `elapsed_time` among its past
    /// states.
    pub fn note(&mut self, elapsed_time: Scalar)
        ensures
            final(self)@ == old(self)@.noted(elapsed_time),
    {
        let state = PlayerState {
            timestamp: elapsed_time,
            position: self.body.position,
            velocity: self.body.velocity,
            yaw: self.body.yaw,
            pitch: self.body.pitch,
            shoot: self.controller.shoot,
            fuel: self.flight_fuel,
        };
        self.controller.record(state);
    }

    /// Tells every peer the state of the player at `elapsed_time`.
    pub fn replicate(&self, network_manager: &mut NetworkManager, elapsed_time: Scalar)
        ensures
            final(network_manager)@ == old(network_manager)@.posting(
                self@.replication(old(network_manager)@, elapsed_time),
            ),
    {
        let message = NetworkMessage::PlayerEvent {
            index: self.index,
            event: PlayerEvent::UpdateState {
                timestamp: elapsed_time,
                index: self.index,
                position: self.body.position,
                velocity: self.body.velocity,
                yaw: self.body.yaw,
                pitch: self.body.pitch,
                shoot: self.controller.shoot,
                fuel: self.flight_fuel,
            },
        };
        network_manager.send_to_all_unreliably(&message, 0);
    }
}

impl Level {
    /// Lets every player live through one tick, in the order in which they
    /// entered. `tick` is the number of the tick, counted from one, and
    /// `elapsed_time` the time for which the game has run. The queue is not
    /// touched but to add to it.
    pub fn tick(
        &mut self,
        engine: &mut Vec<Effect>,
        network_manager: &mut NetworkManager,
        tick: u64,
        elapsed_time: Scalar,
    )
        ensures
            stage(final(self)@, final(network_manager)@, Seq::empty(), final(engine)@) == stage(
                old(self)@,
                old(network_manager)@,
                Seq::empty(),
                old(engine)@,
            ).ticked(old(self)@.players.len(), is_sync_tick(tick), elapsed_time),
            old(self).wf() ==> final(self).wf(),
    {
        proof {
            if old(self).wf() {
                lemma_ticked_wf(
                    stage(old(self)@, old(network_manager)@, Seq::empty(), old(engine)@),
                    old(self)@.players.len(),
                    is_sync_tick(tick),
                    elapsed_time,
                );
            }
        }
        let sync = tick % (SYNC_FREQUENCY as u64) == 0;
        let ghost start = stage(old(self)@, old(network_manager)@, Seq::empty(), old(engine)@);
        let mut k: usize = 0;
        while k < self.players.len()
            invariant
                k <= self.players.len(),
                self.players.len() == start.level.players.len(),
                sync == is_sync_tick(tick),
                start == stage(old(self)@, old(network_manager)@, Seq::empty(), old(engine)@),
                stage(self@, network_manager@, Seq::empty(), engine@) == start.ticked(
                    k as nat,
                    sync,
                    elapsed_time,
                ),
            decreases self.players.len() - k,
        {
            let ghost before = stage(self@, network_manager@, Seq::empty(), engine@);
            let ghost p = self@.players[k as int];
            if network_manager.server && sync {
                self.players[k].replicate(network_manager, elapsed_time);
            }
            let ghost told = network_manager@;
            self.players[k].note(elapsed_time);
            let step = self.players[k].update(network_manager);
            engine.push(Effect::Step { index: self.players[k].index, step });
            if network_manager.server && self.players[k].body.fallen {
                let collider = self.players[k].collider;
                self.events.push(PlayerEvent::KillPlayerFromIntersection { collider });
            }
            proof {
                assert(self@.players =~= before.level.players.update(
                    k as int,
                    p.noted(elapsed_time).stepped(),
                ));
                assert(network_manager@.sent =~= before.net.sent + ((if before.net.server && sync {
                    p.replication(before.net, elapsed_time)
                } else {
                    Seq::empty()
                }) + p.noted(elapsed_time).step_packets(before.net)));
                assert(stage(self@, network_manager@, Seq::empty(), engine@)
                    == before.player_ticked(k as int, sync, elapsed_time));
            }
            k += 1;
        }
    }

    /// Updates the level: works off the queue, and then lets every player that
    /// is in the level live through one tick. What the scene has last said of
    /// the players is what the tick goes by.
    pub fn update(
        &mut self,
        engine: &mut Vec<Effect>,
        network_manager: &mut NetworkManager,
        game_events: &mut Vec<crate::game::GameEvent>,
        tick: u64,
        elapsed_time: Scalar,
    )
        ensures
            stage(final(self)@, final(network_manager)@, final(game_events)@, final(engine)@)
                == stage(
                old(self)@,
                old(network_manager)@,
                old(game_events)@,
                old(engine)@,
            ).advanced(is_sync_tick(tick), elapsed_time),
            old(self).wf() ==> final(self).wf(),
    {
        self.apply_events(engine, network_manager, game_events);
        proof {
            let drained = stage(self@, network_manager@, game_events@, engine@);
            lemma_ticked_game_events(
                stage(self@, network_manager@, Seq::empty(), engine@),
                drained.game_events,
                self@.players.len(),
                is_sync_tick(tick),
                elapsed_time,
            );
            assert(drained == (Stage {
                game_events: drained.game_events,
                ..stage(self@, network_manager@, Seq::empty(), engine@)
            }));
        }
        self.tick(engine, network_manager, tick, elapsed_time);
    }

    /// Settles a shot of the player of this index, given what lies in its line,
    /// nearest first. Without such a player there is no shot.
    pub fn shoot_weapon(
        &mut self,
        index: u32,
        hits: &Vec<Hit>,
        network_manager: &mut NetworkManager,
    ) -> (r: Option<Shot>)
        ensures
            match position_of(old(self)@.players, index) {
                Some(k) => {
                    let shooter = old(self)@.players[k];
                    &&& r == shooter.shot(hits@, old(network_manager)@.server)
                    &&& final(self)@ == (LevelView {
                        players: old(self)@.players.update(k, shooter.fired()),
                        events: old(self)@.events + shooter.shot_events(
                            hits@,
                            old(network_manager)@.server,
                        ),
                        ..old(self)@
                    })
                    &&& final(network_manager)@ == old(network_manager)@.posting(
                        shooter.shot_packets(hits@, old(network_manager)@),
                    )
                },
                None => {
                    &&& r is None
                    &&& final(self)@ == old(self)@
                    &&& final(network_manager)@ == old(network_manager)@
                },
            },
            old(self).wf() ==> final(self).wf(),
    {
        match self.find(index) {
            Some(k) => {
                proof {
                    if old(self).wf() {
                        crate::level::lemma_replaced_wf(
                            old(self)@,
                            k as int,
                            old(self)@.players[k as int].fired(),
                        );
                    }
                }
                let shot = self.players[k].shoot_weapon(hits, network_manager, &mut self.events);
                assert(self@.players =~= old(self)@.players.update(
                    k as int,
                    old(self)@.players[k as int].fired(),
                ));
                shot
            },
            None => None,
        }
    }
}

} // verus!
