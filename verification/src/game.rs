use vstd::prelude::*;
use crate::applier::Stage;
use crate::effect::Effect;
use crate::level::{demolitions, Level, LevelState, LevelView};
use crate::scalar::Scalar;
use crate::scheduler::is_sync_tick;
use crate::network_manager::{
    broadcast, ManagerView, NetworkManager, NetworkMessage, NetworkMessageView,
};

verus! {

/// Something that happens to the game as a whole.
#[derive(Debug, PartialEq, Eq)]
pub enum GameEvent {
    Connected,
    Disconnected,
    /// Load the level of this name and bring it into this state.
    LoadLevel { level: String, state: LevelState },
    LoadedLevel,
    Joined,
}

/// A [`GameEvent`] as a mathematical value.
pub enum GameEventView {
    Connected,
    Disconnected,
    LoadLevel { level: Seq<char>, state: Seq<u32> },
    LoadedLevel,
    Joined,
}

impl View for GameEvent {
    type V = GameEventView;

    open spec fn view(&self) -> GameEventView {
        match self {
            GameEvent::Connected => GameEventView::Connected,
            GameEvent::Disconnected => GameEventView::Disconnected,
            GameEvent::LoadLevel { level, state } => GameEventView::LoadLevel {
                level: level@,
                state: state@,
            },
            GameEvent::LoadedLevel => GameEventView::LoadedLevel,
            GameEvent::Joined => GameEventView::Joined,
        }
    }
}

impl Clone for GameEvent {
    fn clone(&self) -> (r: Self)
        ensures
            r@ == self@,
    {
        match self {
            GameEvent::Connected => GameEvent::Connected,
            GameEvent::Disconnected => GameEvent::Disconnected,
            GameEvent::LoadLevel { level, state } => GameEvent::LoadLevel {
                level: level.clone(),
                state: state.clone(),
            },
            GameEvent::LoadedLevel => GameEvent::LoadedLevel,
            GameEvent::Joined => GameEvent::Joined,
        }
    }
}



/// The level that the first game on the authoritative side loads.
pub const FIRST_LEVEL: &'static str = "block_remake";

/// A level that is being loaded: the one load the game waits for.
#[derive(Debug, PartialEq, Eq)]
pub struct LoadContext {
    /// What tells this load from every other.
    pub ticket: u64,
    /// The name of the level.
    pub level: String,
    /// The state to bring the level into once it is there.
    pub state: LevelState,
}

/// A level that has been loaded: the ticket of the load, and the indices that
/// the blocks of the level have in its scene.
#[derive(Debug, PartialEq, Eq)]
pub struct LoadedLevel {
    pub ticket: u64,
    pub blocks: Vec<u32>,
}

/// A [`LoadedLevel`] as a mathematical value.
pub struct LoadedView {
    pub ticket: u64,
    pub blocks: Seq<u32>,
}

impl View for LoadedLevel {
    type V = LoadedView;

    open spec fn view(&self) -> LoadedView {
        LoadedView { ticket: self.ticket, blocks: self.blocks@ }
    }
}

/// What is known of a load that may have ended, as a mathematical value.
pub open spec fn loaded_view(loaded: Option<LoadedLevel>) -> Option<LoadedView> {
    match loaded {
        Some(l) => Some(l@),
        None => None,
    }
}

/// A [`LoadContext`] as a mathematical value.
pub struct LoadContextView {
    pub ticket: u64,
    pub level: Seq<char>,
    pub state: Seq<u32>,
}

impl View for LoadContext {
    type V = LoadContextView;

    open spec fn view(&self) -> LoadContextView {
        LoadContextView { ticket: self.ticket, level: self.level@, state: self.state@ }
    }
}

/// The game: the level that is played, if any, what the game has been told and
/// has not acted on yet, and the load it waits for, if any.
#[derive(Debug, PartialEq, Eq)]
pub struct Game {
    pub level: Option<Level>,
    /// What the game has been told, oldest first.
    pub events: Vec<GameEvent>,
    /// Whether this is the authoritative side.
    pub server: bool,
    /// Whether the game goes on.
    pub active: bool,
    pub load_context: Option<LoadContext>,
    /// The ticket of the load that was started last.
    pub loads: u64,
}

/// A [`Game`] as a mathematical value.
pub struct GameView {
    pub level: Option<LevelView>,
    pub events: Seq<GameEventView>,
    pub server: bool,
    pub active: bool,
    pub load_context: Option<LoadContextView>,
    pub loads: u64,
}

impl View for Game {
    type V = GameView;

    open spec fn view(&self) -> GameView {
        GameView {
            level: match self.level {
                Some(level) => Some(level@),
                None => None,
            },
            events: self.events@.map_values(|e: GameEvent| e@),
            server: self.server,
            active: self.active,
            load_context: match self.load_context {
                Some(context) => Some(context@),
                None => None,
            },
            loads: self.loads,
        }
    }
}

/// The ticket that follows `ticket`.
pub open spec fn next_ticket(ticket: u64) -> u64 {
    if ticket == u64::MAX {
        0
    } else {
        (ticket + 1) as u64
    }
}

/// Everything that the game and the transport can change between them: the
/// game, the transport and what the scene has been asked to do.
pub struct World {
    pub game: GameView,
    pub net: ManagerView,
    pub effects: Seq<Effect>,
}

/// The world made of a game, a transport and what the scene has been asked to
/// do.
pub open spec fn world(game: GameView, net: ManagerView, effects: Seq<Effect>) -> World {
    World { game, net, effects }
}

impl GameView {
    /// A game that has just begun. The authoritative side starts to load its
    /// first level at once; a client waits to be told which level to load.
    pub open spec fn begun(server: bool) -> GameView {
        GameView {
            level: None,
            events: Seq::empty(),
            server,
            active: true,
            load_context: if server {
                Some(LoadContextView { ticket: 1, level: FIRST_LEVEL@, state: Seq::empty() })
            } else {
                None
            },
            loads: if server {
                1
            } else {
                0
            },
        }
    }

    /// The same, with `event` added to what the game has been told.
    pub open spec fn queued(self, event: GameEventView) -> GameView {
        GameView { events: self.events.push(event), ..self }
    }
}

impl World {
    /// The world after the game has acted on `event`. Told to load a level, it
    /// starts a new load and gives up waiting for any other. A client that is
    /// told that it has been disconnected stops. Nothing else moves the game.
    pub open spec fn heard(self, event: GameEventView) -> World {
        match event {
            GameEventView::LoadLevel { level, state } => {
                let ticket = next_ticket(self.game.loads);
                World {
                    game: GameView {
                        load_context: Some(LoadContextView { ticket, level, state }),
                        loads: ticket,
                        ..self.game
                    },
                    effects: self.effects.push(Effect::LoadLevel { ticket }),
                    ..self
                }
            },
            GameEventView::Disconnected => if self.game.server {
                self
            } else {
                World { game: GameView { active: false, ..self.game }, ..self }
            },
            _ => self,
        }
    }

    /// The world after the game has acted on each of `events` in turn.
    pub open spec fn heard_all(self, events: Seq<GameEventView>) -> World
        decreases events.len(),
    {
        if events.len() == 0 {
            self
        } else {
            self.heard_all(events.drop_last()).heard(events.last())
        }
    }

    /// Whether the load that has ended as `loaded` is the one the game waits
    /// for.
    pub open spec fn awaited(self, loaded: Option<LoadedView>) -> bool {
        self.game.load_context is Some && loaded is Some && loaded->0.ticket
            == self.game.load_context->0.ticket
    }

    /// What is sent out when a level has been put in place: a client tells the
    /// server that it has joined, and the authoritative side tells every peer to
    /// load the level.
    pub open spec fn handover_packets(self) -> Seq<crate::network_manager::PacketView> {
        if self.game.server {
            broadcast(
                self.net.connections,
                None,
                NetworkMessageView::GameEvent {
                    event: GameEventView::LoadLevel {
                        level: self.game.load_context->0.level,
                        state: Seq::empty(),
                    },
                },
                true,
                1,
            )
        } else {
            seq![
                self.net.reliable_to(
                    self.net.server_addr,
                    NetworkMessageView::GameEvent { event: GameEventView::Joined },
                ),
            ]
        }
    }

    /// What the handover asks of the scene: to give up the level that was
    /// played, to put the new one in place, and to destroy in it what has
    /// fallen in the state it is to be in.
    pub open spec fn handover_effects(self, blocks: Seq<u32>) -> Seq<Effect> {
        let context = self.game.load_context->0;
        (match self.game.level {
            Some(level) => level.teardown(),
            None => Seq::empty(),
        }).push(Effect::InstallLevel { ticket: context.ticket }) + demolitions(
            blocks,
            context.state,
        )
    }

    /// The world after the load `loaded` has ended. Where the game waits for
    /// that load, the level that was played is given up and the new one takes
    /// its place; any other load is of no interest any more.
    pub open spec fn handed(self, loaded: Option<LoadedView>) -> World {
        if self.awaited(loaded) {
            let context = self.game.load_context->0;
            World {
                game: GameView {
                    level: Some(
                        LevelView::fresh(context.level, loaded->0.blocks).destroyed(
                            context.state,
                            self.game.server,
                        ),
                    ),
                    load_context: None,
                    ..self.game
                },
                net: self.net.posting(self.handover_packets()),
                effects: self.effects + self.handover_effects(loaded->0.blocks),
            }
        } else {
            self
        }
    }

    /// The world after the game has acted on everything it has been told and
    /// has then seen the load `loaded` end.
    pub open spec fn settled(self, loaded: Option<LoadedView>) -> World {
        World { game: GameView { events: Seq::empty(), ..self.game }, ..self }.heard_all(
            self.game.events,
        ).handed(loaded)
    }

    /// The world after the level, where there is one, has been updated: its
    /// queue is worked off, and every player lives through one tick.
    pub open spec fn level_advanced(self, sync: bool, elapsed: Scalar) -> World {
        match self.game.level {
            Some(level) => {
                let s = (Stage {
                    level,
                    net: self.net,
                    game_events: self.game.events,
                    effects: self.effects,
                }).advanced(sync, elapsed);
                World {
                    game: GameView { level: Some(s.level), events: s.game_events, ..self.game },
                    net: s.net,
                    effects: s.effects,
                }
            },
            None => self,
        }
    }

    /// The world after one update of the game: the game acts on everything it
    /// has been told, takes over the level of the load `loaded` where it waits
    /// for it, and updates the level that is then in place.
    pub open spec fn updated(self, loaded: Option<LoadedView>, sync: bool, elapsed: Scalar) -> World {
        self.settled(loaded).level_advanced(sync, elapsed)
    }
}

impl GameView {
    /// The load that the game waits for, where it waits for one, is the one
    /// that was started last.
    pub open spec fn waits_for_latest(self) -> bool {
        self.load_context is Some ==> self.load_context->0.ticket == self.loads
    }

    /// The level, where there is one, is well formed, and the load that the
    /// game waits for is the one that was started last.
    pub open spec fn wf(self) -> bool {
        &&& self.level is Some ==> self.level->0.wf()
        &&& self.waits_for_latest()
    }
}

impl World {
    /// No two peers share a player index, no two players of the level share
    /// an index, no list of a controller is longer than it may be, and the
    /// load that the game waits for is the one that was started last.
    pub open spec fn wf(self) -> bool {
        self.net.wf() && self.game.wf()
    }
}

/// Acting on what the game has been told leaves the level and the transport as
/// they are, and the game goes on waiting for the load that was started last.
pub proof fn lemma_heard_all_frame(w: World, events: Seq<GameEventView>)
    ensures
        w.heard_all(events).game.level == w.game.level,
        w.heard_all(events).game.server == w.game.server,
        w.heard_all(events).game.events == w.game.events,
        w.heard_all(events).net == w.net,
        w.game.waits_for_latest() ==> w.heard_all(events).game.waits_for_latest(),
    decreases events.len(),
{
    if events.len() > 0 {
        lemma_heard_all_frame(w, events.drop_last());
    }
}

/// An update of the game keeps the world well formed.
pub proof fn lemma_updated_wf(w: World, loaded: Option<LoadedView>, sync: bool, elapsed: Scalar)
    requires
        w.wf(),
    ensures
        w.settled(loaded).wf(),
        w.updated(loaded, sync, elapsed).wf(),
{
    let quiet = World { game: GameView { events: Seq::empty(), ..w.game }, ..w };
    lemma_heard_all_frame(quiet, w.game.events);
    let settled = w.settled(loaded);
    if settled.game.level is Some {
        let s = Stage {
            level: settled.game.level->0,
            net: settled.net,
            game_events: settled.game.events,
            effects: settled.effects,
        };
        crate::applier::lemma_drained_wf(s);
        crate::applier::lemma_drained_frame(s);
        let d = s.drained();
        crate::scheduler::lemma_ticked_wf(d, d.level.players.len(), sync, elapsed);
        crate::scheduler::lemma_ticked_frame(d, d.level.players.len(), sync, elapsed);
    }
}

/// A load that has ended is taken over only where it is the one the game waits
/// for: the end of any other load changes nothing.
pub proof fn lemma_orphaned_load(w: World, loaded: Option<LoadedView>)
    requires
        !w.awaited(loaded),
    ensures
        w.handed(loaded) == w,
{
}

/// Told to load a level while a load is in flight, the game starts a load
/// under a ticket that is not the ticket of the load in flight, and waits for
/// the new load alone: the end of the old one changes nothing.
pub proof fn lemma_load_replaces(w: World, level: Seq<char>, state: Seq<u32>, blocks: Seq<u32>)
    requires
        w.game.waits_for_latest(),
        w.game.load_context is Some,
    ensures
        ({
            let old_ticket = w.game.load_context->0.ticket;
            let after = w.heard(GameEventView::LoadLevel { level, state });
            &&& after.game.load_context is Some
            &&& after.game.load_context->0.ticket != old_ticket
            &&& after.game.waits_for_latest()
            &&& after.awaited(Some(LoadedView { ticket: after.game.load_context->0.ticket, blocks }))
            &&& !after.awaited(Some(LoadedView { ticket: old_ticket, blocks }))
            &&& after.handed(Some(LoadedView { ticket: old_ticket, blocks })) == after
        }),
{
}

impl Game {
    /// The level, where there is one, is well formed.
    pub open spec fn wf(&self) -> bool {
        self@.wf()
    }

    /// A game that has just begun.
    pub fn new(engine: &mut Vec<Effect>, server: bool) -> (r: Game)
        ensures
            r@ == GameView::begun(server),
            r.wf(),
            final(engine)@ == if server {
                old(engine)@.push(Effect::LoadLevel { ticket: 1 })
            } else {
                old(engine)@
            },
    {
        let game = if server {
            engine.push(Effect::LoadLevel { ticket: 1 });
            Game {
                level: None,
                events: Vec::new(),
                server,
                active: true,
                load_context: Some(
                    LoadContext {
                        ticket: 1,
                        level: FIRST_LEVEL.to_owned(),
                        state: LevelState::new(),
                    },
                ),
                loads: 1,
            }
        } else {
            Game {
                level: None,
                events: Vec::new(),
                server,
                active: true,
                load_context: None,
                loads: 0,
            }
        };
        assert(game@.events =~= Seq::<GameEventView>::empty());
        game
    }

    /// Tells the game of `event`.
    pub fn queue_event(&mut self, event: GameEvent)
        ensures
            final(self)@ == old(self)@.queued(event@),
            old(self).wf() ==> final(self).wf(),
    {
        self.events.push(event);
        assert(self@.events =~= old(self)@.events.push(event@));
    }

    /// Acts on one thing the game has been told.
    fn hear(&mut self, engine: &mut Vec<Effect>, network_manager: &NetworkManager, event: &GameEvent)
        ensures
            world(final(self)@, network_manager@, final(engine)@) == world(
                old(self)@,
                network_manager@,
                old(engine)@,
            ).heard(event@),
    {
        match event {
            GameEvent::LoadLevel { level, state } => {
                let ticket: u64 = if self.loads == u64::MAX {
                    0
                } else {
                    self.loads + 1
                };
                self.load_context = Some(
                    LoadContext { ticket, level: level.clone(), state: state.clone() },
                );
                self.loads = ticket;
                engine.push(Effect::LoadLevel { ticket });
            },
            GameEvent::Disconnected => {
                if !self.server {
                    self.active = false;
                }
            },
            _ => {},
        }
    }

    /// Acts on everything the game has been told, oldest first.
    fn hear_all(&mut self, engine: &mut Vec<Effect>, network_manager: &NetworkManager)
        ensures
            world(final(self)@, network_manager@, final(engine)@) == world(
                GameView { events: Seq::empty(), ..old(self)@ },
                network_manager@,
                old(engine)@,
            ).heard_all(old(self)@.events),
    {
        let mut events: Vec<GameEvent> = Vec::new();
        std::mem::swap(&mut events, &mut self.events);
        let ghost told = events@.map_values(|e: GameEvent| e@);
        let ghost start = world(
            GameView { events: Seq::empty(), ..old(self)@ },
            network_manager@,
            old(engine)@,
        );
        assert(self@.events =~= Seq::<GameEventView>::empty());
        assert(told =~= old(self)@.events);
        let mut i: usize = 0;
        while i < events.len()
            invariant
                i <= events.len(),
                told == events@.map_values(|e: GameEvent| e@),
                world(self@, network_manager@, engine@) == start.heard_all(told.take(i as int)),
            decreases events.len() - i,
        {
            assert(told.take(i + 1).drop_last() =~= told.take(i as int));
            assert(told.take(i + 1).last() == events@[i as int]@);
            self.hear(engine, network_manager, &events[i]);
            i += 1;
        }
        assert(told.take(i as int) =~= told);
    }

    /// Takes over the level whose load has ended as `loaded`, where that is
    /// the load the game waits for.
    fn hand_over(
        &mut self,
        engine: &mut Vec<Effect>,
        network_manager: &mut NetworkManager,
        loaded: Option<LoadedLevel>,
    )
        ensures
            world(final(self)@, final(network_manager)@, final(engine)@) == world(
                old(self)@,
                old(network_manager)@,
                old(engine)@,
            ).handed(loaded_view(loaded)),
    {
        let blocks = match (&self.load_context, loaded) {
            (Some(context), Some(level)) => {
                if context.ticket == level.ticket {
                    level.blocks
                } else {
                    return ;
                }
            },
            _ => {
                return ;
            },
        };
        let ghost before = world(old(self)@, old(network_manager)@, old(engine)@);
        let context = self.load_context.take().unwrap();
        let mut old_level = self.level.take();
        match &mut old_level {
            Some(level) => {
                level.clean_up(engine);
            },
            None => {
                assert(engine@ =~= old(engine)@ + Seq::<Effect>::empty());
            },
        }
        if self.server {
            let message = NetworkMessage::GameEvent {
                event: GameEvent::LoadLevel { level: context.level.clone(), state: LevelState::new() },
            };
            network_manager.send_to_all_reliably(&message);
        } else {
            let message = NetworkMessage::GameEvent { event: GameEvent::Joined };
            network_manager.send_to_server_reliably(&message);
        }
        engine.push(Effect::InstallLevel { ticket: context.ticket });
        let ghost standing = blocks@;
        let mut new_level = Level::new(context.level.as_str(), blocks);
        new_level.apply_state(engine, &context.state, self.server);
        assert(engine@ =~= old(engine)@ + before.handover_effects(standing));
        self.level = Some(new_level);
    }

    /// Updates the level, where there is one.
    fn advance_level(
        &mut self,
        engine: &mut Vec<Effect>,
        network_manager: &mut NetworkManager,
        tick: u64,
        elapsed_time: Scalar,
    )
        ensures
            world(final(self)@, final(network_manager)@, final(engine)@) == world(
                old(self)@,
                old(network_manager)@,
                old(engine)@,
            ).level_advanced(is_sync_tick(tick), elapsed_time),
    {
        let mut level = self.level.take();
        match &mut level {
            Some(l) => {
                l.update(engine, network_manager, &mut self.events, tick, elapsed_time);
            },
            None => {},
        }
        self.level = level;
    }

    /// Updates the game. It acts on everything it has been told. It takes over
    /// the level whose load has ended as `loaded`, if it waits for that load.
    /// Then it updates the level that is in place: the queue of the level is
    /// worked off, and every player lives through the tick of the number `tick`,
    /// at the time `elapsed_time`.
    pub fn update(
        &mut self,
        engine: &mut Vec<Effect>,
        network_manager: &mut NetworkManager,
        loaded: Option<LoadedLevel>,
        tick: u64,
        elapsed_time: Scalar,
    )
        ensures
            world(final(self)@, final(network_manager)@, final(engine)@) == world(
                old(self)@,
                old(network_manager)@,
                old(engine)@,
            ).updated(loaded_view(loaded), is_sync_tick(tick), elapsed_time),
            old(self).wf() && old(network_manager).wf() ==> final(self).wf(),
            old(self).wf() && old(network_manager).wf() ==> final(network_manager).wf(),
    {
        proof {
            let before = world(old(self)@, old(network_manager)@, old(engine)@);
            if before.wf() {
                lemma_updated_wf(before, loaded_view(loaded), is_sync_tick(tick), elapsed_time);
            }
        }
        self.hear_all(engine, network_manager);
        self.hand_over(engine, network_manager, loaded);
        self.advance_level(engine, network_manager, tick, elapsed_time);
    }
}

} // verus!
