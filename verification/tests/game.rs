use breakfloor::address::Address;
use breakfloor::effect::Effect;
use breakfloor::game::{Game, GameEvent, LoadContext, LoadedLevel, FIRST_LEVEL};
use breakfloor::level::{Level, LevelState};
use breakfloor::network_manager::{Delivery, NetworkManager, NetworkMessage, Packet};
use breakfloor::player::PlayerState;
use breakfloor::player_event::{PlayerEvent, SerializableVector};
use breakfloor::scalar::Scalar;

fn s(x: f32) -> Scalar {
    Scalar::from_bits(x.to_bits())
}

fn peer(n: u32) -> Address {
    Address::V4 { ip: 0x0a00_0000 + n, port: 4000 }
}

fn server_address() -> Address {
    Address::V4 { ip: 0x7f00_0001, port: 12351 }
}

fn manager(server: bool, peers: &[u32]) -> NetworkManager {
    let mut m = NetworkManager::new(server_address(), server);
    m.take_outbox();
    for &p in peers {
        m.on_connect(peer(p));
    }
    m
}

/// The end of the load with this ticket, of a level in which the blocks 1 to
/// 20 stand.
fn loaded(ticket: u64) -> Option<LoadedLevel> {
    Some(LoadedLevel { ticket, blocks: (1..=20).collect() })
}

fn load(level: &str, blocks: &[u32]) -> GameEvent {
    GameEvent::LoadLevel {
        level: String::from(level),
        state: LevelState { destroyed_blocks: blocks.to_vec() },
    }
}

fn resting() -> PlayerState {
    let zero = SerializableVector { x: s(0.0), y: s(0.0), z: s(0.0) };
    PlayerState {
        timestamp: s(0.0),
        position: zero,
        velocity: zero,
        yaw: s(0.0),
        pitch: s(0.0),
        shoot: false,
        fuel: 0,
    }
}

#[test]
fn the_server_starts_by_loading_its_first_level() {
    let mut engine = Vec::new();
    let game = Game::new(&mut engine, true);
    assert_eq!(FIRST_LEVEL, "block_remake");
    assert!(game.server);
    assert!(game.active);
    assert!(game.level.is_none());
    assert!(game.events.is_empty());
    assert_eq!(
        game.load_context,
        Some(LoadContext {
            ticket: 1,
            level: String::from("block_remake"),
            state: LevelState { destroyed_blocks: vec![] },
        })
    );
    assert_eq!(game.loads, 1);
    assert_eq!(engine, vec![Effect::LoadLevel { ticket: 1 }]);
}

#[test]
fn a_client_starts_by_waiting() {
    let mut engine = Vec::new();
    let game = Game::new(&mut engine, false);
    assert!(!game.server);
    assert!(game.active);
    assert!(game.level.is_none());
    assert_eq!(game.load_context, None);
    assert_eq!(game.loads, 0);
    assert!(engine.is_empty());
}

#[test]
fn the_game_is_told_things_in_order() {
    let mut engine = Vec::new();
    let mut game = Game::new(&mut engine, false);
    game.queue_event(GameEvent::Connected);
    game.queue_event(load("cellar", &[1]));
    assert_eq!(game.events, vec![GameEvent::Connected, load("cellar", &[1])]);
}

#[test]
fn told_to_load_a_level_the_game_starts_a_load() {
    let mut engine = Vec::new();
    let mut net = manager(false, &[]);
    let mut game = Game::new(&mut engine, false);
    game.queue_event(GameEvent::Connected);
    game.queue_event(load("cellar", &[4, 5]));
    game.queue_event(GameEvent::LoadedLevel);
    game.queue_event(GameEvent::Joined);
    game.update(&mut engine, &mut net, None, 1, s(0.0));
    assert!(game.events.is_empty());
    assert_eq!(
        game.load_context,
        Some(LoadContext {
            ticket: 1,
            level: String::from("cellar"),
            state: LevelState { destroyed_blocks: vec![4, 5] },
        })
    );
    assert_eq!(engine, vec![Effect::LoadLevel { ticket: 1 }]);
    assert!(game.level.is_none());
    assert!(game.active);
    assert!(net.outbox.is_empty());
}

#[test]
fn a_new_load_takes_the_place_of_the_one_in_flight() {
    let mut engine = Vec::new();
    let mut net = manager(true, &[]);
    let mut game = Game::new(&mut engine, true);
    game.queue_event(load("cellar", &[]));
    game.queue_event(load("attic", &[9]));
    game.update(&mut engine, &mut net, loaded(1), 1, s(0.0));
    assert!(game.level.is_none());
    assert_eq!(game.load_context.as_ref().unwrap().ticket, 3);
    assert_eq!(game.load_context.as_ref().unwrap().level, "attic");
    assert_eq!(
        engine,
        vec![
            Effect::LoadLevel { ticket: 1 },
            Effect::LoadLevel { ticket: 2 },
            Effect::LoadLevel { ticket: 3 },
        ]
    );
    game.update(&mut engine, &mut net, loaded(2), 1, s(0.0));
    assert!(game.level.is_none());
    assert!(game.load_context.is_some());
    game.update(&mut engine, &mut net, loaded(3), 1, s(0.0));
    assert_eq!(game.level.as_ref().unwrap().name, "attic");
    assert_eq!(game.load_context, None);
}

#[test]
fn a_load_that_ends_while_the_game_waits_for_none_is_ignored() {
    let mut engine = Vec::new();
    let mut net = manager(false, &[]);
    let mut game = Game::new(&mut engine, false);
    game.update(&mut engine, &mut net, loaded(1), 1, s(0.0));
    game.update(&mut engine, &mut net, loaded(0), 1, s(0.0));
    assert!(game.level.is_none());
    assert!(engine.is_empty());
    assert!(net.outbox.is_empty());
}

#[test]
fn the_game_goes_on_waiting_while_no_load_has_ended() {
    let mut engine = Vec::new();
    let mut net = manager(true, &[]);
    let mut game = Game::new(&mut engine, true);
    for _ in 0..3 {
        game.update(&mut engine, &mut net, None, 1, s(0.0));
    }
    assert!(game.level.is_none());
    assert_eq!(game.load_context.as_ref().unwrap().ticket, 1);
    assert_eq!(engine, vec![Effect::LoadLevel { ticket: 1 }]);
}

#[test]
fn the_server_puts_its_level_in_place_and_tells_every_peer() {
    let mut engine = Vec::new();
    let mut net = manager(true, &[1, 2]);
    let mut game = Game::new(&mut engine, true);
    engine.clear();
    game.update(&mut engine, &mut net, loaded(1), 1, s(0.0));
    let level = game.level.as_ref().unwrap();
    assert_eq!(level.name, "block_remake");
    assert!(level.players().is_empty());
    assert_eq!(level.blocks, (1..=20).collect::<Vec<u32>>());
    assert!(level.state.destroyed_blocks.is_empty());
    assert_eq!(game.load_context, None);
    assert_eq!(engine, vec![Effect::InstallLevel { ticket: 1 }]);
    let message = NetworkMessage::GameEvent { event: load("block_remake", &[]) };
    assert_eq!(
        net.outbox,
        vec![
            Packet {
                addr: peer(1),
                message: message.clone(),
                delivery: Delivery::ReliableOrdered { stream: Some(1) },
            },
            Packet {
                addr: peer(2),
                message,
                delivery: Delivery::ReliableOrdered { stream: Some(2) },
            },
        ]
    );
}

#[test]
fn a_client_puts_its_level_in_place_and_says_that_it_has_joined() {
    let mut engine = Vec::new();
    let mut net = manager(false, &[]);
    let mut game = Game::new(&mut engine, false);
    game.queue_event(load("cellar", &[4, 5, 4]));
    game.update(&mut engine, &mut net, None, 1, s(0.0));
    engine.clear();
    game.update(&mut engine, &mut net, loaded(1), 1, s(0.0));
    let level = game.level.as_ref().unwrap();
    assert_eq!(level.name, "cellar");
    assert!(level.state.destroyed_blocks.is_empty());
    assert_eq!(level.blocks.len(), 18);
    assert!(!level.blocks.contains(&4) && !level.blocks.contains(&5));
    assert_eq!(
        engine,
        vec![
            Effect::InstallLevel { ticket: 1 },
            Effect::RemoveNode { index: 4 },
            Effect::RemoveNode { index: 5 },
        ]
    );
    assert_eq!(
        net.outbox,
        vec![Packet {
            addr: server_address(),
            message: NetworkMessage::GameEvent { event: GameEvent::Joined },
            delivery: Delivery::ReliableOrdered { stream: Some(0) },
        }]
    );
    assert_eq!(game.load_context, None);
}

#[test]
fn the_level_that_was_played_is_given_up_first() {
    let mut engine = Vec::new();
    let mut net = manager(true, &[]);
    let mut game = Game::new(&mut engine, true);
    let mut old = Level::new("old", vec![1, 2]);
    old.spawn_player(&mut engine, 1, resting(), false, &mut net);
    old.spawn_player(&mut engine, 2, resting(), false, &mut net);
    old.queue_event(PlayerEvent::DestroyBlock { index: 1 });
    game.level = Some(old);
    game.queue_event(load("new", &[8]));
    engine.clear();
    game.update(&mut engine, &mut net, loaded(2), 1, s(0.0));
    assert_eq!(
        engine,
        vec![
            Effect::LoadLevel { ticket: 2 },
            Effect::RemovePlayer { index: 1 },
            Effect::RemovePlayer { index: 2 },
            Effect::RemoveScene,
            Effect::InstallLevel { ticket: 2 },
            Effect::RemoveNode { index: 8 },
        ]
    );
    let level = game.level.as_ref().unwrap();
    assert_eq!(level.name, "new");
    assert!(level.players().is_empty());
    assert!(level.events.is_empty());
    assert_eq!(level.state.destroyed_blocks, vec![8]);
}

#[test]
fn a_load_that_starts_and_ends_in_one_update_is_taken_over() {
    let mut engine = Vec::new();
    let mut net = manager(false, &[]);
    let mut game = Game::new(&mut engine, false);
    game.queue_event(load("cellar", &[]));
    game.update(&mut engine, &mut net, loaded(1), 1, s(0.0));
    assert_eq!(game.level.as_ref().unwrap().name, "cellar");
}

#[test]
fn a_client_that_is_disconnected_stops() {
    let mut engine = Vec::new();
    let mut net = manager(false, &[]);
    let mut game = Game::new(&mut engine, false);
    game.queue_event(GameEvent::Disconnected);
    game.update(&mut engine, &mut net, None, 1, s(0.0));
    assert!(!game.active);
    assert!(game.events.is_empty());
}

#[test]
fn the_server_goes_on_when_told_of_a_disconnect() {
    let mut engine = Vec::new();
    let mut net = manager(true, &[]);
    let mut game = Game::new(&mut engine, true);
    game.queue_event(GameEvent::Disconnected);
    game.update(&mut engine, &mut net, None, 1, s(0.0));
    assert!(game.active);
}

#[test]
fn the_tickets_start_over_when_they_run_out() {
    let mut engine = Vec::new();
    let mut net = manager(false, &[]);
    let mut game = Game::new(&mut engine, false);
    game.loads = u64::MAX - 1;
    game.queue_event(load("a", &[]));
    game.queue_event(load("b", &[]));
    game.update(&mut engine, &mut net, None, 1, s(0.0));
    assert_eq!(
        engine,
        vec![Effect::LoadLevel { ticket: u64::MAX }, Effect::LoadLevel { ticket: 0 }]
    );
    assert_eq!(game.loads, 0);
    assert_eq!(game.load_context.as_ref().unwrap().ticket, 0);
}

#[test]
fn an_event_reaches_the_queue_of_the_level() {
    let mut engine = Vec::new();
    let mut game = Game::new(&mut engine, false);
    game.enqueue(PlayerEvent::KillPlayer { index: 1 });
    assert!(game.level.is_none());
    game.level = Some(Level::new("arena", vec![]));
    game.enqueue(PlayerEvent::KillPlayer { index: 1 });
    game.enqueue(PlayerEvent::KillPlayer { index: 2 });
    assert_eq!(
        game.level.as_ref().unwrap().events,
        vec![PlayerEvent::KillPlayer { index: 1 }, PlayerEvent::KillPlayer { index: 2 }]
    );
    assert!(game.player(1).is_none());
}

#[test]
fn a_state_brings_down_only_what_stands_in_the_level() {
    let mut engine = Vec::new();
    let mut net = manager(true, &[]);
    let mut game = Game::new(&mut engine, true);
    game.queue_event(load("cellar", &[3, 99, 3, 0]));
    engine.clear();
    game.update(&mut engine, &mut net, loaded(2), 1, s(0.0));
    assert_eq!(
        engine,
        vec![
            Effect::LoadLevel { ticket: 2 },
            Effect::InstallLevel { ticket: 2 },
            Effect::RemoveNode { index: 3 },
        ]
    );
    let level = game.level.as_ref().unwrap();
    assert_eq!(level.state.destroyed_blocks, vec![3]);
    assert_eq!(level.blocks.len(), 19);
}

#[test]
fn a_new_load_gets_a_ticket_of_its_own() {
    let mut engine = Vec::new();
    let mut net = manager(true, &[]);
    let mut game = Game::new(&mut engine, true);
    let in_flight = game.load_context.as_ref().unwrap().ticket;
    game.queue_event(load("cellar", &[]));
    game.update(&mut engine, &mut net, None, 1, s(0.0));
    let next = game.load_context.as_ref().unwrap().ticket;
    assert_ne!(next, in_flight);
    assert_eq!(next, game.loads);
    game.update(&mut engine, &mut net, loaded(in_flight), 2, s(0.0));
    assert!(game.level.is_none());
    game.update(&mut engine, &mut net, loaded(next), 3, s(0.0));
    assert_eq!(game.level.as_ref().unwrap().name, "cellar");
}

#[test]
fn an_update_of_the_game_updates_the_level() {
    let mut engine = Vec::new();
    let mut net = manager(true, &[1, 2]);
    let mut game = Game::new(&mut engine, true);
    game.update(&mut engine, &mut net, loaded(1), 1, s(0.0));
    net.take_outbox();
    engine.clear();
    let level = game.level.as_mut().unwrap();
    level.spawn_player(&mut engine, 1, resting(), false, &mut net);
    level.spawn_player(&mut engine, 2, resting(), false, &mut net);
    level.queue_event(PlayerEvent::Jump { index: 2, active: true });
    level.queue_event(PlayerEvent::DestroyBlock { index: 6 });
    level.players[1].body.on_ground = true;
    engine.clear();
    game.update(&mut engine, &mut net, None, 3, s(0.5));
    let level = game.level.as_ref().unwrap();
    assert!(level.events.is_empty());
    assert_eq!(level.state.destroyed_blocks, vec![6]);
    assert_eq!(engine.len(), 3);
    assert_eq!(engine[0], Effect::RemoveNode { index: 6 });
    match engine[2] {
        Effect::Step { index: 2, step } => assert!(step.jump),
        other => panic!("unexpected {:?}", other),
    }
    assert_eq!(net.outbox.len(), 4 + 2);
    assert_eq!(level.players()[0].controller.previous_states[0].timestamp, s(0.5));
}

#[test]
fn a_reload_that_the_level_asks_for_waits_for_the_next_update() {
    let mut engine = Vec::new();
    let mut net = manager(true, &[1, 2]);
    let mut game = Game::new(&mut engine, true);
    game.update(&mut engine, &mut net, loaded(1), 1, s(0.0));
    let level = game.level.as_mut().unwrap();
    level.spawn_player(&mut engine, 1, resting(), false, &mut net);
    level.players[0].body.fallen = true;
    engine.clear();
    game.update(&mut engine, &mut net, None, 2, s(0.0));
    assert!(game.events.is_empty());
    game.update(&mut engine, &mut net, None, 3, s(0.0));
    assert_eq!(game.events, vec![load("block_remake", &[])]);
    assert_eq!(game.loads, 1);
    game.update(&mut engine, &mut net, None, 4, s(0.0));
    assert_eq!(game.loads, 2);
    assert_eq!(game.load_context.as_ref().unwrap().ticket, 2);
}
