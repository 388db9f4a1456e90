use breakfloor::address::Address;
use breakfloor::animation::{AnimationRules, PlayerAnimationMachineInput};
use breakfloor::game::Game;
use breakfloor::input::{process_input_event, InputEvent, Key};
use breakfloor::level::Level;
use breakfloor::network_manager::{Delivery, NetworkManager, NetworkMessage, Packet};
use breakfloor::player::PlayerState;
use breakfloor::player_event::{PlayerEvent, SerializableVector};
use breakfloor::scalar::Scalar;

fn s(x: f32) -> Scalar {
    Scalar::from_bits(x.to_bits())
}

fn server_address() -> Address {
    Address::V4 { ip: 0x7f00_0001, port: 12351 }
}

fn looking(yaw: f32, pitch: f32) -> PlayerState {
    let zero = SerializableVector { x: s(0.0), y: s(0.0), z: s(0.0) };
    PlayerState {
        timestamp: s(0.0),
        position: zero,
        velocity: zero,
        yaw: s(yaw),
        pitch: s(pitch),
        shoot: false,
        fuel: 0,
    }
}

/// A side on which the user plays the player of index 4.
fn playing(server: bool) -> (Game, NetworkManager) {
    let mut engine = Vec::new();
    let mut net = NetworkManager::new(server_address(), server);
    net.take_outbox();
    let mut game = Game::new(&mut engine, server);
    let mut level = Level::new("arena", (1..=20).collect());
    level.spawn_player(&mut engine, 2, looking(1.0, 2.0), false, &mut net);
    level.spawn_player(&mut engine, 4, looking(30.0, -15.0), true, &mut net);
    level.players[1].flight_fuel = 77;
    game.level = Some(level);
    (game, net)
}

fn to_server(message: NetworkMessage, delivery: Delivery) -> Packet {
    Packet { addr: server_address(), message, delivery }
}

fn about(event: PlayerEvent) -> NetworkMessage {
    NetworkMessage::PlayerEvent { index: 4, event }
}

fn queue(game: &Game) -> Vec<PlayerEvent> {
    game.level.as_ref().unwrap().events.clone()
}

#[test]
fn the_four_keys_move_the_player_at_once_and_tell_the_server() {
    let yaw = s(30.0);
    let pitch = s(-15.0);
    let cases = [
        (Key::W, true, PlayerEvent::MoveForward { index: 4, active: true, yaw, pitch }),
        (Key::W, false, PlayerEvent::MoveForward { index: 4, active: false, yaw, pitch }),
        (Key::S, true, PlayerEvent::MoveBackward { index: 4, active: true, yaw, pitch }),
        (Key::A, true, PlayerEvent::MoveLeft { index: 4, active: true, yaw, pitch }),
        (Key::D, false, PlayerEvent::MoveRight { index: 4, active: false, yaw, pitch }),
    ];
    for (key, pressed, event) in cases {
        let (mut game, mut net) = playing(false);
        process_input_event(InputEvent::Key { key, pressed }, &mut game, &mut net);
        assert_eq!(queue(&game), vec![event]);
        assert_eq!(net.outbox, vec![to_server(about(event), Delivery::UnreliableSequenced)]);
    }
}

#[test]
fn the_space_bar_asks_the_server_for_flight() {
    let (mut game, mut net) = playing(false);
    process_input_event(InputEvent::Key { key: Key::Space, pressed: true }, &mut game, &mut net);
    let event = PlayerEvent::MoveUp { index: 4, active: true, fuel: 77 };
    assert!(queue(&game).is_empty());
    assert_eq!(net.outbox, vec![to_server(about(event), Delivery::UnreliableSequenced)]);
}

#[test]
fn the_left_button_asks_the_server_for_a_shot() {
    for pressed in [true, false] {
        let (mut game, mut net) = playing(false);
        process_input_event(InputEvent::LeftButton { pressed }, &mut game, &mut net);
        let event =
            PlayerEvent::ShootWeapon { index: 4, active: pressed, yaw: s(30.0), pitch: s(-15.0) };
        assert!(queue(&game).is_empty());
        assert_eq!(
            net.outbox,
            vec![to_server(about(event), Delivery::ReliableOrdered { stream: Some(0) })]
        );
    }
}

#[test]
fn the_mouse_turns_the_player_at_once_and_tells_the_server() {
    let (mut game, mut net) = playing(false);
    let motion = InputEvent::Motion { yaw_delta: s(0.5), pitch_delta: s(-1.5) };
    process_input_event(motion, &mut game, &mut net);
    let event = PlayerEvent::LookAround { index: 4, yaw_delta: s(0.5), pitch_delta: s(-1.5) };
    assert_eq!(queue(&game), vec![event]);
    assert_eq!(net.outbox, vec![to_server(about(event), Delivery::UnreliableSequenced)]);
}

#[test]
fn the_mouse_is_passed_on_even_while_the_player_is_not_in_the_level() {
    let (mut game, mut net) = playing(false);
    net.player_index = Some(9);
    let motion = InputEvent::Motion { yaw_delta: s(0.5), pitch_delta: s(-1.5) };
    process_input_event(motion, &mut game, &mut net);
    let event = PlayerEvent::LookAround { index: 9, yaw_delta: s(0.5), pitch_delta: s(-1.5) };
    assert_eq!(queue(&game), vec![event]);
    assert_eq!(
        net.outbox,
        vec![to_server(
            NetworkMessage::PlayerEvent { index: 9, event },
            Delivery::UnreliableSequenced
        )]
    );
}

#[test]
fn keys_do_nothing_while_the_player_is_not_in_the_level() {
    let (mut game, mut net) = playing(false);
    net.player_index = Some(9);
    for key in [Key::W, Key::S, Key::A, Key::D, Key::Space, Key::Other] {
        process_input_event(InputEvent::Key { key, pressed: true }, &mut game, &mut net);
    }
    process_input_event(InputEvent::LeftButton { pressed: true }, &mut game, &mut net);
    assert!(queue(&game).is_empty());
    assert!(net.outbox.is_empty());
}

#[test]
fn other_input_does_nothing() {
    let (mut game, mut net) = playing(false);
    process_input_event(InputEvent::Other, &mut game, &mut net);
    process_input_event(InputEvent::Key { key: Key::Other, pressed: true }, &mut game, &mut net);
    assert!(queue(&game).is_empty());
    assert!(net.outbox.is_empty());
}

fn everything() -> Vec<InputEvent> {
    vec![
        InputEvent::Key { key: Key::W, pressed: true },
        InputEvent::Key { key: Key::Space, pressed: true },
        InputEvent::LeftButton { pressed: true },
        InputEvent::Motion { yaw_delta: s(1.0), pitch_delta: s(1.0) },
        InputEvent::Other,
    ]
}

#[test]
fn input_does_nothing_until_the_player_of_the_user_is_known() {
    let (mut game, mut net) = playing(false);
    net.player_index = None;
    for event in everything() {
        process_input_event(event, &mut game, &mut net);
    }
    assert!(queue(&game).is_empty());
    assert!(net.outbox.is_empty());
}

#[test]
fn input_does_nothing_without_a_level() {
    let (mut game, mut net) = playing(false);
    game.level = None;
    for event in everything() {
        process_input_event(event, &mut game, &mut net);
    }
    assert!(game.level.is_none());
    assert!(net.outbox.is_empty());
}

#[test]
fn the_server_has_no_user() {
    let (mut game, mut net) = playing(true);
    assert_eq!(net.player_index, Some(4));
    for event in everything() {
        process_input_event(event, &mut game, &mut net);
    }
    assert!(queue(&game).is_empty());
    assert!(net.outbox.is_empty());
}

#[test]
fn the_rules_of_the_animation() {
    let input = PlayerAnimationMachineInput {
        walk_forward: true,
        shoot: false,
        jump: false,
        fly: false,
        on_ground: true,
    };
    assert_eq!(
        input.rules(false),
        AnimationRules {
            idle_to_walk_forward: true,
            idle_to_shoot: false,
            idle_to_jump: false,
            walk_forward_to_jump: false,
            walk_forward_to_idle: false,
            walk_forward_to_shoot: false,
            shoot_to_idle: false,
            shoot_to_walk_forward: true,
            jump_to_idle: true,
        }
    );
    let input = PlayerAnimationMachineInput {
        walk_forward: true,
        shoot: true,
        jump: true,
        fly: true,
        on_ground: false,
    };
    assert_eq!(
        input.rules(false),
        AnimationRules {
            idle_to_walk_forward: false,
            idle_to_shoot: true,
            idle_to_jump: true,
            walk_forward_to_jump: true,
            walk_forward_to_idle: true,
            walk_forward_to_shoot: true,
            shoot_to_idle: false,
            shoot_to_walk_forward: false,
            jump_to_idle: false,
        }
    );
    assert!(input.rules(true).jump_to_idle);
}

#[test]
fn by_default_the_animation_is_told_of_a_player_that_does_nothing() {
    let input = PlayerAnimationMachineInput::default();
    assert_eq!(
        input,
        PlayerAnimationMachineInput {
            walk_forward: false,
            shoot: false,
            jump: false,
            fly: false,
            on_ground: false,
        }
    );
    assert_eq!(
        input.rules(false),
        AnimationRules {
            idle_to_walk_forward: false,
            idle_to_shoot: false,
            idle_to_jump: false,
            walk_forward_to_jump: false,
            walk_forward_to_idle: true,
            walk_forward_to_shoot: false,
            shoot_to_idle: true,
            shoot_to_walk_forward: false,
            jump_to_idle: false,
        }
    );
}
