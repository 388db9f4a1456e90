use breakfloor::address::Address;
use breakfloor::animation::PlayerAnimationMachineInput;
use breakfloor::network_manager::{Delivery, NetworkManager, NetworkMessage, Packet};
use breakfloor::player::{Hit, Observation, Player, PlayerState, Shot, Tag, MAX_FUEL, SYNC_FREQUENCY};
use breakfloor::player_event::{ColliderHandle, PlayerEvent, SerializableVector};
use breakfloor::scalar::Scalar;

fn s(x: f32) -> Scalar {
    Scalar::from_bits(x.to_bits())
}

fn v(x: f32, y: f32, z: f32) -> SerializableVector {
    SerializableVector { x: s(x), y: s(y), z: s(z) }
}

fn peer(n: u32) -> Address {
    Address::V4 { ip: 0x0a00_0000 + n, port: 4000 }
}

fn manager(server: bool, peers: &[u32]) -> NetworkManager {
    let mut m = NetworkManager::new(Address::V4 { ip: 0x7f00_0001, port: 12351 }, server);
    m.take_outbox();
    for &p in peers {
        m.on_connect(peer(p));
    }
    m
}

fn entering() -> PlayerState {
    PlayerState {
        timestamp: s(3.0),
        position: v(1.0, 2.0, 3.0),
        velocity: v(0.1, 0.2, 0.3),
        yaw: s(45.0),
        pitch: s(-5.0),
        shoot: true,
        fuel: 17,
    }
}

fn player(index: u32) -> Player {
    let mut p = Player::new(entering(), false, index);
    p.controller.shoot = false;
    p.collider = ColliderHandle { index: 100 + index, generation: 1 };
    p
}

/// A player whose weapon has just gone off.
fn shooter(index: u32) -> Player {
    let mut p = player(index);
    p.controller.shoot = true;
    let mut net = manager(false, &[]);
    assert!(p.update(&mut net).fire);
    p
}

fn grounded(p: &mut Player) {
    p.body.on_ground = true;
}

#[test]
fn the_constants_of_the_game() {
    assert_eq!(MAX_FUEL, 225);
    assert_eq!(SYNC_FREQUENCY, 3);
}

#[test]
fn a_player_enters_with_a_full_tank_and_a_ready_weapon() {
    let p = Player::new(entering(), true, 4);
    assert_eq!(p.index, 4);
    assert!(p.current_player);
    assert_eq!(p.flight_fuel, 225);
    assert_eq!(p.ammo, 20);
    assert_eq!(p.collider, ColliderHandle::none());
    assert!(p.controller.shoot);
    assert!(p.controller.previous_states.is_empty());
    assert_eq!(
        p.body,
        Observation {
            position: v(1.0, 2.0, 3.0),
            velocity: v(0.1, 0.2, 0.3),
            yaw: s(45.0),
            pitch: s(-5.0),
            on_ground: false,
            can_climb: false,
            weapon_ready: true,
            fallen: false,
        }
    );
    assert!(p.has_fuel());
    assert!(p.can_shoot());
    assert!(!p.shot_pending);
    assert!(!p.has_ground_contact());
    assert_eq!(p.get_position(), v(1.0, 2.0, 3.0));
    assert_eq!(p.get_velocity(), v(0.1, 0.2, 0.3));
    assert_eq!(p.get_yaw(), s(45.0));
    assert_eq!(p.get_pitch(), s(-5.0));
}

#[test]
fn there_is_fuel_from_three_units_on() {
    let mut p = player(1);
    for (fuel, has) in [(0, false), (2, false), (3, true), (4, true), (225, true)] {
        p.flight_fuel = fuel;
        assert_eq!(p.has_fuel(), has);
    }
}

#[test]
fn an_idle_player_regains_fuel_up_to_a_full_tank() {
    let mut net = manager(true, &[1]);
    let mut p = player(1);
    p.flight_fuel = 223;
    let step = p.update(&mut net);
    assert_eq!(p.flight_fuel, 224);
    assert!(!step.thrust && !step.jump && !step.fire);
    p.update(&mut net);
    assert_eq!(p.flight_fuel, 225);
    p.update(&mut net);
    assert_eq!(p.flight_fuel, 225);
    assert!(net.outbox.is_empty());
}

#[test]
fn an_overfull_tank_is_brought_down_to_full() {
    let mut net = manager(false, &[]);
    let mut p = player(1);
    p.flight_fuel = u32::MAX;
    p.update(&mut net);
    assert_eq!(p.flight_fuel, 225);
    p.flight_fuel = 1000;
    p.controller.fly = true;
    p.body.can_climb = true;
    let step = p.update(&mut net);
    assert!(step.thrust);
    assert_eq!(p.flight_fuel, 225);
}

#[test]
fn thrust_burns_three_units_and_one_comes_back() {
    let mut net = manager(true, &[1]);
    let mut p = player(1);
    p.controller.fly = true;
    p.body.can_climb = true;
    p.flight_fuel = 100;
    let step = p.update(&mut net);
    assert!(step.thrust);
    assert!(step.animation.fly);
    assert_eq!(p.flight_fuel, 98);
    p.flight_fuel = 3;
    assert!(p.update(&mut net).thrust);
    assert_eq!(p.flight_fuel, 1);
    let step = p.update(&mut net);
    assert!(!step.thrust);
    assert!(!step.animation.fly);
    assert_eq!(p.flight_fuel, 2);
    assert!(!p.update(&mut net).thrust);
    assert_eq!(p.flight_fuel, 3);
    assert!(p.update(&mut net).thrust);
    assert_eq!(p.flight_fuel, 1);
}

#[test]
fn the_jet_does_not_push_a_body_that_rises_fast() {
    let mut net = manager(true, &[1]);
    let mut p = player(1);
    p.controller.fly = true;
    p.body.can_climb = false;
    p.flight_fuel = 100;
    let step = p.update(&mut net);
    assert!(!step.thrust);
    assert!(step.animation.fly);
    assert_eq!(p.flight_fuel, 101);
}

#[test]
fn a_jump_needs_the_ground() {
    let mut net = manager(false, &[]);
    let mut p = player(1);
    p.controller.jump = true;
    let step = p.update(&mut net);
    assert!(!step.jump);
    assert!(!step.animation.jump);
    assert!(!p.controller.jump);

    p.controller.jump = true;
    grounded(&mut p);
    let step = p.update(&mut net);
    assert!(step.jump);
    assert!(step.animation.jump);
    assert!(step.animation.on_ground);
    assert!(!p.controller.jump);
    assert!(!p.update(&mut net).jump);
    assert!(net.outbox.is_empty());
}

#[test]
fn the_server_tells_everyone_of_a_jump() {
    let mut net = manager(true, &[1, 2]);
    let mut p = player(2);
    p.controller.jump = true;
    grounded(&mut p);
    assert!(p.update(&mut net).jump);
    let message = NetworkMessage::PlayerEvent {
        index: 2,
        event: PlayerEvent::Jump { index: 2, active: true },
    };
    assert_eq!(
        net.outbox,
        vec![
            Packet {
                addr: peer(1),
                message: message.clone(),
                delivery: Delivery::ReliableOrdered { stream: Some(1) },
            },
            Packet {
                addr: peer(2),
                message,
                delivery: Delivery::ReliableOrdered { stream: Some(2) },
            },
        ]
    );
}

#[test]
fn the_server_keeps_quiet_about_a_jump_that_fails() {
    let mut net = manager(true, &[1, 2]);
    let mut p = player(2);
    p.controller.jump = true;
    assert!(!p.update(&mut net).jump);
    assert!(net.outbox.is_empty());
}

#[test]
fn the_weapon_goes_off_once_and_then_cools_down() {
    let mut net = manager(false, &[]);
    let mut p = player(1);
    p.controller.shoot = true;
    let step = p.update(&mut net);
    assert!(step.fire);
    assert!(step.animation.shoot);
    assert!(!p.can_shoot());
    let step = p.update(&mut net);
    assert!(!step.fire);
    assert!(step.animation.shoot);
    p.body.weapon_ready = true;
    assert!(p.update(&mut net).fire);
    p.body.weapon_ready = true;
    p.controller.shoot = false;
    let step = p.update(&mut net);
    assert!(!step.fire);
    assert!(!step.animation.shoot);
    assert!(p.can_shoot());
}

#[test]
fn the_animation_is_told_what_the_player_does() {
    let mut net = manager(false, &[]);
    let mut p = player(1);
    p.controller.move_forward = true;
    grounded(&mut p);
    assert_eq!(
        p.update(&mut net).animation,
        PlayerAnimationMachineInput {
            walk_forward: true,
            shoot: false,
            jump: false,
            fly: false,
            on_ground: true,
        }
    );
}

#[test]
fn the_fuel_is_shown_to_the_user_only() {
    let mut net = manager(false, &[]);
    let mut p = Player::new(entering(), true, 1);
    p.flight_fuel = 50;
    assert_eq!(p.update(&mut net).show_fuel, Some(51));
    let mut p = Player::new(entering(), false, 1);
    p.flight_fuel = 50;
    assert_eq!(p.update(&mut net).show_fuel, None);
}

#[test]
fn a_plan_changes_nothing() {
    let mut p = player(1);
    p.controller.jump = true;
    p.controller.shoot = true;
    grounded(&mut p);
    p.flight_fuel = 10;
    let plan = p.plan();
    assert!(plan.jump && plan.fire);
    assert!(p.controller.jump);
    assert!(p.can_shoot());
    assert_eq!(p.flight_fuel, 10);
    let mut net = manager(false, &[]);
    assert_eq!(p.update(&mut net), plan);
}

fn hit(collider: u32, node: u32, tag: Tag) -> Hit {
    Hit { collider: ColliderHandle { index: collider, generation: 1 }, node, rigid_body: true, tag }
}

#[test]
fn a_shot_into_nothing_ends_nowhere() {
    let mut net = manager(true, &[1]);
    let mut events = Vec::new();
    let mut p = shooter(1);
    assert_eq!(p.shoot_weapon(&Vec::new(), &mut net, &mut events), None);
    assert!(!p.shot_pending);
    let mut p = shooter(1);
    let own = vec![hit(101, 5, Tag::Player)];
    assert_eq!(p.shoot_weapon(&own, &mut net, &mut events), None);
    assert!(!p.shot_pending);
    assert!(!p.can_shoot());
    assert!(events.is_empty());
    assert!(net.outbox.is_empty());
}

#[test]
fn a_shot_stops_at_the_first_thing_that_is_not_the_shooter() {
    let mut net = manager(true, &[1]);
    let mut events = Vec::new();
    let mut p = shooter(1);
    let hits = vec![hit(101, 5, Tag::Player), hit(7, 70, Tag::Wall), hit(8, 80, Tag::Destructable)];
    assert_eq!(p.shoot_weapon(&hits, &mut net, &mut events), Some(Shot { hit: 1, retag: None }));
    assert!(events.is_empty());
    assert!(net.outbox.is_empty());
}

#[test]
fn a_first_hit_marks_a_player_and_a_block() {
    let mut net = manager(true, &[1]);
    let mut events = Vec::new();
    let mut p = shooter(1);
    assert_eq!(
        p.shoot_weapon(&vec![hit(7, 70, Tag::Player)], &mut net, &mut events),
        Some(Shot { hit: 0, retag: Some(Tag::PlayerOneHp) })
    );
    let mut p = shooter(1);
    assert_eq!(
        p.shoot_weapon(&vec![hit(7, 70, Tag::Other)], &mut net, &mut events),
        Some(Shot { hit: 0, retag: Some(Tag::Destructable) })
    );
    assert!(events.is_empty());
    assert!(net.outbox.is_empty());
}

#[test]
fn a_second_hit_on_a_player_is_deadly() {
    let mut net = manager(true, &[1, 2]);
    let mut events = Vec::new();
    let mut p = shooter(1);
    assert_eq!(
        p.shoot_weapon(&vec![hit(102, 9, Tag::PlayerOneHp)], &mut net, &mut events),
        Some(Shot { hit: 0, retag: None })
    );
    assert_eq!(
        events,
        vec![PlayerEvent::KillPlayerFromIntersection {
            collider: ColliderHandle { index: 102, generation: 1 },
        }]
    );
    assert!(net.outbox.is_empty());
}

#[test]
fn a_second_hit_destroys_a_block_and_everyone_is_told() {
    let mut net = manager(true, &[1, 2]);
    let mut events = vec![PlayerEvent::Jump { index: 1, active: true }];
    let mut p = shooter(1);
    assert_eq!(
        p.shoot_weapon(&vec![hit(7, 70, Tag::Destructable)], &mut net, &mut events),
        Some(Shot { hit: 0, retag: None })
    );
    assert_eq!(
        events,
        vec![PlayerEvent::Jump { index: 1, active: true }, PlayerEvent::DestroyBlock { index: 70 }]
    );
    let message =
        NetworkMessage::PlayerEvent { index: 70, event: PlayerEvent::DestroyBlock { index: 70 } };
    assert_eq!(
        net.outbox,
        vec![
            Packet {
                addr: peer(1),
                message: message.clone(),
                delivery: Delivery::ReliableOrdered { stream: Some(1) },
            },
            Packet {
                addr: peer(2),
                message,
                delivery: Delivery::ReliableOrdered { stream: Some(2) },
            },
        ]
    );
}

#[test]
fn a_shot_harms_rigid_bodies_only() {
    let mut net = manager(true, &[1]);
    let mut events = Vec::new();
    let mut p = shooter(1);
    for tag in [Tag::Wall, Tag::Player, Tag::PlayerOneHp, Tag::Destructable, Tag::Other] {
        let mut h = hit(7, 70, tag);
        h.rigid_body = false;
        p.shot_pending = true;
        assert_eq!(
            p.shoot_weapon(&vec![h], &mut net, &mut events),
            Some(Shot { hit: 0, retag: None })
        );
    }
    assert!(events.is_empty());
    assert!(net.outbox.is_empty());
}

#[test]
fn on_a_client_a_shot_harms_nothing() {
    let mut net = manager(false, &[]);
    let mut events = Vec::new();
    let mut p = shooter(1);
    for tag in [Tag::Wall, Tag::Player, Tag::PlayerOneHp, Tag::Destructable, Tag::Other] {
        p.shot_pending = true;
        assert_eq!(
            p.shoot_weapon(&vec![hit(7, 70, tag)], &mut net, &mut events),
            Some(Shot { hit: 0, retag: None })
        );
    }
    assert!(events.is_empty());
    assert!(net.outbox.is_empty());
}

#[test]
fn a_weapon_that_has_not_gone_off_harms_nothing() {
    let mut net = manager(true, &[1, 2]);
    let mut events = Vec::new();
    for tag in [Tag::Wall, Tag::Player, Tag::PlayerOneHp, Tag::Destructable, Tag::Other] {
        let mut p = player(1);
        assert_eq!(p.shoot_weapon(&vec![hit(7, 70, tag)], &mut net, &mut events), None);
        assert!(p.can_shoot());
        assert!(!p.shot_pending);

        let mut p = player(1);
        p.controller.shoot = true;
        p.body.weapon_ready = false;
        assert!(!p.update(&mut net).fire);
        assert_eq!(p.shoot_weapon(&vec![hit(7, 70, tag)], &mut net, &mut events), None);
        assert!(!p.can_shoot());
    }
    assert!(events.is_empty());
    assert!(net.outbox.is_empty());
}

#[test]
fn a_shot_is_settled_once() {
    let mut net = manager(true, &[1, 2]);
    let mut events = Vec::new();
    let mut p = shooter(1);
    assert!(p.shot_pending);
    assert!(!p.can_shoot());
    let hits = vec![hit(7, 70, Tag::Destructable)];
    assert_eq!(p.shoot_weapon(&hits, &mut net, &mut events), Some(Shot { hit: 0, retag: None }));
    assert!(!p.shot_pending);
    assert!(!p.can_shoot());
    assert_eq!(p.shoot_weapon(&hits, &mut net, &mut events), None);
    assert_eq!(events, vec![PlayerEvent::DestroyBlock { index: 70 }]);
    assert_eq!(net.outbox.len(), 2);
    assert!(!p.update(&mut net).fire);
    assert!(!p.shot_pending);
}

#[test]
fn a_mark_is_read_from_the_tag_of_a_node() {
    assert_eq!(Tag::of("wall"), Tag::Wall);
    assert_eq!(Tag::of("player"), Tag::Player);
    assert_eq!(Tag::of("player_1_hp"), Tag::PlayerOneHp);
    assert_eq!(Tag::of("destructable"), Tag::Destructable);
    assert_eq!(Tag::of(""), Tag::Other);
    assert_eq!(Tag::of("Wall"), Tag::Other);
    assert_eq!(Tag::of("player "), Tag::Other);
    assert_eq!(Tag::of("block"), Tag::Other);
}

#[test]
fn a_mark_that_is_written_is_read_back() {
    for tag in [Tag::Wall, Tag::Player, Tag::PlayerOneHp, Tag::Destructable, Tag::Other] {
        assert_eq!(Tag::of(tag.name()), tag);
    }
    assert_eq!(Tag::PlayerOneHp.name(), "player_1_hp");
    assert_eq!(Tag::Destructable.name(), "destructable");
}
