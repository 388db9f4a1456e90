use breakfloor::address::Address;
use breakfloor::game::GameEvent;
use breakfloor::level::LevelState;
use breakfloor::network_manager::{
    Delivery, NetworkManager, NetworkMessage, Packet, PlayerConnection,
};
use breakfloor::player_event::PlayerEvent;

fn peer(n: u8) -> Address {
    Address::V4 { ip: 0x0a00_0000 + n as u32, port: 4000 + n as u16 }
}

fn server_address() -> Address {
    Address::V4 { ip: 0x7f00_0001, port: 12351 }
}

fn server() -> NetworkManager {
    NetworkManager::new(server_address(), true)
}

fn jump(index: u32) -> NetworkMessage {
    NetworkMessage::PlayerEvent { index, event: PlayerEvent::Jump { index, active: true } }
}

fn distinct(manager: &NetworkManager) -> bool {
    let c = &manager.connections;
    for i in 0..c.len() {
        for j in (i + 1)..c.len() {
            if c[i].player_index == c[j].player_index {
                return false;
            }
        }
    }
    true
}

#[test]
fn a_server_starts_with_nobody_and_nothing_to_send() {
    let manager = server();
    assert!(manager.server);
    assert_eq!(manager.server_addr, server_address());
    assert!(manager.connections.is_empty());
    assert_eq!(manager.highest_player_index, 0);
    assert_eq!(manager.player_index, None);
    assert!(manager.outbox.is_empty());
}

#[test]
fn a_client_greets_the_server_at_once() {
    let manager = NetworkManager::new(server_address(), false);
    assert!(!manager.server);
    assert!(manager.connections.is_empty());
    assert_eq!(
        manager.outbox,
        vec![Packet {
            addr: server_address(),
            message: NetworkMessage::Connected,
            delivery: Delivery::ReliableOrdered { stream: None },
        }]
    );
}

#[test]
fn peers_are_numbered_from_one_in_the_order_they_come() {
    let mut manager = server();
    assert_eq!(manager.on_connect(peer(1)), Some(1));
    assert_eq!(manager.on_connect(peer(2)), Some(2));
    assert_eq!(manager.on_connect(peer(3)), Some(3));
    assert_eq!(
        manager.connections,
        vec![
            PlayerConnection { socket_addr: peer(1), player_index: 1 },
            PlayerConnection { socket_addr: peer(2), player_index: 2 },
            PlayerConnection { socket_addr: peer(3), player_index: 3 },
        ]
    );
    assert_eq!(manager.highest_player_index, 3);
}

#[test]
fn the_next_index_is_one_more_than_the_largest_in_use() {
    let mut manager = server();
    manager.on_connect(peer(1));
    manager.on_connect(peer(2));
    assert_eq!(manager.on_disconnect(peer(2)), Some(2));
    assert_eq!(manager.on_connect(peer(3)), Some(2));
    assert_eq!(manager.highest_player_index, 2);

    let mut manager = server();
    manager.on_connect(peer(1));
    manager.on_connect(peer(2));
    manager.on_connect(peer(3));
    assert_eq!(manager.on_disconnect(peer(3)), Some(3));
    assert_eq!(manager.on_disconnect(peer(2)), Some(2));
    assert_eq!(manager.on_connect(peer(4)), Some(2));
    assert_eq!(manager.highest_player_index, 2);
    assert_eq!(
        manager.connections,
        vec![
            PlayerConnection { socket_addr: peer(1), player_index: 1 },
            PlayerConnection { socket_addr: peer(4), player_index: 2 },
        ]
    );
    manager.on_disconnect(peer(1));
    manager.on_disconnect(peer(4));
    assert_eq!(manager.on_connect(peer(5)), Some(3));
}

#[test]
fn the_next_index_is_larger_than_every_index_in_use() {
    let mut manager = server();
    manager.connections.push(PlayerConnection { socket_addr: peer(1), player_index: 40 });
    manager.connections.push(PlayerConnection { socket_addr: peer(2), player_index: 7 });
    manager.highest_player_index = 90;
    assert_eq!(manager.on_connect(peer(3)), Some(41));
    assert_eq!(manager.highest_player_index, 41);
}

#[test]
fn with_nobody_left_the_next_index_follows_the_one_given_last() {
    let mut manager = server();
    manager.on_connect(peer(1));
    manager.on_connect(peer(2));
    manager.on_disconnect(peer(1));
    manager.on_disconnect(peer(2));
    assert!(manager.connections.is_empty());
    assert_eq!(manager.on_connect(peer(3)), Some(3));
}

#[test]
fn no_two_live_connections_share_an_index() {
    let mut manager = server();
    let script: [(bool, u8); 14] = [
        (true, 1),
        (true, 2),
        (true, 3),
        (false, 2),
        (true, 4),
        (false, 4),
        (false, 3),
        (true, 5),
        (true, 6),
        (false, 1),
        (true, 7),
        (false, 5),
        (false, 6),
        (true, 8),
    ];
    for (connect, n) in script {
        if connect {
            assert!(manager.on_connect(peer(n)).is_some());
        } else {
            manager.on_disconnect(peer(n));
        }
        assert!(distinct(&manager));
    }
}

#[test]
fn a_peer_is_refused_when_the_indices_have_run_out() {
    let mut manager = server();
    manager.highest_player_index = u32::MAX;
    assert_eq!(manager.on_connect(peer(1)), None);
    assert!(manager.connections.is_empty());
    assert_eq!(manager.highest_player_index, u32::MAX);

    let mut manager = server();
    manager.connections.push(PlayerConnection { socket_addr: peer(1), player_index: u32::MAX });
    assert_eq!(manager.on_connect(peer(2)), None);
    assert_eq!(manager.connections.len(), 1);
}

#[test]
fn the_last_index_that_fits_is_still_given() {
    let mut manager = server();
    manager.highest_player_index = u32::MAX - 1;
    assert_eq!(manager.on_connect(peer(1)), Some(u32::MAX));
}

#[test]
fn a_peer_that_goes_is_forgotten() {
    let mut manager = server();
    manager.on_connect(peer(1));
    manager.on_connect(peer(2));
    manager.on_connect(peer(3));
    assert_eq!(manager.on_disconnect(peer(2)), Some(2));
    assert_eq!(
        manager.connections,
        vec![
            PlayerConnection { socket_addr: peer(1), player_index: 1 },
            PlayerConnection { socket_addr: peer(3), player_index: 3 },
        ]
    );
    assert_eq!(manager.get_index_for_address(peer(2)), None);
}

#[test]
fn a_stranger_that_goes_changes_nothing() {
    let mut manager = server();
    manager.on_connect(peer(1));
    assert_eq!(manager.on_disconnect(peer(9)), None);
    assert_eq!(manager.connections.len(), 1);
}

#[test]
fn addresses_and_indices_resolve_both_ways() {
    let mut manager = server();
    manager.on_connect(peer(1));
    manager.on_connect(peer(2));
    assert_eq!(manager.get_index_for_address(peer(1)), Some(1));
    assert_eq!(manager.get_index_for_address(peer(2)), Some(2));
    assert_eq!(manager.get_index_for_address(peer(3)), None);
    assert_eq!(manager.get_address_for_player(1), Some(peer(1)));
    assert_eq!(manager.get_address_for_player(2), Some(peer(2)));
    assert_eq!(manager.get_address_for_player(0), None);
}

#[test]
fn an_address_differs_by_any_of_its_parts() {
    let a = Address::V4 { ip: 1, port: 2 };
    assert_ne!(a, Address::V4 { ip: 1, port: 3 });
    assert_ne!(a, Address::V4 { ip: 2, port: 2 });
    assert_ne!(a, Address::V6 { ip: 1, port: 2, flowinfo: 0, scope_id: 0 });
    let mut manager = server();
    manager.on_connect(a);
    assert_eq!(
        manager.get_index_for_address(Address::V6 { ip: 1, port: 2, flowinfo: 0, scope_id: 0 }),
        None
    );
}

#[test]
fn the_stream_of_a_player_is_the_low_byte_of_its_index() {
    let manager = server();
    let of = |index: u32| {
        manager.get_connection_stream_id(&PlayerConnection {
            socket_addr: peer(1),
            player_index: index,
        })
    };
    assert_eq!(of(0), Some(0));
    assert_eq!(of(7), Some(7));
    assert_eq!(of(255), Some(255));
    assert_eq!(of(256), Some(0));
    assert_eq!(of(300), Some(44));
    assert_eq!(of(u32::MAX), Some(255));
}

#[test]
fn the_stream_of_an_address() {
    let mut manager = server();
    manager.connections.push(PlayerConnection { socket_addr: peer(1), player_index: 300 });
    assert_eq!(manager.get_address_stream_id(peer(1)), Some(44));
    assert_eq!(manager.get_address_stream_id(server_address()), Some(0));
    assert_eq!(manager.get_address_stream_id(peer(2)), None);
}

#[test]
fn reliable_to_all_goes_to_each_on_its_own_stream() {
    let mut manager = server();
    manager.on_connect(peer(1));
    manager.on_connect(peer(2));
    manager.send_to_all_reliably(&jump(1));
    assert_eq!(
        manager.outbox,
        vec![
            Packet {
                addr: peer(1),
                message: jump(1),
                delivery: Delivery::ReliableOrdered { stream: Some(1) },
            },
            Packet {
                addr: peer(2),
                message: jump(1),
                delivery: Delivery::ReliableOrdered { stream: Some(2) },
            },
        ]
    );
}

#[test]
fn reliable_to_all_but_one_leaves_that_one_out() {
    let mut manager = server();
    manager.on_connect(peer(1));
    manager.on_connect(peer(2));
    manager.on_connect(peer(3));
    manager.send_to_all_except_address_reliably(peer(2), &jump(2));
    assert_eq!(
        manager.outbox,
        vec![
            Packet {
                addr: peer(1),
                message: jump(2),
                delivery: Delivery::ReliableOrdered { stream: Some(1) },
            },
            Packet {
                addr: peer(3),
                message: jump(2),
                delivery: Delivery::ReliableOrdered { stream: Some(3) },
            },
        ]
    );
}

#[test]
fn unreliable_to_all_sends_one_more_than_the_redundancy() {
    let mut manager = server();
    manager.on_connect(peer(1));
    manager.on_connect(peer(2));
    manager.send_to_all_unreliably(&jump(1), 2);
    let to = |n: u8| Packet {
        addr: peer(n),
        message: jump(1),
        delivery: Delivery::UnreliableSequenced,
    };
    assert_eq!(manager.outbox, vec![to(1), to(1), to(1), to(2), to(2), to(2)]);
}

#[test]
fn unreliable_to_all_but_one_without_redundancy() {
    let mut manager = server();
    manager.on_connect(peer(1));
    manager.on_connect(peer(2));
    manager.on_connect(peer(3));
    manager.send_to_all_except_address_unreliably(peer(1), &jump(1), 0);
    let to = |n: u8| Packet {
        addr: peer(n),
        message: jump(1),
        delivery: Delivery::UnreliableSequenced,
    };
    assert_eq!(manager.outbox, vec![to(2), to(3)]);
}

#[test]
fn a_negative_redundancy_sends_nothing() {
    let mut manager = server();
    manager.on_connect(peer(1));
    manager.send_to_all_unreliably(&jump(1), -1);
    manager.send_to_all_except_address_unreliably(peer(2), &jump(1), -5);
    manager.send_to_address_unreliably(peer(1), &jump(1), i32::MIN);
    manager.send_to_server_unreliably(&jump(1), -1);
    assert!(manager.outbox.is_empty());
}

#[test]
fn reliable_to_an_address_uses_the_stream_of_that_address() {
    let mut manager = server();
    manager.on_connect(peer(1));
    manager.send_to_address_reliably(peer(1), &jump(1));
    manager.send_to_address_reliably(peer(9), &jump(1));
    assert_eq!(
        manager.outbox,
        vec![
            Packet {
                addr: peer(1),
                message: jump(1),
                delivery: Delivery::ReliableOrdered { stream: Some(1) },
            },
            Packet {
                addr: peer(9),
                message: jump(1),
                delivery: Delivery::ReliableOrdered { stream: None },
            },
        ]
    );
}

#[test]
fn unreliable_to_an_address_repeats() {
    let mut manager = server();
    manager.send_to_address_unreliably(peer(4), &jump(1), 1);
    let p = Packet { addr: peer(4), message: jump(1), delivery: Delivery::UnreliableSequenced };
    assert_eq!(manager.outbox, vec![p.clone_for_test(), p]);
}

trait CloneForTest {
    fn clone_for_test(&self) -> Self;
}

impl CloneForTest for Packet {
    fn clone_for_test(&self) -> Packet {
        Packet { addr: self.addr, message: self.message.clone(), delivery: self.delivery }
    }
}

#[test]
fn to_the_server_reliably_goes_on_stream_zero() {
    let mut manager = NetworkManager::new(server_address(), false);
    manager.take_outbox();
    manager.send_to_server_reliably(&NetworkMessage::GameEvent { event: GameEvent::Joined });
    assert_eq!(
        manager.outbox,
        vec![Packet {
            addr: server_address(),
            message: NetworkMessage::GameEvent { event: GameEvent::Joined },
            delivery: Delivery::ReliableOrdered { stream: Some(0) },
        }]
    );
}

#[test]
fn to_the_server_unreliably_repeats() {
    let mut manager = NetworkManager::new(server_address(), false);
    manager.take_outbox();
    manager.send_to_server_unreliably(&jump(3), 2);
    assert_eq!(manager.outbox.len(), 3);
    for packet in &manager.outbox {
        assert_eq!(packet.addr, server_address());
        assert_eq!(packet.message, jump(3));
        assert_eq!(packet.delivery, Delivery::UnreliableSequenced);
    }
}

#[test]
fn sending_changes_nothing_but_the_outbox() {
    let mut manager = server();
    manager.on_connect(peer(1));
    manager.on_connect(peer(2));
    manager.player_index = Some(5);
    manager.send_to_all_reliably(&jump(1));
    manager.send_to_all_unreliably(&jump(1), 1);
    manager.send_to_address_reliably(peer(1), &jump(1));
    assert_eq!(manager.connections.len(), 2);
    assert_eq!(manager.highest_player_index, 2);
    assert_eq!(manager.player_index, Some(5));
    assert_eq!(manager.outbox.len(), 2 + 4 + 1);
}

#[test]
fn the_outbox_is_handed_over_oldest_first_and_left_empty() {
    let mut manager = server();
    manager.on_connect(peer(1));
    manager.send_to_address_reliably(peer(1), &jump(1));
    manager.send_to_address_unreliably(peer(1), &jump(2), 0);
    let out = manager.take_outbox();
    assert_eq!(out.len(), 2);
    assert_eq!(out[0].message, jump(1));
    assert_eq!(out[1].message, jump(2));
    assert!(manager.outbox.is_empty());
    assert_eq!(manager.connections.len(), 1);
}

#[test]
fn a_message_that_carries_a_level_is_sent_whole() {
    let mut manager = server();
    manager.on_connect(peer(1));
    let message = NetworkMessage::GameEvent {
        event: GameEvent::LoadLevel {
            level: String::from("block_remake"),
            state: LevelState { destroyed_blocks: vec![4, 9, 2] },
        },
    };
    manager.send_to_all_reliably(&message);
    assert_eq!(manager.outbox.len(), 1);
    assert_eq!(manager.outbox[0].message, message);
}
