use vstd::prelude::*;
use crate::address::Address;
use crate::effect::Effect;
use crate::game::{world, Game, GameEvent, GameEventView, GameView, World};
use crate::level::{position_of, Level, LevelState};
use crate::network_manager::{
    broadcast, resolve, Delivery, ManagerView, NetworkManager, NetworkMessage, NetworkMessageView,
    PacketView, SocketEvent,
};
use crate::player::{player_message, Player, PlayerView};
use crate::player_event::{PlayerEvent, SerializablePlayerState, SerializableVector};
use crate::scalar::Scalar;

verus! {

/// A [`SocketEvent`] as a mathematical value.
pub enum SocketEventView {
    Packet { addr: Address, message: Option<NetworkMessageView> },
    Connect(Address),
    Timeout(Address),
    Disconnect(Address),
}

impl View for SocketEvent {
    type V = SocketEventView;

    open spec fn view(&self) -> SocketEventView {
        match self {
            SocketEvent::Packet { addr, message } => SocketEventView::Packet {
                addr: *addr,
                message: match message {
                    Some(m) => Some(m@),
                    None => None,
                },
            },
            SocketEvent::Connect(addr) => SocketEventView::Connect(*addr),
            SocketEvent::Timeout(addr) => SocketEventView::Timeout(*addr),
            SocketEvent::Disconnect(addr) => SocketEventView::Disconnect(*addr),
        }
    }
}

/// The bits of 1.5.
pub const HALF_GAP: u32 = 0x3FC0_0000;

/// The bits of -1.5.
pub const MINUS_HALF_GAP: u32 = 0xBFC0_0000;

/// The bits of 2.
pub const SPAWN_HEIGHT: u32 = 0x4000_0000;

/// The bits of 5.
pub const SPAWN_DEPTH: u32 = 0x40A0_0000;

/// The bits of -5.
pub const MINUS_SPAWN_DEPTH: u32 = 0xC0A0_0000;

/// Where the player of this index enters: players of even index on one side of
/// the arena, players of odd index on the other, all at the same height.
pub open spec fn spec_spawn_position(index: u32) -> SerializableVector {
    if index % 2 == 0 {
        SerializableVector {
            x: Scalar { bits: HALF_GAP },
            y: Scalar { bits: SPAWN_HEIGHT },
            z: Scalar { bits: SPAWN_DEPTH },
        }
    } else {
        SerializableVector {
            x: Scalar { bits: MINUS_HALF_GAP },
            y: Scalar { bits: SPAWN_HEIGHT },
            z: Scalar { bits: MINUS_SPAWN_DEPTH },
        }
    }
}

/// Where the player of this index enters.
#[verifier::when_used_as_spec(spec_spawn_position)]
pub fn spawn_position(index: u32) -> (r: SerializableVector)
    ensures
        r == spec_spawn_position(index),
{
    if index % 2 == 0 {
        SerializableVector {
            x: Scalar { bits: HALF_GAP },
            y: Scalar { bits: SPAWN_HEIGHT },
            z: Scalar { bits: SPAWN_DEPTH },
        }
    } else {
        SerializableVector {
            x: Scalar { bits: MINUS_HALF_GAP },
            y: Scalar { bits: SPAWN_HEIGHT },
            z: Scalar { bits: MINUS_SPAWN_DEPTH },
        }
    }
}

/// The event that lets the player of this index enter where players of its
/// index enter.
pub open spec fn entrance(index: u32, current_player: bool) -> PlayerEvent {
    PlayerEvent::SpawnPlayer {
        state: SerializablePlayerState::spec_at(spec_spawn_position(index)),
        index,
        current_player,
    }
}

impl PlayerView {
    /// What a peer that has just joined is told of this player.
    pub open spec fn announced(self) -> SerializablePlayerState {
        SerializablePlayerState {
            position: self.body.position,
            velocity: self.body.velocity,
            yaw: self.body.yaw,
            pitch: self.body.pitch,
            shoot: self.controller.shoot,
        }
    }

    /// The message that tells a peer that has just joined of this player.
    pub open spec fn introduction(self) -> NetworkMessageView {
        player_message(
            self.index,
            PlayerEvent::SpawnPlayer {
                state: self.announced(),
                index: self.index,
                current_player: false,
            },
        )
    }
}

/// The packets that tell the peer at `addr` of each of `players` in turn.
pub open spec fn introductions(players: Seq<PlayerView>, net: ManagerView, addr: Address) -> Seq<
    PacketView,
> {
    Seq::new(players.len(), |i: int| net.reliable_to(addr, players[i].introduction()))
}

/// The game event that asks for a level to be loaded and brought into a state.
pub open spec fn load(name: Seq<char>, state: Seq<u32>) -> GameEventView {
    GameEventView::LoadLevel { level: name, state }
}

impl GameView {
    /// The same, with `event` added to the queue of the level, where there is
    /// a level.
    pub open spec fn level_queued(self, event: PlayerEvent) -> GameView {
        match self.level {
            Some(level) => GameView { level: Some(level.queued(event)), ..self },
            None => self,
        }
    }
}

impl World {
    /// The same, with `event` added to the queue of the level.
    pub open spec fn enqueued(self, event: PlayerEvent) -> World {
        World { game: self.game.level_queued(event), ..self }
    }

    /// The same, with `packets` added to what is to be sent.
    pub open spec fn sending(self, packets: Seq<PacketView>) -> World {
        World { net: self.net.posting(packets), ..self }
    }

    /// The same, with the game told of `event`.
    pub open spec fn telling(self, event: GameEventView) -> World {
        World { game: self.game.queued(event), ..self }
    }

    /// The player of the peer at `addr`, where that peer is connected and its
    /// player is in the level.
    pub open spec fn sender(self, addr: Address) -> Option<PlayerView> {
        match (self.game.level, resolve(self.net.connections, addr)) {
            (Some(level), Some(index)) => match position_of(level.players, index) {
                Some(k) => Some(level.players[k]),
                None => None,
            },
            _ => None,
        }
    }

    /// The authoritative side is asked by the peer at `addr` to let its player
    /// shoot, or stop shooting. To stop is always granted; to shoot is granted
    /// where the weapon has cooled down. What is granted is queued and told to
    /// every peer, said of the player that the peer is known to have.
    pub open spec fn shot_routed(
        self,
        addr: Address,
        outer: u32,
        active: bool,
        yaw: Scalar,
        pitch: Scalar,
    ) -> World {
        match self.sender(addr) {
            Some(p) => {
                let event = PlayerEvent::ShootWeapon { index: p.index, active, yaw, pitch };
                if !active || p.body.weapon_ready {
                    self.enqueued(event).sending(
                        broadcast(
                            self.net.connections,
                            None,
                            player_message(outer, event),
                            true,
                            1,
                        ),
                    )
                } else {
                    self
                }
            },
            None => self,
        }
    }

    /// The authoritative side is told by the peer at `addr` that its player
    /// moves or looks around. That is taken as said, queued, and passed on to
    /// every peer but the one it came from, said of the player that the peer is
    /// known to have.
    pub open spec fn movement_routed(self, addr: Address, outer: u32, event: PlayerEvent) -> World {
        match resolve(self.net.connections, addr) {
            Some(index) => {
                let event = event.spec_with_index(index);
                self.enqueued(event).sending(
                    broadcast(
                        self.net.connections,
                        Some(addr),
                        player_message(outer, event),
                        false,
                        1,
                    ),
                )
            },
            None => self,
        }
    }

    /// The authoritative side is asked by the peer at `addr` to let its player
    /// fly, or stop flying. To stop is always granted; to fly is granted where
    /// there is fuel. What is granted is queued and passed on to every peer but
    /// the one it came from, said of the player that the peer is known to have
    /// and with the fuel that this side knows it to have.
    pub open spec fn flight_routed(self, addr: Address, outer: u32, active: bool) -> World {
        match self.sender(addr) {
            Some(p) => {
                let event = PlayerEvent::MoveUp { index: p.index, active, fuel: p.flight_fuel };
                if !active || p.has_fuel() {
                    self.enqueued(event).sending(
                        broadcast(
                            self.net.connections,
                            Some(addr),
                            player_message(outer, event),
                            false,
                            1,
                        ),
                    )
                } else {
                    self
                }
            },
            None => self,
        }
    }

    /// What the authoritative side makes of an event of a player that the peer
    /// at `addr` has sent.
    pub open spec fn server_routed(self, addr: Address, outer: u32, event: PlayerEvent) -> World {
        match event {
            PlayerEvent::ShootWeapon { active, yaw, pitch, .. } => self.shot_routed(
                addr,
                outer,
                active,
                yaw,
                pitch,
            ),
            PlayerEvent::LookAround { .. }
            | PlayerEvent::MoveForward { .. }
            | PlayerEvent::MoveBackward { .. }
            | PlayerEvent::MoveLeft { .. }
            | PlayerEvent::MoveRight { .. } => self.movement_routed(addr, outer, event),
            PlayerEvent::MoveUp { active, .. } => self.flight_routed(addr, outer, active),
            PlayerEvent::Jump { .. } | PlayerEvent::SpawnPlayer { .. } => self.enqueued(event),
            _ => self,
        }
    }

    /// What a client makes of an event of a player that has come in: it queues
    /// it, but for a deadly touch, which is for the authoritative side to
    /// judge.
    pub open spec fn client_routed(self, event: PlayerEvent) -> World {
        if event is KillPlayerFromIntersection {
            self
        } else {
            self.enqueued(event)
        }
    }

    /// What is made of an event of a player that the peer at `addr` has sent.
    /// Without a level nothing is made of it.
    pub open spec fn player_routed(self, addr: Address, outer: u32, event: PlayerEvent) -> World {
        if self.game.level is None {
            self
        } else if self.net.server {
            self.server_routed(addr, outer, event)
        } else {
            self.client_routed(event)
        }
    }

    /// The authoritative side has been told by the peer at `addr` that it has
    /// joined. The peer is told of every player in the level; its own player is
    /// queued to enter; every other peer is told of that player; and the peer
    /// itself is told of it as the player of its user.
    pub open spec fn joined(self, addr: Address) -> World {
        match (self.game.level, resolve(self.net.connections, addr)) {
            (Some(level), Some(index)) => self.enqueued(entrance(index, false)).sending(
                introductions(level.players, self.net, addr) + broadcast(
                    self.net.connections,
                    Some(addr),
                    player_message(index, entrance(index, false)),
                    true,
                    1,
                ).push(self.net.reliable_to(addr, player_message(index, entrance(index, true)))),
            ),
            _ => self,
        }
    }

    /// What is made of an event of the game that the peer at `addr` has sent:
    /// the game is told of it, after the authoritative side has let a peer in
    /// that says it has joined.
    pub open spec fn game_routed(self, addr: Address, event: GameEventView) -> World {
        (if self.net.server && event is Joined {
            self.joined(addr)
        } else {
            self
        }).telling(event)
    }

    /// What is made of a message that the peer at `addr` has sent. The
    /// authoritative side answers a greeting with a greeting.
    pub open spec fn message_routed(self, addr: Address, message: NetworkMessageView) -> World {
        match message {
            NetworkMessageView::PlayerEvent { index, event } => self.player_routed(
                addr,
                index,
                event,
            ),
            NetworkMessageView::GameEvent { event } => self.game_routed(addr, event),
            NetworkMessageView::Connected => if self.net.server {
                self.sending(
                    seq![
                        PacketView {
                            addr,
                            message: NetworkMessageView::Connected,
                            delivery: Delivery::ReliableOrdered { stream: None },
                        },
                    ],
                )
            } else {
                self
            },
            NetworkMessageView::Disconnected => self,
        }
    }

    /// The authoritative side, with a level in place, takes in the peer at
    /// `addr`: the peer gets a player index. Where fewer than two players are
    /// in the level, the game is told to load the level afresh; else the peer is
    /// told to load the level and bring it into the state it is in.
    pub open spec fn admitted(self, addr: Address) -> World {
        match self.game.level {
            Some(level) => {
                let net = self.net.connected(addr);
                if level.players.len() < 2 {
                    World { net, ..self }.telling(load(level.name, Seq::empty()))
                } else {
                    World { net, ..self }.sending(
                        seq![
                            net.reliable_to(
                                addr,
                                NetworkMessageView::GameEvent {
                                    event: load(level.name, level.state),
                                },
                            ),
                        ],
                    )
                }
            },
            None => self,
        }
    }

    /// The transport has connected to the peer at `addr`.
    pub open spec fn connect_routed(self, addr: Address) -> World {
        (if self.net.server {
            self.admitted(addr)
        } else {
            self
        }).telling(GameEventView::Connected)
    }

    /// The authoritative side, with a level in place, sees the player of the
    /// peer at `addr` out: the player leaves the level and the scene, and every
    /// other peer is told that it is out.
    pub open spec fn seen_out(self, addr: Address) -> World {
        match (self.game.level, resolve(self.net.connections, addr)) {
            (Some(level), Some(index)) => World {
                game: GameView { level: Some(level.removed(index)), ..self.game },
                effects: self.effects + level.removal(index),
                net: self.net.posting(
                    broadcast(
                        self.net.connections,
                        Some(addr),
                        player_message(index, PlayerEvent::KillPlayer { index }),
                        true,
                        1,
                    ),
                ),
            },
            _ => self,
        }
    }

    /// The transport has lost the peer at `addr`. The authoritative side sees
    /// its player out and forgets the peer; a client tells the game that it has
    /// been disconnected.
    pub open spec fn disconnect_routed(self, addr: Address) -> World {
        if self.net.server {
            let out = self.seen_out(addr);
            World { net: out.net.disconnected(addr), ..out }
        } else {
            self.telling(GameEventView::Disconnected)
        }
    }

    /// What is made of one thing that the transport reports. A packet that
    /// cannot be read and a peer that has merely gone quiet change nothing.
    pub open spec fn routed(self, event: SocketEventView) -> World {
        match event {
            SocketEventView::Packet { addr, message } => match message {
                Some(m) => self.message_routed(addr, m),
                None => self,
            },
            SocketEventView::Connect(addr) => self.connect_routed(addr),
            SocketEventView::Timeout(addr) => self,
            SocketEventView::Disconnect(addr) => self.disconnect_routed(addr),
        }
    }

    /// What is made of each of `events` in turn.
    pub open spec fn routed_all(self, events: Seq<SocketEventView>) -> World
        decreases events.len(),
    {
        if events.len() == 0 {
            self
        } else {
            self.routed_all(events.drop_last()).routed(events.last())
        }
    }
}

/// Whatever the transport reports, no two peers that are connected at the
/// same time have the same player index, and only a peer that comes or goes
/// changes who is connected.
pub proof fn lemma_routed_registry(w: World, event: SocketEventView)
    ensures
        w.net.wf() ==> w.routed(event).net.wf(),
        w.routed(event).net.server == w.net.server,
        w.routed(event).net.server_addr == w.net.server_addr,
        w.routed(event).net.player_index == w.net.player_index,
        w.routed(event).game.server == w.game.server,
        !(event is Connect) && !(event is Disconnect) ==> w.routed(event).net.connections
            == w.net.connections,
{
    match event {
        SocketEventView::Connect(addr) => {
            if w.net.wf() {
                crate::network_manager::lemma_connected_wf(w.net, addr);
            }
        },
        SocketEventView::Disconnect(addr) => {
            if w.net.wf() {
                crate::network_manager::lemma_disconnected_wf(w.seen_out(addr).net, addr);
            }
        },
        _ => {},
    }
}

/// However many things the transport reports, and in whatever order, no two
/// peers that are connected at the same time have the same player index.
pub proof fn lemma_routed_all_registry(w: World, events: Seq<SocketEventView>)
    requires
        w.net.wf(),
    ensures
        w.routed_all(events).net.wf(),
        crate::network_manager::distinct_indices(w.routed_all(events).net.connections),
    decreases events.len(),
{
    if events.len() > 0 {
        lemma_routed_all_registry(w, events.drop_last());
        lemma_routed_registry(w.routed_all(events.drop_last()), events.last());
    }
}

/// From the start, when nobody is connected, and whatever the transport
/// reports from then on: no two peers that are connected at the same time have
/// the same player index.
pub proof fn lemma_unique_from_the_start(w: World, events: Seq<SocketEventView>)
    requires
        w.net.connections.len() == 0,
    ensures
        crate::network_manager::distinct_indices(w.routed_all(events).net.connections),
{
    lemma_routed_all_registry(w, events);
}

/// Whatever the transport reports, the world stays well formed.
pub proof fn lemma_routed_wf(w: World, event: SocketEventView)
    requires
        w.wf(),
    ensures
        w.routed(event).wf(),
{
    lemma_routed_registry(w, event);
    match event {
        SocketEventView::Disconnect(addr) => {
            if w.game.level is Some && resolve(w.net.connections, addr) is Some {
                crate::level::lemma_removed_wf(
                    w.game.level->0,
                    resolve(w.net.connections, addr)->0,
                );
            }
        },
        _ => {},
    }
}

/// However many things the transport reports, the world stays well formed.
pub proof fn lemma_routed_all_wf(w: World, events: Seq<SocketEventView>)
    requires
        w.wf(),
    ensures
        w.routed_all(events).wf(),
    decreases events.len(),
{
    if events.len() > 0 {
        lemma_routed_all_wf(w, events.drop_last());
        lemma_routed_wf(w.routed_all(events.drop_last()), events.last());
    }
}

/// When the authoritative side loses a peer whose player is in the level, the
/// player is gone from the level, the peer is gone from the connections, and
/// every other peer is told, in a packet that arrives, that the player is out.
pub proof fn lemma_departure_is_told(w: World, addr: Address)
    requires
        w.net.server,
        w.game.level is Some,
        resolve(w.net.connections, addr) is Some,
    ensures
        ({
            let index = resolve(w.net.connections, addr)->0;
            let after = w.routed(SocketEventView::Disconnect(addr));
            let message = player_message(index, PlayerEvent::KillPlayer { index });
            &&& after.game.level is Some
            &&& position_of(after.game.level->0.players, index) is None
            &&& resolve(after.net.connections, addr) is None
            &&& after.net.sent == w.net.sent + broadcast(
                w.net.connections,
                Some(addr),
                message,
                true,
                1,
            )
            &&& forall|k: int|
                0 <= k < w.net.connections.len() && w.net.connections[k].socket_addr != addr
                    ==> after.net.sent.contains(
                    crate::network_manager::packet_for(
                        #[trigger] w.net.connections[k],
                        message,
                        true,
                    ),
                )
        }),
{
    let index = resolve(w.net.connections, addr)->0;
    let message = player_message(index, PlayerEvent::KillPlayer { index });
    let told = broadcast(w.net.connections, Some(addr), message, true, 1);
    crate::level::lemma_without_player(w.game.level->0.players, index);
    crate::network_manager::lemma_without_address(w.net.connections, addr);
    crate::network_manager::lemma_broadcast(w.net.connections, Some(addr), message, true, 1);
    let after = w.routed(SocketEventView::Disconnect(addr));
    assert forall|k: int|
        0 <= k < w.net.connections.len() && w.net.connections[k].socket_addr
            != addr implies after.net.sent.contains(
        crate::network_manager::packet_for(#[trigger] w.net.connections[k], message, true),
    ) by {
        let p = crate::network_manager::packet_for(w.net.connections[k], message, true);
        let i = choose|i: int| 0 <= i < told.len() && told[i] == p;
        assert(after.net.sent[w.net.sent.len() + i] == p);
    }
}

/// The authoritative side passes a move or a look of a peer on to every other
/// peer, and never back to the peer it came from.
pub proof fn lemma_movement_excludes_sender(w: World, addr: Address, outer: u32, event: PlayerEvent)
    requires
        w.net.server,
        w.game.level is Some,
        event.is_movement(),
        resolve(w.net.connections, addr) is Some,
    ensures
        ({
            let index = resolve(w.net.connections, addr)->0;
            let message = player_message(outer, event.spec_with_index(index));
            let after = w.routed(
                SocketEventView::Packet {
                    addr,
                    message: Some(NetworkMessageView::PlayerEvent { index: outer, event }),
                },
            );
            let relayed = broadcast(w.net.connections, Some(addr), message, false, 1);
            &&& after.net.sent == w.net.sent + relayed
            &&& forall|i: int| 0 <= i < relayed.len() ==> (#[trigger] relayed[i]).addr != addr
            &&& forall|k: int|
                0 <= k < w.net.connections.len() && w.net.connections[k].socket_addr != addr
                    ==> relayed.contains(
                    ManagerView::unreliable_to(
                        (#[trigger] w.net.connections[k]).socket_addr,
                        message,
                    ),
                )
        }),
{
    let index = resolve(w.net.connections, addr)->0;
    let message = player_message(outer, event.spec_with_index(index));
    crate::network_manager::lemma_broadcast(w.net.connections, Some(addr), message, false, 1);
    let relayed = broadcast(w.net.connections, Some(addr), message, false, 1);
    assert forall|k: int|
        0 <= k < w.net.connections.len() && w.net.connections[k].socket_addr
            != addr implies relayed.contains(
        ManagerView::unreliable_to((#[trigger] w.net.connections[k]).socket_addr, message),
    ) by {
        assert(crate::network_manager::packet_for(w.net.connections[k], message, false)
            == ManagerView::unreliable_to(w.net.connections[k].socket_addr, message));
    }
}

/// The authoritative side does not let a peer shoot whose weapon has not
/// cooled down: nothing is queued and nothing is sent to anyone.
pub proof fn lemma_hot_weapon_is_held(
    w: World,
    addr: Address,
    outer: u32,
    index: u32,
    yaw: Scalar,
    pitch: Scalar,
)
    requires
        w.net.server,
        w.sender(addr) is None || !w.sender(addr)->0.body.weapon_ready,
    ensures
        w.routed(
            SocketEventView::Packet {
                addr,
                message: Some(
                    NetworkMessageView::PlayerEvent {
                        index: outer,
                        event: PlayerEvent::ShootWeapon { index, active: true, yaw, pitch },
                    },
                ),
            },
        ) == w,
{
}

/// The authoritative side always lets a peer stop shooting whose player is in
/// the level: that is queued, and every peer is told, in a packet that arrives.
pub proof fn lemma_release_is_relayed(
    w: World,
    addr: Address,
    outer: u32,
    index: u32,
    yaw: Scalar,
    pitch: Scalar,
)
    requires
        w.net.server,
        w.sender(addr) is Some,
    ensures
        ({
            let event = PlayerEvent::ShootWeapon {
                index: w.sender(addr)->0.index,
                active: false,
                yaw,
                pitch,
            };
            let after = w.routed(
                SocketEventView::Packet {
                    addr,
                    message: Some(
                        NetworkMessageView::PlayerEvent {
                            index: outer,
                            event: PlayerEvent::ShootWeapon { index, active: false, yaw, pitch },
                        },
                    ),
                },
            );
            let relayed = broadcast(
                w.net.connections,
                None,
                player_message(outer, event),
                true,
                1,
            );
            &&& after == w.enqueued(event).sending(relayed)
            &&& forall|k: int|
                0 <= k < w.net.connections.len() ==> relayed.contains(
                    crate::network_manager::packet_for(
                        #[trigger] w.net.connections[k],
                        player_message(outer, event),
                        true,
                    ),
                )
        }),
{
    let event = PlayerEvent::ShootWeapon {
        index: w.sender(addr)->0.index,
        active: false,
        yaw,
        pitch,
    };
    crate::network_manager::lemma_broadcast(
        w.net.connections,
        None,
        player_message(outer, event),
        true,
        1,
    );
}

impl Game {
    /// Adds `event` to the queue of the level, where there is a level.
    pub fn enqueue(&mut self, event: PlayerEvent)
        ensures
            final(self)@ == old(self)@.level_queued(event),
            old(self).wf() ==> final(self).wf(),
    {
        let mut level = self.level.take();
        match &mut level {
            Some(l) => {
                l.queue_event(event);
            },
            None => {},
        }
        self.level = level;
    }

    /// The first player of this index in the level.
    pub fn player(&self, index: u32) -> (r: Option<&Player>)
        ensures
            match r {
                Some(p) => self@.level is Some && position_of(self@.level->0.players, index)
                    is Some && p@ == self@.level->0.players[position_of(
                    self@.level->0.players,
                    index,
                )->0],
                None => self@.level is None || position_of(self@.level->0.players, index)
                    is None,
            },
    {
        match &self.level {
            Some(level) => level.get_player_by_index(index),
            None => None,
        }
    }
}

impl NetworkManager {
    /// The player of the peer at `addr`, where that peer is connected and its
    /// player is in the level.
    fn sender<'a>(&self, game: &'a Game, addr: Address) -> (r: Option<&'a Player>)
        ensures
            match r {
                Some(p) => world(game@, self@, Seq::empty()).sender(addr) == Some(p@),
                None => world(game@, self@, Seq::empty()).sender(addr) is None,
            },
    {
        match self.get_index_for_address(addr) {
            Some(index) => game.player(index),
            None => None,
        }
    }

    fn route_shot(
        &mut self,
        engine: &Vec<Effect>,
        game: &mut Game,
        addr: Address,
        outer: u32,
        active: bool,
        yaw: Scalar,
        pitch: Scalar,
    )
        ensures
            world(final(game)@, final(self)@, engine@) == world(
                old(game)@,
                old(self)@,
                engine@,
            ).shot_routed(addr, outer, active, yaw, pitch),
    {
        let granted = match self.sender(game, addr) {
            Some(p) => if !active || p.can_shoot() {
                Some(p.index)
            } else {
                None
            },
            None => None,
        };
        match granted {
            Some(index) => {
                let event = PlayerEvent::ShootWeapon { index, active, yaw, pitch };
                game.enqueue(event);
                self.send_to_all_reliably(&NetworkMessage::PlayerEvent { index: outer, event });
            },
            None => {},
        }
    }

    fn route_movement(
        &mut self,
        engine: &Vec<Effect>,
        game: &mut Game,
        addr: Address,
        outer: u32,
        event: PlayerEvent,
    )
        ensures
            world(final(game)@, final(self)@, engine@) == world(
                old(game)@,
                old(self)@,
                engine@,
            ).movement_routed(addr, outer, event),
    {
        match self.get_index_for_address(addr) {
            Some(index) => {
                let event = event.with_index(index);
                game.enqueue(event);
                self.send_to_all_except_address_unreliably(
                    addr,
                    &NetworkMessage::PlayerEvent { index: outer, event },
                    0,
                );
            },
            None => {},
        }
    }

    fn route_flight(
        &mut self,
        engine: &Vec<Effect>,
        game: &mut Game,
        addr: Address,
        outer: u32,
        active: bool,
    )
        ensures
            world(final(game)@, final(self)@, engine@) == world(
                old(game)@,
                old(self)@,
                engine@,
            ).flight_routed(addr, outer, active),
    {
        let granted = match self.sender(game, addr) {
            Some(p) => if !active || p.has_fuel() {
                Some((p.index, p.flight_fuel))
            } else {
                None
            },
            None => None,
        };
        match granted {
            Some((index, fuel)) => {
                let event = PlayerEvent::MoveUp { index, active, fuel };
                game.enqueue(event);
                self.send_to_all_except_address_unreliably(
                    addr,
                    &NetworkMessage::PlayerEvent { index: outer, event },
                    0,
                );
            },
            None => {},
        }
    }

    fn route_player_event(
        &mut self,
        engine: &Vec<Effect>,
        game: &mut Game,
        addr: Address,
        outer: u32,
        event: PlayerEvent,
    )
        ensures
            world(final(game)@, final(self)@, engine@) == world(
                old(game)@,
                old(self)@,
                engine@,
            ).player_routed(addr, outer, event),
    {
        if game.level.is_none() {
            return ;
        }
        if !self.server {
            match event {
                PlayerEvent::KillPlayerFromIntersection { .. } => {},
                _ => {
                    game.enqueue(event);
                },
            }
            return ;
        }
        match event {
            PlayerEvent::ShootWeapon { active, yaw, pitch, .. } => {
                self.route_shot(engine, game, addr, outer, active, yaw, pitch);
            },
            PlayerEvent::LookAround { .. }
            | PlayerEvent::MoveForward { .. }
            | PlayerEvent::MoveBackward { .. }
            | PlayerEvent::MoveLeft { .. }
            | PlayerEvent::MoveRight { .. } => {
                self.route_movement(engine, game, addr, outer, event);
            },
            PlayerEvent::MoveUp { active, .. } => {
                self.route_flight(engine, game, addr, outer, active);
            },
            PlayerEvent::Jump { .. } | PlayerEvent::SpawnPlayer { .. } => {
                game.enqueue(event);
            },
            _ => {},
        }
    }

    /// Tells the peer at `addr` of every player in `level`.
    fn introduce(&mut self, level: &Level, addr: Address)
        ensures
            final(self)@ == old(self)@.posting(introductions(level@.players, old(self)@, addr)),
    {
        let ghost players = level@.players;
        let ghost start = self@;
        let mut i: usize = 0;
        assert(self@.sent =~= start.sent + introductions(players, start, addr).take(0));
        while i < level.players.len()
            invariant
                i <= level.players.len(),
                players == level@.players,
                self@ == start.posting(introductions(players, start, addr).take(i as int)),
            decreases level.players.len() - i,
        {
            let player = &level.players[i];
            let message = NetworkMessage::PlayerEvent {
                index: player.index,
                event: PlayerEvent::SpawnPlayer {
                    state: SerializablePlayerState {
                        position: player.get_position(),
                        velocity: player.get_velocity(),
                        yaw: player.get_yaw(),
                        pitch: player.get_pitch(),
                        shoot: player.controller.shoot,
                    },
                    index: player.index,
                    current_player: false,
                },
            };
            self.send_to_address_reliably(addr, &message);
            assert(self@.sent =~= start.sent + introductions(players, start, addr).take(i + 1));
            i += 1;
        }
        assert(introductions(players, start, addr).take(i as int) =~= introductions(
            players,
            start,
            addr,
        ));
    }

    fn route_join(&mut self, engine: &Vec<Effect>, game: &mut Game, addr: Address)
        ensures
            world(final(game)@, final(self)@, engine@) == world(
                old(game)@,
                old(self)@,
                engine@,
            ).joined(addr),
    {
        let index = match (&game.level, self.get_index_for_address(addr)) {
            (Some(level), Some(index)) => {
                self.introduce(level, addr);
                index
            },
            _ => {
                return ;
            },
        };
        let ghost start = old(self)@;
        let ghost players = old(game)@.level->0.players;
        let state = SerializablePlayerState::at(spawn_position(index));
        let event = PlayerEvent::SpawnPlayer { state, index, current_player: false };
        game.enqueue(event);
        self.send_to_all_except_address_reliably(
            addr,
            &NetworkMessage::PlayerEvent { index, event },
        );
        let own = PlayerEvent::SpawnPlayer { state, index, current_player: true };
        self.send_to_address_reliably(addr, &NetworkMessage::PlayerEvent { index, event: own });
        assert(self@.sent =~= start.sent + (introductions(players, start, addr) + broadcast(
            start.connections,
            Some(addr),
            player_message(index, entrance(index, false)),
            true,
            1,
        ).push(start.reliable_to(addr, player_message(index, entrance(index, true))))));
    }

    fn route_game_event(
        &mut self,
        engine: &Vec<Effect>,
        game: &mut Game,
        addr: Address,
        event: &GameEvent,
    )
        ensures
            world(final(game)@, final(self)@, engine@) == world(
                old(game)@,
                old(self)@,
                engine@,
            ).game_routed(addr, event@),
    {
        let joined = match event {
            GameEvent::Joined => true,
            _ => false,
        };
        if self.server && joined {
            self.route_join(engine, game, addr);
        }
        game.queue_event(event.clone());
    }

    fn route_message(
        &mut self,
        engine: &Vec<Effect>,
        game: &mut Game,
        addr: Address,
        message: &NetworkMessage,
    )
        ensures
            world(final(game)@, final(self)@, engine@) == world(
                old(game)@,
                old(self)@,
                engine@,
            ).message_routed(addr, message@),
    {
        match message {
            NetworkMessage::PlayerEvent { index, event } => {
                self.route_player_event(engine, game, addr, *index, *event);
            },
            NetworkMessage::GameEvent { event } => {
                self.route_game_event(engine, game, addr, event);
            },
            NetworkMessage::Connected => {
                if self.server {
                    self.post(
                        addr,
                        &NetworkMessage::Connected,
                        Delivery::ReliableOrdered { stream: None },
                    );
                }
            },
            NetworkMessage::Disconnected => {},
        }
    }

    fn take_in(&mut self, engine: &Vec<Effect>, game: &mut Game, addr: Address)
        ensures
            world(final(game)@, final(self)@, engine@) == world(
                old(game)@,
                old(self)@,
                engine@,
            ).admitted(addr),
            old(self).wf() ==> final(self).wf(),
    {
        let event = match &game.level {
            Some(level) => {
                self.on_connect(addr);
                if level.players.len() < 2 {
                    Some(GameEvent::LoadLevel { level: level.name.clone(), state: LevelState::new() })
                } else {
                    self.send_to_address_reliably(
                        addr,
                        &NetworkMessage::GameEvent {
                            event: GameEvent::LoadLevel {
                                level: level.name.clone(),
                                state: level.state.clone(),
                            },
                        },
                    );
                    None
                }
            },
            None => None,
        };
        match event {
            Some(e) => {
                game.queue_event(e);
            },
            None => {},
        }
    }

    fn route_connect(&mut self, engine: &Vec<Effect>, game: &mut Game, addr: Address)
        ensures
            world(final(game)@, final(self)@, engine@) == world(
                old(game)@,
                old(self)@,
                engine@,
            ).connect_routed(addr),
            old(self).wf() ==> final(self).wf(),
    {
        if self.server {
            self.take_in(engine, game, addr);
        }
        game.queue_event(GameEvent::Connected);
    }

    fn see_out(&mut self, engine: &mut Vec<Effect>, game: &mut Game, addr: Address)
        ensures
            world(final(game)@, final(self)@, final(engine)@) == world(
                old(game)@,
                old(self)@,
                old(engine)@,
            ).seen_out(addr),
    {
        let found = self.get_index_for_address(addr);
        let mut level = game.level.take();
        match (&mut level, found) {
            (Some(l), Some(index)) => {
                l.remove_player(engine, index);
                self.send_to_all_except_address_reliably(
                    addr,
                    &NetworkMessage::PlayerEvent {
                        index,
                        event: PlayerEvent::KillPlayer { index },
                    },
                );
            },
            _ => {},
        }
        game.level = level;
    }

    fn route_disconnect(&mut self, engine: &mut Vec<Effect>, game: &mut Game, addr: Address)
        ensures
            world(final(game)@, final(self)@, final(engine)@) == world(
                old(game)@,
                old(self)@,
                old(engine)@,
            ).disconnect_routed(addr),
            old(self).wf() ==> final(self).wf(),
    {
        if self.server {
            self.see_out(engine, game, addr);
            self.on_disconnect(addr);
        } else {
            game.queue_event(GameEvent::Disconnected);
        }
    }

    /// Acts on one thing that the transport reports.
    pub fn handle_event(&mut self, event: &SocketEvent, engine: &mut Vec<Effect>, game: &mut Game)
        ensures
            world(final(game)@, final(self)@, final(engine)@) == world(
                old(game)@,
                old(self)@,
                old(engine)@,
            ).routed(event@),
            old(self).wf() ==> final(self).wf(),
            old(self).wf() && old(game).wf() ==> final(game).wf(),
    {
        proof {
            if old(self).wf() && old(game).wf() {
                lemma_routed_wf(world(old(game)@, old(self)@, old(engine)@), event@);
            }
        }
        match event {
            SocketEvent::Packet { addr, message } => match message {
                Some(m) => {
                    self.route_message(engine, game, *addr, m);
                },
                None => {},
            },
            SocketEvent::Connect(addr) => {
                self.route_connect(engine, game, *addr);
            },
            SocketEvent::Timeout(addr) => {},
            SocketEvent::Disconnect(addr) => {
                self.route_disconnect(engine, game, *addr);
            },
        }
    }

    /// Acts on everything that the transport reports, in the order in which it
    /// is reported.
    pub fn handle_events(
        &mut self,
        events: &Vec<SocketEvent>,
        engine: &mut Vec<Effect>,
        game: &mut Game,
    )
        ensures
            world(final(game)@, final(self)@, final(engine)@) == world(
                old(game)@,
                old(self)@,
                old(engine)@,
            ).routed_all(events@.map_values(|e: SocketEvent| e@)),
            old(self).wf() ==> final(self).wf(),
            old(self).wf() && old(game).wf() ==> final(game).wf(),
    {
        let ghost reported = events@.map_values(|e: SocketEvent| e@);
        let ghost start = world(old(game)@, old(self)@, old(engine)@);
        let mut i: usize = 0;
        while i < events.len()
            invariant
                i <= events.len(),
                reported == events@.map_values(|e: SocketEvent| e@),
                world(game@, self@, engine@) == start.routed_all(reported.take(i as int)),
                old(self).wf() ==> self.wf(),
                old(self).wf() && old(game).wf() ==> game.wf(),
            decreases events.len() - i,
        {
            assert(reported.take(i + 1).drop_last() =~= reported.take(i as int));
            assert(reported.take(i + 1).last() == events@[i as int]@);
            self.handle_event(&events[i], engine, game);
            i += 1;
        }
        assert(reported.take(i as int) =~= reported);
    }
}

} // verus!
