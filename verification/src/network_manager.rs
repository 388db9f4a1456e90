use vstd::prelude::*;
use crate::address::Address;
use crate::game::{GameEvent, GameEventView};
use crate::player_event::PlayerEvent;

verus! {

/// What travels between two peers.
#[allow(inconsistent_fields)]
#[derive(Debug, PartialEq, Eq)]
pub enum NetworkMessage {
    Connected,
    Disconnected,
    PlayerEvent { index: u32, event: PlayerEvent },
    GameEvent { event: GameEvent },
}

/// A [`NetworkMessage`] as a mathematical value.
#[allow(inconsistent_fields)]
pub enum NetworkMessageView {
    Connected,
    Disconnected,
    PlayerEvent { index: u32, event: PlayerEvent },
    GameEvent { event: GameEventView },
}

impl View for NetworkMessage {
    type V = NetworkMessageView;

    open spec fn view(&self) -> NetworkMessageView {
        match self {
            NetworkMessage::Connected => NetworkMessageView::Connected,
            NetworkMessage::Disconnected => NetworkMessageView::Disconnected,
            NetworkMessage::PlayerEvent { index, event } => NetworkMessageView::PlayerEvent {
                index: *index,
                event: *event,
            },
            NetworkMessage::GameEvent { event } => NetworkMessageView::GameEvent { event: event@ },
        }
    }
}

impl Clone for NetworkMessage {
    fn clone(&self) -> (r: Self)
        ensures
            r@ == self@,
    {
        match self {
            NetworkMessage::Connected => NetworkMessage::Connected,
            NetworkMessage::Disconnected => NetworkMessage::Disconnected,
            NetworkMessage::PlayerEvent { index, event } => NetworkMessage::PlayerEvent {
                index: *index,
                event: *event,
            },
            NetworkMessage::GameEvent { event } => NetworkMessage::GameEvent {
                event: event.clone(),
            },
        }
    }
}

/// How a packet is to be delivered.
#[derive(Clone, Copy, PartialEq, Eq, Debug, Structural)]
pub enum Delivery {
    /// It arrives, and after everything sent before it on the same stream.
    ReliableOrdered { stream: Option<u8> },
    /// It may be lost; if it arrives after a newer one it is dropped.
    UnreliableSequenced,
}

/// A message on its way to a peer.
#[derive(Debug, PartialEq, Eq)]
pub struct Packet {
    pub addr: Address,
    pub message: NetworkMessage,
    pub delivery: Delivery,
}

/// A [`Packet`] as a mathematical value.
pub struct PacketView {
    pub addr: Address,
    pub message: NetworkMessageView,
    pub delivery: Delivery,
}

impl View for Packet {
    type V = PacketView;

    open spec fn view(&self) -> PacketView {
        PacketView { addr: self.addr, message: self.message@, delivery: self.delivery }
    }
}

/// What the transport reports.
#[derive(Debug, PartialEq, Eq)]
pub enum SocketEvent {
    /// A packet came in from `addr`. `message` is `None` where the payload
    /// could not be read as a message.
    Packet { addr: Address, message: Option<NetworkMessage> },
    Connect(Address),
    Timeout(Address),
    Disconnect(Address),
}

/// A peer that is connected, and the index of its player.
#[derive(Clone, Copy, PartialEq, Eq, Debug, Structural)]
pub struct PlayerConnection {
    pub socket_addr: Address,
    pub player_index: u32,
}

/// The stream on which the player of this index is sent what must arrive in
/// order: the low byte of the index.
pub open spec fn stream_of(index: u32) -> u8 {
    (index % 256) as u8
}

/// No two connections have the same player index.
pub open spec fn distinct_indices(conns: Seq<PlayerConnection>) -> bool {
    forall|i: int, j: int|
        0 <= i < j < conns.len() ==> conns[i].player_index != conns[j].player_index
}

/// The largest player index among `conns`, and 0 where there is none.
pub open spec fn max_index(conns: Seq<PlayerConnection>) -> int
    decreases conns.len(),
{
    if conns.len() == 0 {
        0
    } else {
        let rest = max_index(conns.drop_last());
        if conns.last().player_index > rest {
            conns.last().player_index as int
        } else {
            rest
        }
    }
}

/// The index that the next peer to connect is given: one more than the largest
/// index in use, and one more than `highest`, the index given last, where no
/// peer is connected.
pub open spec fn next_index(conns: Seq<PlayerConnection>, highest: u32) -> int {
    if conns.len() > 0 {
        max_index(conns) + 1
    } else {
        highest + 1
    }
}

/// No index in use is larger than `highest`.
pub open spec fn bounded_indices(conns: Seq<PlayerConnection>, highest: u32) -> bool {
    forall|i: int| 0 <= i < conns.len() ==> (#[trigger] conns[i]).player_index <= highest
}

/// The player index of the first connection from `addr`, if there is one.
pub open spec fn resolve(conns: Seq<PlayerConnection>, addr: Address) -> Option<u32>
    decreases conns.len(),
{
    if conns.len() == 0 {
        None
    } else {
        match resolve(conns.drop_last(), addr) {
            Some(index) => Some(index),
            None => if conns.last().socket_addr == addr {
                Some(conns.last().player_index)
            } else {
                None
            },
        }
    }
}

/// The address of the first connection whose player has this index, if there is
/// one.
pub open spec fn resolve_index(conns: Seq<PlayerConnection>, index: u32) -> Option<Address>
    decreases conns.len(),
{
    if conns.len() == 0 {
        None
    } else {
        match resolve_index(conns.drop_last(), index) {
            Some(addr) => Some(addr),
            None => if conns.last().player_index == index {
                Some(conns.last().socket_addr)
            } else {
                None
            },
        }
    }
}

/// `conns` without the connections from `addr`, the others in their order.
pub open spec fn without_address(conns: Seq<PlayerConnection>, addr: Address) -> Seq<
    PlayerConnection,
>
    decreases conns.len(),
{
    if conns.len() == 0 {
        conns
    } else {
        let rest = without_address(conns.drop_last(), addr);
        if conns.last().socket_addr == addr {
            rest
        } else {
            rest.push(conns.last())
        }
    }
}

/// The stream on which `addr` is sent what must arrive in order: stream 0 for
/// the server, the stream of its player for a connected peer, none for a
/// stranger.
pub open spec fn address_stream(
    conns: Seq<PlayerConnection>,
    server_addr: Address,
    addr: Address,
) -> Option<u8> {
    if addr == server_addr {
        Some(0u8)
    } else {
        match resolve(conns, addr) {
            Some(index) => Some(stream_of(index)),
            None => None,
        }
    }
}

/// How many packets a send with this redundancy puts out for each receiver.
pub open spec fn copies(redundancy: i32) -> nat {
    if redundancy < 0 {
        0
    } else {
        (redundancy + 1) as nat
    }
}

/// The packet that carries `message` to the peer of `conn`.
pub open spec fn packet_for(
    conn: PlayerConnection,
    message: NetworkMessageView,
    reliable: bool,
) -> PacketView {
    PacketView {
        addr: conn.socket_addr,
        message,
        delivery: if reliable {
            Delivery::ReliableOrdered { stream: Some(stream_of(conn.player_index)) }
        } else {
            Delivery::UnreliableSequenced
        },
    }
}

/// `n` times the packet `p`.
pub open spec fn repeated(p: PacketView, n: nat) -> Seq<PacketView> {
    Seq::new(n, |i: int| p)
}

/// The packets that carry `message` to every connection in turn, but to none
/// from the address `skip`: `n` packets for each.
pub open spec fn broadcast(
    conns: Seq<PlayerConnection>,
    skip: Option<Address>,
    message: NetworkMessageView,
    reliable: bool,
    n: nat,
) -> Seq<PacketView>
    decreases conns.len(),
{
    if conns.len() == 0 {
        Seq::empty()
    } else {
        let rest = broadcast(conns.drop_last(), skip, message, reliable, n);
        if skip == Some(conns.last().socket_addr) {
            rest
        } else {
            rest + repeated(packet_for(conns.last(), message, reliable), n)
        }
    }
}

/// A broadcast is made of the packets for the connections that are not
/// skipped, and of nothing else: no packet goes to the address that is skipped,
/// and every other connection gets its packet as soon as there is one copy.
pub proof fn lemma_broadcast(
    conns: Seq<PlayerConnection>,
    skip: Option<Address>,
    message: NetworkMessageView,
    reliable: bool,
    n: nat,
)
    ensures
        forall|i: int|
            0 <= i < broadcast(conns, skip, message, reliable, n).len() ==> exists|k: int|
                0 <= k < conns.len() && Some(conns[k].socket_addr) != skip && (#[trigger] broadcast(
                    conns,
                    skip,
                    message,
                    reliable,
                    n,
                )[i]) == packet_for(conns[k], message, reliable),
        forall|i: int|
            0 <= i < broadcast(conns, skip, message, reliable, n).len() ==> Some(
                (#[trigger] broadcast(conns, skip, message, reliable, n)[i]).addr,
            ) != skip,
        n > 0 ==> forall|k: int|
            0 <= k < conns.len() && Some(conns[k].socket_addr) != skip ==> broadcast(
                conns,
                skip,
                message,
                reliable,
                n,
            ).contains(packet_for(#[trigger] conns[k], message, reliable)),
    decreases conns.len(),
{
    let all = broadcast(conns, skip, message, reliable, n);
    if conns.len() > 0 {
        let front = conns.drop_last();
        let rest = broadcast(front, skip, message, reliable, n);
        let p = packet_for(conns.last(), message, reliable);
        lemma_broadcast(front, skip, message, reliable, n);
        assert forall|i: int| 0 <= i < all.len() implies exists|k: int|
            0 <= k < conns.len() && Some(conns[k].socket_addr) != skip && (#[trigger] all[i])
                == packet_for(conns[k], message, reliable) by {
            if i < rest.len() {
                assert(all[i] == rest[i]);
                let k = choose|k: int|
                    0 <= k < front.len() && Some(front[k].socket_addr) != skip && rest[i]
                        == packet_for(front[k], message, reliable);
                assert(conns[k] == front[k]);
            } else {
                assert(all[i] == p);
                assert(conns[conns.len() - 1] == conns.last());
            }
        }
        assert forall|i: int| 0 <= i < all.len() implies Some((#[trigger] all[i]).addr)
            != skip by {
            let k = choose|k: int|
                0 <= k < conns.len() && Some(conns[k].socket_addr) != skip && all[i]
                    == packet_for(conns[k], message, reliable);
        }
        if n > 0 {
            assert forall|k: int|
                0 <= k < conns.len() && Some(conns[k].socket_addr) != skip implies all.contains(
                packet_for(#[trigger] conns[k], message, reliable),
            ) by {
                if k < front.len() {
                    assert(front[k] == conns[k]);
                    let q = packet_for(front[k], message, reliable);
                    let i = choose|i: int| 0 <= i < rest.len() && rest[i] == q;
                    assert(all[i] == q);
                } else {
                    assert(all[rest.len() as int] == p);
                }
            }
        }
    }
}

/// The connections that a broadcast reaches: all of them, but for those from
/// the address `skip`.
pub open spec fn receivers(conns: Seq<PlayerConnection>, skip: Option<Address>) -> Seq<
    PlayerConnection,
> {
    match skip {
        Some(addr) => without_address(conns, addr),
        None => conns,
    }
}

/// A broadcast of one copy is exactly one packet for each connection that it
/// reaches, in the order of the connections.
pub proof fn lemma_broadcast_once(
    conns: Seq<PlayerConnection>,
    skip: Option<Address>,
    message: NetworkMessageView,
    reliable: bool,
)
    ensures
        broadcast(conns, skip, message, reliable, 1) == receivers(conns, skip).map_values(
            |c: PlayerConnection| packet_for(c, message, reliable),
        ),
    decreases conns.len(),
{
    let send = |c: PlayerConnection| packet_for(c, message, reliable);
    if conns.len() > 0 {
        let front = conns.drop_last();
        lemma_broadcast_once(front, skip, message, reliable);
        let rest = broadcast(front, skip, message, reliable, 1);
        let p = packet_for(conns.last(), message, reliable);
        assert(repeated(p, 1) =~= seq![p]);
        if skip != Some(conns.last().socket_addr) {
            assert(receivers(conns, skip) =~= receivers(front, skip).push(conns.last()));
            assert(receivers(conns, skip).map_values(send) =~= receivers(front, skip).map_values(
                send,
            ).push(p));
            assert(rest + seq![p] =~= rest.push(p));
        } else {
            assert(receivers(conns, skip) =~= receivers(front, skip));
        }
    } else {
        assert(receivers(conns, skip) =~= Seq::<PlayerConnection>::empty());
        assert(receivers(conns, skip).map_values(send) =~= Seq::<PacketView>::empty());
    }
}

/// Every index among `conns` is at most `max_index(conns)`.
pub proof fn lemma_max_index_bounds(conns: Seq<PlayerConnection>)
    ensures
        0 <= max_index(conns) <= u32::MAX,
        forall|i: int| 0 <= i < conns.len() ==> conns[i].player_index <= max_index(conns),
    decreases conns.len(),
{
    if conns.len() > 0 {
        lemma_max_index_bounds(conns.drop_last());
        assert forall|i: int| 0 <= i < conns.len() implies conns[i].player_index <= max_index(
            conns,
        ) by {
            if i < conns.len() - 1 {
                assert(conns.drop_last()[i] == conns[i]);
            }
        }
    }
}

/// What is left after the connections from an address are taken out was there
/// before, in the same order.
pub proof fn lemma_without_address(conns: Seq<PlayerConnection>, addr: Address)
    ensures
        without_address(conns, addr).len() <= conns.len(),
        forall|i: int|
            0 <= i < without_address(conns, addr).len() ==> (#[trigger] without_address(
                conns,
                addr,
            )[i]).socket_addr != addr && conns.contains(without_address(conns, addr)[i]),
        forall|i: int|
            0 <= i < conns.len() && conns[i].socket_addr != addr ==> without_address(
                conns,
                addr,
            ).contains(#[trigger] conns[i]),
        distinct_indices(conns) ==> distinct_indices(without_address(conns, addr)),
        resolve(without_address(conns, addr), addr) is None,
    decreases conns.len(),
{
    let out = without_address(conns, addr);
    if conns.len() > 0 {
        let front = conns.drop_last();
        let rest = without_address(front, addr);
        lemma_without_address(front, addr);
        assert forall|i: int| 0 <= i < out.len() implies (#[trigger] out[i]).socket_addr != addr
            && conns.contains(out[i]) by {
            if i < rest.len() {
                assert(out[i] == rest[i]);
                let k = choose|k: int| 0 <= k < front.len() && front[k] == rest[i];
                assert(conns[k] == out[i]);
            } else {
                assert(out[i] == conns.last());
                assert(conns[conns.len() - 1] == out[i]);
            }
        }
        assert forall|i: int| 0 <= i < conns.len() && conns[i].socket_addr != addr implies out.contains(
            #[trigger] conns[i],
        ) by {
            if i < conns.len() - 1 {
                assert(front[i] == conns[i]);
                let k = choose|k: int| 0 <= k < rest.len() && rest[k] == front[i];
                assert(out[k] == conns[i]);
            } else {
                assert(out[out.len() - 1] == conns[i]);
            }
        }
        if distinct_indices(conns) {
            assert(distinct_indices(front)) by {
                assert forall|i: int, j: int| 0 <= i < j < front.len() implies front[i].player_index
                    != front[j].player_index by {
                    assert(front[i] == conns[i] && front[j] == conns[j]);
                }
            }
            if conns.last().socket_addr != addr {
                assert forall|i: int, j: int| 0 <= i < j < out.len() implies out[i].player_index
                    != out[j].player_index by {
                    if j < rest.len() {
                        assert(out[i] == rest[i] && out[j] == rest[j]);
                    } else {
                        assert(out[i] == rest[i]);
                        let k = choose|k: int| 0 <= k < front.len() && front[k] == rest[i];
                        assert(conns[k] == out[i]);
                        assert(out[j] == conns[conns.len() - 1]);
                    }
                }
            }
        }
        if conns.last().socket_addr != addr {
            assert(out.drop_last() =~= rest);
        }
    }
}

/// Resolving an address in a longer list finds what was found in a shorter one.
pub proof fn lemma_resolve_prefix(conns: Seq<PlayerConnection>, addr: Address, k: int)
    requires
        0 <= k <= conns.len(),
        resolve(conns.take(k), addr) is Some,
    ensures
        resolve(conns, addr) == resolve(conns.take(k), addr),
    decreases conns.len(),
{
    if k < conns.len() {
        assert(conns.drop_last().take(k) =~= conns.take(k));
        lemma_resolve_prefix(conns.drop_last(), addr, k);
    } else {
        assert(conns.take(k) =~= conns);
    }
}

/// Resolving an index in a longer list finds what was found in a shorter one.
pub proof fn lemma_resolve_index_prefix(conns: Seq<PlayerConnection>, index: u32, k: int)
    requires
        0 <= k <= conns.len(),
        resolve_index(conns.take(k), index) is Some,
    ensures
        resolve_index(conns, index) == resolve_index(conns.take(k), index),
    decreases conns.len(),
{
    if k < conns.len() {
        assert(conns.drop_last().take(k) =~= conns.take(k));
        lemma_resolve_index_prefix(conns.drop_last(), index, k);
    } else {
        assert(conns.take(k) =~= conns);
    }
}

/// The transport as the core sees it: who is connected, under which player
/// index, and what is waiting to be sent.
pub struct NetworkManager {
    /// Where the server is.
    pub server_addr: Address,
    /// Whether this is the authoritative side.
    pub server: bool,
    /// The peers that are connected, in the order in which they came.
    pub connections: Vec<PlayerConnection>,
    /// The index given to the peer that connected last.
    pub highest_player_index: u32,
    /// The index of the player that is played here, once it is known.
    pub player_index: Option<u32>,
    /// What is to be sent, oldest first.
    pub outbox: Vec<Packet>,
}

/// A [`NetworkManager`] as a mathematical value.
pub struct ManagerView {
    pub server_addr: Address,
    pub server: bool,
    pub connections: Seq<PlayerConnection>,
    pub highest_player_index: u32,
    pub player_index: Option<u32>,
    pub sent: Seq<PacketView>,
}

impl View for NetworkManager {
    type V = ManagerView;

    open spec fn view(&self) -> ManagerView {
        ManagerView {
            server_addr: self.server_addr,
            server: self.server,
            connections: self.connections@,
            highest_player_index: self.highest_player_index,
            player_index: self.player_index,
            sent: self.outbox@.map_values(|p: Packet| p@),
        }
    }
}

impl ManagerView {
    /// No two connections share a player index, and none has an index larger
    /// than the one given last.
    pub open spec fn wf(self) -> bool {
        distinct_indices(self.connections) && bounded_indices(
            self.connections,
            self.highest_player_index,
        )
    }

    /// A transport to which nobody is connected and that has sent nothing.
    pub open spec fn idle(server_addr: Address, server: bool) -> ManagerView {
        ManagerView {
            server_addr,
            server,
            connections: Seq::empty(),
            highest_player_index: 0,
            player_index: None,
            sent: Seq::empty(),
        }
    }

    /// The same, with `packets` added to what is to be sent.
    pub open spec fn posting(self, packets: Seq<PacketView>) -> ManagerView {
        ManagerView { sent: self.sent + packets, ..self }
    }

    /// The packet that carries `message` reliably to `addr`, on the stream of
    /// that address.
    pub open spec fn reliable_to(self, addr: Address, message: NetworkMessageView) -> PacketView {
        PacketView {
            addr,
            message,
            delivery: Delivery::ReliableOrdered {
                stream: address_stream(self.connections, self.server_addr, addr),
            },
        }
    }

    /// The packet that carries `message` unreliably to `addr`.
    pub open spec fn unreliable_to(addr: Address, message: NetworkMessageView) -> PacketView {
        PacketView { addr, message, delivery: Delivery::UnreliableSequenced }
    }

    /// Whether the next peer to connect can be given an index.
    pub open spec fn has_room(self) -> bool {
        next_index(self.connections, self.highest_player_index) <= u32::MAX
    }

    /// The same after the peer at `addr` has connected.
    pub open spec fn connected(self, addr: Address) -> ManagerView {
        if self.has_room() {
            let index = next_index(self.connections, self.highest_player_index) as u32;
            ManagerView {
                connections: self.connections.push(
                    PlayerConnection { socket_addr: addr, player_index: index },
                ),
                highest_player_index: index,
                ..self
            }
        } else {
            self
        }
    }

    /// The same after the peer at `addr` has gone.
    pub open spec fn disconnected(self, addr: Address) -> ManagerView {
        ManagerView { connections: without_address(self.connections, addr), ..self }
    }
}

/// Connecting a peer keeps the player indices apart.
pub proof fn lemma_connected_wf(m: ManagerView, addr: Address)
    requires
        m.wf(),
    ensures
        m.connected(addr).wf(),
{
    if m.has_room() {
        lemma_max_index_bounds(m.connections);
        let before = m.connections;
        let after = m.connected(addr).connections;
        assert forall|i: int, j: int| 0 <= i < j < after.len() implies after[i].player_index
            != after[j].player_index by {
            assert(after[i] == before[i]);
            if j < before.len() {
                assert(after[j] == before[j]);
            }
        }
        assert forall|i: int| 0 <= i < after.len() implies (#[trigger] after[i]).player_index
            <= m.connected(addr).highest_player_index by {
            if i < before.len() {
                assert(after[i] == before[i]);
            }
        }
    }
}

/// The index that a peer is given is larger than every index in use, and it is
/// the index that is remembered as given last.
pub proof fn lemma_index_is_fresh(m: ManagerView, addr: Address)
    requires
        m.has_room(),
    ensures
        m.connected(addr).connections.last().player_index == m.connected(
            addr,
        ).highest_player_index,
        forall|i: int|
            0 <= i < m.connections.len() ==> (#[trigger] m.connections[i]).player_index
                < m.connected(addr).highest_player_index,
        forall|i: int|
            0 <= i < m.connections.len() ==> m.connected(addr).connections[i]
                == m.connections[i],
{
    lemma_max_index_bounds(m.connections);
}

/// Disconnecting a peer keeps the player indices apart.
pub proof fn lemma_disconnected_wf(m: ManagerView, addr: Address)
    requires
        m.wf(),
    ensures
        m.disconnected(addr).wf(),
{
    lemma_without_address(m.connections, addr);
    let after = m.disconnected(addr).connections;
    assert forall|i: int| 0 <= i < after.len() implies (#[trigger] after[i]).player_index
        <= m.highest_player_index by {
        let k = choose|k: int| 0 <= k < m.connections.len() && m.connections[k] == after[i];
        assert(m.connections[k].player_index <= m.highest_player_index);
    }
}

impl NetworkManager {
    /// No two connections share a player index.
    pub open spec fn wf(&self) -> bool {
        self@.wf()
    }

    /// A transport to which nobody is connected. A client greets the server at
    /// once; the authoritative side waits to be greeted.
    pub fn new(server_addr: Address, server: bool) -> (r: NetworkManager)
        ensures
            r.wf(),
            r@ == if server {
                ManagerView::idle(server_addr, server)
            } else {
                ManagerView::idle(server_addr, server).posting(
                    seq![
                        PacketView {
                            addr: server_addr,
                            message: NetworkMessageView::Connected,
                            delivery: Delivery::ReliableOrdered { stream: None },
                        },
                    ],
                )
            },
    {
        let mut manager = NetworkManager {
            server_addr,
            server,
            connections: Vec::new(),
            highest_player_index: 0,
            player_index: None,
            outbox: Vec::new(),
        };
        assert(manager@.sent =~= Seq::<PacketView>::empty());
        assert(manager@.connections =~= Seq::<PlayerConnection>::empty());
        if !server {
            manager.post(
                server_addr,
                &NetworkMessage::Connected,
                Delivery::ReliableOrdered { stream: None },
            );
            assert(manager@.sent =~= ManagerView::idle(server_addr, server).posting(
                seq![
                    PacketView {
                        addr: server_addr,
                        message: NetworkMessageView::Connected,
                        delivery: Delivery::ReliableOrdered { stream: None },
                    },
                ],
            ).sent);
        }
        manager
    }

    /// Puts one packet into the outbox.
    pub fn post(&mut self, addr: Address, message: &NetworkMessage, delivery: Delivery)
        ensures
            final(self)@ == old(self)@.posting(
                seq![PacketView { addr, message: message@, delivery }],
            ),
    {
        let packet = Packet { addr, message: message.clone(), delivery };
        self.outbox.push(packet);
        assert(self@.sent =~= old(self)@.sent + seq![
            PacketView { addr, message: message@, delivery },
        ]);
    }

    /// Hands over everything that is waiting to be sent, oldest first, and
    /// leaves the outbox empty.
    pub fn take_outbox(&mut self) -> (r: Vec<Packet>)
        ensures
            r@.map_values(|p: Packet| p@) == old(self)@.sent,
            final(self)@ == (ManagerView { sent: Seq::empty(), ..old(self)@ }),
    {
        let mut out: Vec<Packet> = Vec::new();
        std::mem::swap(&mut out, &mut self.outbox);
        assert(self@.sent =~= Seq::<PacketView>::empty());
        out
    }

    /// Registers the peer at `address` and gives its player the next index.
    ///
    /// Returns `None`, and registers nothing, exactly where the next index
    /// would not fit in 32 bits.
    pub fn on_connect(&mut self, address: Address) -> (r: Option<u32>)
        ensures
            final(self)@ == old(self)@.connected(address),
            old(self).wf() ==> final(self).wf(),
            r == if old(self)@.has_room() {
                Some(next_index(old(self)@.connections, old(self)@.highest_player_index) as u32)
            } else {
                None
            },
    {
        let base: u32 = if self.connections.len() > 0 {
            self.largest_index()
        } else {
            self.highest_player_index
        };
        proof {
            lemma_max_index_bounds(self.connections@);
            if old(self).wf() {
                lemma_connected_wf(old(self)@, address);
            }
        }
        if base == u32::MAX {
            return None;
        }
        let index: u32 = base + 1;
        self.highest_player_index = index;
        self.connections.push(PlayerConnection { socket_addr: address, player_index: index });
        Some(index)
    }

    fn largest_index(&self) -> (r: u32)
        ensures
            r == max_index(self.connections@),
    {
        let mut largest: u32 = 0;
        let mut i: usize = 0;
        while i < self.connections.len()
            invariant
                i <= self.connections.len(),
                largest == max_index(self.connections@.take(i as int)),
            decreases self.connections.len() - i,
        {
            assert(self.connections@.take(i + 1).drop_last() =~= self.connections@.take(i as int));
            if self.connections[i].player_index > largest {
                largest = self.connections[i].player_index;
            }
            i += 1;
        }
        assert(self.connections@.take(i as int) =~= self.connections@);
        largest
    }

    /// Forgets every connection from `address` and returns the player index of
    /// the first of them, if there was one.
    pub fn on_disconnect(&mut self, address: Address) -> (r: Option<u32>)
        ensures
            final(self)@ == old(self)@.disconnected(address),
            old(self).wf() ==> final(self).wf(),
            r == resolve(old(self)@.connections, address),
    {
        let found = self.get_index_for_address(address);
        let mut kept: Vec<PlayerConnection> = Vec::new();
        let mut i: usize = 0;
        while i < self.connections.len()
            invariant
                i <= self.connections.len(),
                kept@ == without_address(self.connections@.take(i as int), address),
            decreases self.connections.len() - i,
        {
            assert(self.connections@.take(i + 1).drop_last() =~= self.connections@.take(i as int));
            let conn = self.connections[i];
            if conn.socket_addr != address {
                kept.push(conn);
            }
            i += 1;
        }
        proof {
            assert(self.connections@.take(i as int) =~= self.connections@);
            lemma_without_address(self.connections@, address);
        }
        self.connections = kept;
        found
    }

    /// The player index of the peer at `address`.
    pub fn get_index_for_address(&self, address: Address) -> (r: Option<u32>)
        ensures
            r == resolve(self@.connections, address),
    {
        let mut i: usize = 0;
        while i < self.connections.len()
            invariant
                i <= self.connections.len(),
                resolve(self.connections@.take(i as int), address) is None,
            decreases self.connections.len() - i,
        {
            assert(self.connections@.take(i + 1).drop_last() =~= self.connections@.take(i as int));
            if self.connections[i].socket_addr == address {
                proof {
                    lemma_resolve_prefix(self.connections@, address, i + 1);
                }
                return Some(self.connections[i].player_index);
            }
            i += 1;
        }
        assert(self.connections@.take(i as int) =~= self.connections@);
        None
    }

    /// The address of the peer whose player has this index.
    pub fn get_address_for_player(&self, index: u32) -> (r: Option<Address>)
        ensures
            r == resolve_index(self@.connections, index),
    {
        let mut i: usize = 0;
        while i < self.connections.len()
            invariant
                i <= self.connections.len(),
                resolve_index(self.connections@.take(i as int), index) is None,
            decreases self.connections.len() - i,
        {
            assert(self.connections@.take(i + 1).drop_last() =~= self.connections@.take(i as int));
            if self.connections[i].player_index == index {
                proof {
                    lemma_resolve_index_prefix(self.connections@, index, i + 1);
                }
                return Some(self.connections[i].socket_addr);
            }
            i += 1;
        }
        assert(self.connections@.take(i as int) =~= self.connections@);
        None
    }

    /// The stream of a connection.
    pub fn get_connection_stream_id(&self, connection: &PlayerConnection) -> (r: Option<u8>)
        ensures
            r == Some(stream_of(connection.player_index)),
    {
        Some((connection.player_index % 256) as u8)
    }

    /// The stream of an address.
    pub fn get_address_stream_id(&self, address: Address) -> (r: Option<u8>)
        ensures
            r == address_stream(self@.connections, self@.server_addr, address),
    {
        if address == self.server_addr {
            return Some(0u8);
        }
        match self.get_index_for_address(address) {
            Some(player_index) => Some((player_index % 256) as u8),
            None => None,
        }
    }

    /// Puts `n` copies of one packet into the outbox.
    fn post_copies(&mut self, addr: Address, message: &NetworkMessage, delivery: Delivery, n: u32)
        ensures
            final(self)@ == old(self)@.posting(
                repeated(PacketView { addr, message: message@, delivery }, n as nat),
            ),
    {
        let ghost p = PacketView { addr, message: message@, delivery };
        let mut k: u32 = 0;
        assert(self@.sent =~= old(self)@.sent + repeated(p, 0));
        while k < n
            invariant
                k <= n,
                p == (PacketView { addr, message: message@, delivery }),
                self@ == old(self)@.posting(repeated(p, k as nat)),
            decreases n - k,
        {
            self.post(addr, message, delivery);
            assert(repeated(p, k as nat) + seq![p] =~= repeated(p, (k + 1) as nat));
            assert(self@.sent =~= old(self)@.sent + repeated(p, (k + 1) as nat));
            k += 1;
        }
    }

    /// Puts into the outbox what carries `message` to every connection but
    /// those from `skip`.
    fn post_all(&mut self, skip: Option<Address>, message: &NetworkMessage, reliable: bool, n: u32)
        ensures
            final(self)@ == old(self)@.posting(
                broadcast(old(self)@.connections, skip, message@, reliable, n as nat),
            ),
    {
        let mut i: usize = 0;
        assert(self@.sent =~= old(self)@.sent + broadcast(
            self.connections@.take(0),
            skip,
            message@,
            reliable,
            n as nat,
        ));
        while i < self.connections.len()
            invariant
                i <= self.connections.len(),
                self@ == old(self)@.posting(
                    broadcast(self.connections@.take(i as int), skip, message@, reliable, n as nat),
                ),
            decreases self.connections.len() - i,
        {
            assert(self.connections@.take(i + 1).drop_last() =~= self.connections@.take(i as int));
            let conn = self.connections[i];
            let ghost before = broadcast(
                self.connections@.take(i as int),
                skip,
                message@,
                reliable,
                n as nat,
            );
            let skipped = match skip {
                Some(addr) => addr == conn.socket_addr,
                None => false,
            };
            if !skipped {
                let delivery = if reliable {
                    Delivery::ReliableOrdered { stream: Some((conn.player_index % 256) as u8) }
                } else {
                    Delivery::UnreliableSequenced
                };
                self.post_copies(conn.socket_addr, message, delivery, n);
                assert(self@.sent =~= old(self)@.sent + (before + repeated(
                    packet_for(conn, message@, reliable),
                    n as nat,
                )));
            }
            i += 1;
        }
        assert(self.connections@.take(i as int) =~= self.connections@);
    }

    fn copies_of(redundancy: i32) -> (n: u32)
        ensures
            n == copies(redundancy),
    {
        if redundancy < 0 {
            0
        } else {
            redundancy as u32 + 1
        }
    }

    /// Sends `message` reliably to every peer but `address`, each on its own
    /// stream.
    pub fn send_to_all_except_address_reliably(
        &mut self,
        address: Address,
        message: &NetworkMessage,
    )
        ensures
            final(self)@ == old(self)@.posting(
                broadcast(old(self)@.connections, Some(address), message@, true, 1),
            ),
    {
        self.post_all(Some(address), message, true, 1);
    }

    /// Sends `message` unreliably to every peer but `address`, once and then
    /// `redundancy` times more.
    pub fn send_to_all_except_address_unreliably(
        &mut self,
        address: Address,
        message: &NetworkMessage,
        redundancy: i32,
    )
        ensures
            final(self)@ == old(self)@.posting(
                broadcast(
                    old(self)@.connections,
                    Some(address),
                    message@,
                    false,
                    copies(redundancy),
                ),
            ),
    {
        let n = Self::copies_of(redundancy);
        self.post_all(Some(address), message, false, n);
    }

    /// Sends `message` reliably to `address`, on the stream of that address.
    pub fn send_to_address_reliably(&mut self, address: Address, message: &NetworkMessage)
        ensures
            final(self)@ == old(self)@.posting(seq![old(self)@.reliable_to(address, message@)]),
    {
        let stream = self.get_address_stream_id(address);
        self.post(address, message, Delivery::ReliableOrdered { stream });
    }

    /// Sends `message` unreliably to `address`, once and then `redundancy`
    /// times more.
    pub fn send_to_address_unreliably(
        &mut self,
        address: Address,
        message: &NetworkMessage,
        redundancy: i32,
    )
        ensures
            final(self)@ == old(self)@.posting(
                repeated(ManagerView::unreliable_to(address, message@), copies(redundancy)),
            ),
    {
        let n = Self::copies_of(redundancy);
        self.post_copies(address, message, Delivery::UnreliableSequenced, n);
    }

    /// Sends `message` reliably to every peer, each on its own stream.
    pub fn send_to_all_reliably(&mut self, message: &NetworkMessage)
        ensures
            final(self)@ == old(self)@.posting(
                broadcast(old(self)@.connections, None, message@, true, 1),
            ),
    {
        self.post_all(None, message, true, 1);
    }

    /// Sends `message` unreliably to every peer, once and then `redundancy`
    /// times more.
    pub fn send_to_all_unreliably(&mut self, message: &NetworkMessage, redundancy: i32)
        ensures
            final(self)@ == old(self)@.posting(
                broadcast(old(self)@.connections, None, message@, false, copies(redundancy)),
            ),
    {
        let n = Self::copies_of(redundancy);
        self.post_all(None, message, false, n);
    }

    /// Sends `message` reliably to the server, on stream 0.
    pub fn send_to_server_reliably(&mut self, message: &NetworkMessage)
        ensures
            final(self)@ == old(self)@.posting(
                seq![old(self)@.reliable_to(old(self)@.server_addr, message@)],
            ),
    {
        let address = self.server_addr;
        self.send_to_address_reliably(address, message);
    }

    /// Sends `message` unreliably to the server, once and then `redundancy`
    /// times more.
    pub fn send_to_server_unreliably(&mut self, message: &NetworkMessage, redundancy: i32)
        ensures
            final(self)@ == old(self)@.posting(
                repeated(
                    ManagerView::unreliable_to(old(self)@.server_addr, message@),
                    copies(redundancy),
                ),
            ),
    {
        let address = self.server_addr;
        self.send_to_address_unreliably(address, message, redundancy);
    }
}

} // verus!
