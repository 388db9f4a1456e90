use vstd::prelude::*;
use crate::animation::PlayerAnimationMachineInput;
use crate::effect::PlayerStep;
use crate::network_manager::{broadcast, NetworkManager, NetworkMessage, NetworkMessageView, PacketView};
use crate::player_event::{ColliderHandle, PlayerEvent, SerializableVector};
use crate::scalar::Scalar;

verus! {

/// The most fuel a player can carry.
pub const MAX_FUEL: u32 = 225;

/// The fuel that one tick of thrust burns.
pub const THRUST_COST: u32 = 3;

/// The authoritative side tells everyone the state of every player once in this
/// many ticks.
pub const SYNC_FREQUENCY: u32 = 3;

/// How many of its own past states a player keeps.
pub const PREVIOUS_STATES: usize = 3;

/// How many authoritative states a player keeps that it has not caught up with.
pub const NEW_STATES: usize = 1;

/// The rounds a player starts with.
pub const STARTING_AMMO: u32 = 20;

/// Where a player is and what it does, at one moment.
#[derive(Clone, Copy, PartialEq, Eq, Debug, Structural)]
pub struct PlayerState {
    pub timestamp: Scalar,
    pub position: SerializableVector,
    pub velocity: SerializableVector,
    pub yaw: Scalar,
    pub pitch: Scalar,
    pub shoot: bool,
    pub fuel: u32,
}

/// What the scene says of the body of a player.
#[derive(Clone, Copy, PartialEq, Eq, Debug, Structural)]
pub struct Observation {
    pub position: SerializableVector,
    pub velocity: SerializableVector,
    pub yaw: Scalar,
    pub pitch: Scalar,
    /// The body stands on something.
    pub on_ground: bool,
    /// The body rises slowly enough for the jet to push it further.
    pub can_climb: bool,
    /// The weapon has cooled down since the last shot.
    pub weapon_ready: bool,
    /// The body has fallen out of the level.
    pub fallen: bool,
}

/// `states` without those whose timestamp is `t` or earlier, the others in
/// their order.
pub open spec fn pruned(states: Seq<PlayerState>, t: Scalar) -> Seq<PlayerState>
    decreases states.len(),
{
    if states.len() == 0 {
        states
    } else {
        let rest = pruned(states.drop_last(), t);
        if states.last().timestamp.rank() <= t.rank() {
            rest
        } else {
            rest.push(states.last())
        }
    }
}

/// `states`, each moved to the position of the same place in `positions`.
pub open spec fn shifted(states: Seq<PlayerState>, positions: Seq<SerializableVector>) -> Seq<
    PlayerState,
> {
    Seq::new(states.len(), |i: int| PlayerState { position: positions[i], ..states[i] })
}

/// What is left after pruning is what was later than `t`, and no more than
/// there was.
pub proof fn lemma_pruned(states: Seq<PlayerState>, t: Scalar)
    ensures
        pruned(states, t).len() <= states.len(),
        forall|i: int|
            0 <= i < pruned(states, t).len() ==> (#[trigger] pruned(states, t)[i]).timestamp.rank()
                > t.rank() && states.contains(pruned(states, t)[i]),
        forall|i: int|
            0 <= i < states.len() && states[i].timestamp.rank() > t.rank() ==> pruned(
                states,
                t,
            ).contains(#[trigger] states[i]),
    decreases states.len(),
{
    let out = pruned(states, t);
    if states.len() > 0 {
        let front = states.drop_last();
        let rest = pruned(front, t);
        lemma_pruned(front, t);
        assert forall|i: int| 0 <= i < out.len() implies (#[trigger] out[i]).timestamp.rank()
            > t.rank() && states.contains(out[i]) by {
            if i < rest.len() {
                assert(out[i] == rest[i]);
                let k = choose|k: int| 0 <= k < front.len() && front[k] == rest[i];
                assert(states[k] == out[i]);
            } else {
                assert(states[states.len() - 1] == out[i]);
            }
        }
        assert forall|i: int| 0 <= i < states.len() && states[i].timestamp.rank()
            > t.rank() implies out.contains(#[trigger] states[i]) by {
            if i < states.len() - 1 {
                assert(front[i] == states[i]);
                let k = choose|k: int| 0 <= k < rest.len() && rest[k] == front[i];
                assert(out[k] == states[i]);
            } else {
                assert(out[out.len() - 1] == states[i]);
            }
        }
    }
}

/// What steers a player: what it intends, the authoritative states it has yet
/// to catch up with, and the states it has been in of late.
#[derive(Debug, PartialEq, Eq)]
pub struct PlayerController {
    pub move_forward: bool,
    pub move_backward: bool,
    pub move_left: bool,
    pub move_right: bool,
    pub move_up: bool,
    pub jump: bool,
    pub fly: bool,
    pub shoot: bool,
    /// Authoritative states that the player has not caught up with, oldest
    /// first.
    pub new_states: Vec<PlayerState>,
    /// The states the player was in of late, oldest first.
    pub previous_states: Vec<PlayerState>,
    /// How fast the player is being moved towards the authoritative state.
    pub smoothing_speed: Scalar,
    /// The timestamp of the newest authoritative state that was taken in.
    pub newest_timestamp: Option<Scalar>,
}

/// A [`PlayerController`] as a mathematical value.
pub struct ControllerView {
    pub move_forward: bool,
    pub move_backward: bool,
    pub move_left: bool,
    pub move_right: bool,
    pub move_up: bool,
    pub jump: bool,
    pub fly: bool,
    pub shoot: bool,
    pub new_states: Seq<PlayerState>,
    pub previous_states: Seq<PlayerState>,
    pub smoothing_speed: Scalar,
    pub newest_timestamp: Option<Scalar>,
}

impl View for PlayerController {
    type V = ControllerView;

    open spec fn view(&self) -> ControllerView {
        ControllerView {
            move_forward: self.move_forward,
            move_backward: self.move_backward,
            move_left: self.move_left,
            move_right: self.move_right,
            move_up: self.move_up,
            jump: self.jump,
            fly: self.fly,
            shoot: self.shoot,
            new_states: self.new_states@,
            previous_states: self.previous_states@,
            smoothing_speed: self.smoothing_speed,
            newest_timestamp: self.newest_timestamp,
        }
    }
}

impl ControllerView {
    /// Neither list is longer than it may be, and no authoritative state that
    /// waits is newer than the newest that was taken in.
    pub open spec fn wf(self) -> bool {
        &&& self.new_states.len() <= NEW_STATES
        &&& self.previous_states.len() <= PREVIOUS_STATES
        &&& self.new_states.len() > 0 ==> self.newest_timestamp is Some
        &&& forall|i: int|
            0 <= i < self.new_states.len() ==> self.new_states[i].timestamp.rank()
                <= self.newest_timestamp.unwrap().rank()
    }

    /// A controller that intends nothing and remembers nothing.
    pub open spec fn idle(shoot: bool) -> ControllerView {
        ControllerView {
            move_forward: false,
            move_backward: false,
            move_left: false,
            move_right: false,
            move_up: false,
            jump: false,
            fly: false,
            shoot,
            new_states: Seq::empty(),
            previous_states: Seq::empty(),
            smoothing_speed: Scalar::spec_zero(),
            newest_timestamp: None,
        }
    }

    /// The same after `state` has been written down as the state the player is
    /// in now: the oldest state is forgotten where the list is full.
    pub open spec fn recorded(self, state: PlayerState) -> ControllerView {
        ControllerView {
            previous_states: if self.previous_states.len() >= PREVIOUS_STATES {
                self.previous_states.skip(1).push(state)
            } else {
                self.previous_states.push(state)
            },
            ..self
        }
    }

    /// Whether `snapshot` is older than an authoritative state that was taken
    /// in before.
    pub open spec fn stale(self, snapshot: PlayerState) -> bool {
        self.newest_timestamp is Some && snapshot.timestamp.rank()
            < self.newest_timestamp->0.rank()
    }

    /// The same after the authoritative state `snapshot` has come in. A stale
    /// one changes nothing. Any other is queued, after the past states that are
    /// not later than it have been forgotten; where the queue was full, its
    /// oldest entry is given up and the catching up starts afresh.
    pub open spec fn accepted(self, snapshot: PlayerState) -> ControllerView {
        if self.stale(snapshot) {
            self
        } else {
            ControllerView {
                previous_states: pruned(self.previous_states, snapshot.timestamp),
                new_states: if self.new_states.len() >= NEW_STATES {
                    self.new_states.skip(1).push(snapshot)
                } else {
                    self.new_states.push(snapshot)
                },
                smoothing_speed: if self.new_states.len() >= NEW_STATES {
                    Scalar::spec_zero()
                } else {
                    self.smoothing_speed
                },
                newest_timestamp: Some(snapshot.timestamp),
                ..self
            }
        }
    }

    /// The authoritative state to catch up with and the past state to hold
    /// against it: the oldest of each, where there is one of each.
    pub open spec fn pending(self) -> Option<(PlayerState, PlayerState)> {
        if self.new_states.len() > 0 && self.previous_states.len() > 0 {
            Some((self.new_states[0], self.previous_states[0]))
        } else {
            None
        }
    }

    /// The same after the player has been found to be where the authoritative
    /// state says: that state is done with.
    pub open spec fn confirmed(self) -> ControllerView {
        if self.pending() is Some {
            ControllerView {
                new_states: self.new_states.skip(1),
                smoothing_speed: Scalar::spec_zero(),
                ..self
            }
        } else {
            self
        }
    }

    /// Whether a correction that moves the past states to `positions` fits this
    /// controller.
    pub open spec fn correctable(self, positions: Seq<SerializableVector>) -> bool {
        self.pending() is Some && positions.len() == self.previous_states.len()
    }

    /// The same after the player has been moved towards the authoritative
    /// state at `speed`, which took its past states to `positions`. Where that
    /// closed the gap, the authoritative state is done with.
    pub open spec fn interpolated(
        self,
        positions: Seq<SerializableVector>,
        speed: Scalar,
        closed: bool,
    ) -> ControllerView {
        if self.correctable(positions) {
            ControllerView {
                previous_states: shifted(self.previous_states, positions),
                new_states: if closed {
                    self.new_states.skip(1)
                } else {
                    self.new_states
                },
                smoothing_speed: if closed {
                    Scalar::spec_zero()
                } else {
                    speed
                },
                ..self
            }
        } else {
            self
        }
    }
}

/// Whatever comes in or is written down, a controller stays well formed:
/// neither list grows longer than it may be, and nothing that waits is newer
/// than the newest authoritative state that was taken in.
pub proof fn lemma_controller_wf(c: ControllerView, state: PlayerState)
    requires
        c.wf(),
    ensures
        c.recorded(state).wf(),
        c.accepted(state).wf(),
{
    lemma_pruned(c.previous_states, state.timestamp);
    let taken = c.accepted(state);
    assert forall|i: int| 0 <= i < taken.new_states.len() implies (taken.newest_timestamp is Some)
        && taken.new_states[i].timestamp.rank() <= taken.newest_timestamp.unwrap().rank() by {
        if !c.stale(state) {
            if c.new_states.len() >= NEW_STATES {
                if i < taken.new_states.len() - 1 {
                    assert(taken.new_states[i] == c.new_states[i + 1]);
                }
            } else {
                if i < taken.new_states.len() - 1 {
                    assert(taken.new_states[i] == c.new_states[i]);
                }
            }
        }
    }
}

/// Catching up keeps a controller well formed.
pub proof fn lemma_correction_wf(
    c: ControllerView,
    positions: Seq<SerializableVector>,
    speed: Scalar,
    closed: bool,
)
    requires
        c.wf(),
    ensures
        c.confirmed().wf(),
        c.interpolated(positions, speed, closed).wf(),
{
    let done = c.confirmed();
    assert forall|i: int| 0 <= i < done.new_states.len() implies (done.newest_timestamp is Some)
        && done.new_states[i].timestamp.rank() <= done.newest_timestamp.unwrap().rank() by {
        if c.pending() is Some {
            assert(done.new_states[i] == c.new_states[i + 1]);
        }
    }
    let moved = c.interpolated(positions, speed, closed);
    assert forall|i: int| 0 <= i < moved.new_states.len() implies (moved.newest_timestamp is Some)
        && moved.new_states[i].timestamp.rank() <= moved.newest_timestamp.unwrap().rank() by {
        if c.correctable(positions) && closed {
            assert(moved.new_states[i] == c.new_states[i + 1]);
        }
    }
}

/// What a controller intends has no part in whether it is well formed.
pub proof fn lemma_same_lists_wf(c: ControllerView, d: ControllerView)
    requires
        c.wf(),
        d.new_states == c.new_states,
        d.previous_states == c.previous_states,
        d.newest_timestamp == c.newest_timestamp,
    ensures
        d.wf(),
{
    assert forall|i: int| 0 <= i < d.new_states.len() implies (d.newest_timestamp is Some)
        && d.new_states[i].timestamp.rank() <= d.newest_timestamp.unwrap().rank() by {
        assert(c.new_states[i] == d.new_states[i]);
    }
}

/// An authoritative state that is older than one that waits is dropped: the
/// one that waits goes on waiting, and the catching up goes on as it was.
pub proof fn lemma_older_than_held_is_dropped(c: ControllerView, snapshot: PlayerState, i: int)
    requires
        c.wf(),
        0 <= i < c.new_states.len(),
        snapshot.timestamp.rank() < c.new_states[i].timestamp.rank(),
    ensures
        c.stale(snapshot),
        c.accepted(snapshot) == c,
{
}

/// An authoritative state that is older than one taken in before changes
/// nothing.
pub proof fn lemma_stale_is_dropped(c: ControllerView, snapshot: PlayerState)
    requires
        c.stale(snapshot),
    ensures
        c.accepted(snapshot) == c,
{
}

/// An authoritative state that is taken in is queued last, and of the past
/// states exactly those stay that are later than it, in their order.
pub proof fn lemma_accept_prunes(c: ControllerView, snapshot: PlayerState)
    requires
        !c.stale(snapshot),
    ensures
        c.accepted(snapshot).new_states.len() > 0,
        c.accepted(snapshot).new_states.last() == snapshot,
        c.accepted(snapshot).newest_timestamp == Some(snapshot.timestamp),
        forall|i: int|
            0 <= i < c.accepted(snapshot).previous_states.len() ==> (#[trigger] c.accepted(
                snapshot,
            ).previous_states[i]).timestamp.rank() > snapshot.timestamp.rank()
                && c.previous_states.contains(c.accepted(snapshot).previous_states[i]),
        forall|i: int|
            0 <= i < c.previous_states.len() && c.previous_states[i].timestamp.rank()
                > snapshot.timestamp.rank() ==> c.accepted(snapshot).previous_states.contains(
                #[trigger] c.previous_states[i],
            ),
{
    lemma_pruned(c.previous_states, snapshot.timestamp);
}

/// Of three past states, each later than the one before, an authoritative
/// state with the timestamp of the second leaves the third and nothing else,
/// beside itself.
pub proof fn lemma_accept_between(
    c: ControllerView,
    first: PlayerState,
    second: PlayerState,
    third: PlayerState,
    snapshot: PlayerState,
)
    requires
        c.previous_states == seq![first, second, third],
        first.timestamp.rank() < second.timestamp.rank() < third.timestamp.rank(),
        snapshot.timestamp == second.timestamp,
        !c.stale(snapshot),
    ensures
        c.accepted(snapshot).previous_states == seq![third],
        c.accepted(snapshot).new_states.last() == snapshot,
        c.new_states.len() <= NEW_STATES ==> c.accepted(snapshot).new_states == seq![snapshot],
{
    let t = snapshot.timestamp;
    let all = seq![first, second, third];
    let two = seq![first, second];
    let one = seq![first];
    assert(all.drop_last() =~= two);
    assert(two.drop_last() =~= one);
    assert(one.drop_last() =~= Seq::<PlayerState>::empty());
    assert(pruned(Seq::<PlayerState>::empty(), t) =~= Seq::<PlayerState>::empty());
    assert(pruned(one, t) =~= Seq::<PlayerState>::empty());
    assert(pruned(two, t) =~= Seq::<PlayerState>::empty());
    assert(pruned(all, t) =~= seq![third]);
    if c.new_states.len() <= NEW_STATES {
        assert(c.accepted(snapshot).new_states =~= seq![snapshot]);
    }
}

/// Without an authoritative state to catch up with, catching up changes
/// nothing; and once the player has caught up with the only one there is, none
/// is left.
pub proof fn lemma_caught_up(
    c: ControllerView,
    positions: Seq<SerializableVector>,
    speed: Scalar,
    closed: bool,
)
    ensures
        c.new_states.len() == 0 ==> c.confirmed() == c && c.interpolated(positions, speed, closed)
            == c,
        c.wf() ==> c.confirmed().pending() is None,
        c.wf() && closed && c.correctable(positions) ==> c.interpolated(
            positions,
            speed,
            closed,
        ).pending() is None,
        !closed && c.correctable(positions) ==> c.interpolated(positions, speed, closed).pending()
            is Some && c.interpolated(positions, speed, closed).new_states == c.new_states,
{
}

impl PlayerController {
    /// Neither list is longer than it may be, and no authoritative state that
    /// waits is newer than the newest that was taken in.
    pub open spec fn wf(&self) -> bool {
        self@.wf()
    }

    /// A controller that intends nothing but, where `shoot` is set, to shoot.
    pub fn new(shoot: bool) -> (r: PlayerController)
        ensures
            r@ == ControllerView::idle(shoot),
            r.wf(),
    {
        PlayerController {
            move_forward: false,
            move_backward: false,
            move_left: false,
            move_right: false,
            move_up: false,
            jump: false,
            fly: false,
            shoot,
            new_states: Vec::new(),
            previous_states: Vec::new(),
            smoothing_speed: Scalar::zero(),
            newest_timestamp: None,
        }
    }

    /// Writes down the state the player is in now.
    pub fn record(&mut self, state: PlayerState)
        ensures
            final(self)@ == old(self)@.recorded(state),
            old(self).wf() ==> final(self).wf(),
    {
        proof {
            if old(self).wf() {
                lemma_controller_wf(old(self)@, state);
            }
        }
        if self.previous_states.len() >= PREVIOUS_STATES {
            self.previous_states.remove(0);
            assert(self.previous_states@ =~= old(self).previous_states@.skip(1));
        }
        self.previous_states.push(state);
    }

    /// Takes in an authoritative state, unless it is stale. Says whether it was
    /// taken in.
    pub fn accept(&mut self, snapshot: PlayerState) -> (r: bool)
        ensures
            final(self)@ == old(self)@.accepted(snapshot),
            r == !old(self)@.stale(snapshot),
            old(self).wf() ==> final(self).wf(),
    {
        proof {
            if old(self).wf() {
                lemma_controller_wf(old(self)@, snapshot);
            }
        }
        match self.newest_timestamp {
            Some(newest) => {
                if snapshot.timestamp.before(newest) {
                    return false;
                }
            },
            None => {},
        }
        proof {
            lemma_pruned(self.previous_states@, snapshot.timestamp);
        }
        let mut kept: Vec<PlayerState> = Vec::new();
        let mut i: usize = 0;
        while i < self.previous_states.len()
            invariant
                i <= self.previous_states.len(),
                kept@ == pruned(self.previous_states@.take(i as int), snapshot.timestamp),
            decreases self.previous_states.len() - i,
        {
            assert(self.previous_states@.take(i + 1).drop_last() =~= self.previous_states@.take(
                i as int,
            ));
            let state = self.previous_states[i];
            if !state.timestamp.not_after(snapshot.timestamp) {
                kept.push(state);
            }
            i += 1;
        }
        assert(self.previous_states@.take(i as int) =~= self.previous_states@);
        self.previous_states = kept;
        if self.new_states.len() >= NEW_STATES {
            self.new_states.remove(0);
            assert(self.new_states@ =~= old(self).new_states@.skip(1));
            self.smoothing_speed = Scalar::zero();
        }
        self.new_states.push(snapshot);
        self.newest_timestamp = Some(snapshot.timestamp);
        true
    }

    /// The authoritative state to catch up with and the past state to hold
    /// against it.
    pub fn pending(&self) -> (r: Option<(PlayerState, PlayerState)>)
        ensures
            r == self@.pending(),
    {
        if self.new_states.len() > 0 && self.previous_states.len() > 0 {
            Some((self.new_states[0], self.previous_states[0]))
        } else {
            None
        }
    }

    /// Notes that the player is where the authoritative state says.
    pub fn confirm_state(&mut self)
        ensures
            final(self)@ == old(self)@.confirmed(),
            old(self).wf() ==> final(self).wf(),
    {
        proof {
            if old(self).wf() {
                lemma_correction_wf(old(self)@, Seq::empty(), Scalar::spec_zero(), false);
            }
        }
        if self.new_states.len() > 0 && self.previous_states.len() > 0 {
            self.smoothing_speed = Scalar::zero();
            self.new_states.remove(0);
            assert(self.new_states@ =~= old(self).new_states@.skip(1));
        }
    }

    /// Notes that the player has been moved towards the authoritative state at
    /// `speed`, that its past states are now at `positions`, and whether the
    /// gap is closed. Says whether the correction fitted; one that does not
    /// changes nothing.
    pub fn interpolate_state(
        &mut self,
        positions: &Vec<SerializableVector>,
        speed: Scalar,
        closed: bool,
    ) -> (r: bool)
        ensures
            final(self)@ == old(self)@.interpolated(positions@, speed, closed),
            r == old(self)@.correctable(positions@),
            old(self).wf() ==> final(self).wf(),
    {
        proof {
            if old(self).wf() {
                lemma_correction_wf(old(self)@, positions@, speed, closed);
            }
        }
        if !(self.new_states.len() > 0 && self.previous_states.len() > 0 && positions.len()
            == self.previous_states.len()) {
            return false;
        }
        let mut i: usize = 0;
        while i < self.previous_states.len()
            invariant
                i <= self.previous_states.len(),
                positions.len() == self.previous_states.len(),
                self.previous_states@.len() == old(self).previous_states@.len(),
                forall|k: int|
                    0 <= k < i ==> self.previous_states@[k] == shifted(
                        old(self).previous_states@,
                        positions@,
                    )[k],
                forall|k: int|
                    i <= k < self.previous_states.len() ==> self.previous_states@[k] == old(
                        self,
                    ).previous_states@[k],
                self@ == (ControllerView { previous_states: self.previous_states@, ..old(self)@ }),
            decreases self.previous_states.len() - i,
        {
            let mut state = self.previous_states[i];
            state.position = positions[i];
            self.previous_states.set(i, state);
            i += 1;
        }
        assert(self.previous_states@ =~= shifted(old(self).previous_states@, positions@));
        if closed {
            self.smoothing_speed = Scalar::zero();
            self.new_states.remove(0);
            assert(self.new_states@ =~= old(self).new_states@.skip(1));
        } else {
            self.smoothing_speed = speed;
        }
        true
    }
}

/// What kind of thing a shot has hit, as the scene has it marked.
#[derive(Clone, Copy, PartialEq, Eq, Debug, Structural)]
pub enum Tag {
    /// Part of the level that nothing can harm.
    Wall,
    /// A player that has not been hit.
    Player,
    /// A player that has been hit once.
    PlayerOneHp,
    /// A block that has been hit once.
    Destructable,
    /// Anything else: a block that has not been hit.
    Other,
}

impl Tag {
    /// The mark that a node carries whose tag reads `tag`.
    pub open spec fn spec_of(tag: Seq<char>) -> Tag {
        if tag == "wall"@ {
            Tag::Wall
        } else if tag == "player"@ {
            Tag::Player
        } else if tag == "player_1_hp"@ {
            Tag::PlayerOneHp
        } else if tag == "destructable"@ {
            Tag::Destructable
        } else {
            Tag::Other
        }
    }

    /// The tag that stands for this mark. What is marked as anything else has
    /// no tag of its own, and gets the empty one.
    pub open spec fn spec_name(self) -> Seq<char> {
        match self {
            Tag::Wall => "wall"@,
            Tag::Player => "player"@,
            Tag::PlayerOneHp => "player_1_hp"@,
            Tag::Destructable => "destructable"@,
            Tag::Other => ""@,
        }
    }

    /// Reads the mark of a node from its tag.
    pub fn of(tag: &str) -> (r: Tag)
        ensures
            r == Tag::spec_of(tag@),
    {
        let tag = tag.to_owned();
        if tag == "wall".to_owned() {
            Tag::Wall
        } else if tag == "player".to_owned() {
            Tag::Player
        } else if tag == "player_1_hp".to_owned() {
            Tag::PlayerOneHp
        } else if tag == "destructable".to_owned() {
            Tag::Destructable
        } else {
            Tag::Other
        }
    }

    /// The tag that stands for this mark.
    pub fn name(self) -> (r: &'static str)
        ensures
            r@ == self.spec_name(),
    {
        match self {
            Tag::Wall => "wall",
            Tag::Player => "player",
            Tag::PlayerOneHp => "player_1_hp",
            Tag::Destructable => "destructable",
            Tag::Other => "",
        }
    }
}

/// One thing in the line of a shot.
#[derive(Clone, Copy, PartialEq, Eq, Debug, Structural)]
pub struct Hit {
    /// The collider that the shot went through.
    pub collider: ColliderHandle,
    /// The index, in the scene, of the node that owns the collider.
    pub node: u32,
    /// Whether that node is a rigid body.
    pub rigid_body: bool,
    /// How that node is marked.
    pub tag: Tag,
}

/// Where a shot ended.
#[derive(Clone, Copy, PartialEq, Eq, Debug, Structural)]
pub struct Shot {
    /// Which of the things in the line of the shot stopped it.
    pub hit: usize,
    /// The mark that the node it stopped at is to carry from now on, where
    /// that changes.
    pub retag: Option<Tag>,
}

/// The first of `hits` that is not the collider `own`.
pub open spec fn first_foreign(hits: Seq<Hit>, own: ColliderHandle) -> Option<int>
    decreases hits.len(),
{
    if hits.len() == 0 {
        None
    } else {
        match first_foreign(hits.drop_last(), own) {
            Some(k) => Some(k),
            None => if hits.last().collider != own {
                Some(hits.len() - 1)
            } else {
                None
            },
        }
    }
}

/// What was found first in a shorter line is found first in a longer one, and
/// what is found is in the line.
pub proof fn lemma_first_foreign(hits: Seq<Hit>, own: ColliderHandle, k: int)
    requires
        0 <= k <= hits.len(),
    ensures
        first_foreign(hits.take(k), own) is Some ==> first_foreign(hits, own) == first_foreign(
            hits.take(k),
            own,
        ),
        first_foreign(hits, own) is Some ==> 0 <= first_foreign(hits, own)->0 < hits.len()
            && hits[first_foreign(hits, own)->0].collider != own,
    decreases hits.len(),
{
    if hits.len() > 0 {
        if k < hits.len() {
            assert(hits.drop_last().take(k) =~= hits.take(k));
            lemma_first_foreign(hits.drop_last(), own, k);
        } else {
            assert(hits.take(k) =~= hits);
            lemma_first_foreign(hits.drop_last(), own, k - 1);
        }
        if first_foreign(hits.drop_last(), own) is Some {
            assert(hits.drop_last()[first_foreign(hits.drop_last(), own)->0] == hits[first_foreign(
                hits.drop_last(),
                own,
            )->0]);
        }
    } else {
        assert(hits.take(k) =~= hits);
    }
}

/// The mark that a node carries after a shot has stopped at it, where the shot
/// changes its mark: a player and a block take one hit unharmed.
pub open spec fn retagged(tag: Tag) -> Option<Tag> {
    match tag {
        Tag::Player => Some(Tag::PlayerOneHp),
        Tag::Other => Some(Tag::Destructable),
        _ => None,
    }
}

/// The message that tells of something that happened to a player.
pub open spec fn player_message(index: u32, event: PlayerEvent) -> NetworkMessageView {
    NetworkMessageView::PlayerEvent { index, event }
}

/// One player in a level.
#[derive(Debug, PartialEq, Eq)]
pub struct Player {
    /// The collider of the body of the player, once the scene has made one.
    pub collider: ColliderHandle,
    pub index: u32,
    pub controller: PlayerController,
    pub flight_fuel: u32,
    /// Whether this is the player of the user.
    pub current_player: bool,
    pub ammo: u32,
    /// What the scene last said of the body of the player.
    pub body: Observation,
    /// Whether the weapon has gone off in the last tick and the shot has yet
    /// to be settled.
    pub shot_pending: bool,
}

/// A [`Player`] as a mathematical value.
pub struct PlayerView {
    pub collider: ColliderHandle,
    pub index: u32,
    pub controller: ControllerView,
    pub flight_fuel: u32,
    pub current_player: bool,
    pub ammo: u32,
    pub body: Observation,
    pub shot_pending: bool,
}

impl View for Player {
    type V = PlayerView;

    open spec fn view(&self) -> PlayerView {
        PlayerView {
            collider: self.collider,
            index: self.index,
            controller: self.controller@,
            flight_fuel: self.flight_fuel,
            current_player: self.current_player,
            ammo: self.ammo,
            body: self.body,
            shot_pending: self.shot_pending,
        }
    }
}

impl PlayerView {
    /// A player as it enters a level in `state`. Until the scene has been
    /// looked at, its body is taken to be where `state` puts it, in the air,
    /// rising too fast to climb, with the weapon ready.
    pub open spec fn spawned(state: PlayerState, current_player: bool, index: u32) -> PlayerView {
        PlayerView {
            collider: ColliderHandle::spec_none(),
            index,
            controller: ControllerView::idle(state.shoot),
            flight_fuel: MAX_FUEL,
            current_player,
            ammo: STARTING_AMMO,
            body: Observation {
                position: state.position,
                velocity: state.velocity,
                yaw: state.yaw,
                pitch: state.pitch,
                on_ground: false,
                can_climb: false,
                weapon_ready: true,
                fallen: false,
            },
            shot_pending: false,
        }
    }

    /// Whether there is fuel for one more tick of thrust.
    pub open spec fn has_fuel(self) -> bool {
        self.flight_fuel >= THRUST_COST
    }

    /// Whether the player flies in this tick: it wants to and has the fuel.
    pub open spec fn flying(self) -> bool {
        self.controller.fly && self.has_fuel()
    }

    /// Whether the jet pushes in this tick.
    pub open spec fn thrusting(self) -> bool {
        self.flying() && self.body.can_climb
    }

    /// Whether the player leaves the ground in this tick.
    pub open spec fn jumping(self) -> bool {
        self.controller.jump && self.body.on_ground
    }

    /// Whether the weapon goes off in this tick.
    pub open spec fn firing(self) -> bool {
        self.controller.shoot && self.body.weapon_ready
    }

    /// The fuel at the end of this tick: thrust burns some, and every tick
    /// brings one unit back, up to a full tank.
    pub open spec fn fuel_after(self) -> u32 {
        let burnt: int = if self.thrusting() {
            self.flight_fuel - THRUST_COST
        } else {
            self.flight_fuel as int
        };
        if burnt + 1 >= MAX_FUEL {
            MAX_FUEL
        } else {
            (burnt + 1) as u32
        }
    }

    /// What the player does in this tick.
    pub open spec fn step(self) -> PlayerStep {
        PlayerStep {
            thrust: self.thrusting(),
            jump: self.jumping(),
            fire: self.firing(),
            animation: PlayerAnimationMachineInput {
                walk_forward: self.controller.move_forward,
                shoot: self.controller.shoot,
                jump: self.jumping(),
                fly: self.flying(),
                on_ground: self.body.on_ground,
            },
            show_fuel: if self.current_player {
                Some(self.fuel_after())
            } else {
                None
            },
        }
    }

    /// The player at the end of this tick. Where the weapon has gone off, it
    /// is not ready any more, and the shot waits to be settled.
    pub open spec fn stepped(self) -> PlayerView {
        PlayerView {
            flight_fuel: self.fuel_after(),
            controller: ControllerView { jump: false, ..self.controller },
            body: Observation {
                weapon_ready: self.body.weapon_ready && !self.firing(),
                ..self.body
            },
            shot_pending: self.firing(),
            ..self
        }
    }

    /// What is sent out in this tick: on the authoritative side, the news of a
    /// jump to everyone.
    pub open spec fn step_packets(self, net: crate::network_manager::ManagerView) -> Seq<
        PacketView,
    > {
        if net.server && self.jumping() {
            broadcast(net.connections, None, self.jump_message(), true, 1)
        } else {
            Seq::empty()
        }
    }

    /// What the authoritative side tells everyone when this player leaves the
    /// ground.
    pub open spec fn jump_message(self) -> NetworkMessageView {
        player_message(self.index, PlayerEvent::Jump { index: self.index, active: true })
    }

    /// The state of the player as the scene last showed it.
    pub open spec fn state(self, timestamp: Scalar) -> PlayerState {
        PlayerState {
            timestamp,
            position: self.body.position,
            velocity: self.body.velocity,
            yaw: self.body.yaw,
            pitch: self.body.pitch,
            shoot: self.controller.shoot,
            fuel: self.flight_fuel,
        }
    }

    /// The event that tells a peer the state of the player at `timestamp`.
    pub open spec fn update_event(self, timestamp: Scalar) -> PlayerEvent {
        PlayerEvent::UpdateState {
            timestamp,
            index: self.index,
            position: self.body.position,
            velocity: self.body.velocity,
            yaw: self.body.yaw,
            pitch: self.body.pitch,
            shoot: self.controller.shoot,
            fuel: self.flight_fuel,
        }
    }
}

/// A shot is settled only where the weapon has gone off, and only once. While
/// the weapon is not ready it does not go off; without a shot that waits,
/// settling changes nothing, queues nothing and sends nothing; and once a shot
/// is settled the weapon is not ready and no shot waits. A shot queues one event
/// at most.
pub proof fn lemma_shot_is_settled_once(
    p: PlayerView,
    hits: Seq<Hit>,
    net: crate::network_manager::ManagerView,
)
    ensures
        !p.body.weapon_ready ==> !p.stepped().shot_pending,
        p.stepped().shot_pending ==> !p.stepped().body.weapon_ready,
        !p.shot_pending ==> p.fired() == p && p.shot(hits, net.server) is None && p.shot_events(
            hits,
            net.server,
        ) == Seq::<PlayerEvent>::empty() && p.shot_packets(hits, net) == Seq::<PacketView>::empty(),
        p.shot_pending ==> !p.fired().body.weapon_ready,
        !p.fired().shot_pending,
        p.fired().fired() == p.fired(),
        p.shot_events(hits, net.server).len() <= 1,
{
}

impl Player {
    /// The controller is well formed.
    pub open spec fn wf(&self) -> bool {
        self@.controller.wf()
    }

    /// A player that enters a level in `state`.
    pub fn new(state: PlayerState, current_player: bool, index: u32) -> (r: Player)
        ensures
            r@ == PlayerView::spawned(state, current_player, index),
            r.wf(),
    {
        Player {
            collider: ColliderHandle::none(),
            index,
            controller: PlayerController::new(state.shoot),
            flight_fuel: MAX_FUEL,
            current_player,
            ammo: STARTING_AMMO,
            body: Observation {
                position: state.position,
                velocity: state.velocity,
                yaw: state.yaw,
                pitch: state.pitch,
                on_ground: false,
                can_climb: false,
                weapon_ready: true,
                fallen: false,
            },
            shot_pending: false,
        }
    }

    /// Lives through one tick: burns and regains fuel, decides whether the jet
    /// pushes, whether the player leaves the ground and whether the weapon goes
    /// off. On the authoritative side a jump is told to everyone.
    pub fn update(&mut self, network_manager: &mut NetworkManager) -> (r: PlayerStep)
        ensures
            r == old(self)@.step(),
            final(self)@ == old(self)@.stepped(),
            final(network_manager)@ == old(network_manager)@.posting(
                old(self)@.step_packets(old(network_manager)@),
            ),
    {
        let jump = self.controller.jump && self.body.on_ground;
        if jump && network_manager.server {
            let message = NetworkMessage::PlayerEvent {
                index: self.index,
                event: PlayerEvent::Jump { index: self.index, active: true },
            };
            network_manager.send_to_all_reliably(&message);
        } else {
            assert(network_manager@.sent =~= network_manager@.sent + Seq::<PacketView>::empty());
        }
        self.decide()
    }

    /// What the player does in this tick.
    pub fn plan(&self) -> (r: PlayerStep)
        ensures
            r == self@.step(),
    {
        let flying = self.controller.fly && self.has_fuel();
        let thrust = flying && self.body.can_climb;
        let burnt: u32 = if thrust {
            self.flight_fuel - THRUST_COST
        } else {
            self.flight_fuel
        };
        let fuel: u32 = if burnt >= MAX_FUEL - 1 {
            MAX_FUEL
        } else {
            burnt + 1
        };
        let jump = self.controller.jump && self.body.on_ground;
        let fire = self.controller.shoot && self.body.weapon_ready;
        PlayerStep {
            thrust,
            jump,
            fire,
            animation: PlayerAnimationMachineInput {
                walk_forward: self.controller.move_forward,
                shoot: self.controller.shoot,
                jump,
                fly: flying,
                on_ground: self.body.on_ground,
            },
            show_fuel: if self.current_player {
                Some(fuel)
            } else {
                None
            },
        }
    }

    /// What [`Player::update`] does to the player itself.
    fn decide(&mut self) -> (r: PlayerStep)
        ensures
            r == old(self)@.step(),
            final(self)@ == old(self)@.stepped(),
    {
        let step = self.plan();
        let burnt: u32 = if step.thrust {
            self.flight_fuel - THRUST_COST
        } else {
            self.flight_fuel
        };
        self.flight_fuel = if burnt >= MAX_FUEL - 1 {
            MAX_FUEL
        } else {
            burnt + 1
        };
        self.controller.jump = false;
        self.body.weapon_ready = self.body.weapon_ready && !step.fire;
        self.shot_pending = step.fire;
        step
    }

    /// Settles the shot of this player that waits to be settled, given what
    /// lies in its line, nearest first. Where no shot waits, because the weapon
    /// has not gone off, nothing happens. Else the shot stops at the first thing
    /// that is not the player itself, and the weapon is not ready for another.
    /// Only the authoritative side lets a shot do harm, and only to rigid
    /// bodies: a second hit destroys a block, which everyone is told and which
    /// is queued in `events`, and a second hit on a player queues its death.
    pub fn shoot_weapon(
        &mut self,
        hits: &Vec<Hit>,
        network_manager: &mut NetworkManager,
        events: &mut Vec<PlayerEvent>,
    ) -> (r: Option<Shot>)
        ensures
            r == old(self)@.shot(hits@, old(network_manager)@.server),
            final(self)@ == old(self)@.fired(),
            final(events)@ == old(events)@ + old(self)@.shot_events(
                hits@,
                old(network_manager)@.server,
            ),
            final(network_manager)@ == old(network_manager)@.posting(
                old(self)@.shot_packets(hits@, old(network_manager)@),
            ),
    {
        if !self.shot_pending {
            assert(events@ =~= old(events)@ + Seq::<PlayerEvent>::empty());
            assert(network_manager@.sent =~= network_manager@.sent + Seq::<PacketView>::empty());
            return None;
        }
        self.shot_pending = false;
        self.body.weapon_ready = false;
        self.settle(hits, network_manager, events)
    }

    /// Settles a shot that has been fired.
    fn settle(
        &self,
        hits: &Vec<Hit>,
        network_manager: &mut NetworkManager,
        events: &mut Vec<PlayerEvent>,
    ) -> (r: Option<Shot>)
        ensures
            r == self@.landed(hits@, old(network_manager)@.server),
            final(events)@ == old(events)@ + self@.harm_events(
                hits@,
                old(network_manager)@.server,
            ),
            final(network_manager)@ == old(network_manager)@.posting(
                self@.harm_packets(hits@, old(network_manager)@),
            ),
    {
        let mut i: usize = 0;
        while i < hits.len() && hits[i].collider == self.collider
            invariant
                i <= hits.len(),
                first_foreign(hits@.take(i as int), self.collider) is None,
            decreases hits.len() - i,
        {
            assert(hits@.take(i + 1).drop_last() =~= hits@.take(i as int));
            i += 1;
        }
        proof {
            lemma_first_foreign(hits@, self.collider, hits@.len() as int);
            if i < hits.len() {
                assert(hits@.take(i + 1).drop_last() =~= hits@.take(i as int));
                lemma_first_foreign(hits@, self.collider, i + 1);
            } else {
                assert(hits@.take(i as int) =~= hits@);
            }
        }
        if i >= hits.len() {
            assert(events@ =~= old(events)@ + Seq::<PlayerEvent>::empty());
            assert(network_manager@.sent =~= network_manager@.sent + Seq::<PacketView>::empty());
            return None;
        }
        let hit = hits[i];
        if !(network_manager.server && hit.rigid_body) {
            assert(events@ =~= old(events)@ + Seq::<PlayerEvent>::empty());
            assert(network_manager@.sent =~= network_manager@.sent + Seq::<PacketView>::empty());
            return Some(Shot { hit: i, retag: None });
        }
        match hit.tag {
            Tag::Wall => {
                assert(events@ =~= old(events)@ + Seq::<PlayerEvent>::empty());
                assert(network_manager@.sent =~= network_manager@.sent + Seq::<
                    PacketView,
                >::empty());
                Some(Shot { hit: i, retag: None })
            },
            Tag::Player => {
                assert(events@ =~= old(events)@ + Seq::<PlayerEvent>::empty());
                assert(network_manager@.sent =~= network_manager@.sent + Seq::<
                    PacketView,
                >::empty());
                Some(Shot { hit: i, retag: Some(Tag::PlayerOneHp) })
            },
            Tag::PlayerOneHp => {
                events.push(PlayerEvent::KillPlayerFromIntersection { collider: hit.collider });
                assert(events@ =~= old(events)@ + seq![
                    PlayerEvent::KillPlayerFromIntersection { collider: hit.collider },
                ]);
                assert(network_manager@.sent =~= network_manager@.sent + Seq::<
                    PacketView,
                >::empty());
                Some(Shot { hit: i, retag: None })
            },
            Tag::Destructable => {
                let event = PlayerEvent::DestroyBlock { index: hit.node };
                let message = NetworkMessage::PlayerEvent { index: hit.node, event };
                network_manager.send_to_all_reliably(&message);
                events.push(event);
                assert(events@ =~= old(events)@ + seq![event]);
                Some(Shot { hit: i, retag: None })
            },
            Tag::Other => {
                assert(events@ =~= old(events)@ + Seq::<PlayerEvent>::empty());
                assert(network_manager@.sent =~= network_manager@.sent + Seq::<
                    PacketView,
                >::empty());
                Some(Shot { hit: i, retag: Some(Tag::Destructable) })
            },
        }
    }

    /// Whether there is fuel for one more tick of thrust.
    pub fn has_fuel(&self) -> (r: bool)
        ensures
            r == self@.has_fuel(),
    {
        self.flight_fuel >= THRUST_COST
    }

    /// Whether the weapon had cooled down when the scene was last looked at,
    /// and has not gone off since.
    pub fn can_shoot(&self) -> (r: bool)
        ensures
            r == self@.body.weapon_ready,
    {
        self.body.weapon_ready
    }

    /// How fast the body moved when the scene was last looked at.
    pub fn get_velocity(&self) -> (r: SerializableVector)
        ensures
            r == self@.body.velocity,
    {
        self.body.velocity
    }

    /// Where the body was when the scene was last looked at.
    pub fn get_position(&self) -> (r: SerializableVector)
        ensures
            r == self@.body.position,
    {
        self.body.position
    }

    /// How far the player had turned when the scene was last looked at.
    pub fn get_yaw(&self) -> (r: Scalar)
        ensures
            r == self@.body.yaw,
    {
        self.body.yaw
    }

    /// How far up or down the player looked when the scene was last looked at.
    pub fn get_pitch(&self) -> (r: Scalar)
        ensures
            r == self@.body.pitch,
    {
        self.body.pitch
    }

    /// Whether the body stood on something when the scene was last looked at.
    pub fn has_ground_contact(&self) -> (r: bool)
        ensures
            r == self@.body.on_ground,
    {
        self.body.on_ground
    }
}

impl PlayerView {
    /// The player once the shot that waited has been settled: no shot waits,
    /// and the weapon is not ready.
    pub open spec fn fired(self) -> PlayerView {
        if self.shot_pending {
            PlayerView {
                shot_pending: false,
                body: Observation { weapon_ready: false, ..self.body },
                ..self
            }
        } else {
            self
        }
    }

    /// Where the shot that waits to be settled ends; without one, nowhere.
    pub open spec fn shot(self, hits: Seq<Hit>, server: bool) -> Option<Shot> {
        if self.shot_pending {
            self.landed(hits, server)
        } else {
            None
        }
    }

    /// What the shot that waits to be settled adds to the events of the level;
    /// without one, nothing.
    pub open spec fn shot_events(self, hits: Seq<Hit>, server: bool) -> Seq<PlayerEvent> {
        if self.shot_pending {
            self.harm_events(hits, server)
        } else {
            Seq::empty()
        }
    }

    /// What the shot that waits to be settled sends out; without one, nothing.
    pub open spec fn shot_packets(
        self,
        hits: Seq<Hit>,
        net: crate::network_manager::ManagerView,
    ) -> Seq<PacketView> {
        if self.shot_pending {
            self.harm_packets(hits, net)
        } else {
            Seq::empty()
        }
    }

    /// The thing that stops a shot of this player, where the shot does harm:
    /// the authoritative side lets it, and the thing is a rigid body.
    pub open spec fn target(self, hits: Seq<Hit>, server: bool) -> Option<Hit> {
        match first_foreign(hits, self.collider) {
            Some(k) => if server && hits[k].rigid_body {
                Some(hits[k])
            } else {
                None
            },
            None => None,
        }
    }

    /// Where a shot of this player ends.
    pub open spec fn landed(self, hits: Seq<Hit>, server: bool) -> Option<Shot> {
        match first_foreign(hits, self.collider) {
            Some(k) => Some(
                Shot {
                    hit: k as usize,
                    retag: match self.target(hits, server) {
                        Some(hit) => retagged(hit.tag),
                        None => None,
                    },
                },
            ),
            None => None,
        }
    }

    /// What a shot of this player adds to the events of the level.
    pub open spec fn harm_events(self, hits: Seq<Hit>, server: bool) -> Seq<PlayerEvent> {
        match self.target(hits, server) {
            Some(hit) => match hit.tag {
                Tag::PlayerOneHp => seq![
                    PlayerEvent::KillPlayerFromIntersection { collider: hit.collider },
                ],
                Tag::Destructable => seq![PlayerEvent::DestroyBlock { index: hit.node }],
                _ => Seq::empty(),
            },
            None => Seq::empty(),
        }
    }

    /// What a shot of this player sends out.
    pub open spec fn harm_packets(
        self,
        hits: Seq<Hit>,
        net: crate::network_manager::ManagerView,
    ) -> Seq<PacketView> {
        match self.target(hits, net.server) {
            Some(hit) => match hit.tag {
                Tag::Destructable => broadcast(
                    net.connections,
                    None,
                    player_message(hit.node, PlayerEvent::DestroyBlock { index: hit.node }),
                    true,
                    1,
                ),
                _ => Seq::empty(),
            },
            None => Seq::empty(),
        }
    }
}

} // verus!
