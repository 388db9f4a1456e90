use vstd::prelude::*;
use crate::effect::Effect;
use crate::network_manager::{ManagerView, NetworkManager};
use crate::player::{Observation, Player, PlayerState, PlayerView};
use crate::player_event::{ColliderHandle, PlayerEvent};

verus! {

/// What has changed in a level since it was loaded: the blocks that are gone,
/// each named by its index in the scene, in the order in which they went.
#[derive(Debug, PartialEq, Eq)]
pub struct LevelState {
    pub destroyed_blocks: Vec<u32>,
}

impl View for LevelState {
    type V = Seq<u32>;

    open spec fn view(&self) -> Seq<u32> {
        self.destroyed_blocks@
    }
}

impl Clone for LevelState {
    fn clone(&self) -> (r: Self)
        ensures
            r@ == self@,
    {
        LevelState { destroyed_blocks: self.destroyed_blocks.clone() }
    }
}

impl LevelState {
    /// The state of a level in which nothing has been destroyed.
    pub fn new() -> (r: LevelState)
        ensures
            r@ == Seq::<u32>::empty(),
    {
        LevelState { destroyed_blocks: Vec::new() }
    }
}

/// The place of the first of `players` that has this index.
pub open spec fn position_of(players: Seq<PlayerView>, index: u32) -> Option<int>
    decreases players.len(),
{
    if players.len() == 0 {
        None
    } else {
        match position_of(players.drop_last(), index) {
            Some(k) => Some(k),
            None => if players.last().index == index {
                Some(players.len() - 1)
            } else {
                None
            },
        }
    }
}

/// The place of the first of `players` that has this collider.
pub open spec fn position_of_collider(players: Seq<PlayerView>, collider: ColliderHandle) -> Option<
    int,
>
    decreases players.len(),
{
    if players.len() == 0 {
        None
    } else {
        match position_of_collider(players.drop_last(), collider) {
            Some(k) => Some(k),
            None => if players.last().collider == collider {
                Some(players.len() - 1)
            } else {
                None
            },
        }
    }
}

/// `players` without those that have this index, the others in their order.
pub open spec fn without_player(players: Seq<PlayerView>, index: u32) -> Seq<PlayerView>
    decreases players.len(),
{
    if players.len() == 0 {
        players
    } else {
        let rest = without_player(players.drop_last(), index);
        if players.last().index == index {
            rest
        } else {
            rest.push(players.last())
        }
    }
}

/// No two players have the same index.
pub open spec fn distinct_players(players: Seq<PlayerView>) -> bool {
    forall|i: int, j: int| 0 <= i < j < players.len() ==> players[i].index != players[j].index
}

/// For each of `players` in turn, what takes its body out of the scene.
pub open spec fn removals(players: Seq<PlayerView>) -> Seq<Effect> {
    Seq::new(players.len(), |i: int| Effect::RemovePlayer { index: players[i].index })
}

/// For each of `players` in turn, what stops the user from looking through
/// its eyes.
pub open spec fn cameras_off(players: Seq<PlayerView>) -> Seq<Effect> {
    Seq::new(players.len(), |i: int| Effect::SetCamera { index: players[i].index, enabled: false })
}

/// `blocks` without `index`.
pub open spec fn without_block(blocks: Seq<u32>, index: u32) -> Seq<u32>
    decreases blocks.len(),
{
    if blocks.len() == 0 {
        blocks
    } else {
        let rest = without_block(blocks.drop_last(), index);
        if blocks.last() == index {
            rest
        } else {
            rest.push(blocks.last())
        }
    }
}

/// The blocks that stand once each of `targets` has been destroyed in turn,
/// where `standing` stood before.
pub open spec fn standing_after(standing: Seq<u32>, targets: Seq<u32>) -> Seq<u32>
    decreases targets.len(),
{
    if targets.len() == 0 {
        standing
    } else {
        without_block(standing_after(standing, targets.drop_last()), targets.last())
    }
}

/// Those of `targets` that fall when each is destroyed in turn, in the order
/// in which they fall: a target falls where it stands when its turn comes. What
/// names no block, and what has fallen already, does not fall.
pub open spec fn felled(standing: Seq<u32>, targets: Seq<u32>) -> Seq<u32>
    decreases targets.len(),
{
    if targets.len() == 0 {
        Seq::empty()
    } else {
        let before = standing_after(standing, targets.drop_last());
        let fallen = felled(standing, targets.drop_last());
        if before.contains(targets.last()) {
            fallen.push(targets.last())
        } else {
            fallen
        }
    }
}

/// What takes out of the scene each of `targets` in turn that falls.
pub open spec fn demolitions(standing: Seq<u32>, targets: Seq<u32>) -> Seq<Effect>
    decreases targets.len(),
{
    if targets.len() == 0 {
        Seq::empty()
    } else {
        let before = standing_after(standing, targets.drop_last());
        let effects = demolitions(standing, targets.drop_last());
        if before.contains(targets.last()) {
            effects.push(Effect::RemoveNode { index: targets.last() })
        } else {
            effects
        }
    }
}

/// What is left when a block is taken out does not hold that block, held all
/// of it before, and is all there was where the block was not there.
pub proof fn lemma_without_block(blocks: Seq<u32>, index: u32)
    ensures
        !without_block(blocks, index).contains(index),
        forall|i: int|
            0 <= i < without_block(blocks, index).len() ==> blocks.contains(
                #[trigger] without_block(blocks, index)[i],
            ),
        forall|i: int|
            0 <= i < blocks.len() && blocks[i] != index ==> without_block(blocks, index).contains(
                #[trigger] blocks[i],
            ),
        !blocks.contains(index) ==> without_block(blocks, index) == blocks,
    decreases blocks.len(),
{
    let out = without_block(blocks, index);
    if blocks.len() > 0 {
        let front = blocks.drop_last();
        let rest = without_block(front, index);
        lemma_without_block(front, index);
        assert forall|i: int| 0 <= i < out.len() implies blocks.contains(#[trigger] out[i])
            && out[i] != index by {
            if i < rest.len() {
                assert(out[i] == rest[i]);
                assert(rest.contains(rest[i]));
                let k = choose|k: int| 0 <= k < front.len() && front[k] == rest[i];
                assert(blocks[k] == out[i]);
            } else {
                assert(blocks[blocks.len() - 1] == out[i]);
            }
        }
        assert forall|i: int| 0 <= i < blocks.len() && blocks[i] != index implies out.contains(
            #[trigger] blocks[i],
        ) by {
            if i < blocks.len() - 1 {
                assert(front[i] == blocks[i]);
                let k = choose|k: int| 0 <= k < rest.len() && rest[k] == front[i];
                assert(out[k] == blocks[i]);
            } else {
                assert(out[out.len() - 1] == blocks[i]);
            }
        }
        if !blocks.contains(index) {
            assert(blocks[blocks.len() - 1] != index);
            assert forall|i: int| 0 <= i < front.len() implies front[i] != index by {
                assert(blocks[i] == front[i]);
            }
            assert(out =~= blocks);
        }
    }
}

/// What is found is there, has what was looked for, and is the first to have
/// it; what was found in a shorter list is found in a longer one.
pub proof fn lemma_position_of(players: Seq<PlayerView>, index: u32, n: int)
    requires
        0 <= n <= players.len(),
    ensures
        position_of(players.take(n), index) is Some ==> position_of(players, index)
            == position_of(players.take(n), index),
        match position_of(players, index) {
            Some(k) => 0 <= k < players.len() && players[k].index == index && forall|j: int|
                0 <= j < k ==> players[j].index != index,
            None => forall|j: int| 0 <= j < players.len() ==> players[j].index != index,
        },
    decreases players.len(),
{
    if players.len() > 0 {
        let front = players.drop_last();
        if n < players.len() {
            assert(front.take(n) =~= players.take(n));
            lemma_position_of(front, index, n);
        } else {
            assert(players.take(n) =~= players);
            lemma_position_of(front, index, n - 1);
        }
        assert(forall|j: int| 0 <= j < front.len() ==> front[j] == players[j]);
    } else {
        assert(players.take(n) =~= players);
    }
}

/// The same of colliders.
pub proof fn lemma_position_of_collider(players: Seq<PlayerView>, collider: ColliderHandle, n: int)
    requires
        0 <= n <= players.len(),
    ensures
        position_of_collider(players.take(n), collider) is Some ==> position_of_collider(
            players,
            collider,
        ) == position_of_collider(players.take(n), collider),
        match position_of_collider(players, collider) {
            Some(k) => 0 <= k < players.len() && players[k].collider == collider,
            None => forall|j: int| 0 <= j < players.len() ==> players[j].collider != collider,
        },
    decreases players.len(),
{
    if players.len() > 0 {
        let front = players.drop_last();
        if n < players.len() {
            assert(front.take(n) =~= players.take(n));
            lemma_position_of_collider(front, collider, n);
        } else {
            assert(players.take(n) =~= players);
            lemma_position_of_collider(front, collider, n - 1);
        }
        assert(forall|j: int| 0 <= j < front.len() ==> front[j] == players[j]);
    } else {
        assert(players.take(n) =~= players);
    }
}

/// Who is left when a player is taken out was there before, in the same order,
/// and does not have the index of the one taken out.
pub proof fn lemma_without_player(players: Seq<PlayerView>, index: u32)
    ensures
        without_player(players, index).len() <= players.len(),
        forall|i: int|
            0 <= i < without_player(players, index).len() ==> (#[trigger] without_player(
                players,
                index,
            )[i]).index != index && players.contains(without_player(players, index)[i]),
        distinct_players(players) ==> distinct_players(without_player(players, index)),
        position_of(without_player(players, index), index) is None,
        position_of(players, index) is None ==> without_player(players, index) == players,
    decreases players.len(),
{
    let out = without_player(players, index);
    if players.len() > 0 {
        let front = players.drop_last();
        let rest = without_player(front, index);
        lemma_without_player(front, index);
        assert forall|i: int| 0 <= i < out.len() implies (#[trigger] out[i]).index != index
            && players.contains(out[i]) by {
            if i < rest.len() {
                assert(out[i] == rest[i]);
                let k = choose|k: int| 0 <= k < front.len() && front[k] == rest[i];
                assert(players[k] == out[i]);
            } else {
                assert(players[players.len() - 1] == out[i]);
            }
        }
        if distinct_players(players) {
            assert(distinct_players(front)) by {
                assert forall|i: int, j: int| 0 <= i < j < front.len() implies front[i].index
                    != front[j].index by {
                    assert(front[i] == players[i] && front[j] == players[j]);
                }
            }
            if players.last().index != index {
                assert forall|i: int, j: int| 0 <= i < j < out.len() implies out[i].index
                    != out[j].index by {
                    if j < rest.len() {
                        assert(out[i] == rest[i] && out[j] == rest[j]);
                    } else {
                        assert(out[i] == rest[i]);
                        let k = choose|k: int| 0 <= k < front.len() && front[k] == rest[i];
                        assert(players[k] == out[i]);
                        assert(out[j] == players[players.len() - 1]);
                    }
                }
            }
        }
        if players.last().index != index {
            assert(out.drop_last() =~= rest);
        }
        if position_of(players, index) is None {
            assert(rest == front);
            assert(out =~= players);
        }
    }
}

/// One level and those who play in it.
#[derive(Debug, PartialEq, Eq)]
pub struct Level {
    pub name: String,
    /// The players, in the order in which they entered.
    pub players: Vec<Player>,
    /// What has happened and has not been applied yet, oldest first.
    pub events: Vec<PlayerEvent>,
    /// The blocks that stand, each named by its index in the scene.
    pub blocks: Vec<u32>,
    /// The blocks that have fallen, as the authoritative side keeps count.
    pub state: LevelState,
}

/// A [`Level`] as a mathematical value.
pub struct LevelView {
    pub name: Seq<char>,
    pub players: Seq<PlayerView>,
    pub events: Seq<PlayerEvent>,
    pub blocks: Seq<u32>,
    pub state: Seq<u32>,
}

impl View for Level {
    type V = LevelView;

    open spec fn view(&self) -> LevelView {
        LevelView {
            name: self.name@,
            players: self.players@.map_values(|p: Player| p@),
            events: self.events@,
            blocks: self.blocks@,
            state: self.state@,
        }
    }
}

impl LevelView {
    /// No two players have the same index, and every controller is well
    /// formed.
    pub open spec fn wf(self) -> bool {
        &&& distinct_players(self.players)
        &&& forall|i: int| 0 <= i < self.players.len() ==> (#[trigger] self.players[i]).controller.wf()
    }

    /// A level of this name as it is when it has just been loaded, with these
    /// blocks standing.
    pub open spec fn fresh(name: Seq<char>, blocks: Seq<u32>) -> LevelView {
        LevelView {
            name,
            players: Seq::empty(),
            events: Seq::empty(),
            blocks,
            state: Seq::empty(),
        }
    }

    /// The same, with `event` added to what has not been applied yet.
    pub open spec fn queued(self, event: PlayerEvent) -> LevelView {
        LevelView { events: self.events.push(event), ..self }
    }

    /// The same after the scene has said `observation` of the body of the
    /// player of this index.
    pub open spec fn observed(self, index: u32, observation: Observation) -> LevelView {
        match position_of(self.players, index) {
            Some(k) => LevelView {
                players: self.players.update(
                    k,
                    PlayerView { body: observation, ..self.players[k] },
                ),
                ..self
            },
            None => self,
        }
    }

    /// The same after the scene has given the body of the player of this index
    /// the collider `collider`.
    pub open spec fn attached(self, index: u32, collider: ColliderHandle) -> LevelView {
        match position_of(self.players, index) {
            Some(k) => LevelView {
                players: self.players.update(k, PlayerView { collider, ..self.players[k] }),
                ..self
            },
            None => self,
        }
    }

    /// The same without the players of this index.
    pub open spec fn removed(self, index: u32) -> LevelView {
        LevelView { players: without_player(self.players, index), ..self }
    }

    /// What taking out the players of this index asks of the scene.
    pub open spec fn removal(self, index: u32) -> Seq<Effect> {
        if position_of(self.players, index) is Some {
            seq![Effect::RemovePlayer { index }]
        } else {
            Seq::empty()
        }
    }

    /// The same with every player gone.
    pub open spec fn emptied(self) -> LevelView {
        LevelView { players: Seq::empty(), ..self }
    }

    /// What giving up the level asks of the scene.
    pub open spec fn teardown(self) -> Seq<Effect> {
        removals(self.players).push(Effect::RemoveScene)
    }

    /// The same after each of `targets` has been destroyed in turn. What
    /// falls stands no more; the authoritative side adds it to its count of
    /// what has fallen. A target that names no standing block changes nothing.
    pub open spec fn destroyed(self, targets: Seq<u32>, server: bool) -> LevelView {
        LevelView {
            blocks: standing_after(self.blocks, targets),
            state: if server {
                self.state + felled(self.blocks, targets)
            } else {
                self.state
            },
            ..self
        }
    }

    /// Whether a player of this index can enter.
    pub open spec fn admits(self, index: u32) -> bool {
        position_of(self.players, index) is None
    }

    /// The same after a player of this index has asked to enter in `state`. A
    /// second player of one index is not let in.
    pub open spec fn entered(self, index: u32, state: PlayerState, current_player: bool) -> LevelView {
        if self.admits(index) {
            LevelView {
                players: self.players.push(PlayerView::spawned(state, current_player, index)),
                ..self
            }
        } else {
            self
        }
    }

    /// What the entry of a player asks of the scene: where it is the player of
    /// the user, to stop looking through the eyes of anyone else; and to give
    /// the player a body.
    pub open spec fn entry(self, index: u32, state: PlayerState, current_player: bool) -> Seq<
        Effect,
    > {
        if self.admits(index) {
            (if current_player {
                cameras_off(self.players)
            } else {
                Seq::empty()
            }).push(Effect::SpawnPlayer { index, state, current_player })
        } else {
            Seq::empty()
        }
    }
}

impl Level {
    /// No two players have the same index, and every controller is well
    /// formed.
    pub open spec fn wf(&self) -> bool {
        self@.wf()
    }

    /// A level of this name, just loaded, in which the blocks of these
    /// indices stand: nobody plays in it and nothing in it has fallen.
    pub fn new(scene_name: &str, blocks: Vec<u32>) -> (r: Level)
        ensures
            r@ == LevelView::fresh(scene_name@, blocks@),
            r.wf(),
    {
        let level = Level {
            name: scene_name.to_owned(),
            players: Vec::new(),
            events: Vec::new(),
            blocks,
            state: LevelState::new(),
        };
        assert(level@.players =~= Seq::<PlayerView>::empty());
        level
    }

    /// Where among the players the one of this index is.
    pub fn find(&self, index: u32) -> (r: Option<usize>)
        ensures
            r is Some <==> position_of(self@.players, index) is Some,
            r is Some ==> r->0 == position_of(self@.players, index)->0 && r->0
                < self.players.len() && self.players[r->0 as int].index == index,
    {
        let ghost views = self@.players;
        let mut i: usize = 0;
        while i < self.players.len()
            invariant
                i <= self.players.len(),
                views == self@.players,
                position_of(views.take(i as int), index) is None,
            decreases self.players.len() - i,
        {
            assert(views.take(i + 1).drop_last() =~= views.take(i as int));
            if self.players[i].index == index {
                proof {
                    lemma_position_of(views, index, i + 1);
                }
                return Some(i);
            }
            i += 1;
        }
        assert(views.take(i as int) =~= views);
        None
    }

    /// Where among the players the one with this collider is.
    pub fn find_collider(&self, collider: ColliderHandle) -> (r: Option<usize>)
        ensures
            r is Some <==> position_of_collider(self@.players, collider) is Some,
            r is Some ==> r->0 == position_of_collider(self@.players, collider)->0 && r->0
                < self.players.len() && self.players[r->0 as int].collider == collider,
    {
        let ghost views = self@.players;
        let mut i: usize = 0;
        while i < self.players.len()
            invariant
                i <= self.players.len(),
                views == self@.players,
                position_of_collider(views.take(i as int), collider) is None,
            decreases self.players.len() - i,
        {
            assert(views.take(i + 1).drop_last() =~= views.take(i as int));
            if self.players[i].collider == collider {
                proof {
                    lemma_position_of_collider(views, collider, i + 1);
                }
                return Some(i);
            }
            i += 1;
        }
        assert(views.take(i as int) =~= views);
        None
    }

    /// The first player of this index.
    pub fn get_player_by_index(&self, index: u32) -> (r: Option<&Player>)
        ensures
            match r {
                Some(p) => position_of(self@.players, index) is Some && p@
                    == self@.players[position_of(self@.players, index)->0],
                None => position_of(self@.players, index) is None,
            },
    {
        match self.find(index) {
            Some(k) => Some(&self.players[k]),
            None => None,
        }
    }

    /// The first player with this collider.
    pub fn get_player_by_collider(&self, collider: ColliderHandle) -> (r: Option<&Player>)
        ensures
            match r {
                Some(p) => position_of_collider(self@.players, collider) is Some && p@
                    == self@.players[position_of_collider(self@.players, collider)->0],
                None => position_of_collider(self@.players, collider) is None,
            },
    {
        match self.find_collider(collider) {
            Some(k) => Some(&self.players[k]),
            None => None,
        }
    }

    /// The players, in the order in which they entered.
    pub fn players(&self) -> (r: &Vec<Player>)
        ensures
            r == &self.players,
    {
        &self.players
    }

    /// Adds `event` to what is to be applied.
    pub fn queue_event(&mut self, event: PlayerEvent)
        ensures
            final(self)@ == old(self)@.queued(event),
            old(self).wf() ==> final(self).wf(),
    {
        self.events.push(event);
    }

    /// Takes note of what the scene says of the body of the player of this
    /// index. Says whether there is such a player.
    pub fn observe(&mut self, index: u32, observation: Observation) -> (r: bool)
        ensures
            final(self)@ == old(self)@.observed(index, observation),
            r == (position_of(old(self)@.players, index) is Some),
            old(self).wf() ==> final(self).wf(),
    {
        match self.find(index) {
            Some(k) => {
                proof {
                    if old(self).wf() {
                        lemma_replaced_wf(
                            old(self)@,
                            k as int,
                            PlayerView { body: observation, ..old(self)@.players[k as int] },
                        );
                    }
                }
                self.players[k].body = observation;
                assert(self@.players =~= old(self)@.players.update(
                    k as int,
                    PlayerView { body: observation, ..old(self)@.players[k as int] },
                ));
                true
            },
            None => false,
        }
    }

    /// Takes note of the collider that the scene has given the body of the
    /// player of this index. Says whether there is such a player.
    pub fn attach_collider(&mut self, index: u32, collider: ColliderHandle) -> (r: bool)
        ensures
            final(self)@ == old(self)@.attached(index, collider),
            r == (position_of(old(self)@.players, index) is Some),
            old(self).wf() ==> final(self).wf(),
    {
        match self.find(index) {
            Some(k) => {
                proof {
                    if old(self).wf() {
                        lemma_replaced_wf(
                            old(self)@,
                            k as int,
                            PlayerView { collider, ..old(self)@.players[k as int] },
                        );
                    }
                }
                self.players[k].collider = collider;
                assert(self@.players =~= old(self)@.players.update(
                    k as int,
                    PlayerView { collider, ..old(self)@.players[k as int] },
                ));
                true
            },
            None => false,
        }
    }

    /// Takes the players of this index out of the level, and the body of the
    /// first of them out of the scene.
    pub fn remove_player(&mut self, engine: &mut Vec<Effect>, index: u32)
        ensures
            final(self)@ == old(self)@.removed(index),
            final(engine)@ == old(engine)@ + old(self)@.removal(index),
            old(self).wf() ==> final(self).wf(),
    {
        proof {
            if old(self).wf() {
                lemma_removed_wf(old(self)@, index);
            }
        }
        if self.find(index).is_some() {
            engine.push(Effect::RemovePlayer { index });
            assert(engine@ =~= old(engine)@ + seq![Effect::RemovePlayer { index }]);
        } else {
            assert(engine@ =~= old(engine)@ + Seq::<Effect>::empty());
        }
        let ghost orig = self@.players;
        let ghost mut j: int = 0;
        let mut i: usize = 0;
        assert(self@.players =~= without_player(orig.take(0), index) + orig.skip(0));
        while i < self.players.len()
            invariant
                0 <= j <= orig.len(),
                i == without_player(orig.take(j), index).len(),
                self@.players == without_player(orig.take(j), index) + orig.skip(j),
                self@ == (LevelView { players: self@.players, ..old(self)@ }),
            decreases orig.len() - j,
        {
            proof {
                lemma_without_player(orig.take(j), index);
                assert(self@.players.len() == i + orig.len() - j);
                assert(orig.take(j + 1).drop_last() =~= orig.take(j));
                assert(self@.players[i as int] == orig.skip(j)[0]);
            }
            let ghost before = self@.players;
            if self.players[i].index == index {
                self.players.remove(i);
                assert(self@.players =~= before.remove(i as int));
                assert(self@.players =~= without_player(orig.take(j + 1), index) + orig.skip(
                    j + 1,
                ));
            } else {
                i += 1;
                assert(self@.players =~= without_player(orig.take(j + 1), index) + orig.skip(
                    j + 1,
                ));
            }
            proof {
                j = j + 1;
            }
        }
        proof {
            lemma_without_player(orig.take(j), index);
            assert(j == orig.len());
            assert(orig.take(j) =~= orig);
            assert(self@.players =~= without_player(orig, index));
        }
    }

    /// Gives the level up: every player leaves it, and the scene is asked to
    /// take out their bodies and then itself.
    pub fn clean_up(&mut self, engine: &mut Vec<Effect>)
        ensures
            final(self)@ == old(self)@.emptied(),
            final(engine)@ == old(engine)@ + old(self)@.teardown(),
            final(self).wf(),
    {
        let ghost views = self@.players;
        let mut i: usize = 0;
        assert(engine@ =~= old(engine)@ + removals(views).take(0));
        while i < self.players.len()
            invariant
                i <= self.players.len(),
                views == self@.players,
                self@ == old(self)@,
                engine@ == old(engine)@ + removals(views).take(i as int),
            decreases self.players.len() - i,
        {
            engine.push(Effect::RemovePlayer { index: self.players[i].index });
            assert(engine@ =~= old(engine)@ + removals(views).take(i + 1));
            i += 1;
        }
        self.players.clear();
        engine.push(Effect::RemoveScene);
        assert(removals(views).take(i as int) =~= removals(views));
        assert(engine@ =~= old(engine)@ + old(self)@.teardown());
        assert(self@.players =~= Seq::<PlayerView>::empty());
    }

    /// Destroys the block of this index, where it stands: it is taken out of
    /// the scene, and the authoritative side, which `server` tells, adds it to
    /// its count of what has fallen. An index that names no standing block
    /// changes nothing.
    pub fn destroy_block(&mut self, engine: &mut Vec<Effect>, index: u32, server: bool)
        ensures
            final(self)@ == old(self)@.destroyed(seq![index], server),
            final(engine)@ == old(engine)@ + demolitions(old(self)@.blocks, seq![index]),
            old(self).wf() ==> final(self).wf(),
    {
        let ghost standing = self@.blocks;
        proof {
            lemma_destroy_one(standing, index);
            lemma_without_block(standing, index);
        }
        let mut kept: Vec<u32> = Vec::new();
        let mut found = false;
        let mut i: usize = 0;
        while i < self.blocks.len()
            invariant
                i <= self.blocks.len(),
                self@ == old(self)@,
                standing == self.blocks@,
                kept@ == without_block(standing.take(i as int), index),
                found <==> standing.take(i as int).contains(index),
            decreases self.blocks.len() - i,
        {
            proof {
                let before = standing.take(i as int);
                let after = standing.take(i + 1);
                assert(after.drop_last() =~= before);
                assert(after.last() == standing[i as int]);
                if before.contains(index) {
                    let k = choose|k: int| 0 <= k < before.len() && before[k] == index;
                    assert(after[k] == index);
                }
                if after.contains(index) && standing[i as int] != index {
                    let k = choose|k: int| 0 <= k < after.len() && after[k] == index;
                    assert(before[k] == index);
                }
                if standing[i as int] == index {
                    assert(after[i as int] == index);
                }
            }
            if self.blocks[i] == index {
                found = true;
            } else {
                kept.push(self.blocks[i]);
            }
            i += 1;
        }
        assert(standing.take(i as int) =~= standing);
        if found {
            self.blocks = kept;
            engine.push(Effect::RemoveNode { index });
            assert(engine@ =~= old(engine)@ + seq![Effect::RemoveNode { index }]);
            if server {
                self.state.destroyed_blocks.push(index);
                assert(self@.state =~= old(self)@.state + seq![index]);
            }
        } else {
            assert(engine@ =~= old(engine)@ + Seq::<Effect>::empty());
            assert(self@.state =~= old(self)@.state + Seq::<u32>::empty());
        }
    }

    /// Brings the level into `state`: destroys each block that has fallen
    /// there.
    pub fn apply_state(&mut self, engine: &mut Vec<Effect>, state: &LevelState, server: bool)
        ensures
            final(self)@ == old(self)@.destroyed(state@, server),
            final(engine)@ == old(engine)@ + demolitions(old(self)@.blocks, state@),
            old(self).wf() ==> final(self).wf(),
    {
        let ghost standing = self@.blocks;
        let mut i: usize = 0;
        assert(engine@ =~= old(engine)@ + demolitions(standing, state@.take(0)));
        assert(self@.state =~= old(self)@.state + felled(standing, state@.take(0)));
        while i < state.destroyed_blocks.len()
            invariant
                i <= state.destroyed_blocks.len(),
                standing == old(self)@.blocks,
                self@ == old(self)@.destroyed(state@.take(i as int), server),
                engine@ == old(engine)@ + demolitions(standing, state@.take(i as int)),
                old(self).wf() ==> self.wf(),
            decreases state.destroyed_blocks.len() - i,
        {
            let block = state.destroyed_blocks[i];
            let ghost before = self@;
            proof {
                assert(state@.take(i + 1).drop_last() =~= state@.take(i as int));
                assert(state@.take(i + 1).last() == block);
                lemma_destroy_one(self@.blocks, block);
            }
            self.destroy_block(engine, block, server);
            assert(self@.state =~= old(self)@.destroyed(state@.take(i + 1), server).state);
            assert(engine@ =~= old(engine)@ + demolitions(standing, state@.take(i + 1)));
            i += 1;
        }
        assert(state@.take(i as int) =~= state@);
    }

    /// Lets a player of this index into the level in `state`, unless one is
    /// there already. Where it is the player of the user, its index is noted
    /// and the user stops looking through the eyes of anyone else.
    pub fn spawn_player(
        &mut self,
        engine: &mut Vec<Effect>,
        index: u32,
        state: PlayerState,
        current_player: bool,
        network_manager: &mut NetworkManager,
    )
        ensures
            final(self)@ == old(self)@.entered(index, state, current_player),
            final(engine)@ == old(engine)@ + old(self)@.entry(index, state, current_player),
            final(network_manager)@ == if old(self)@.admits(index) && current_player {
                ManagerView { player_index: Some(index), ..old(network_manager)@ }
            } else {
                old(network_manager)@
            },
            old(self).wf() ==> final(self).wf(),
    {
        if self.find(index).is_some() {
            assert(engine@ =~= old(engine)@ + Seq::<Effect>::empty());
            return ;
        }
        let ghost views = self@.players;
        if current_player {
            network_manager.player_index = Some(index);
            let mut i: usize = 0;
            assert(engine@ =~= old(engine)@ + cameras_off(views).take(0));
            while i < self.players.len()
                invariant
                    i <= self.players.len(),
                    views == self@.players,
                    self@ == old(self)@,
                    engine@ == old(engine)@ + cameras_off(views).take(i as int),
                decreases self.players.len() - i,
            {
                engine.push(Effect::SetCamera { index: self.players[i].index, enabled: false });
                assert(engine@ =~= old(engine)@ + cameras_off(views).take(i + 1));
                i += 1;
            }
            assert(cameras_off(views).take(i as int) =~= cameras_off(views));
        }
        engine.push(Effect::SpawnPlayer { index, state, current_player });
        assert(engine@ =~= old(engine)@ + old(self)@.entry(index, state, current_player));
        let player = Player::new(state, current_player, index);
        self.players.push(player);
        assert(self@.players =~= views.push(PlayerView::spawned(state, current_player, index)));
        proof {
            if old(self).wf() {
                lemma_entered_wf(old(self)@, index, state, current_player);
            }
        }
    }
}

/// Destroying one block fells it where it stands, and changes nothing where it
/// does not.
pub proof fn lemma_destroy_one(standing: Seq<u32>, index: u32)
    ensures
        standing_after(standing, seq![index]) == without_block(standing, index),
        felled(standing, seq![index]) == if standing.contains(index) {
            seq![index]
        } else {
            Seq::<u32>::empty()
        },
        demolitions(standing, seq![index]) == if standing.contains(index) {
            seq![Effect::RemoveNode { index }]
        } else {
            Seq::<Effect>::empty()
        },
{
    assert(seq![index].drop_last() =~= Seq::<u32>::empty());
    assert(seq![index].last() == index);
    assert(standing_after(standing, Seq::<u32>::empty()) == standing);
    assert(felled(standing, Seq::<u32>::empty()) == Seq::<u32>::empty());
    assert(demolitions(standing, Seq::<u32>::empty()) == Seq::<Effect>::empty());
    assert(Seq::<Effect>::empty().push(Effect::RemoveNode { index }) =~= seq![
        Effect::RemoveNode { index },
    ]);
    assert(Seq::<u32>::empty().push(index) =~= seq![index]);
}

/// Destroying a block a second time changes nothing: it does not stand any
/// more, it is not counted twice, and the scene is not asked to take it out
/// again. The same holds of an index that names no block at all.
pub proof fn lemma_destroy_idempotent(level: LevelView, index: u32, server: bool)
    ensures
        level.destroyed(seq![index], server).destroyed(seq![index], server) == level.destroyed(
            seq![index],
            server,
        ),
        demolitions(level.destroyed(seq![index], server).blocks, seq![index]) == Seq::<
            Effect,
        >::empty(),
        !level.destroyed(seq![index], server).blocks.contains(index),
        !level.blocks.contains(index) ==> level.destroyed(seq![index], server) == level
            && demolitions(level.blocks, seq![index]) == Seq::<Effect>::empty(),
{
    lemma_destroy_one(level.blocks, index);
    lemma_without_block(level.blocks, index);
    let once = level.destroyed(seq![index], server);
    lemma_destroy_one(once.blocks, index);
    lemma_without_block(once.blocks, index);
    assert(once.state + Seq::<u32>::empty() =~= once.state);
    assert(level.state + Seq::<u32>::empty() =~= level.state);
}

/// Putting another player in the place of one keeps a level well formed, as
/// long as the index stays and the controller is well formed.
pub proof fn lemma_replaced_wf(level: LevelView, k: int, p: PlayerView)
    requires
        level.wf(),
        0 <= k < level.players.len(),
        p.index == level.players[k].index,
        p.controller.wf(),
    ensures
        (LevelView { players: level.players.update(k, p), ..level }).wf(),
{
    let after = level.players.update(k, p);
    assert forall|i: int, j: int| 0 <= i < j < after.len() implies after[i].index
        != after[j].index by {
        assert(after[i].index == level.players[i].index);
        assert(after[j].index == level.players[j].index);
    }
    assert forall|i: int| 0 <= i < after.len() implies (#[trigger] after[i]).controller.wf() by {
        if i != k {
            assert(after[i] == level.players[i]);
        }
    }
}

/// Taking a player out keeps a level well formed.
pub proof fn lemma_removed_wf(level: LevelView, index: u32)
    requires
        level.wf(),
    ensures
        level.removed(index).wf(),
{
    lemma_without_player(level.players, index);
    let after = level.removed(index).players;
    assert forall|i: int| 0 <= i < after.len() implies (#[trigger] after[i]).controller.wf() by {
        let k = choose|k: int| 0 <= k < level.players.len() && level.players[k] == after[i];
        assert(level.players[k].controller.wf());
    }
}

/// Letting a player in keeps the level well formed.
pub proof fn lemma_entered_wf(level: LevelView, index: u32, state: PlayerState, current_player: bool)
    requires
        level.wf(),
    ensures
        level.entered(index, state, current_player).wf(),
{
    if level.admits(index) {
        lemma_position_of(level.players, index, 0);
        let after = level.entered(index, state, current_player).players;
        assert forall|i: int, j: int| 0 <= i < j < after.len() implies after[i].index
            != after[j].index by {
            assert(after[i] == level.players[i]);
            if j < level.players.len() {
                assert(after[j] == level.players[j]);
            }
        }
        assert forall|i: int| 0 <= i < after.len() implies (#[trigger] after[i]).controller.wf() by {
            if i < level.players.len() {
                assert(after[i] == level.players[i]);
            }
        }
    }
}

} // verus!
