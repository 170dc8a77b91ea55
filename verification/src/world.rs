//! The actors of the simulation and who attacks whom.

use vstd::prelude::*;
use crate::attack::{AttackRange, AttackSpeed, Target, TargetUnderBehavior, TargetedBy};
use crate::geometry::{EntityId, Position};
use crate::movement::{Destination, MovementOrder, MovementType, Speed};
use crate::npc::{Npc, Size};
use crate::player::PlayerAction;

verus! {

/// Whether an actor is the controlled one.
#[derive(Clone, Copy, Debug, PartialEq, Eq, Structural)]
pub enum ActorKind {
    Player,
    Npc,
}

/// Everything the simulation knows of one actor.
#[derive(Clone, Copy, Debug, PartialEq, Eq, Structural)]
pub struct Actor {
    pub kind: ActorKind,
    /// South-west tile of the footprint.
    pub position: Position,
    pub size: Size,
    pub speed: Speed,
    pub movement_type: MovementType,
    pub attack_range: AttackRange,
    pub attack_speed: Option<AttackSpeed>,
    /// What to do under the target. An attacker without it makes no range
    /// check.
    pub under_behavior: Option<TargetUnderBehavior>,
    /// The movement pass of the current tick. An actor without it takes part
    /// in neither pass.
    pub order: Option<MovementOrder>,
    pub destination: Option<Destination>,
    pub target: Option<Target>,
}

/// Why the world refused an operation or a tick could not be resolved.
#[derive(Clone, Copy, Debug, PartialEq, Eq, Structural)]
pub enum WorldError {
    /// There is no controlled actor.
    NoPlayer,
    /// There is more than one controlled actor.
    MultiplePlayers,
    /// The actor named as a target, or as the attacker, does not exist.
    MissingTarget,
    /// An actor was told to attack itself.
    SelfTarget,
    /// A destination lies off the grid.
    OutOfBounds,
}

/// The slots of a world, as a mathematical sequence. A despawned actor leaves
/// an empty slot behind, so identifiers are never reused for another slot.
pub type Actors = Seq<Option<Actor>>;

/// Whether slot `i` holds an actor.
pub open spec fn alive(actors: Actors, i: int) -> bool {
    0 <= i < actors.len() && actors[i].is_some()
}

/// Whether an actor's own data is sound: on the grid, at least one tile
/// wide, and headed, if anywhere, for a tile on the grid.
pub open spec fn actor_sound(a: Actor) -> bool {
    &&& a.position.in_bounds()
    &&& a.size.valid()
    &&& (a.destination.is_some() ==> a.destination.unwrap().0.in_bounds())
}

/// Whether every actor's own data is sound. This says nothing of targets: an
/// actor may name a target that does not exist, which a range check then
/// reports.
pub open spec fn actors_placed(actors: Actors) -> bool {
    forall|i: int|
        0 <= i < actors.len() && (#[trigger] actors[i]).is_some() ==> actor_sound(
            actors[i].unwrap(),
        )
}

/// Why the actor in slot `p` cannot act as the controlled actor, if it
/// cannot: it is not one, or it is not the only one.
pub open spec fn player_refusal(actors: Actors, p: int) -> Option<WorldError> {
    if !is_player(actors, p) {
        Some(WorldError::NoPlayer)
    } else if !sole_player(actors, p) {
        Some(WorldError::MultiplePlayers)
    } else {
        None
    }
}

/// Whether slot `i` is empty or holds a sound actor whose target, if it has
/// one, is another actor.
pub open spec fn slot_wf(actors: Actors, i: int) -> bool {
    actors[i].is_some() ==> {
        &&& actor_sound(actors[i].unwrap())
        &&& (actors[i].unwrap().target.is_some() ==> {
            &&& alive(actors, actors[i].unwrap().target.unwrap().0.0 as int)
            &&& actors[i].unwrap().target.unwrap().0.0 != i
        })
    }
}

/// Whether every actor is sound and every target is an actor other than the
/// attacker.
pub open spec fn actors_wf(actors: Actors) -> bool {
    forall|i: int| 0 <= i < actors.len() && (#[trigger] actors[i]).is_some() ==> slot_wf(actors, i)
}

/// Whether slot `i` holds an actor that attacks the actor in slot `t`.
pub open spec fn targets(actors: Actors, i: int, t: int) -> bool {
    &&& alive(actors, i)
    &&& actors[i].unwrap().target.is_some()
    &&& actors[i].unwrap().target.unwrap().0.0 == t
}

/// Whether slot `i` holds a controlled actor.
pub open spec fn is_player(actors: Actors, i: int) -> bool {
    alive(actors, i) && actors[i].unwrap().kind == ActorKind::Player
}

/// Whether slot `p` holds the one controlled actor there is.
pub open spec fn sole_player(actors: Actors, p: int) -> bool {
    is_player(actors, p) && forall|i: int| is_player(actors, i) ==> i == p
}

/// Slot by slot, `after` holds an actor exactly where `before` does.
pub open spec fn same_slots(before: Actors, after: Actors) -> bool {
    &&& after.len() == before.len()
    &&& forall|k: int|
        0 <= k < before.len() ==> (#[trigger] after[k]).is_some() == before[k].is_some()
}

/// Whether slot `k` of `after` holds a sound actor whose target, if it has
/// one, is another actor that exists in `before`.
pub open spec fn slot_sound_in(before: Actors, after: Actors, k: int) -> bool {
    &&& actor_sound(after[k].unwrap())
    &&& (after[k].unwrap().target.is_some() ==> {
        &&& alive(before, after[k].unwrap().target.unwrap().0.0 as int)
        &&& after[k].unwrap().target.unwrap().0.0 != k
    })
}

/// A change that keeps the slots, leaves every actor sound and gives no
/// actor a target that is missing or itself keeps the world sound.
pub proof fn lemma_change_keeps_wf(before: Actors, after: Actors)
    requires
        same_slots(before, after),
        forall|k: int|
            0 <= k < after.len() && (#[trigger] after[k]).is_some() ==> slot_sound_in(
                before,
                after,
                k,
            ),
    ensures
        actors_wf(after),
{
    assert forall|i: int| 0 <= i < after.len() && (#[trigger] after[i]).is_some() implies
        slot_wf(after, i) by {
        assert(slot_sound_in(before, after, i));
        if after[i].unwrap().target.is_some() {
            let t = after[i].unwrap().target.unwrap().0.0 as int;
            assert(alive(before, t));
            assert(after[t].is_some() == before[t].is_some());
        }
    }
}

/// Whether the controlled actors of `after` are those of `before`.
pub open spec fn same_players(before: Actors, after: Actors) -> bool {
    forall|k: int| #[trigger] is_player(after, k) <==> is_player(before, k)
}

/// A change that keeps the slots and every actor's kind keeps the controlled
/// actors.
pub proof fn lemma_same_kinds_same_players(before: Actors, after: Actors)
    requires
        same_slots(before, after),
        forall|k: int|
            0 <= k < after.len() && (#[trigger] after[k]).is_some() ==> after[k].unwrap().kind
                == before[k].unwrap().kind,
    ensures
        same_players(before, after),
{
    assert forall|k: int| #[trigger] is_player(after, k) <==> is_player(before, k) by {
        if 0 <= k < before.len() {
            assert(after[k].is_some() == before[k].is_some());
        }
    }
}

/// The one controlled actor stays the one where the controlled actors stay.
pub proof fn lemma_same_players_sole(before: Actors, after: Actors, p: int)
    requires
        same_players(before, after),
        sole_player(before, p),
    ensures
        sole_player(after, p),
{
    assert(is_player(after, p));
    assert forall|i: int| is_player(after, i) implies i == p by {
        assert(is_player(before, i));
    }
}

/// Keeping the controlled actors carries over two changes in a row.
pub proof fn lemma_same_players_chain(a: Actors, b: Actors, c: Actors)
    requires
        same_players(a, b),
        same_players(b, c),
    ensures
        same_players(a, c),
{
    assert forall|k: int| #[trigger] is_player(c, k) <==> is_player(a, k) by {
        assert(is_player(c, k) <==> is_player(b, k));
        assert(is_player(b, k) <==> is_player(a, k));
    }
}

/// The world after the actor in slot `id` has left it: its slot is empty and
/// whoever attacked it attacks nobody.
pub open spec fn despawned(actors: Actors, id: int) -> Actors {
    Seq::new(
        actors.len(),
        |k: int|
            if k == id || actors[k].is_none() {
                None
            } else if targets(actors, k, id) {
                Some(Actor { target: None, ..actors[k].unwrap() })
            } else {
                actors[k]
            },
    )
}

/// The world after the actor in slot `attacker` has taken the actor in slot
/// `target` as its target.
pub open spec fn with_target(actors: Actors, attacker: int, target: int) -> Actors {
    actors.update(
        attacker,
        Some(
            Actor { target: Some(Target(EntityId(target as usize))), ..actors[attacker].unwrap() },
        ),
    )
}

/// The world after the actor in slot `attacker` has let go of its target.
pub open spec fn without_target(actors: Actors, attacker: int) -> Actors {
    actors.update(attacker, Some(Actor { target: None, ..actors[attacker].unwrap() }))
}

/// Why the actor in slot `attacker` cannot take the one in slot `target` as
/// its target, if it cannot.
pub open spec fn target_refusal(actors: Actors, attacker: int, target: int) -> Option<WorldError> {
    if !alive(actors, attacker) {
        Some(WorldError::MissingTarget)
    } else if attacker == target {
        Some(WorldError::SelfTarget)
    } else if !alive(actors, target) {
        Some(WorldError::MissingTarget)
    } else {
        None
    }
}

/// Whether slot `i` holds a non-player actor whose footprint covers `tile`.
pub open spec fn covers_npc(actors: Actors, i: int, tile: Position) -> bool {
    &&& alive(actors, i)
    &&& actors[i].unwrap().kind == ActorKind::Npc
    &&& actors[i].unwrap().position.x <= tile.x <= actors[i].unwrap().position.x + (
    actors[i].unwrap().size.0 - 1)
    &&& actors[i].unwrap().position.y <= tile.y <= actors[i].unwrap().position.y + (
    actors[i].unwrap().size.0 - 1)
}

/// Whether `by` lists the actors that attack the actor in slot `t`: those
/// and no others, each once, in the order of their slots.
pub open spec fn lists_attackers(actors: Actors, t: int, by: Seq<EntityId>) -> bool {
    &&& forall|j: int| 0 <= j < by.len() ==> targets(actors, (#[trigger] by[j]).0 as int, t)
    &&& forall|k: int|
        targets(actors, k, t) ==> exists|j: int| 0 <= j < by.len() && (#[trigger] by[j]).0 == k
    &&& forall|i: int, j: int| 0 <= i < j < by.len() ==> by[i].0 < by[j].0
}

/// Whether `index` lists, for every slot, the attackers of the actor in it.
#[verifier::opaque]
pub open spec fn index_wf(actors: Actors, index: Seq<Seq<EntityId>>) -> bool {
    &&& index.len() == actors.len()
    &&& forall|t: int| 0 <= t < index.len() ==> lists_attackers(actors, t, #[trigger] index[t])
}

/// Whether every actor of `after` has the target it has in `before`.
pub open spec fn same_targets(before: Actors, after: Actors) -> bool {
    forall|k: int|
        0 <= k < after.len() && (#[trigger] after[k]).is_some() ==> after[k].unwrap().target
            == before[k].unwrap().target
}

/// A change that keeps the slots and every actor's target keeps the lists of
/// attackers right.
pub proof fn lemma_index_keeps(before: Actors, after: Actors, index: Seq<Seq<EntityId>>)
    requires
        index_wf(before, index),
        same_slots(before, after),
        same_targets(before, after),
    ensures
        index_wf(after, index),
{
    reveal(index_wf);
    assert forall|k: int, t: int| targets(after, k, t) == targets(before, k, t) by {
        if 0 <= k < before.len() {
            assert(after[k].is_some() == before[k].is_some());
        }
    }
    assert forall|t: int| 0 <= t < index.len() implies lists_attackers(
        after,
        t,
        #[trigger] index[t],
    ) by {
        let by = index[t];
        assert(lists_attackers(before, t, by));
        assert forall|j: int| 0 <= j < by.len() implies targets(
            after,
            (#[trigger] by[j]).0 as int,
            t,
        ) by {
            assert(targets(before, by[j].0 as int, t));
        }
        assert forall|k: int| targets(after, k, t) implies exists|j: int|
            0 <= j < by.len() && (#[trigger] by[j]).0 == k by {
            assert(targets(before, k, t));
        }
    }
}

/// A new actor that attacks nobody leaves every list of attackers as it is,
/// and has an empty one itself.
pub proof fn lemma_index_push(actors: Actors, index: Seq<Seq<EntityId>>, actor: Actor)
    requires
        actors_wf(actors),
        index_wf(actors, index),
        actor.target.is_none(),
    ensures
        index_wf(actors.push(Some(actor)), index.push(Seq::empty())),
{
    reveal(index_wf);
    let after = actors.push(Some(actor));
    let grown = index.push(Seq::<EntityId>::empty());
    assert forall|k: int, t: int| targets(after, k, t) == targets(actors, k, t) by {
        if 0 <= k < actors.len() {
            assert(after[k] == actors[k]);
        }
    }
    assert forall|t: int| 0 <= t < grown.len() implies lists_attackers(
        after,
        t,
        #[trigger] grown[t],
    ) by {
        let by = grown[t];
        if t < index.len() {
            assert(by == index[t]);
            assert(lists_attackers(actors, t, by));
            assert forall|j: int| 0 <= j < by.len() implies targets(
                after,
                (#[trigger] by[j]).0 as int,
                t,
            ) by {
                assert(targets(actors, by[j].0 as int, t));
            }
            assert forall|k: int| targets(after, k, t) implies exists|j: int|
                0 <= j < by.len() && (#[trigger] by[j]).0 == k by {
                assert(targets(actors, k, t));
            }
        } else {
            assert forall|k: int| !targets(after, k, t) by {
                if 0 <= k < actors.len() && actors[k].is_some() {
                    assert(after[k] == actors[k]);
                    if actors[k].unwrap().target.is_some() {
                        assert(alive(actors, actors[k].unwrap().target.unwrap().0.0 as int));
                    }
                }
            }
        }
    }
}

/// The actors of the simulation, each in the slot that its identifier names.
#[derive(Debug)]
pub struct World {
    pub actors: Vec<Option<Actor>>,
    /// Label of each slot that was spawned with one.
    pub labels: Vec<Option<Npc>>,
    /// For each slot, the actors that attack the actor in it. Every operation
    /// that changes a target brings this up to date before it returns.
    pub attackers: Vec<TargetedBy>,
}

impl World {
    /// The slots, as a mathematical sequence.
    pub open spec fn view(&self) -> Actors {
        self.actors@
    }

    /// The attackers of each slot, as mathematical sequences.
    pub open spec fn inverse(&self) -> Seq<Seq<EntityId>> {
        Seq::new(self.attackers@.len(), |t: int| self.attackers@[t]@)
    }

    /// Whether every actor's own data is sound: see `actors_placed`. This is
    /// all that a tick asks of a world; what else is amiss it reports.
    pub open spec fn placed(&self) -> bool {
        actors_placed(self@)
    }

    /// Whether the world is sound: see `actors_wf`. Every slot has a place
    /// for a label, and the attackers listed for each slot are those that
    /// attack it.
    pub open spec fn wf(&self) -> bool {
        &&& actors_wf(self@)
        &&& self.labels@.len() == self.actors@.len()
        &&& index_wf(self@, self.inverse())
    }

    /// A world without actors.
    pub fn new() -> (w: World)
        ensures
            w@.len() == 0,
            w.wf(),
    {
        proof {
            reveal(index_wf);
        }
        World { actors: Vec::new(), labels: Vec::new(), attackers: Vec::new() }
    }

    /// Number of slots, empty ones included.
    pub fn slots(&self) -> (n: usize)
        ensures
            n == self@.len(),
    {
        self.actors.len()
    }

    /// The actor with the given identifier, if it exists.
    pub fn get(&self, id: EntityId) -> (a: Option<Actor>)
        ensures
            alive(self@, id.0 as int) ==> a == self@[id.0 as int],
            !alive(self@, id.0 as int) ==> a.is_none(),
    {
        if id.0 < self.actors.len() {
            self.actors[id.0]
        } else {
            None
        }
    }

    /// Puts an actor that attacks nobody into a new slot and returns its
    /// identifier.
    pub fn spawn(&mut self, actor: Actor) -> (id: EntityId)
        requires
            old(self).wf(),
            actor_sound(actor),
            actor.target.is_none(),
        ensures
            final(self).wf(),
            id.0 == old(self)@.len(),
            final(self)@ == old(self)@.push(Some(actor)),
            final(self).labels@ == old(self).labels@.push(None),
    {
        let id = EntityId(self.actors.len());
        self.actors.push(Some(actor));
        self.labels.push(None);
        self.attackers.push(TargetedBy::new(Vec::new()));
        proof {
            lemma_index_push(old(self)@, old(self).inverse(), actor);
            assert(self.inverse() =~= old(self).inverse().push(Seq::empty()));
        }
        assert forall|i: int| 0 <= i < self@.len() && (#[trigger] self@[i]).is_some() implies
            slot_wf(self@, i) by {
            if i < old(self)@.len() {
                assert(self@[i] == old(self)@[i]);
                if self@[i].unwrap().target.is_some() {
                    let t = self@[i].unwrap().target.unwrap().0.0 as int;
                    assert(alive(old(self)@, t));
                    assert(self@[t] == old(self)@[t]);
                }
            }
        }
        id
    }

    /// Puts a labelled actor that attacks nobody into a new slot and returns
    /// its identifier.
    pub fn spawn_labelled(&mut self, actor: Actor, label: Npc) -> (id: EntityId)
        requires
            old(self).wf(),
            actor_sound(actor),
            actor.target.is_none(),
        ensures
            final(self).wf(),
            id.0 == old(self)@.len(),
            final(self)@ == old(self)@.push(Some(actor)),
            final(self).labels@ == old(self).labels@.push(Some(label)),
    {
        let id = self.spawn(actor);
        self.labels.set(id.0, Some(label));
        assert(self.labels@ =~= old(self).labels@.push(Some(label)));
        id
    }

    /// The label of an actor, if it exists and has one.
    pub fn label(&self, id: EntityId) -> (l: Option<&Npc>)
        requires
            self.wf(),
        ensures
            l.is_some() <==> alive(self@, id.0 as int) && self.labels@[id.0 as int].is_some(),
            l.is_some() ==> *l.unwrap() == self.labels@[id.0 as int].unwrap(),
    {
        if id.0 < self.actors.len() && self.actors[id.0].is_some() {
            self.labels[id.0].as_ref()
        } else {
            None
        }
    }

    /// Tests whether the world is sound.
    pub fn is_sound(&self) -> (b: bool)
        ensures
            b == self.wf(),
    {
        let len: usize = self.actors.len();
        if self.labels.len() != len {
            return false;
        }
        if self.attackers.len() != len {
            proof {
                reveal(index_wf);
            }
            return false;
        }
        let mut k: usize = 0;
        while k < len
            invariant
                k <= len,
                len == self@.len(),
                self.labels@.len() == len,
                self.attackers@.len() == len,
                forall|i: int| 0 <= i < k ==> slot_wf(self@, i),
            decreases len - k,
        {
            match self.actors[k] {
                Some(actor) => {
                    let placed: bool = actor.position.is_in_bounds() && actor.size.0 >= 1;
                    let headed: bool = match actor.destination {
                        Some(destination) => destination.0.is_in_bounds(),
                        None => true,
                    };
                    let aimed: bool = match actor.target {
                        Some(Target(t)) => t.0 < len && t.0 != k && self.actors[t.0].is_some(),
                        None => true,
                    };
                    if !(placed && headed && aimed) {
                        assert(!slot_wf(self@, k as int));
                        assert(self@[k as int].is_some());
                        return false;
                    }
                },
                None => {},
            }
            k = k + 1;
        }
        assert forall|i: int| 0 <= i < self@.len() && (#[trigger] self@[i]).is_some() implies
            slot_wf(self@, i) by {
            assert(slot_wf(self@, i));
        }
        let mut t: usize = 0;
        while t < len
            invariant
                t <= len,
                len == self@.len(),
                self.attackers@.len() == len,
                forall|u: int|
                    0 <= u < t ==> lists_attackers(self@, u, (#[trigger] self.attackers@[u])@),
            decreases len - t,
        {
            if !self.lists_attackers_of(t) {
                proof {
                    reveal(index_wf);
                    assert(self.inverse()[t as int] == self.attackers@[t as int]@);
                }
                return false;
            }
            t = t + 1;
        }
        proof {
            reveal(index_wf);
            assert forall|u: int| 0 <= u < self.inverse().len() implies lists_attackers(
                self@,
                u,
                #[trigger] self.inverse()[u],
            ) by {
                assert(lists_attackers(self@, u, self.attackers@[u]@));
            }
        }
        true
    }

    /// Tests whether the list kept for slot `t` is right.
    fn lists_attackers_of(&self, t: usize) -> (b: bool)
        requires
            t < self@.len(),
            self.attackers@.len() == self@.len(),
        ensures
            b == lists_attackers(self@, t as int, self.attackers@[t as int]@),
    {
        let len: usize = self.actors.len();
        let by = &self.attackers[t];
        let count: usize = by.len();
        let mut j: usize = 0;
        while j < count
            invariant
                j <= count,
                count == by@.len(),
                len == self@.len(),
                by@ == self.attackers@[t as int]@,
                forall|i: int|
                    0 <= i < j ==> targets(self@, (#[trigger] by@[i]).0 as int, t as int),
                forall|i: int, n: int| 0 <= i < n < j ==> by@[i].0 < by@[n].0,
            decreases count - j,
        {
            let id = by.get(j);
            let aimed: bool = id.0 < len && match self.actors[id.0] {
                Some(actor) => match actor.target {
                    Some(Target(at)) => at.0 == t,
                    None => false,
                },
                None => false,
            };
            if !aimed {
                assert(!targets(self@, by@[j as int].0 as int, t as int));
                return false;
            }
            if j > 0 {
                let last = by.get(j - 1);
                if !(last.0 < id.0) {
                    assert(!(by@[j - 1].0 < by@[j as int].0));
                    return false;
                }
            }
            j = j + 1;
        }
        let mut k: usize = 0;
        while k < len
            invariant
                k <= len,
                len == self@.len(),
                by@ == self.attackers@[t as int]@,
                lists_attackers(self@, t as int, by@) <==> (forall|i: int|
                    targets(self@, i, t as int) ==> exists|n: int|
                        0 <= n < by@.len() && (#[trigger] by@[n]).0 == i),
                forall|i: int|
                    0 <= i < k && targets(self@, i, t as int) ==> exists|n: int|
                        0 <= n < by@.len() && (#[trigger] by@[n]).0 == i,
            decreases len - k,
        {
            let aims: bool = match self.actors[k] {
                Some(actor) => match actor.target {
                    Some(Target(at)) => at.0 == t,
                    None => false,
                },
                None => false,
            };
            if aims && !by.contains(EntityId(k)) {
                assert(targets(self@, k as int, t as int));
                return false;
            }
            k = k + 1;
        }
        true
    }

    /// A copy of the slots.
    pub fn snapshot(&self) -> (copy: Vec<Option<Actor>>)
        ensures
            copy@ == self@,
    {
        let len: usize = self.actors.len();
        let mut copy: Vec<Option<Actor>> = Vec::new();
        let mut k: usize = 0;
        while k < len
            invariant
                k <= len,
                len == self@.len(),
                copy@.len() == k,
                forall|j: int| 0 <= j < k ==> #[trigger] copy@[j] == self@[j],
            decreases len - k,
        {
            copy.push(self.actors[k]);
            k = k + 1;
        }
        assert(copy@ =~= self@);
        copy
    }

    /// Tests whether every actor's own data is sound.
    pub fn is_placed(&self) -> (b: bool)
        ensures
            b == self.placed(),
    {
        let len: usize = self.actors.len();
        let mut k: usize = 0;
        while k < len
            invariant
                k <= len,
                len == self@.len(),
                forall|i: int|
                    0 <= i < k && (#[trigger] self@[i]).is_some() ==> actor_sound(
                        self@[i].unwrap(),
                    ),
            decreases len - k,
        {
            match self.actors[k] {
                Some(actor) => {
                    let placed: bool = actor.position.is_in_bounds() && actor.size.0 >= 1;
                    let headed: bool = match actor.destination {
                        Some(destination) => destination.0.is_in_bounds(),
                        None => true,
                    };
                    if !(placed && headed) {
                        assert(self@[k as int].is_some());
                        return false;
                    }
                },
                None => {},
            }
            k = k + 1;
        }
        true
    }

    /// Tests whether `player` can act as the controlled actor: it must be
    /// one, and the only one.
    pub fn check_player(&self, player: EntityId) -> (r: Result<(), WorldError>)
        ensures
            match player_refusal(self@, player.0 as int) {
                Some(e) => r == Err::<(), WorldError>(e),
                None => r.is_ok(),
            },
    {
        if !self.is_player_slot(player) {
            return Err(WorldError::NoPlayer);
        }
        match self.player_id() {
            Ok(id) => {
                assert(is_player(self@, player.0 as int));
                assert(id.0 == player.0);
                Ok(())
            },
            Err(_) => {
                assert(!sole_player(self@, player.0 as int)) by {
                    if sole_player(self@, player.0 as int) {
                        let (i, j) = choose|i: int, j: int|
                            i != j && is_player(self@, i) && is_player(self@, j);
                        assert(i == player.0 && j == player.0);
                    }
                }
                Err(WorldError::MultiplePlayers)
            },
        }
    }

    /// Tests whether `id` names a controlled actor.
    pub fn is_player_slot(&self, id: EntityId) -> (b: bool)
        ensures
            b == is_player(self@, id.0 as int),
    {
        if id.0 < self.actors.len() {
            match self.actors[id.0] {
                Some(actor) => match actor.kind {
                    ActorKind::Player => true,
                    ActorKind::Npc => false,
                },
                None => false,
            }
        } else {
            false
        }
    }

    /// Stores `actor` in the slot `id`, which holds an actor already.
    fn put(&mut self, id: usize, actor: Actor)
        requires
            alive(old(self)@, id as int),
        ensures
            final(self)@ == old(self)@.update(id as int, Some(actor)),
            final(self).labels == old(self).labels,
            final(self).attackers == old(self).attackers,
    {
        self.actors.set(id, Some(actor));
    }

    /// Makes `target` the target of `attacker`. Refused, with nothing
    /// changed, where either does not exist or both are the same actor.
    pub fn set_target(&mut self, attacker: EntityId, target: EntityId) -> (r: Result<
        (),
        WorldError,
    >)
        requires
            old(self).wf(),
        ensures
            final(self).wf(),
            final(self).labels == old(self).labels,
            match target_refusal(old(self)@, attacker.0 as int, target.0 as int) {
                Some(e) => r == Err::<(), WorldError>(e) && final(self)@ == old(self)@,
                None => r.is_ok() && final(self)@ == with_target(
                    old(self)@,
                    attacker.0 as int,
                    target.0 as int,
                ),
            },
    {
        let len: usize = self.actors.len();
        if attacker.0 >= len || self.actors[attacker.0].is_none() {
            return Err(WorldError::MissingTarget);
        }
        if attacker.0 == target.0 {
            return Err(WorldError::SelfTarget);
        }
        if target.0 >= len || self.actors[target.0].is_none() {
            return Err(WorldError::MissingTarget);
        }
        let mut actor: Actor = self.actors[attacker.0].unwrap();
        actor.target = Some(Target(target));
        self.put(attacker.0, actor);
        proof {
            lemma_change_keeps_wf(old(self)@, self@);
        }
        self.reindex();
        Ok(())
    }

    /// Takes away the target of `attacker`, if it exists and has one.
    pub fn clear_target(&mut self, attacker: EntityId)
        requires
            old(self).wf(),
        ensures
            final(self).wf(),
            final(self).labels == old(self).labels,
            alive(old(self)@, attacker.0 as int) ==> final(self)@ == without_target(
                old(self)@,
                attacker.0 as int,
            ),
            !alive(old(self)@, attacker.0 as int) ==> final(self)@ == old(self)@,
    {
        if attacker.0 < self.actors.len() && self.actors[attacker.0].is_some() {
            let mut actor: Actor = self.actors[attacker.0].unwrap();
            actor.target = None;
            self.put(attacker.0, actor);
            proof {
                lemma_change_keeps_wf(old(self)@, self@);
            }
            self.reindex();
        }
    }

    /// Removes an actor. Its slot stays, empty, and every actor that attacked
    /// it loses its target with it. Removing an actor that does not exist
    /// changes nothing.
    pub fn despawn(&mut self, id: EntityId)
        requires
            old(self).wf(),
        ensures
            final(self).wf(),
            final(self).labels == old(self).labels,
            final(self)@ == despawned(old(self)@, id.0 as int),
            !alive(old(self)@, id.0 as int) ==> final(self)@ == old(self)@,
    {
        let len: usize = self.actors.len();
        let mut next: Vec<Option<Actor>> = Vec::new();
        let mut k: usize = 0;
        while k < len
            invariant
                k <= len,
                len == self@.len(),
                self@ == old(self)@,
                next@.len() == k,
                forall|j: int|
                    0 <= j < k ==> #[trigger] next@[j] == despawned(self@, id.0 as int)[j],
            decreases len - k,
        {
            let slot: Option<Actor> = self.actors[k];
            let kept: Option<Actor> = match slot {
                None => None,
                Some(actor) => {
                    if k == id.0 {
                        None
                    } else {
                        match actor.target {
                            Some(Target(t)) => {
                                if t.0 == id.0 {
                                    let mut freed: Actor = actor;
                                    freed.target = None;
                                    Some(freed)
                                } else {
                                    Some(actor)
                                }
                            },
                            None => Some(actor),
                        }
                    }
                },
            };
            next.push(kept);
            k = k + 1;
        }
        self.actors = next;
        proof {
            assert(self@ =~= despawned(old(self)@, id.0 as int));
            let before = old(self)@;
            let after = self@;
            assert forall|i: int| 0 <= i < after.len() && (#[trigger] after[i]).is_some() implies
                slot_wf(after, i) by {
                assert(before[i].is_some());
                if after[i].unwrap().target.is_some() {
                    let t = after[i].unwrap().target.unwrap().0.0 as int;
                    assert(before[i].unwrap().target == after[i].unwrap().target);
                    assert(alive(before, t));
                    assert(t != id.0);
                    assert(after[t].is_some());
                }
            }
            if !alive(before, id.0 as int) {
                assert forall|j: int| 0 <= j < before.len() implies after[j] == before[j] by {
                    if before[j].is_some() && before[j].unwrap().target.is_some() {
                        assert(alive(before, before[j].unwrap().target.unwrap().0.0 as int));
                    }
                }
                assert(after =~= before);
            }
        }
        self.reindex();
    }

    /// The one controlled actor. Refused where there is none or more than
    /// one.
    pub fn player_id(&self) -> (r: Result<EntityId, WorldError>)
        ensures
            match r {
                Ok(id) => sole_player(self@, id.0 as int),
                Err(e) => {
                    &&& e == WorldError::NoPlayer || e == WorldError::MultiplePlayers
                    &&& e == WorldError::NoPlayer <==> forall|i: int| !is_player(self@, i)
                    &&& e == WorldError::MultiplePlayers <==> exists|i: int, j: int|
                        i != j && is_player(self@, i) && is_player(self@, j)
                },
            },
    {
        let len: usize = self.actors.len();
        let mut found: Option<usize> = None;
        let mut k: usize = 0;
        while k < len
            invariant
                k <= len,
                len == self@.len(),
                match found {
                    Some(p) => p < k && is_player(self@, p as int) && forall|i: int|
                        0 <= i < k && is_player(self@, i) ==> i == p,
                    None => forall|i: int| 0 <= i < k ==> !is_player(self@, i),
                },
            decreases len - k,
        {
            let here: bool = match self.actors[k] {
                Some(actor) => match actor.kind {
                    ActorKind::Player => true,
                    ActorKind::Npc => false,
                },
                None => false,
            };
            if here {
                match found {
                    Some(p) => {
                        assert(is_player(self@, p as int) && is_player(self@, k as int) && p != k);
                        return Err(WorldError::MultiplePlayers);
                    },
                    None => {
                        found = Some(k);
                    },
                }
            }
            k = k + 1;
        }
        match found {
            Some(p) => Ok(EntityId(p)),
            None => Err(WorldError::NoPlayer),
        }
    }

    /// The actors that attack `id`, each once, in the order of their slots:
    /// the list that the world keeps for the slot. There is none for an
    /// identifier beyond the slots.
    pub fn targeted_by(&self, id: EntityId) -> (by: Option<&TargetedBy>)
        requires
            self.wf(),
        ensures
            by.is_some() <==> id.0 < self@.len(),
            by.is_some() ==> lists_attackers(self@, id.0 as int, by.unwrap()@),
    {
        proof {
            reveal(index_wf);
        }
        if id.0 < self.attackers.len() {
            assert(self.inverse()[id.0 as int] == self.attackers@[id.0 as int]@);
            Some(&self.attackers[id.0])
        } else {
            None
        }
    }

    /// Lists the actors that attack `id` anew, from the targets.
    fn scan_attackers(&self, id: EntityId) -> (by: TargetedBy)
        ensures
            lists_attackers(self@, id.0 as int, by@),
    {
        let len: usize = self.actors.len();
        let mut found: Vec<EntityId> = Vec::new();
        let mut k: usize = 0;
        while k < len
            invariant
                k <= len,
                len == self@.len(),
                forall|j: int|
                    0 <= j < found@.len() ==> (#[trigger] found@[j]).0 < k && targets(
                        self@,
                        found@[j].0 as int,
                        id.0 as int,
                    ),
                forall|i: int|
                    0 <= i < k && targets(self@, i, id.0 as int) ==> exists|j: int|
                        0 <= j < found@.len() && (#[trigger] found@[j]).0 == i,
                forall|i: int, j: int| 0 <= i < j < found@.len() ==> found@[i].0 < found@[j].0,
            decreases len - k,
        {
            let hit: bool = match self.actors[k] {
                Some(actor) => match actor.target {
                    Some(Target(t)) => t.0 == id.0,
                    None => false,
                },
                None => false,
            };
            let ghost before = found@;
            if hit {
                found.push(EntityId(k));
                assert(found@[before.len() as int].0 == k);
            }
            assert forall|i: int| 0 <= i < k + 1 && targets(self@, i, id.0 as int) implies
                exists|j: int| 0 <= j < found@.len() && (#[trigger] found@[j]).0 == i by {
                if i < k {
                    let j = choose|j: int| 0 <= j < before.len() && (#[trigger] before[j]).0 == i;
                    assert(found@[j].0 == i);
                } else {
                    assert(hit);
                    assert(found@[before.len() as int].0 == i);
                }
            }
            k = k + 1;
        }
        TargetedBy::new(found)
    }

    /// Brings the lists of attackers up to date with the targets.
    pub fn reindex(&mut self)
        ensures
            final(self)@ == old(self)@,
            final(self).labels == old(self).labels,
            index_wf(final(self)@, final(self).inverse()),
    {
        let len: usize = self.actors.len();
        let mut index: Vec<TargetedBy> = Vec::new();
        let mut t: usize = 0;
        while t < len
            invariant
                t <= len,
                len == self@.len(),
                self@ == old(self)@,
                self.labels == old(self).labels,
                index@.len() == t,
                forall|u: int| 0 <= u < t ==> lists_attackers(self@, u, (#[trigger] index@[u])@),
            decreases len - t,
        {
            let by = self.scan_attackers(EntityId(t));
            index.push(by);
            t = t + 1;
        }
        self.attackers = index;
        proof {
            reveal(index_wf);
            assert forall|u: int| 0 <= u < self.inverse().len() implies lists_attackers(
                self@,
                u,
                #[trigger] self.inverse()[u],
            ) by {
                assert(lists_attackers(self@, u, self.attackers@[u]@));
            }
        }
    }

    /// Puts back a copy of the slots that was taken earlier, and brings the
    /// lists of attackers up to date with it.
    pub fn restore(&mut self, slots: Vec<Option<Actor>>)
        ensures
            final(self)@ == slots@,
            final(self).labels == old(self).labels,
            index_wf(final(self)@, final(self).inverse()),
    {
        self.actors = slots;
        self.reindex();
    }

    /// The first non-player actor, in the order of the slots, whose footprint
    /// covers `tile`.
    pub fn npc_at(&self, tile: Position) -> (hit: Option<EntityId>)
        requires
            self.wf(),
        ensures
            match hit {
                Some(id) => covers_npc(self@, id.0 as int, tile) && forall|i: int|
                    0 <= i < id.0 ==> !covers_npc(self@, i, tile),
                None => forall|i: int| !covers_npc(self@, i, tile),
            },
    {
        let len: usize = self.actors.len();
        let mut k: usize = 0;
        while k < len
            invariant
                k <= len,
                len == self@.len(),
                self.wf(),
                forall|i: int| 0 <= i < k ==> !covers_npc(self@, i, tile),
            decreases len - k,
        {
            match self.actors[k] {
                Some(actor) => {
                    let npc: bool = match actor.kind {
                        ActorKind::Npc => true,
                        ActorKind::Player => false,
                    };
                    let reach: i64 = (actor.size.0 - 1) as i64;
                    if npc && actor.position.x <= tile.x && tile.x <= actor.position.x + reach
                        && actor.position.y <= tile.y && tile.y <= actor.position.y + reach {
                        return Some(EntityId(k));
                    }
                },
                None => {},
            }
            k = k + 1;
        }
        None
    }

    /// The action that a click on `tile` asks for: an attack on the
    /// non-player actor that stands there, or else a move to the tile.
    pub fn click_action(&self, tile: Position) -> (action: PlayerAction)
        requires
            self.wf(),
        ensures
            match action {
                PlayerAction::Attack(id) => covers_npc(self@, id.0 as int, tile) && forall|i: int|
                    0 <= i < id.0 ==> !covers_npc(self@, i, tile),
                PlayerAction::Move(to) => to == tile && forall|i: int| !covers_npc(self@, i, tile),
                PlayerAction::Idle => false,
            },
    {
        match self.npc_at(tile) {
            Some(id) => PlayerAction::Attack(id),
            None => PlayerAction::Move(tile),
        }
    }
}

} // verus!
