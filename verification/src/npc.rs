//! Non-player actors and the footprint size every actor has.

use vstd::prelude::*;
use crate::attack::{AttackRange, Target};
use crate::geometry::{EntityId, Position};
use crate::movement::{MovementType, Speed};
use crate::world::{
    lemma_change_keeps_wf, player_refusal, slot_sound_in, Actor, ActorKind, Actors, World,
    WorldError,
};

verus! {

/// Label of a non-player actor.
#[derive(Debug, Clone, PartialEq)]
pub struct Npc {
    pub name: String,
}

/// Edge length of an actor's square footprint, in tiles. A usable size is at
/// least 1.
#[derive(Clone, Copy, Debug, PartialEq, Eq, Structural)]
pub struct Size(pub u8);

impl Size {
    /// Whether the footprint covers at least one tile.
    pub open spec fn valid(self) -> bool {
        self.0 >= 1
    }
}

impl Default for Size {
    fn default() -> (s: Size)
        ensures
            s.0 == 1,
    {
        Size(1)
    }
}

/// A non-player actor as it enters the world: five tiles wide, at (1,1),
/// one tile per tick, closing in diagonally first, with a reach of 1.
pub open spec fn fresh_npc() -> Actor {
    Actor {
        kind: ActorKind::Npc,
        position: Position { x: 1, y: 1 },
        size: Size(5),
        speed: Speed(1),
        movement_type: MovementType::DiagonalFirst,
        attack_range: AttackRange(1),
        attack_speed: None,
        under_behavior: None,
        order: None,
        destination: None,
        target: None,
    }
}

/// Puts a non-player actor with the given label into the world and returns
/// its identifier.
pub fn spawn_npc(world: &mut World, npc: Npc) -> (id: EntityId)
    requires
        old(world).wf(),
    ensures
        final(world).wf(),
        id.0 == old(world)@.len(),
        final(world)@ == old(world)@.push(Some(fresh_npc())),
        final(world).labels@ == old(world).labels@.push(Some(npc)),
{
    world.spawn_labelled(
        Actor {
            kind: ActorKind::Npc,
            position: Position::new(1, 1),
            size: Size(5),
            speed: Speed::default(),
            movement_type: MovementType::DiagonalFirst,
            attack_range: AttackRange(1),
            attack_speed: None,
            under_behavior: None,
            order: None,
            destination: None,
            target: None,
        },
        npc,
    )
}

/// The world once every non-player actor attacks the actor in slot `p`.
pub open spec fn all_targeting(actors: Actors, p: int) -> Actors {
    Seq::new(
        actors.len(),
        |k: int|
            if actors[k].is_some() && actors[k].unwrap().kind == ActorKind::Npc {
                Some(Actor { target: Some(Target(EntityId(p as usize))), ..actors[k].unwrap() })
            } else {
                actors[k]
            },
    )
}

/// Makes every non-player actor attack the controlled actor `player`.
/// Refused, with nothing changed, where `player` is not the one controlled
/// actor.
pub fn target_player(world: &mut World, player: EntityId) -> (r: Result<(), WorldError>)
    requires
        old(world).wf(),
    ensures
        final(world).wf(),
        final(world).labels == old(world).labels,
        match player_refusal(old(world)@, player.0 as int) {
            Some(e) => r == Err::<(), WorldError>(e) && final(world)@ == old(world)@,
            None => r.is_ok() && final(world)@ == all_targeting(old(world)@, player.0 as int),
        },
{
    match world.check_player(player) {
        Err(e) => {
            return Err(e);
        },
        Ok(()) => {},
    }
    let len: usize = world.actors.len();
    let mut k: usize = 0;
    while k < len
        invariant
            k <= len,
            len == world@.len(),
            len == old(world)@.len(),
            old(world).wf(),
            world.labels == old(world).labels,
            forall|j: int|
                0 <= j < k ==> #[trigger] world@[j] == all_targeting(
                    old(world)@,
                    player.0 as int,
                )[j],
            forall|j: int| k <= j < len ==> #[trigger] world@[j] == old(world)@[j],
        decreases len - k,
    {
        match world.actors[k] {
            Some(actor) => {
                match actor.kind {
                    ActorKind::Npc => {
                        let mut updated: Actor = actor;
                        updated.target = Some(Target(player));
                        world.actors.set(k, Some(updated));
                    },
                    ActorKind::Player => {},
                }
            },
            None => {},
        }
        k = k + 1;
    }
    proof {
        let after = all_targeting(old(world)@, player.0 as int);
        assert(world@ =~= after);
        assert forall|k: int| 0 <= k < after.len() && (#[trigger] after[k]).is_some() implies
            slot_sound_in(old(world)@, after, k) by {
            assert(old(world)@[k].is_some());
        }
        lemma_change_keeps_wf(old(world)@, after);
    }
    world.reindex();
    Ok(())
}

} // verus!
