//! The controlled actor: the actions it can be told to take and the settings
//! that go with them.

use vstd::prelude::*;
use crate::attack::{AttackRange, AttackSpeed, Target, TargetUnderBehavior};
use crate::geometry::{EntityId, Position};
use crate::movement::{Destination, MovementType, Speed};
use crate::npc::Size;
use crate::world::{
    actor_sound, actors_placed, actors_wf, despawned, is_player, lemma_change_keeps_wf,
    lemma_index_keeps, lemma_same_kinds_same_players, player_refusal, same_players, same_slots,
    same_targets, slot_sound_in, sole_player, target_refusal, targets, Actor, ActorKind, Actors,
    World, WorldError,
};

verus! {

/// Marker of the controlled actor.
#[derive(Clone, Copy, Debug, Default, PartialEq, Eq, Structural)]
pub struct Player;

/// What the controlled actor is told to do in one tick.
#[derive(Clone, Copy, Debug, PartialEq, Eq, Structural)]
pub enum PlayerAction {
    Idle,
    Move(Position),
    Attack(EntityId),
}

impl Default for PlayerAction {
    fn default() -> (a: PlayerAction)
        ensures
            a == PlayerAction::Idle,
    {
        PlayerAction::Idle
    }
}

/// Settings of the controlled actor that are recorded with each tick.
#[derive(Clone, Copy, Debug, PartialEq, Eq, Structural)]
pub struct PlayerModifiers {
    pub run: bool,
    pub weapon_speed: u8,
    pub weapon_range: u8,
}

/// The settings that a new sequence starts with: running, with a weapon of
/// speed 4 and range 1.
pub open spec fn default_modifiers() -> PlayerModifiers {
    PlayerModifiers { run: true, weapon_speed: 4, weapon_range: 1 }
}

impl Default for PlayerModifiers {
    fn default() -> (m: PlayerModifiers)
        ensures
            m == default_modifiers(),
    {
        PlayerModifiers { run: true, weapon_speed: 4, weapon_range: 1 }
    }
}

impl PlayerModifiers {
    /// Tiles per tick of the controlled actor: 2 running, 1 walking.
    pub open spec fn speed_spec(self) -> Speed {
        if self.run {
            Speed(2)
        } else {
            Speed(1)
        }
    }

    /// Tiles per tick of the controlled actor under these settings.
    pub fn speed(&self) -> (s: Speed)
        ensures
            s == self.speed_spec(),
    {
        if self.run {
            Speed(2)
        } else {
            Speed(1)
        }
    }
}

/// A request for the controlled actor to take an action.
#[derive(Clone, Copy, Debug, PartialEq, Eq, Structural)]
pub struct PlayerActionEvent {
    pub action: PlayerAction,
}

impl Default for PlayerActionEvent {
    fn default() -> (e: PlayerActionEvent)
        ensures
            e.action == PlayerAction::Idle,
    {
        PlayerActionEvent { action: PlayerAction::Idle }
    }
}

/// The controlled actor as it enters the world: one tile wide, at the origin,
/// running, with the default weapon, moving along one axis first and stepping
/// out from under a target.
pub open spec fn fresh_player() -> Actor {
    Actor {
        kind: ActorKind::Player,
        position: Position { x: 0, y: 0 },
        size: Size(1),
        speed: Speed(2),
        movement_type: MovementType::CardinalFirst,
        attack_range: AttackRange(1),
        attack_speed: Some(AttackSpeed(4)),
        under_behavior: Some(TargetUnderBehavior::MoveOut),
        order: None,
        destination: None,
        target: None,
    }
}

/// Puts a controlled actor into the world and returns its identifier.
pub fn spawn_player(world: &mut World) -> (id: EntityId)
    requires
        old(world).wf(),
    ensures
        final(world).wf(),
        id.0 == old(world)@.len(),
        final(world)@ == old(world)@.push(Some(fresh_player())),
{
    let mods = PlayerModifiers::default();
    world.spawn(
        Actor {
            kind: ActorKind::Player,
            position: Position::origin(),
            size: Size(1),
            speed: mods.speed(),
            movement_type: MovementType::CardinalFirst,
            attack_range: AttackRange(mods.weapon_range),
            attack_speed: Some(AttackSpeed(mods.weapon_speed)),
            under_behavior: Some(TargetUnderBehavior::MoveOut),
            order: None,
            destination: None,
            target: None,
        },
    )
}

/// Removes the one controlled actor from the world, and with it every attack
/// on it. Refused, with nothing changed, where there is none or more than one.
pub fn despawn_player(world: &mut World) -> (r: Result<EntityId, WorldError>)
    requires
        old(world).wf(),
    ensures
        final(world).wf(),
        match r {
            Ok(id) => sole_player(old(world)@, id.0 as int) && final(world)@
                == despawned(old(world)@, id.0 as int),
            Err(e) => final(world)@ == old(world)@ && (e == WorldError::NoPlayer || e
                == WorldError::MultiplePlayers) && (forall|p: int|
                !sole_player(old(world)@, p)),
        },
{
    match world.player_id() {
        Ok(id) => {
            world.despawn(id);
            Ok(id)
        },
        Err(e) => {
            assert forall|p: int| !sole_player(world@, p) by {
                if sole_player(world@, p) {
                    assert(is_player(world@, p));
                    if e == WorldError::MultiplePlayers {
                        let (i, j) = choose|i: int, j: int|
                            i != j && is_player(world@, i) && is_player(world@, j);
                        assert(i == p && j == p);
                    }
                }
            }
            Err(e)
        },
    }
}

/// Why the controlled actor in slot `p` cannot take an action, if it cannot:
/// the actor in that slot is not the one controlled actor, the move leads
/// off the grid, or the attack is on a missing actor or on itself.
pub open spec fn action_refusal(actors: Actors, p: int, action: PlayerAction) -> Option<
    WorldError,
> {
    match player_refusal(actors, p) {
        Some(e) => Some(e),
        None => match action {
            PlayerAction::Idle => None,
            PlayerAction::Move(to) => if to.in_bounds() {
                None
            } else {
                Some(WorldError::OutOfBounds)
            },
            PlayerAction::Attack(t) => target_refusal(actors, p, t.0 as int),
        },
    }
}

/// What the attackers of the controlled actor do under it once it has taken
/// an action: they stay still when it attacks, and flee otherwise.
pub open spec fn under_after(action: PlayerAction) -> TargetUnderBehavior {
    match action {
        PlayerAction::Attack(_) => TargetUnderBehavior::StayStill,
        _ => TargetUnderBehavior::RandomCardinal,
    }
}

/// The controlled actor once it has taken an action: a move gives it a
/// destination, unless it stands there already, and no target; an attack
/// gives it a target and no destination; idling gives it neither.
pub open spec fn acting(a: Actor, action: PlayerAction) -> Actor {
    match action {
        PlayerAction::Idle => Actor { destination: None, target: None, ..a },
        PlayerAction::Move(to) => Actor {
            destination: if a.position == to {
                None
            } else {
                Some(Destination(to))
            },
            target: None,
            ..a
        },
        PlayerAction::Attack(t) => Actor { destination: None, target: Some(Target(t)), ..a },
    }
}

/// Slot `k` once the controlled actor in slot `p` has taken an action:
/// the controlled actor as `acting` says, each of its attackers with the
/// behavior of `under_after`, the rest as before.
pub open spec fn acted_slot(actors: Actors, k: int, p: int, action: PlayerAction) -> Option<Actor> {
    if actors[k].is_none() {
        None
    } else if k == p {
        Some(acting(actors[k].unwrap(), action))
    } else if targets(actors, k, p) {
        Some(Actor { under_behavior: Some(under_after(action)), ..actors[k].unwrap() })
    } else {
        actors[k]
    }
}

/// The world once the controlled actor in slot `p` has taken an action.
pub open spec fn acted(actors: Actors, p: int, action: PlayerAction) -> Actors {
    Seq::new(actors.len(), |k: int| acted_slot(actors, k, p, action))
}

/// Taking an action that is not refused leaves every actor's own data
/// sound.
pub proof fn lemma_acted_keeps_placed(actors: Actors, p: int, action: PlayerAction)
    requires
        actors_placed(actors),
        action_refusal(actors, p, action).is_none(),
    ensures
        actors_placed(acted(actors, p, action)),
{
    let after = acted(actors, p, action);
    assert forall|k: int| 0 <= k < after.len() && (#[trigger] after[k]).is_some() implies
        actor_sound(after[k].unwrap()) by {
        assert(actors[k].is_some());
    }
}

/// Taking an action that is not refused keeps the world sound and the
/// controlled actor what it is.
pub proof fn lemma_acted_keeps_wf(actors: Actors, p: int, action: PlayerAction)
    requires
        actors_wf(actors),
        action_refusal(actors, p, action).is_none(),
    ensures
        actors_wf(acted(actors, p, action)),
        same_slots(actors, acted(actors, p, action)),
        same_players(actors, acted(actors, p, action)),
{
    let after = acted(actors, p, action);
    assert forall|k: int| 0 <= k < after.len() && (#[trigger] after[k]).is_some() implies
        slot_sound_in(actors, after, k) by {
        assert(actors[k].is_some());
    }
    lemma_change_keeps_wf(actors, after);
    assert forall|k: int| 0 <= k < after.len() && (#[trigger] after[k]).is_some() implies
        after[k].unwrap().kind == actors[k].unwrap().kind by {
        assert(actors[k].is_some());
    }
    lemma_same_kinds_same_players(actors, after);
}

/// Has the controlled actor `player` take an action, and tells its attackers
/// what to do under it from now on. Refused, with nothing changed, for the
/// reasons of `action_refusal`.
pub fn update_action(world: &mut World, player: EntityId, event: PlayerActionEvent) -> (r: Result<
    (),
    WorldError,
>)
    requires
        old(world).placed(),
    ensures
        final(world).placed(),
        old(world).wf() ==> final(world).wf(),
        final(world).labels == old(world).labels,
        match action_refusal(old(world)@, player.0 as int, event.action) {
            Some(e) => r == Err::<(), WorldError>(e) && final(world)@ == old(world)@,
            None => r.is_ok() && final(world)@ == acted(old(world)@, player.0 as int, event.action),
        },
{
    match world.check_player(player) {
        Err(e) => {
            return Err(e);
        },
        Ok(()) => {},
    }
    let len: usize = world.actors.len();
    let stay_still: bool = match event.action {
        PlayerAction::Idle => false,
        PlayerAction::Move(to) => {
            if !to.is_in_bounds() {
                return Err(WorldError::OutOfBounds);
            }
            false
        },
        PlayerAction::Attack(t) => {
            if t.0 == player.0 {
                return Err(WorldError::SelfTarget);
            }
            if t.0 >= len || world.actors[t.0].is_none() {
                return Err(WorldError::MissingTarget);
            }
            true
        },
    };
    let under = if stay_still {
        TargetUnderBehavior::StayStill
    } else {
        TargetUnderBehavior::RandomCardinal
    };
    let mut k: usize = 0;
    while k < len
        invariant
            k <= len,
            len == world@.len(),
            len == old(world)@.len(),
            world.labels == old(world).labels,
            under == under_after(event.action),
            forall|j: int|
                0 <= j < k ==> #[trigger] world@[j] == acted_slot(
                    old(world)@,
                    j,
                    player.0 as int,
                    event.action,
                ),
            forall|j: int| k <= j < len ==> #[trigger] world@[j] == old(world)@[j],
        decreases len - k,
    {
        match world.actors[k] {
            Some(actor) => {
                let mut updated: Actor = actor;
                if k == player.0 {
                    match event.action {
                        PlayerAction::Idle => {
                            updated.destination = None;
                            updated.target = None;
                        },
                        PlayerAction::Move(to) => {
                            if actor.position.x == to.x && actor.position.y == to.y {
                                updated.destination = None;
                            } else {
                                updated.destination = Some(Destination(to));
                            }
                            updated.target = None;
                        },
                        PlayerAction::Attack(t) => {
                            updated.destination = None;
                            updated.target = Some(Target(t));
                        },
                    }
                } else {
                    match actor.target {
                        Some(Target(t)) => {
                            if t.0 == player.0 {
                                updated.under_behavior = Some(under);
                            }
                        },
                        None => {},
                    }
                }
                world.actors.set(k, Some(updated));
            },
            None => {},
        }
        k = k + 1;
    }
    proof {
        assert(world@ =~= acted(old(world)@, player.0 as int, event.action));
        lemma_acted_keeps_placed(old(world)@, player.0 as int, event.action);
        if old(world).wf() {
            lemma_acted_keeps_wf(old(world)@, player.0 as int, event.action);
        }
    }
    world.reindex();
    Ok(())
}

/// The controlled actor under the given settings.
pub open spec fn modified(a: Actor, modifiers: PlayerModifiers) -> Actor {
    Actor {
        speed: modifiers.speed_spec(),
        attack_speed: Some(AttackSpeed(modifiers.weapon_speed)),
        attack_range: AttackRange(modifiers.weapon_range),
        ..a
    }
}

/// Putting settings into effect keeps the world sound and the controlled
/// actors what they are.
pub proof fn lemma_with_modifiers_keeps_wf(actors: Actors, p: int, modifiers: PlayerModifiers)
    requires
        actors_wf(actors),
        is_player(actors, p),
    ensures
        actors_wf(with_modifiers(actors, p, modifiers)),
        same_slots(actors, with_modifiers(actors, p, modifiers)),
        same_players(actors, with_modifiers(actors, p, modifiers)),
        same_targets(actors, with_modifiers(actors, p, modifiers)),
{
    lemma_change_keeps_wf(actors, with_modifiers(actors, p, modifiers));
    lemma_same_kinds_same_players(actors, with_modifiers(actors, p, modifiers));
}

/// The world with the controlled actor in slot `p` under the given settings.
pub open spec fn with_modifiers(actors: Actors, p: int, modifiers: PlayerModifiers) -> Actors {
    actors.update(p, Some(modified(actors[p].unwrap(), modifiers)))
}

/// Puts the settings into effect on the controlled actor `player`: its speed,
/// and the speed and range of its weapon. Refused, with nothing changed,
/// where `player` is not the one controlled actor.
pub fn update_modifiers(world: &mut World, player: EntityId, modifiers: PlayerModifiers) -> (r:
    Result<(), WorldError>)
    requires
        old(world).placed(),
    ensures
        final(world).placed(),
        old(world).wf() ==> final(world).wf(),
        final(world).labels == old(world).labels,
        match player_refusal(old(world)@, player.0 as int) {
            Some(e) => r == Err::<(), WorldError>(e) && final(world)@ == old(world)@,
            None => r.is_ok() && final(world)@ == with_modifiers(
                old(world)@,
                player.0 as int,
                modifiers,
            ),
        },
{
    match world.check_player(player) {
        Err(e) => {
            return Err(e);
        },
        Ok(()) => {},
    }
    let mut actor: Actor = world.actors[player.0].unwrap();
    actor.speed = modifiers.speed();
    actor.attack_speed = Some(AttackSpeed(modifiers.weapon_speed));
    actor.attack_range = AttackRange(modifiers.weapon_range);
    world.actors.set(player.0, Some(actor));
    proof {
        lemma_same_kinds_same_players(old(world)@, world@);
        if old(world).wf() {
            lemma_with_modifiers_keeps_wf(old(world)@, player.0 as int, modifiers);
            lemma_index_keeps(old(world)@, world@, world.inverse());
        }
    }
    Ok(())
}

} // verus!
