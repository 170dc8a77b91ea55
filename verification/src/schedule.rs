//! The order of the steps of one tick.

use vstd::prelude::*;
use crate::attack::{
    check_failure, checked, first_check_in_range, lemma_checked_keeps_wf, lemma_ordered_keeps_wf,
    order_refusal, ordered, second_check_in_range, simultaneous_check,
};
use crate::geometry::EntityId;
use crate::movement::{lemma_moved_keeps_wf, move_first, move_second, moved, MovementOrder};
use crate::player::{
    acted, action_refusal, lemma_acted_keeps_wf, lemma_with_modifiers_keeps_wf, update_action,
    update_modifiers, with_modifiers, PlayerActionEvent, PlayerModifiers,
};
use crate::world::{
    actors_wf, is_player, lemma_same_players_chain, player_refusal, same_players, Actors, World,
    WorldError,
};

verus! {

/// The world after one tick with the controlled actor in slot `p`: its
/// movement pass is decided; the attackers of the first pass check their
/// range and then move; those of the second pass check theirs, seeing the
/// first pass's moves, and then move. The tick fails where the actor in slot
/// `p` is not the one controlled actor, where it or an attacker of a pass
/// names a target that does not exist, or where a range check sends an
/// attacker off the grid.
pub open spec fn ticked(actors: Actors, p: int, roll: u64) -> Result<Actors, WorldError> {
    match order_refusal(actors, p) {
        Some(e) => Err(e),
        None => {
            let start = ordered(actors, p);
            match check_failure(start, Some(MovementOrder::First), roll) {
                Some(e) => Err(e),
                None => {
                    let half = moved(
                        checked(start, Some(MovementOrder::First), roll),
                        MovementOrder::First,
                    );
                    match check_failure(half, Some(MovementOrder::Second), roll) {
                        Some(e) => Err(e),
                        None => Ok(
                            moved(
                                checked(half, Some(MovementOrder::Second), roll),
                                MovementOrder::Second,
                            ),
                        ),
                    }
                },
            }
        },
    }
}

/// A tick that does not fail keeps the world sound and the controlled
/// actors what they are.
pub proof fn lemma_ticked_keeps_wf(actors: Actors, p: int, roll: u64)
    requires
        actors_wf(actors),
        ticked(actors, p, roll).is_ok(),
    ensures
        actors_wf(ticked(actors, p, roll).unwrap()),
        ticked(actors, p, roll).unwrap().len() == actors.len(),
        same_players(actors, ticked(actors, p, roll).unwrap()),
        is_player(actors, p),
{
    let start = ordered(actors, p);
    lemma_ordered_keeps_wf(actors, p);
    lemma_checked_keeps_wf(start, Some(MovementOrder::First), roll);
    let c1 = checked(start, Some(MovementOrder::First), roll);
    lemma_moved_keeps_wf(c1, MovementOrder::First);
    let half = moved(c1, MovementOrder::First);
    lemma_checked_keeps_wf(half, Some(MovementOrder::Second), roll);
    let c2 = checked(half, Some(MovementOrder::Second), roll);
    lemma_moved_keeps_wf(c2, MovementOrder::Second);
    let end = moved(c2, MovementOrder::Second);
    lemma_same_players_chain(actors, start, c1);
    lemma_same_players_chain(actors, c1, half);
    lemma_same_players_chain(actors, half, c2);
    lemma_same_players_chain(actors, c2, end);
}

/// One tick of the simulation for the controlled actor `player`, with the
/// random bits `roll` for whoever flees. A tick that fails changes nothing.
pub fn game_tick(world: &mut World, player: EntityId, roll: u64) -> (r: Result<(), WorldError>)
    requires
        old(world).placed(),
    ensures
        final(world).placed(),
        old(world).wf() ==> final(world).wf(),
        final(world).labels == old(world).labels,
        match ticked(old(world)@, player.0 as int, roll) {
            Ok(after) => r.is_ok() && final(world)@ == after,
            Err(e) => r == Err::<(), WorldError>(e) && final(world)@ == old(world)@,
        },
{
    let before = world.snapshot();
    match simultaneous_check(world, player) {
        Err(e) => {
            return Err(e);
        },
        Ok(()) => {},
    }
    match first_check_in_range(world, roll) {
        Err(e) => {
            world.restore(before);
            return Err(e);
        },
        Ok(()) => {},
    }
    move_first(world);
    match second_check_in_range(world, roll) {
        Err(e) => {
            world.restore(before);
            return Err(e);
        },
        Ok(()) => {},
    }
    move_second(world);
    Ok(())
}

/// The world once the controlled actor in slot `p` has taken the action that
/// was sent to it, if one was. It fails where the action is refused.
pub open spec fn dispatched(actors: Actors, p: int, event: Option<PlayerActionEvent>) -> Result<
    Actors,
    WorldError,
> {
    match event {
        Some(sent) => match action_refusal(actors, p, sent.action) {
            Some(e) => Err(e),
            None => Ok(acted(actors, p, sent.action)),
        },
        None => Ok(actors),
    }
}

/// Taking the action that was sent, if one was and it is not refused, keeps
/// the world sound and the controlled actors what they are.
pub proof fn lemma_dispatched_keeps_wf(actors: Actors, p: int, event: Option<PlayerActionEvent>)
    requires
        actors_wf(actors),
        dispatched(actors, p, event).is_ok(),
    ensures
        actors_wf(dispatched(actors, p, event).unwrap()),
        dispatched(actors, p, event).unwrap().len() == actors.len(),
        same_players(actors, dispatched(actors, p, event).unwrap()),
{
    if event.is_some() {
        lemma_acted_keeps_wf(actors, p, event.unwrap().action);
    }
}

/// The world after the controlled actor in slot `p` has taken the action sent
/// to it, if any, the settings have taken effect, and one tick has passed. It
/// fails where the action is refused, where the actor in slot `p` is not the
/// one controlled actor, or where the tick fails.
pub open spec fn simulated(
    actors: Actors,
    p: int,
    event: Option<PlayerActionEvent>,
    modifiers: PlayerModifiers,
    roll: u64,
) -> Result<Actors, WorldError> {
    match dispatched(actors, p, event) {
        Err(e) => Err(e),
        Ok(after) => match player_refusal(after, p) {
            Some(e) => Err(e),
            None => ticked(with_modifiers(after, p, modifiers), p, roll),
        },
    }
}

/// A simulated tick that does not fail keeps the world sound and the
/// controlled actors what they are.
pub proof fn lemma_simulated_keeps_wf(
    actors: Actors,
    p: int,
    event: Option<PlayerActionEvent>,
    modifiers: PlayerModifiers,
    roll: u64,
)
    requires
        actors_wf(actors),
        simulated(actors, p, event, modifiers, roll).is_ok(),
    ensures
        actors_wf(simulated(actors, p, event, modifiers, roll).unwrap()),
        simulated(actors, p, event, modifiers, roll).unwrap().len() == actors.len(),
        same_players(actors, simulated(actors, p, event, modifiers, roll).unwrap()),
        is_player(actors, p),
{
    let a = dispatched(actors, p, event).unwrap();
    if event.is_some() {
        lemma_acted_keeps_wf(actors, p, event.unwrap().action);
    }
    assert(same_players(actors, a));
    assert(is_player(a, p));
    assert(is_player(actors, p));
    let m = with_modifiers(a, p, modifiers);
    lemma_with_modifiers_keeps_wf(a, p, modifiers);
    lemma_ticked_keeps_wf(m, p, roll);
    lemma_same_players_chain(actors, a, m);
    lemma_same_players_chain(actors, m, ticked(m, p, roll).unwrap());
}

/// Replays one recorded tick: the controlled actor `player` takes the
/// action sent to it, if any, the settings take effect, and one tick passes.
/// A replay that fails changes nothing.
pub fn simulate_tick(
    world: &mut World,
    player: EntityId,
    event: Option<PlayerActionEvent>,
    modifiers: PlayerModifiers,
    roll: u64,
) -> (r: Result<(), WorldError>)
    requires
        old(world).placed(),
    ensures
        final(world).placed(),
        old(world).wf() ==> final(world).wf(),
        final(world).labels == old(world).labels,
        match simulated(old(world)@, player.0 as int, event, modifiers, roll) {
            Ok(after) => r.is_ok() && final(world)@ == after,
            Err(e) => r == Err::<(), WorldError>(e) && final(world)@ == old(world)@,
        },
{
    let before = world.snapshot();
    match event {
        Some(sent) => {
            match update_action(world, player, sent) {
                Err(e) => {
                    return Err(e);
                },
                Ok(()) => {},
            }
        },
        None => {},
    }
    match update_modifiers(world, player, modifiers) {
        Err(e) => {
            world.restore(before);
            return Err(e);
        },
        Ok(()) => {},
    }
    match game_tick(world, player, roll) {
        Err(e) => {
            world.restore(before);
            return Err(e);
        },
        Ok(()) => {},
    }
    Ok(())
}

/// The world after the range checks of both passes, with no movement in
/// between: what a frame between two ticks does once the controlled actor
/// in slot `p` has its movement pass.
pub open spec fn rechecked(actors: Actors, p: int, roll: u64) -> Result<Actors, WorldError> {
    match order_refusal(actors, p) {
        Some(e) => Err(e),
        None => {
            let start = ordered(actors, p);
            match check_failure(start, Some(MovementOrder::First), roll) {
                Some(e) => Err(e),
                None => {
                    let half = checked(start, Some(MovementOrder::First), roll);
                    match check_failure(half, Some(MovementOrder::Second), roll) {
                        Some(e) => Err(e),
                        None => Ok(checked(half, Some(MovementOrder::Second), roll)),
                    }
                },
            }
        },
    }
}

/// The world after one frame of free roaming: the controlled actor in slot
/// `p` takes the action sent to it, if any, and the settings take effect;
/// then a whole tick passes, if one is due, or else the attackers only check
/// their range.
pub open spec fn roamed(
    actors: Actors,
    p: int,
    event: Option<PlayerActionEvent>,
    modifiers: PlayerModifiers,
    roll: u64,
    tick_due: bool,
) -> Result<Actors, WorldError> {
    match dispatched(actors, p, event) {
        Err(e) => Err(e),
        Ok(after) => match player_refusal(after, p) {
            Some(e) => Err(e),
            None => if tick_due {
                ticked(with_modifiers(after, p, modifiers), p, roll)
            } else {
                rechecked(with_modifiers(after, p, modifiers), p, roll)
            },
        },
    }
}

/// One frame of free roaming for the controlled actor `player`. A frame that
/// fails changes nothing.
pub fn free_roam_frame(
    world: &mut World,
    player: EntityId,
    event: Option<PlayerActionEvent>,
    modifiers: PlayerModifiers,
    roll: u64,
    tick_due: bool,
) -> (r: Result<(), WorldError>)
    requires
        old(world).placed(),
    ensures
        final(world).placed(),
        old(world).wf() ==> final(world).wf(),
        final(world).labels == old(world).labels,
        match roamed(old(world)@, player.0 as int, event, modifiers, roll, tick_due) {
            Ok(after) => r.is_ok() && final(world)@ == after,
            Err(e) => r == Err::<(), WorldError>(e) && final(world)@ == old(world)@,
        },
{
    if tick_due {
        return simulate_tick(world, player, event, modifiers, roll);
    }
    let before = world.snapshot();
    match event {
        Some(sent) => {
            match update_action(world, player, sent) {
                Err(e) => {
                    return Err(e);
                },
                Ok(()) => {},
            }
        },
        None => {},
    }
    match update_modifiers(world, player, modifiers) {
        Err(e) => {
            world.restore(before);
            return Err(e);
        },
        Ok(()) => {},
    }
    match simultaneous_check(world, player) {
        Err(e) => {
            world.restore(before);
            return Err(e);
        },
        Ok(()) => {},
    }
    match first_check_in_range(world, roll) {
        Err(e) => {
            world.restore(before);
            return Err(e);
        },
        Ok(()) => {},
    }
    match second_check_in_range(world, roll) {
        Err(e) => {
            world.restore(before);
            return Err(e);
        },
        Ok(()) => {},
    }
    Ok(())
}

} // verus!
