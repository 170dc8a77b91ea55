//! How far a replay can carry the actors, and when no tick of it fails.

use vstd::prelude::*;
use crate::attack::{
    check_fails, checked, checked_slot, checks_in_pass, closest_tile, flee_side, flee_tile,
    lemma_checked_keeps_wf, lemma_ordered_keeps_wf, lemma_sound_never_dangles, order_refusal,
    ordered, resolved_destination, roll_draw, slot_overflows, slot_resolution, AttackRange,
    Cardinal, TargetUnderBehavior,
};
use crate::editor::{
    caught, checks_done, lemma_outcome_reaches_target, lemma_restarted_keeps_wf,
    lemma_stepped_keeps_wf, outcome, player_position, reconciled, restarted, stepped, view_wf,
    EditorView,
};
use crate::geometry::{EntityId, Position, GRID_LIMIT};
use crate::movement::{
    lemma_moved_keeps_wf, lemma_moved_position_bounds, moved, moved_slot, moves_in_pass,
    MovementOrder,
};
use crate::npc::Size;
use crate::player::{
    acted, acted_slot, action_refusal, lemma_acted_keeps_wf, lemma_with_modifiers_keeps_wf,
    with_modifiers, PlayerAction, PlayerActionEvent, PlayerModifiers,
};
use crate::replay::lemma_simulated_keeps_cast;
use crate::schedule::{dispatched, simulated, ticked};
use crate::sequence::{pruned, Slot};
use crate::state::EditingState;
use crate::world::{
    actors_wf, alive, lemma_same_players_sole, player_refusal, same_slots, sole_player, Actors,
    WorldError,
};

verus! {

/// Tiles by which one tick can widen the square that holds every actor and
/// every destination: each of its two passes of range checks can set a
/// destination up to 255 tiles beyond the farthest actor.
pub open spec fn tick_reach() -> int {
    510
}

/// Whether a tile lies in the square of radius `r` around the origin.
pub open spec fn within(tile: Position, r: int) -> bool {
    -r <= tile.x <= r && -r <= tile.y <= r
}

/// Whether every actor stands, and is headed if anywhere, within the square
/// of radius `r` around the origin.
pub open spec fn actors_within(actors: Actors, r: int) -> bool {
    forall|k: int|
        0 <= k < actors.len() && (#[trigger] actors[k]).is_some() ==> {
            &&& within(actors[k].unwrap().position, r)
            &&& (actors[k].unwrap().destination.is_some() ==> within(
                actors[k].unwrap().destination.unwrap().0,
                r,
            ))
        }
}

/// The tile that a range check sends an attacker to lies no more than 255
/// tiles beyond a square that holds the attacker and its target.
pub proof fn lemma_resolved_within(
    start: Position,
    size: Size,
    target: Position,
    target_size: Size,
    range: AttackRange,
    under: TargetUnderBehavior,
    flee: Cardinal,
    r: int,
)
    requires
        within(start, r),
        within(target, r),
        size.valid(),
        target_size.valid(),
        0 <= r,
        r + 255 <= GRID_LIMIT,
    ensures
        match resolved_destination(start, size, target, target_size, range, under, flee) {
            Some(at) => -(r + 255) <= at.0 <= r + 255 && -(r + 255) <= at.1 <= r + 255,
            None => true,
        },
{
    let tile = closest_tile(start, size, target, target_size);
    assert(-(r + 255) <= tile.0 <= r + 255 && -(r + 255) <= tile.1 <= r + 255);
    let away = flee_tile(start, flee);
    assert(-(r + 255) <= away.0 <= r + 255 && -(r + 255) <= away.1 <= r + 255);
}

/// In a sound world whose actors and destinations lie in a square that
/// leaves 255 tiles to the edge of the grid, a pass of range checks sends
/// nobody off the grid, and widens the square by no more than 255 tiles.
pub proof fn lemma_checked_within(actors: Actors, pass: Option<MovementOrder>, roll: u64, r: int)
    requires
        actors_wf(actors),
        actors_within(actors, r),
        0 <= r,
        r + 255 <= GRID_LIMIT,
    ensures
        !check_fails(actors, pass, roll),
        actors_within(checked(actors, pass, roll), r + 255),
{
    assert forall|k: int| 0 <= k < actors.len() && (#[trigger] actors[k]).is_some()
        && checks_in_pass(actors[k].unwrap(), pass) implies match slot_resolution(
        actors,
        k,
        roll,
    ) {
        Some(at) => -(r + 255) <= at.0 <= r + 255 && -(r + 255) <= at.1 <= r + 255,
        None => true,
    } by {
        let a = actors[k].unwrap();
        let t = a.target.unwrap().0.0 as int;
        assert(alive(actors, t));
        assert(actors[t].is_some());
        let other = actors[t].unwrap();
        lemma_resolved_within(
            a.position,
            a.size,
            other.position,
            other.size,
            a.attack_range,
            a.under_behavior.unwrap(),
            flee_side(roll_draw(roll, EntityId(k as usize)) as int),
            r,
        );
    }
    assert forall|k: int| !slot_overflows(actors, k, pass, roll) by {
        if alive(actors, k) {
            assert(actors[k].is_some());
        }
    }
    let after = checked(actors, pass, roll);
    assert forall|k: int| 0 <= k < after.len() && (#[trigger] after[k]).is_some() implies {
        &&& within(after[k].unwrap().position, r + 255)
        &&& (after[k].unwrap().destination.is_some() ==> within(
            after[k].unwrap().destination.unwrap().0,
            r + 255,
        ))
    } by {
        assert(after[k] == checked_slot(actors, k, pass, roll));
        assert(actors[k].is_some());
    }
}

/// A movement pass carries nobody out of a square that holds every actor
/// and every destination.
pub proof fn lemma_moved_within(actors: Actors, pass: MovementOrder, r: int)
    requires
        actors_wf(actors),
        actors_within(actors, r),
    ensures
        actors_within(moved(actors, pass), r),
{
    let after = moved(actors, pass);
    assert forall|k: int| 0 <= k < after.len() && (#[trigger] after[k]).is_some() implies {
        &&& within(after[k].unwrap().position, r)
        &&& (after[k].unwrap().destination.is_some() ==> within(
            after[k].unwrap().destination.unwrap().0,
            r,
        ))
    } by {
        assert(after[k] == moved_slot(actors, k, pass));
        assert(actors[k].is_some());
        let a = actors[k].unwrap();
        if moves_in_pass(a, pass) {
            lemma_moved_position_bounds(
                a.position,
                a.destination.unwrap().0,
                a.speed,
                a.movement_type,
            );
        }
    }
}

/// Whether the controlled actor in slot `p` can take an action without
/// leaving the square of radius `r`: it idles, moves to a tile in the square,
/// or attacks another actor that exists.
pub open spec fn action_fits(actors: Actors, p: int, action: PlayerAction, r: int) -> bool {
    match action {
        PlayerAction::Idle => true,
        PlayerAction::Move(to) => within(to, r),
        PlayerAction::Attack(t) => alive(actors, t.0 as int) && t.0 != p,
    }
}

/// An action that fits is not refused, and leaves every actor and every
/// destination in the square.
pub proof fn lemma_acted_within(actors: Actors, p: int, action: PlayerAction, r: int)
    requires
        sole_player(actors, p),
        actors_within(actors, r),
        action_fits(actors, p, action, r),
        0 <= r <= GRID_LIMIT,
    ensures
        action_refusal(actors, p, action).is_none(),
        actors_within(acted(actors, p, action), r),
{
    let after = acted(actors, p, action);
    assert forall|k: int| 0 <= k < after.len() && (#[trigger] after[k]).is_some() implies {
        &&& within(after[k].unwrap().position, r)
        &&& (after[k].unwrap().destination.is_some() ==> within(
            after[k].unwrap().destination.unwrap().0,
            r,
        ))
    } by {
        assert(after[k] == acted_slot(actors, k, p, action));
        assert(actors[k].is_some());
    }
}

/// In a sound world with one controlled actor, whose actors and
/// destinations lie in a square that leaves a tick's reach to the edge of
/// the grid, a tick does not fail, and widens the square by no more than its
/// reach.
pub proof fn lemma_ticked_succeeds(actors: Actors, p: int, roll: u64, r: int)
    requires
        actors_wf(actors),
        sole_player(actors, p),
        actors_within(actors, r),
        0 <= r,
        r + tick_reach() <= GRID_LIMIT,
    ensures
        ticked(actors, p, roll).is_ok(),
        actors_within(ticked(actors, p, roll).unwrap(), r + tick_reach()),
{
    assert(actors[p].is_some());
    assert(order_refusal(actors, p).is_none());
    let start = ordered(actors, p);
    lemma_ordered_keeps_wf(actors, p);
    assert(actors_within(start, r)) by {
        assert forall|k: int| 0 <= k < start.len() && (#[trigger] start[k]).is_some() implies {
            &&& within(start[k].unwrap().position, r)
            &&& (start[k].unwrap().destination.is_some() ==> within(
                start[k].unwrap().destination.unwrap().0,
                r,
            ))
        } by {
            assert(actors[k].is_some());
        }
    }
    lemma_sound_never_dangles(start, Some(MovementOrder::First));
    lemma_checked_within(start, Some(MovementOrder::First), roll, r);
    lemma_checked_keeps_wf(start, Some(MovementOrder::First), roll);
    let c1 = checked(start, Some(MovementOrder::First), roll);
    lemma_moved_within(c1, MovementOrder::First, r + 255);
    lemma_moved_keeps_wf(c1, MovementOrder::First);
    let half = moved(c1, MovementOrder::First);
    lemma_sound_never_dangles(half, Some(MovementOrder::Second));
    lemma_checked_within(half, Some(MovementOrder::Second), roll, r + 255);
    lemma_checked_keeps_wf(half, Some(MovementOrder::Second), roll);
    let c2 = checked(half, Some(MovementOrder::Second), roll);
    lemma_moved_within(c2, MovementOrder::Second, r + 510);
}

/// Under the same conditions a replayed tick does not fail where the action
/// that was sent fits, and widens the square by no more than a tick's reach.
pub proof fn lemma_simulated_succeeds(
    actors: Actors,
    p: int,
    event: Option<PlayerActionEvent>,
    modifiers: PlayerModifiers,
    roll: u64,
    r: int,
)
    requires
        actors_wf(actors),
        sole_player(actors, p),
        actors_within(actors, r),
        0 <= r,
        r + tick_reach() <= GRID_LIMIT,
        event.is_some() ==> action_fits(actors, p, event.unwrap().action, r),
    ensures
        simulated(actors, p, event, modifiers, roll).is_ok(),
        actors_within(simulated(actors, p, event, modifiers, roll).unwrap(), r + tick_reach()),
{
    if event.is_some() {
        lemma_acted_within(actors, p, event.unwrap().action, r);
        lemma_acted_keeps_wf(actors, p, event.unwrap().action);
    }
    let a1 = dispatched(actors, p, event).unwrap();
    lemma_same_players_sole(actors, a1, p);
    assert(player_refusal(a1, p).is_none());
    let a2 = with_modifiers(a1, p, modifiers);
    lemma_with_modifiers_keeps_wf(a1, p, modifiers);
    lemma_same_players_sole(a1, a2, p);
    assert(actors_within(a2, r)) by {
        assert forall|k: int| 0 <= k < a2.len() && (#[trigger] a2[k]).is_some() implies {
            &&& within(a2[k].unwrap().position, r)
            &&& (a2[k].unwrap().destination.is_some() ==> within(
                a2[k].unwrap().destination.unwrap().0,
                r,
            ))
        } by {
            assert(a1[k].is_some());
        }
    }
    lemma_ticked_succeeds(a2, p, roll, r);
}

/// Whether every slot from tick `from` up to, not including, tick `to` holds
/// an action that fits the square of radius `r`.
pub open spec fn slots_fit(
    slots: Seq<Slot>,
    actors: Actors,
    p: int,
    r: int,
    from: int,
    to: int,
) -> bool {
    forall|t: int|
        from <= t < to && 0 <= t < slots.len() ==> action_fits(
            actors,
            p,
            (#[trigger] slots[t]).0,
            r,
        )
}

/// The machine after the checks of the current tick and its replay.
pub open spec fn tick_replayed(v: EditorView) -> (EditorView, Option<WorldError>) {
    caught(checks_done(v))
}

/// Pruning leaves every action fitting: a slot is as it was, or idle.
pub proof fn lemma_pruned_fits(
    slots: Seq<Slot>,
    actors: Actors,
    p: int,
    m: int,
    from: int,
    to: int,
    current: int,
    position: Position,
)
    requires
        slots_fit(slots, actors, p, m, from, to),
    ensures
        slots_fit(pruned(slots, current, position), actors, p, m, from, to),
{
    let after = pruned(slots, current, position);
    assert forall|t: int| from <= t < to && 0 <= t < after.len() implies action_fits(
        actors,
        p,
        (#[trigger] after[t]).0,
        m,
    ) by {
        assert(action_fits(actors, p, slots[t].0, m));
    }
}

/// Whether actions fit does not depend on anything but which actors exist.
pub proof fn lemma_fits_same_slots(
    slots: Seq<Slot>,
    before: Actors,
    after: Actors,
    p: int,
    m: int,
    from: int,
    to: int,
)
    requires
        slots_fit(slots, before, p, m, from, to),
        same_slots(before, after),
    ensures
        slots_fit(slots, after, p, m, from, to),
{
    assert forall|t: int| from <= t < to && 0 <= t < slots.len() implies action_fits(
        after,
        p,
        (#[trigger] slots[t]).0,
        m,
    ) by {
        assert(action_fits(before, p, slots[t].0, m));
        match slots[t].0 {
            PlayerAction::Attack(id) => {
                if 0 <= id.0 < before.len() {
                    assert(after[id.0 as int].is_some() == before[id.0 as int].is_some());
                }
            },
            _ => {},
        }
    }
}

/// One tick of a replay that does not fail: see
/// `lemma_replay_succeeds_from_checks`.
pub proof fn lemma_replay_tick_succeeds(v: EditorView, m: int, r: int)
    requires
        view_wf(v),
        v.state == EditingState::CatchupChecks,
        v.current < v.target,
        0 <= m <= r,
        actors_within(v.actors, r),
        slots_fit(v.slots, v.actors, v.player.0 as int, m, v.current as int, v.target as int),
        r + tick_reach() <= GRID_LIMIT,
    ensures
        tick_replayed(v).1.is_none(),
        view_wf(tick_replayed(v).0),
        tick_replayed(v).0.state == EditingState::CatchupChecks,
        tick_replayed(v).0.current == v.current + 1,
        tick_replayed(v).0.target == v.target,
        tick_replayed(v).0.player == v.player,
        actors_within(tick_replayed(v).0.actors, r + tick_reach()),
        slots_fit(
            tick_replayed(v).0.slots,
            tick_replayed(v).0.actors,
            v.player.0 as int,
            m,
            v.current as int + 1,
            v.target as int,
        ),
        outcome(v) == outcome(tick_replayed(v).0),
{
    let p = v.player.0 as int;
    let c = v.current as int;
    let done = checks_done(v);
    assert(stepped(v) == (done, None::<WorldError>));
    assert(outcome(v) == outcome(done));
    lemma_stepped_keeps_wf(v);
    let slots = pruned(v.slots, c, player_position(v));
    assert(done.slots == slots);
    lemma_pruned_fits(v.slots, v.actors, p, m, c, v.target as int, c, player_position(v));
    assert(action_fits(v.actors, p, slots[c].0, m));
    assert(action_fits(v.actors, p, slots[c].0, r));
    let sent = Some(PlayerActionEvent { action: slots[c].0 });
    assert(done.pending == sent);
    assert(done.modifiers == slots[c].1);
    assert(done.actors == v.actors);
    assert(done.current == c + 1);
    lemma_simulated_succeeds(v.actors, p, sent, slots[c].1, v.rolls[c], r);
    lemma_simulated_keeps_cast(v.actors, p, sent, slots[c].1, v.rolls[c]);
    let result = simulated(v.actors, p, sent, slots[c].1, v.rolls[c]);
    let next = caught(done);
    assert(next.0.actors == result.unwrap());
    assert(next.1.is_none());
    assert(stepped(done) == next);
    lemma_stepped_keeps_wf(done);
    assert(outcome(done) == outcome(next.0));
    lemma_fits_same_slots(slots, v.actors, next.0.actors, p, m, c, v.target as int);
}

/// When no tick of a replay fails. A machine that is about to check a tick
/// not past the one asked for replays every tick up to that one without
/// failing, provided that every actor and destination lies in a square of
/// radius `r`, that every action still to be replayed fits a square of
/// radius `m` within it, and that the square, widened by a tick's reach for
/// every tick to be replayed, stays on the grid.
pub proof fn lemma_replay_succeeds_from_checks(v: EditorView, m: int, r: int)
    requires
        view_wf(v),
        v.state == EditingState::CatchupChecks,
        v.current <= v.target,
        0 <= m <= r,
        actors_within(v.actors, r),
        slots_fit(v.slots, v.actors, v.player.0 as int, m, v.current as int, v.target as int),
        r + tick_reach() * (v.target - v.current) <= GRID_LIMIT,
    ensures
        outcome(v).1.is_none(),
        outcome(v).0.current == v.target,
    decreases v.target - v.current,
{
    if v.current < v.target {
        lemma_replay_tick_succeeds(v, m, r);
        let next = tick_replayed(v).0;
        lemma_replay_succeeds_from_checks(next, m, r + tick_reach());
    } else {
        let done = checks_done(v);
        assert(stepped(v) == (done, None::<WorldError>));
        assert(outcome(v) == outcome(done));
        assert(outcome(done) == (done, None::<WorldError>));
    }
}

/// When a replay that starts over does not fail: where every action up to
/// the tick asked for idles, moves to a tile in a square of radius `m`, or
/// attacks another actor that exists, and that square, widened by a tick's
/// reach for every tick up to the one asked for, stays on the grid. The
/// machine then ends at the tick asked for.
pub proof fn lemma_fresh_replay_succeeds(v: EditorView, m: int)
    requires
        view_wf(v),
        v.state == EditingState::Reconciliation,
        v.current > v.target,
        1 <= m,
        slots_fit(v.slots, v.actors, v.player.0 as int, m, 0, v.target as int),
        m + tick_reach() * v.target <= GRID_LIMIT,
    ensures
        outcome(v).1.is_none(),
        outcome(v).0.current == v.target,
        outcome(v).0.state == EditingState::Editing,
{
    let p = v.player.0 as int;
    let start = reconciled(v);
    assert(stepped(v) == (start, None::<WorldError>));
    assert(outcome(v) == outcome(start));
    lemma_stepped_keeps_wf(v);
    let fresh = restarted(v.actors, v.player);
    assert(start.actors == fresh);
    assert(actors_within(fresh, m)) by {
        assert forall|k: int| 0 <= k < fresh.len() && (#[trigger] fresh[k]).is_some() implies {
            &&& within(fresh[k].unwrap().position, m)
            &&& (fresh[k].unwrap().destination.is_some() ==> within(
                fresh[k].unwrap().destination.unwrap().0,
                m,
            ))
        } by {}
    }
    lemma_restarted_keeps_wf(v.actors, v.player);
    assert(same_slots(v.actors, fresh)) by {
        assert forall|k: int| 0 <= k < v.actors.len() implies (#[trigger] fresh[k]).is_some()
            == v.actors[k].is_some() by {}
    }
    lemma_fits_same_slots(v.slots, v.actors, fresh, p, m, 0, v.target as int);
    lemma_replay_succeeds_from_checks(start, m, m);
    lemma_outcome_reaches_target(v);
}

/// When a replay that goes on from the current tick does not fail: where
/// every actor and destination lies in a square of radius `r`, every action
/// from the current tick up to the one asked for fits a square of radius `m`
/// within it, and the square, widened by a tick's reach for every tick to be
/// replayed, stays on the grid. The machine then ends at the tick asked for.
pub proof fn lemma_forward_replay_succeeds(v: EditorView, m: int, r: int)
    requires
        view_wf(v),
        v.state == EditingState::Reconciliation,
        v.current <= v.target,
        0 <= m <= r,
        actors_within(v.actors, r),
        slots_fit(v.slots, v.actors, v.player.0 as int, m, v.current as int, v.target as int),
        r + tick_reach() * (v.target - v.current) <= GRID_LIMIT,
    ensures
        outcome(v).1.is_none(),
        outcome(v).0.current == v.target,
        outcome(v).0.state == EditingState::Editing,
{
    let start = reconciled(v);
    assert(stepped(v) == (start, None::<WorldError>));
    assert(outcome(v) == outcome(start));
    lemma_stepped_keeps_wf(v);
    lemma_replay_succeeds_from_checks(start, m, r);
    lemma_outcome_reaches_target(v);
}

} // verus!
