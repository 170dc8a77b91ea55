//! Why a replay can be repeated: what a tick never changes, what a restart
//! forgets, and what pruning leaves behind.

use vstd::prelude::*;
use crate::attack::{checked, checked_slot, ordered};
use crate::editor::{
    caught, checks_done, lemma_outcome_reaches_target, lemma_restarted_keeps_wf,
    lemma_stepped_keeps_wf, outcome, player_position, restarted, stepped, steps_left, view_wf,
    EditorView,
};
use crate::geometry::{EntityId, Position};
use crate::movement::{moved, moved_slot, MovementOrder};
use crate::player::{
    acted, acted_slot, with_modifiers, PlayerAction, PlayerActionEvent, PlayerModifiers,
};
use crate::schedule::{dispatched, simulated, ticked};
use crate::sequence::{moves_to, pruned, redundant_run, Slot};
use crate::state::EditingState;
use crate::world::{
    is_player, lemma_same_players_sole, same_slots, sole_player, ActorKind, Actors, WorldError,
};

verus! {

/// Whether slot `k` holds in `b` the actor it holds in `a`, as far as the cast
/// goes: the same kind, size and way of moving; for the controlled actor in
/// slot `p` the same behavior under a target; for any other actor the same
/// speed, weapon and movement order.
pub open spec fn same_part(a: Actors, b: Actors, p: int, k: int) -> bool {
    &&& a[k].unwrap().kind == b[k].unwrap().kind
    &&& a[k].unwrap().size == b[k].unwrap().size
    &&& a[k].unwrap().movement_type == b[k].unwrap().movement_type
    &&& (k == p ==> a[k].unwrap().under_behavior == b[k].unwrap().under_behavior)
    &&& (k != p ==> {
        &&& a[k].unwrap().speed == b[k].unwrap().speed
        &&& a[k].unwrap().attack_range == b[k].unwrap().attack_range
        &&& a[k].unwrap().attack_speed == b[k].unwrap().attack_speed
        &&& a[k].unwrap().order == b[k].unwrap().order
    })
}

/// Whether two worlds have the same cast: the same slots, and every actor
/// with the same part in both. These are the things that no tick changes.
pub open spec fn same_cast(a: Actors, b: Actors, p: int) -> bool {
    &&& same_slots(a, b)
    &&& forall|k: int| 0 <= k < a.len() && (#[trigger] a[k]).is_some() ==> same_part(a, b, p, k)
}

/// Having the same cast carries over two changes in a row.
pub proof fn lemma_same_cast_chain(a: Actors, b: Actors, c: Actors, p: int)
    requires
        same_cast(a, b, p),
        same_cast(b, c, p),
    ensures
        same_cast(a, c, p),
{
    assert forall|k: int| 0 <= k < a.len() implies (#[trigger] c[k]).is_some()
        == a[k].is_some() by {
        assert(b[k].is_some() == a[k].is_some());
    }
    assert forall|k: int| 0 <= k < a.len() && (#[trigger] a[k]).is_some() implies same_part(
        a,
        c,
        p,
        k,
    ) by {
        assert(b[k].is_some());
        assert(same_part(a, b, p, k));
        assert(same_part(b, c, p, k));
    }
}

/// A restart forgets everything but the cast: two worlds with the same cast
/// and the same one controlled actor start over alike.
pub proof fn lemma_restart_forgets(a: Actors, b: Actors, p: EntityId)
    requires
        same_cast(a, b, p.0 as int),
        sole_player(a, p.0 as int),
    ensures
        restarted(a, p) == restarted(b, p),
{
    assert forall|k: int| 0 <= k < a.len() implies restarted(a, p)[k] == restarted(b, p)[k] by {
        assert(b[k].is_some() == a[k].is_some());
        if a[k].is_some() {
            if a[k].unwrap().kind == ActorKind::Player {
                assert(is_player(a, k));
                assert(k == p.0);
            }
        }
    }
    assert(restarted(a, p) =~= restarted(b, p));
}

/// An action of the controlled actor leaves the cast as it is.
pub proof fn lemma_acted_keeps_cast(actors: Actors, p: int, action: PlayerAction)
    ensures
        same_cast(actors, acted(actors, p, action), p),
{
    let after = acted(actors, p, action);
    assert forall|k: int| 0 <= k < actors.len() implies (#[trigger] after[k]).is_some()
        == actors[k].is_some() by {}
    assert forall|k: int| 0 <= k < actors.len() && (#[trigger] actors[k]).is_some() implies
        same_part(actors, after, p, k) by {
        assert(after[k] == acted_slot(actors, k, p, action));
    }
}

/// Settings of the controlled actor leave the cast as it is.
pub proof fn lemma_with_modifiers_keeps_cast(actors: Actors, p: int, modifiers: PlayerModifiers)
    requires
        is_player(actors, p),
    ensures
        same_cast(actors, with_modifiers(actors, p, modifiers), p),
{
    let after = with_modifiers(actors, p, modifiers);
    assert forall|k: int| 0 <= k < actors.len() implies (#[trigger] after[k]).is_some()
        == actors[k].is_some() by {}
    assert forall|k: int| 0 <= k < actors.len() && (#[trigger] actors[k]).is_some() implies
        same_part(actors, after, p, k) by {}
}

/// The movement pass of the controlled actor leaves the cast as it is.
pub proof fn lemma_ordered_keeps_cast(actors: Actors, p: int)
    requires
        is_player(actors, p),
    ensures
        same_cast(actors, ordered(actors, p), p),
{
    let after = ordered(actors, p);
    assert forall|k: int| 0 <= k < actors.len() implies (#[trigger] after[k]).is_some()
        == actors[k].is_some() by {}
    assert forall|k: int| 0 <= k < actors.len() && (#[trigger] actors[k]).is_some() implies
        same_part(actors, after, p, k) by {}
}

/// A pass of range checks leaves the cast as it is.
pub proof fn lemma_checked_keeps_cast(
    actors: Actors,
    pass: Option<MovementOrder>,
    roll: u64,
    p: int,
)
    ensures
        same_cast(actors, checked(actors, pass, roll), p),
{
    let after = checked(actors, pass, roll);
    assert forall|k: int| 0 <= k < actors.len() implies (#[trigger] after[k]).is_some()
        == actors[k].is_some() by {}
    assert forall|k: int| 0 <= k < actors.len() && (#[trigger] actors[k]).is_some() implies
        same_part(actors, after, p, k) by {
        assert(after[k] == checked_slot(actors, k, pass, roll));
    }
}

/// A movement pass leaves the cast as it is.
pub proof fn lemma_moved_keeps_cast(actors: Actors, pass: MovementOrder, p: int)
    ensures
        same_cast(actors, moved(actors, pass), p),
{
    let after = moved(actors, pass);
    assert forall|k: int| 0 <= k < actors.len() implies (#[trigger] after[k]).is_some()
        == actors[k].is_some() by {}
    assert forall|k: int| 0 <= k < actors.len() && (#[trigger] actors[k]).is_some() implies
        same_part(actors, after, p, k) by {
        assert(after[k] == moved_slot(actors, k, pass));
    }
}

/// A tick that does not fail leaves the cast as it is, however the
/// controlled actor in slot `p` acts and whatever its settings are.
pub proof fn lemma_simulated_keeps_cast(
    actors: Actors,
    p: int,
    event: Option<PlayerActionEvent>,
    modifiers: PlayerModifiers,
    roll: u64,
)
    requires
        simulated(actors, p, event, modifiers, roll).is_ok(),
    ensures
        same_cast(actors, simulated(actors, p, event, modifiers, roll).unwrap(), p),
{
    let a1 = dispatched(actors, p, event).unwrap();
    if event.is_some() {
        lemma_acted_keeps_cast(actors, p, event.unwrap().action);
    }
    let a2 = with_modifiers(a1, p, modifiers);
    lemma_with_modifiers_keeps_cast(a1, p, modifiers);
    let a3 = ordered(a2, p);
    assert(is_player(a2, p));
    lemma_ordered_keeps_cast(a2, p);
    let a4 = checked(a3, Some(MovementOrder::First), roll);
    lemma_checked_keeps_cast(a3, Some(MovementOrder::First), roll, p);
    let a5 = moved(a4, MovementOrder::First);
    lemma_moved_keeps_cast(a4, MovementOrder::First, p);
    let a6 = checked(a5, Some(MovementOrder::Second), roll);
    lemma_checked_keeps_cast(a5, Some(MovementOrder::Second), roll, p);
    let a7 = moved(a6, MovementOrder::Second);
    lemma_moved_keeps_cast(a6, MovementOrder::Second, p);
    assert(ticked(a2, p, roll) == Ok::<Actors, WorldError>(a7));
    lemma_same_cast_chain(actors, a1, a2, p);
    lemma_same_cast_chain(actors, a2, a3, p);
    lemma_same_cast_chain(actors, a3, a4, p);
    lemma_same_cast_chain(actors, a4, a5, p);
    lemma_same_cast_chain(actors, a5, a6, p);
    lemma_same_cast_chain(actors, a6, a7, p);
}

/// Whether a machine is in the middle of a replay: checking a tick or
/// replaying one.
pub open spec fn replaying(v: EditorView) -> bool {
    v.state == EditingState::CatchupChecks || v.state == EditingState::Catchup
}

/// A replay that does not fail ends with the cast it started with.
pub proof fn lemma_outcome_keeps_cast(v: EditorView)
    requires
        view_wf(v),
        replaying(v),
        outcome(v).1.is_none(),
    ensures
        same_cast(v.actors, outcome(v).0.actors, v.player.0 as int),
    decreases steps_left(v),
{
    let p = v.player.0 as int;
    lemma_stepped_keeps_wf(v);
    let next = stepped(v).0;
    assert(stepped(v).1.is_none());
    assert(outcome(v) == outcome(next));
    if v.state == EditingState::Catchup {
        lemma_simulated_keeps_cast(v.actors, p, v.pending, v.modifiers, v.rolls[v.current - 1]);
        lemma_outcome_keeps_cast(next);
        lemma_same_cast_chain(v.actors, next.actors, outcome(v).0.actors, p);
    } else {
        assert(next.actors == v.actors);
        if next.state != EditingState::Editing {
            lemma_outcome_keeps_cast(next);
        }
    }
}

/// Pruning at a tick leaves the slots before that tick as they are, and
/// leaves at that tick no move to the tile on which the controlled actor
/// stands; a second pruning at the same tick changes nothing more.
pub proof fn lemma_pruned_once(slots: Seq<Slot>, current: int, position: Position)
    requires
        0 <= current < slots.len(),
    ensures
        pruned(slots, current, position).len() == slots.len(),
        forall|j: int|
            0 <= j < current ==> #[trigger] pruned(slots, current, position)[j] == slots[j],
        !moves_to(pruned(slots, current, position)[current], position),
{
}

/// Where the slot of a tick holds no move to a tile, pruning at that tick
/// for that tile changes nothing.
pub proof fn lemma_nothing_to_prune(slots: Seq<Slot>, current: int, position: Position)
    requires
        0 <= current < slots.len(),
        !moves_to(slots[current], position),
    ensures
        pruned(slots, current, position) == slots,
{
    assert(redundant_run(slots, current, position) == 0);
    assert(pruned(slots, current, position) =~= slots);
}

/// A replay that does not fail never rewrites the slot of a tick that it has
/// passed; and the slot of the tick that it is checking it leaves as the
/// check of that tick leaves it.
pub proof fn lemma_outcome_keeps_past_slots(v: EditorView)
    requires
        view_wf(v),
        replaying(v),
        outcome(v).1.is_none(),
    ensures
        outcome(v).0.slots.len() == v.slots.len(),
        forall|j: int| 0 <= j < v.current ==> #[trigger] outcome(v).0.slots[j] == v.slots[j],
        v.state == EditingState::CatchupChecks ==> outcome(v).0.slots[v.current as int] == pruned(
            v.slots,
            v.current as int,
            player_position(v),
        )[v.current as int],
    decreases steps_left(v),
{
    lemma_stepped_keeps_wf(v);
    let next = stepped(v).0;
    assert(stepped(v).1.is_none());
    assert(outcome(v) == outcome(next));
    if v.state == EditingState::Catchup {
        assert(next.slots == v.slots);
        lemma_outcome_keeps_past_slots(next);
    } else {
        lemma_pruned_once(v.slots, v.current as int, player_position(v));
        if next.state != EditingState::Editing {
            lemma_outcome_keeps_past_slots(next);
        }
    }
}

/// A replay over the slots that an earlier replay of the same ticks has left
/// behind goes the way the earlier one went and rewrites nothing: two
/// machines that check the same tick with the same actors, the second over
/// the slots with which the first one ends, end alike.
pub proof fn lemma_replay_over_final_slots(first: EditorView, second: EditorView)
    requires
        view_wf(first),
        view_wf(second),
        first.state == EditingState::CatchupChecks,
        second.state == EditingState::CatchupChecks,
        second.current == first.current,
        second.target == first.target,
        second.rolls == first.rolls,
        second.player == first.player,
        second.actors == first.actors,
        outcome(first).1.is_none(),
        second.slots == outcome(first).0.slots,
    ensures
        outcome(second) == outcome(first),
    decreases steps_left(first),
{
    let c = first.current as int;
    let position = player_position(first);
    lemma_outcome_keeps_past_slots(first);
    lemma_pruned_once(first.slots, c, position);
    lemma_nothing_to_prune(second.slots, c, position);
    let d1 = checks_done(first);
    let d2 = checks_done(second);
    assert(stepped(first) == (d1, None::<WorldError>));
    assert(stepped(second) == (d2, None::<WorldError>));
    assert(outcome(first) == outcome(d1));
    assert(outcome(second) == outcome(d2));
    assert(d2.slots == second.slots);
    assert(d1.slots[c] == second.slots[c]);
    if first.current >= first.target {
        assert(outcome(d1) == (d1, None::<WorldError>));
        assert(outcome(d2) == (d2, None::<WorldError>));
        assert(d1.slots == second.slots);
        assert(d1 == d2);
    } else {
        lemma_stepped_keeps_wf(first);
        lemma_stepped_keeps_wf(second);
        assert(d1.pending == d2.pending);
        assert(d1.modifiers == d2.modifiers);
        let n1 = caught(d1);
        let n2 = caught(d2);
        assert(stepped(d1) == n1);
        assert(stepped(d2) == n2);
        assert(n1.1.is_none());
        assert(n2.1.is_none());
        assert(outcome(d1) == outcome(n1.0));
        assert(outcome(d2) == outcome(n2.0));
        lemma_stepped_keeps_wf(d1);
        lemma_stepped_keeps_wf(d2);
        assert(n2.0.slots == second.slots);
        lemma_replay_over_final_slots(n1.0, n2.0);
    }
}

/// A machine as it is when a replay starts over: the actors where they
/// start, the current tick 0, the action of tick 0 sent out, the checks of
/// tick 0 next.
pub open spec fn started_over(v: EditorView) -> EditorView {
    EditorView {
        actors: restarted(v.actors, v.player),
        current: 0,
        pending: Some(PlayerActionEvent { action: v.slots[0].0 }),
        state: EditingState::CatchupChecks,
        ..v
    }
}

/// A machine in `Reconciliation` that is ahead of the tick asked for starts
/// over.
pub proof fn lemma_reconciliation_starts_over(v: EditorView)
    requires
        v.state == EditingState::Reconciliation,
        v.current > v.target,
    ensures
        outcome(v) == outcome(started_over(v)),
{
    assert(stepped(v) == (started_over(v), None::<WorldError>));
}

/// A replay can be repeated. Where a replay that starts over does not fail,
/// a second one, started over from where the first has ended and run for the
/// same tick, ends exactly where the first has: with the same actors on the
/// same tiles and the same slots, none of them rewritten again.
pub proof fn lemma_replay_is_repeatable(v: EditorView)
    requires
        view_wf(v),
        outcome(started_over(v)).1.is_none(),
    ensures
        outcome(started_over(outcome(started_over(v)).0)) == outcome(started_over(v)),
{
    let p = v.player;
    let w1 = started_over(v);
    lemma_restarted_keeps_wf(v.actors, p);
    lemma_same_players_sole(v.actors, w1.actors, p.0 as int);
    assert(view_wf(w1));
    let end = outcome(w1).0;
    lemma_outcome_reaches_target(w1);
    lemma_outcome_keeps_cast(w1);
    lemma_outcome_keeps_past_slots(w1);
    let w2 = started_over(end);
    lemma_restart_forgets(w1.actors, end.actors, p);
    assert(restarted(w1.actors, p) =~= w1.actors);
    assert(w2.actors == w1.actors);
    assert(w2.slots == end.slots);
    assert(view_wf(w2));
    lemma_replay_over_final_slots(w1, w2);
}

/// How a replay ends: the actors and the slots it leaves, the tick it has
/// reached, and the error that stopped it there, if one did.
pub struct Replay {
    pub actors: Actors,
    pub slots: Seq<Slot>,
    pub tick: nat,
    pub error: Option<WorldError>,
}

/// The tile on which the actor in slot `p` stands.
pub open spec fn standing(actors: Actors, p: EntityId) -> Position {
    actors[p.0 as int].unwrap().position
}

/// A replay from the checks of tick `tick` up to the tick `target`, tick by
/// tick. At each tick the moves that lead to where the controlled actor
/// already stands are rewritten to idle, from that tick on. Short of the
/// target, the controlled actor then takes the action of the tick, under
/// the settings of the tick, one tick passes with the roll of the tick, and
/// the replay goes on from the next tick; it stops where that fails.
pub open spec fn replayed(
    actors: Actors,
    slots: Seq<Slot>,
    rolls: Seq<u64>,
    p: EntityId,
    tick: nat,
    target: nat,
) -> Replay
    decreases target - tick,
{
    let checked_slots = pruned(slots, tick as int, standing(actors, p));
    if tick >= target {
        Replay { actors, slots: checked_slots, tick, error: None }
    } else {
        match simulated(
            actors,
            p.0 as int,
            Some(PlayerActionEvent { action: checked_slots[tick as int].0 }),
            checked_slots[tick as int].1,
            rolls[tick as int],
        ) {
            Err(e) => Replay { actors, slots: checked_slots, tick, error: Some(e) },
            Ok(next) => replayed(next, checked_slots, rolls, p, tick + 1, target),
        }
    }
}

/// The replay, tick by tick, from the tick that a machine is at up to the
/// tick asked for.
pub open spec fn replay_of(v: EditorView) -> Replay {
    replayed(v.actors, v.slots, v.rolls, v.player, v.current, v.target)
}

/// The state machine replays tick by tick: from the checks of a tick it
/// ends in `Editing` with the actors and slots of `replayed`, at the tick
/// asked for, or, stopped by an error, at the tick that failed, which is
/// then also the tick asked for.
pub proof fn lemma_outcome_is_replayed(v: EditorView)
    requires
        view_wf(v),
        v.state == EditingState::CatchupChecks,
    ensures
        outcome(v).0.actors == replay_of(v).actors,
        outcome(v).0.slots == replay_of(v).slots,
        outcome(v).0.current == replay_of(v).tick,
        outcome(v).1 == replay_of(v).error,
        outcome(v).0.state == EditingState::Editing,
        outcome(v).0.target == (if outcome(v).1.is_some() {
            outcome(v).0.current
        } else {
            v.target
        }),
    decreases steps_left(v),
{
    let done = checks_done(v);
    assert(stepped(v) == (done, None::<WorldError>));
    assert(outcome(v) == outcome(done));
    lemma_stepped_keeps_wf(v);
    let replay = replay_of(v);
    let slots = pruned(v.slots, v.current as int, standing(v.actors, v.player));
    assert(done.slots == slots);
    if v.current < v.target {
        let sent = Some(PlayerActionEvent { action: slots[v.current as int].0 });
        let result = simulated(
            v.actors,
            v.player.0 as int,
            sent,
            slots[v.current as int].1,
            v.rolls[v.current as int],
        );
        assert(done.pending == sent);
        assert(done.modifiers == slots[v.current as int].1);
        assert(done.current == v.current + 1);
        let next = caught(done);
        assert(stepped(done) == next);
        lemma_stepped_keeps_wf(done);
        match result {
            Ok(actors) => {
                assert(next.1.is_none());
                assert(next.0.actors == actors);
                assert(outcome(done) == outcome(next.0));
                assert(replay == replayed(
                    actors,
                    slots,
                    v.rolls,
                    v.player,
                    v.current + 1,
                    v.target,
                ));
                lemma_outcome_is_replayed(next.0);
            },
            Err(e) => {
                assert(next.1 == Some(e));
                assert(outcome(done) == next);
                assert(replay == (Replay {
                    actors: v.actors,
                    slots,
                    tick: v.current,
                    error: Some(e),
                }));
            },
        }
    } else {
        assert(outcome(done) == (done, None::<WorldError>));
        assert(replay == (Replay { actors: v.actors, slots, tick: v.current, error: None }));
    }
}

} // verus!
