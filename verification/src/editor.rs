//! The editor: a world, the sequence recorded for its controlled actor, and
//! the state machine that replays the sequence whenever the simulation is
//! not at the tick the editor wants to look at.

use vstd::prelude::*;
use crate::attack::{
    check_failure, check_in_range, checked, lemma_checked_keeps_wf, AttackRange, AttackSpeed,
    Target, TargetUnderBehavior,
};
use crate::movement::{MovementType, Speed};
use crate::geometry::{EntityId, Position};
use crate::npc::{fresh_npc, spawn_npc, Npc, Size};
use crate::player::{
    fresh_player, lemma_acted_keeps_wf, lemma_with_modifiers_keeps_wf, spawn_player,
    update_action, update_modifiers, with_modifiers, PlayerAction, PlayerActionEvent,
    PlayerModifiers,
};
use crate::replay::{lemma_outcome_is_replayed, replayed};
use crate::schedule::{
    dispatched, lemma_dispatched_keeps_wf, lemma_simulated_keeps_wf, simulate_tick, simulated,
};
use crate::sequence::{initial_slots, pruned, ActionSequence, Slot};
use crate::state::EditingState;
use crate::world::{
    actors_wf, is_player, lemma_change_keeps_wf, lemma_same_kinds_same_players,
    lemma_same_players_chain, lemma_same_players_sole, player_refusal, same_players, slot_sound_in,
    sole_player, Actor, ActorKind, Actors, World, WorldError,
};

verus! {

/// A world with its sequence and the state machine between them.
#[derive(Debug)]
pub struct Editor {
    pub world: World,
    pub sequence: ActionSequence,
    pub state: EditingState,
    /// The controlled actor.
    pub player: EntityId,
    /// The settings in effect.
    pub modifiers: PlayerModifiers,
    /// The action that was sent out last and has not been taken yet.
    pub pending: Option<PlayerActionEvent>,
}

/// An editor as mathematics: what its state machine reads and writes.
pub struct EditorView {
    pub actors: Actors,
    pub slots: Seq<Slot>,
    pub rolls: Seq<u64>,
    pub current: nat,
    pub target: nat,
    pub state: EditingState,
    pub player: EntityId,
    pub modifiers: PlayerModifiers,
    pub pending: Option<PlayerActionEvent>,
}

/// The actors as a replay finds them when it starts over. The controlled
/// actor is at the origin, with the speed and weapon it entered the world
/// with, no movement order, no destination and no target. Every other actor
/// is at (1,1), attacks the controlled one, and has neither a destination
/// nor a behavior for standing under its target: it is told one with the
/// first action that the controlled actor takes.
pub open spec fn restarted(actors: Actors, p: EntityId) -> Actors {
    Seq::new(
        actors.len(),
        |k: int|
            if actors[k].is_none() {
                None
            } else if actors[k].unwrap().kind == ActorKind::Player {
                Some(
                    Actor {
                        position: Position { x: 0, y: 0 },
                        speed: Speed(2),
                        attack_range: AttackRange(1),
                        attack_speed: Some(AttackSpeed(4)),
                        order: None,
                        destination: None,
                        target: None,
                        ..actors[k].unwrap()
                    },
                )
            } else {
                Some(
                    Actor {
                        position: Position { x: 1, y: 1 },
                        under_behavior: None,
                        destination: None,
                        target: Some(Target(p)),
                        ..actors[k].unwrap()
                    },
                )
            },
    )
}

/// Starting over keeps the world sound and the controlled actor what it is.
pub proof fn lemma_restarted_keeps_wf(actors: Actors, p: EntityId)
    requires
        actors_wf(actors),
        is_player(actors, p.0 as int),
    ensures
        actors_wf(restarted(actors, p)),
        restarted(actors, p).len() == actors.len(),
        is_player(restarted(actors, p), p.0 as int),
        same_players(actors, restarted(actors, p)),
{
    let after = restarted(actors, p);
    assert forall|k: int| 0 <= k < after.len() && (#[trigger] after[k]).is_some() implies
        after[k].unwrap().kind == actors[k].unwrap().kind by {
        assert(actors[k].is_some());
    }
    assert forall|k: int| 0 <= k < after.len() && (#[trigger] after[k]).is_some() implies
        slot_sound_in(actors, after, k) by {
        assert(actors[k].is_some());
    }
    lemma_change_keeps_wf(actors, after);
    lemma_same_kinds_same_players(actors, after);
}

/// Whether a view is sound: the actors are, the controlled actor is the one,
/// there is a roll for every slot, both ticks name a slot, and a tick being
/// replayed has a tick before it.
pub open spec fn view_wf(v: EditorView) -> bool {
    &&& actors_wf(v.actors)
    &&& sole_player(v.actors, v.player.0 as int)
    &&& v.slots.len() >= 1
    &&& v.rolls.len() == v.slots.len()
    &&& v.current < v.slots.len()
    &&& v.target < v.slots.len()
    &&& (v.state == EditingState::Catchup ==> v.current >= 1)
}

/// The action that a round of editing records: the one that came in, or
/// else the one that was pending, or else the one recorded already.
pub open spec fn recorded_action(v: EditorView, input: Option<PlayerActionEvent>) -> PlayerAction {
    match input {
        Some(sent) => sent.action,
        None => match v.pending {
            Some(sent) => sent.action,
            None => v.slots[v.current as int].0,
        },
    }
}

/// The editor after one round of editing with the given input and settings,
/// or the error that refused it.
pub open spec fn edited(
    v: EditorView,
    input: Option<PlayerActionEvent>,
    modifiers: PlayerModifiers,
) -> Result<EditorView, WorldError> {
    let p = v.player.0 as int;
    match dispatched(v.actors, p, v.pending) {
        Err(e) => Err(e),
        Ok(first) => match dispatched(first, p, input) {
            Err(e) => Err(e),
            Ok(second) => if player_refusal(second, p).is_some() {
                Err(player_refusal(second, p).unwrap())
            } else if check_failure(
                with_modifiers(second, p, modifiers),
                None,
                v.rolls[v.current as int],
            ).is_some() {
                Err(
                    check_failure(
                        with_modifiers(second, p, modifiers),
                        None,
                        v.rolls[v.current as int],
                    ).unwrap(),
                )
            } else {
                Ok(
                    EditorView {
                        actors: checked(
                            with_modifiers(second, p, modifiers),
                            None,
                            v.rolls[v.current as int],
                        ),
                        slots: v.slots.update(
                            v.current as int,
                            (recorded_action(v, input), modifiers),
                        ),
                        modifiers,
                        pending: None,
                        state: if v.current != v.target {
                            EditingState::Reconciliation
                        } else {
                            EditingState::Editing
                        },
                        ..v
                    },
                )
            },
        },
    }
}

/// The tile on which the controlled actor stands.
pub open spec fn player_position(v: EditorView) -> Position {
    v.actors[v.player.0 as int].unwrap().position
}

/// The step out of `Reconciliation`: on to the checks of the current tick.
/// Where the simulation is ahead of the tick asked for, the actors first go
/// back to where they start and the current tick to 0: a replay only ever
/// runs forward.
pub open spec fn reconciled(v: EditorView) -> EditorView {
    if v.current > v.target {
        EditorView {
            actors: restarted(v.actors, v.player),
            current: 0,
            pending: Some(PlayerActionEvent { action: v.slots[0].0 }),
            state: EditingState::CatchupChecks,
            ..v
        }
    } else {
        EditorView { state: EditingState::CatchupChecks, ..v }
    }
}

/// The step out of `CatchupChecks`: moves that have become redundant are
/// rewritten, the action and settings of the current tick are sent out, and
/// the machine goes on to replay that tick, or back to `Editing` where the
/// tick asked for is reached.
pub open spec fn checks_done(v: EditorView) -> EditorView {
    let slots = pruned(v.slots, v.current as int, player_position(v));
    let sent = EditorView {
        slots,
        pending: Some(PlayerActionEvent { action: slots[v.current as int].0 }),
        modifiers: slots[v.current as int].1,
        ..v
    };
    if v.current >= v.target {
        EditorView { state: EditingState::Editing, ..sent }
    } else {
        EditorView { state: EditingState::Catchup, current: v.current + 1, ..sent }
    }
}

/// The step out of `Catchup`: the tick before the current one is replayed
/// with the action that was sent out, and its checks come next. Where the
/// replay fails, the machine stops there instead: back in `Editing`, at the
/// tick that failed, with the world as it was before that tick.
pub open spec fn caught(v: EditorView) -> (EditorView, Option<WorldError>) {
    match simulated(
        v.actors,
        v.player.0 as int,
        v.pending,
        v.modifiers,
        v.rolls[v.current - 1],
    ) {
        Ok(actors) => (
            EditorView { actors, pending: None, state: EditingState::CatchupChecks, ..v },
            None,
        ),
        Err(e) => (
            EditorView {
                state: EditingState::Editing,
                current: (v.current - 1) as nat,
                target: (v.current - 1) as nat,
                pending: None,
                ..v
            },
            Some(e),
        ),
    }
}

/// One step of the state machine, with the error that stopped a replay, if
/// one did. In `Editing` the machine leaves for `Reconciliation` as soon as
/// the current tick is not the one asked for.
pub open spec fn stepped(v: EditorView) -> (EditorView, Option<WorldError>) {
    match v.state {
        EditingState::Editing => (
            if v.current != v.target {
                EditorView { state: EditingState::Reconciliation, ..v }
            } else {
                v
            },
            None,
        ),
        EditingState::Reconciliation => (reconciled(v), None),
        EditingState::CatchupChecks => (checks_done(v), None),
        EditingState::Catchup => caught(v),
    }
}

/// An upper bound on the steps that the machine takes before it is back in
/// `Editing`.
pub open spec fn steps_left(v: EditorView) -> nat {
    match v.state {
        EditingState::Editing => 0,
        EditingState::Reconciliation => 2 * v.target + 3,
        EditingState::CatchupChecks => if v.current < v.target {
            (2 * (v.target - v.current) + 1) as nat
        } else {
            1
        },
        EditingState::Catchup => if v.current <= v.target {
            (2 * (v.target - v.current) + 2) as nat
        } else {
            2
        },
    }
}

/// Where the machine is when it is next in `Editing`, with the error that
/// stopped the replay, if one did.
pub open spec fn outcome(v: EditorView) -> (EditorView, Option<WorldError>)
    decreases steps_left(v),
{
    if v.state == EditingState::Editing {
        (v, None)
    } else {
        let next = stepped(v);
        if next.1.is_some() {
            next
        } else {
            outcome(next.0)
        }
    }
}

/// The tick from which the ticks of a replay are counted: the tick that the
/// simulation is at when the replay takes its first step forward.
pub open spec fn replay_base(v: EditorView) -> nat {
    match v.state {
        EditingState::Editing => v.current,
        EditingState::Reconciliation => if v.current > v.target {
            0
        } else {
            v.current
        },
        EditingState::CatchupChecks => v.current,
        EditingState::Catchup => (v.current - 1) as nat,
    }
}

/// Whether a replay that starts in `Reconciliation` ends as the replay tick
/// by tick from where the reconciliation leaves the machine.
pub open spec fn replays_tick_by_tick(v: EditorView) -> bool {
    v.state == EditingState::Reconciliation ==> {
        let start = reconciled(v);
        let replay = replayed(
            start.actors,
            start.slots,
            start.rolls,
            start.player,
            start.current,
            start.target,
        );
        &&& outcome(v).0.actors == replay.actors
        &&& outcome(v).0.slots == replay.slots
        &&& outcome(v).0.current == replay.tick
        &&& outcome(v).1 == replay.error
    }
}

/// A replay that starts in `Reconciliation` is the replay tick by tick.
pub proof fn lemma_reconciliation_replays(v: EditorView)
    requires
        view_wf(v),
    ensures
        replays_tick_by_tick(v),
{
    if v.state == EditingState::Reconciliation {
        lemma_stepped_keeps_wf(v);
        assert(stepped(v) == (reconciled(v), None::<WorldError>));
        assert(outcome(v) == outcome(reconciled(v)));
        lemma_outcome_is_replayed(reconciled(v));
    }
}

/// What a step does to a sound machine that is not in `Editing`: it brings
/// the machine closer to `Editing`; it leaves the outcome as it is; and it
/// moves the tick from which the replay counts forward by one exactly when
/// it replays a tick and does not fail.
pub proof fn lemma_step_advances(v: EditorView)
    requires
        view_wf(v),
        v.state != EditingState::Editing,
    ensures
        view_wf(stepped(v).0),
        stepped(v).1.is_none() ==> steps_left(stepped(v).0) < steps_left(v),
        stepped(v).1.is_none() ==> outcome(v) == outcome(stepped(v).0),
        stepped(v).1.is_some() ==> outcome(v) == stepped(v),
        stepped(v).1.is_some() ==> stepped(v).0.state == EditingState::Editing,
        stepped(v).1.is_none() ==> replay_base(stepped(v).0) == replay_base(v) + (if v.state
            == EditingState::Catchup {
            1nat
        } else {
            0nat
        }),
        replay_base(v) <= v.current,
{
    lemma_stepped_keeps_wf(v);
}

/// A step of a sound machine leaves it sound.
pub proof fn lemma_stepped_keeps_wf(v: EditorView)
    requires
        view_wf(v),
    ensures
        view_wf(stepped(v).0),
        stepped(v).0.rolls == v.rolls,
        stepped(v).0.player == v.player,
        stepped(v).0.slots.len() == v.slots.len(),
{
    match v.state {
        EditingState::Editing => {},
        EditingState::Reconciliation => {
            if v.current > v.target {
                lemma_restarted_keeps_wf(v.actors, v.player);
                lemma_same_players_sole(v.actors, restarted(v.actors, v.player), v.player.0 as int);
            }
        },
        EditingState::CatchupChecks => {},
        EditingState::Catchup => {
            let r = simulated(
                v.actors,
                v.player.0 as int,
                v.pending,
                v.modifiers,
                v.rolls[v.current - 1],
            );
            if r.is_ok() {
                lemma_simulated_keeps_wf(
                    v.actors,
                    v.player.0 as int,
                    v.pending,
                    v.modifiers,
                    v.rolls[v.current - 1],
                );
                lemma_same_players_sole(v.actors, r.unwrap(), v.player.0 as int);
            }
        },
    }
}

/// Whatever state a sound machine is in, it is back in `Editing` after
/// finitely many steps. A replay that starts in `Reconciliation`, or is
/// under way and not past the tick asked for, ends at that tick unless it
/// fails; one that fails ends at the tick that failed, before the tick asked
/// for.
pub proof fn lemma_outcome_reaches_target(v: EditorView)
    requires
        view_wf(v),
    ensures
        outcome(v).0.state == EditingState::Editing,
        view_wf(outcome(v).0),
        outcome(v).0.rolls == v.rolls,
        outcome(v).0.player == v.player,
        (v.state == EditingState::Reconciliation || ((v.state == EditingState::CatchupChecks
            || v.state == EditingState::Catchup) && v.current <= v.target)) ==> {
            &&& outcome(v).1.is_none() ==> outcome(v).0.current == v.target
            &&& outcome(v).1.is_some() ==> outcome(v).0.current < v.target
        },
        outcome(v).1.is_none() ==> outcome(v).0.target == v.target,
    decreases steps_left(v),
{
    if v.state != EditingState::Editing {
        lemma_stepped_keeps_wf(v);
        let next = stepped(v);
        if next.1.is_none() {
            lemma_outcome_reaches_target(next.0);
        }
    }
}

/// Whether a replay that starts in `Reconciliation` ends between the tick it
/// starts from and the tick asked for, at the tick that is then asked for,
/// and at the tick first asked for exactly when nothing has stopped it.
pub open spec fn ends_at_target(v: EditorView) -> bool {
    v.state == EditingState::Reconciliation ==> {
        &&& replay_base(v) <= outcome(v).0.current <= v.target
        &&& outcome(v).0.current == outcome(v).0.target
        &&& (outcome(v).1.is_none() <==> outcome(v).0.current == v.target)
    }
}

/// A replay always ends. A sound machine in `Reconciliation` is back in
/// `Editing` after finitely many steps, having replayed no more ticks than
/// lie between the tick it starts from and the tick asked for. It has
/// replayed all of them, and stands at the tick asked for, exactly when no
/// tick has failed; a tick that fails stops the replay at that tick.
pub proof fn lemma_catchup_terminates(v: EditorView)
    requires
        view_wf(v),
        v.state == EditingState::Reconciliation,
    ensures
        outcome(v).0.state == EditingState::Editing,
        replay_base(v) <= outcome(v).0.current <= v.target,
        outcome(v).0.current - replay_base(v) <= v.target - replay_base(v),
        outcome(v).1.is_none() <==> outcome(v).0.current == v.target,
        outcome(v).0.current == outcome(v).0.target,
{
    lemma_outcome_reaches_target(v);
    lemma_outcome_from_base(v);
}

/// A replay never ends before the tick it starts from, and it ends at the
/// tick that is then asked for.
pub proof fn lemma_outcome_from_base(v: EditorView)
    requires
        view_wf(v),
        v.state == EditingState::Reconciliation || ((v.state == EditingState::CatchupChecks
            || v.state == EditingState::Catchup) && v.current <= v.target),
    ensures
        replay_base(v) <= outcome(v).0.current,
        outcome(v).0.current == outcome(v).0.target,
    decreases steps_left(v),
{
    lemma_step_advances(v);
    let next = stepped(v);
    if next.1.is_none() {
        if next.0.state != EditingState::Editing {
            lemma_outcome_from_base(next.0);
        } else {
            assert(outcome(next.0) == (next.0, None::<WorldError>));
        }
    }
}

/// A replay is determined by what it starts from. Two replays that start
/// over, for the same tick, over the same slots and rolls, with actors that
/// stand alike once they are back where they start, end with the same
/// actors, the same slots, at the same tick, and fail alike if they fail.
/// Neither the settings in effect nor an action left pending when the replay
/// starts has any part in it.
pub proof fn lemma_replay_deterministic(a: EditorView, b: EditorView)
    requires
        a.state == EditingState::Reconciliation,
        b.state == EditingState::Reconciliation,
        a.current > a.target,
        b.current > b.target,
        a.target == b.target,
        a.slots == b.slots,
        a.rolls == b.rolls,
        a.player == b.player,
        restarted(a.actors, a.player) == restarted(b.actors, b.player),
    ensures
        outcome(a).0 == outcome(b).0,
        outcome(a).1 == outcome(b).1,
{
    let ra = reconciled(a);
    let rb = reconciled(b);
    assert(stepped(a) == (ra, None::<WorldError>));
    assert(stepped(b) == (rb, None::<WorldError>));
    assert(outcome(a) == outcome(ra));
    assert(outcome(b) == outcome(rb));
    let ca = checks_done(ra);
    let cb = checks_done(rb);
    assert(stepped(ra) == (ca, None::<WorldError>));
    assert(stepped(rb) == (cb, None::<WorldError>));
    assert(player_position(ra) == player_position(rb));
    assert(ca == cb);
    assert(outcome(ra) == outcome(ca));
    assert(outcome(rb) == outcome(cb));
}

/// Puts every actor where it stands when a replay starts over.
pub fn restart_world(world: &mut World, player: EntityId)
    requires
        old(world).wf(),
        is_player(old(world)@, player.0 as int),
    ensures
        final(world).wf(),
        final(world).labels == old(world).labels,
        final(world)@ == restarted(old(world)@, player),
{
    let len: usize = world.actors.len();
    let mut k: usize = 0;
    while k < len
        invariant
            k <= len,
            len == world@.len(),
            len == old(world)@.len(),
            world.labels == old(world).labels,
            forall|j: int|
                0 <= j < k ==> #[trigger] world@[j] == restarted(old(world)@, player)[j],
            forall|j: int| k <= j < len ==> #[trigger] world@[j] == old(world)@[j],
        decreases len - k,
    {
        match world.actors[k] {
            Some(actor) => {
                let mut updated: Actor = actor;
                updated.destination = None;
                match actor.kind {
                    ActorKind::Player => {
                        updated.position = Position::origin();
                        updated.speed = Speed(2);
                        updated.attack_range = AttackRange(1);
                        updated.attack_speed = Some(AttackSpeed(4));
                        updated.order = None;
                        updated.target = None;
                    },
                    ActorKind::Npc => {
                        updated.position = Position::new(1, 1);
                        updated.under_behavior = None;
                        updated.target = Some(Target(player));
                    },
                }
                world.actors.set(k, Some(updated));
            },
            None => {},
        }
        k = k + 1;
    }
    proof {
        assert(world@ =~= restarted(old(world)@, player));
        lemma_restarted_keeps_wf(old(world)@, player);
    }
    world.reindex();
}

impl Editor {
    /// The editor as mathematics.
    pub open spec fn view(&self) -> EditorView {
        EditorView {
            actors: self.world@,
            slots: self.sequence.slots(),
            rolls: self.sequence.rolls(),
            current: self.sequence.current_tick as nat,
            target: self.sequence.target_tick as nat,
            state: self.state,
            player: self.player,
            modifiers: self.modifiers,
            pending: self.pending,
        }
    }

    /// What no step of the machine touches: the labels of the actors and the
    /// seed of the rolls.
    pub open spec fn fixed(&self) -> (Seq<Option<Npc>>, u64) {
        (self.world.labels@, self.sequence.seed)
    }

    /// Whether the editor is sound: its world and its sequence are, its
    /// controlled actor is the only one, and a tick being replayed has a tick
    /// before it.
    pub open spec fn wf(&self) -> bool {
        &&& self.world.wf()
        &&& self.sequence.wf()
        &&& view_wf(self@)
    }

    /// Tests whether the editor is sound.
    pub fn is_sound(&self) -> (b: bool)
        ensures
            b == self.wf(),
    {
        if !self.world.is_sound() || !self.sequence.is_sound() {
            return false;
        }
        match self.world.player_id() {
            Ok(id) => {
                if id.0 != self.player.0 {
                    return false;
                }
            },
            Err(_) => {
                return false;
            },
        }
        match self.state {
            EditingState::Catchup => self.sequence.current_tick >= 1,
            _ => true,
        }
    }

    /// An editor over a world that holds a controlled actor and nothing
    /// else, with a sequence of one idle tick whose rolls come from the given
    /// seed.
    pub fn new(seed: u64) -> (e: Editor)
        ensures
            e.wf(),
            e@.actors == seq![Some(fresh_player())],
            e@.slots == initial_slots(),
            e@.current == 0,
            e@.target == 0,
            e@.state == EditingState::Editing,
            e@.player == EntityId(0),
            e@.pending.is_none(),
    {
        let mut world = World::new();
        let player = spawn_player(&mut world);
        assert(world@ =~= seq![Some(fresh_player())]);
        Editor {
            world,
            sequence: ActionSequence::with_seed(seed),
            state: EditingState::Editing,
            player,
            modifiers: PlayerModifiers::default(),
            pending: None,
        }
    }

    /// Leaves `Editing` for `Reconciliation` where the simulation is not at
    /// the tick asked for. In any other state nothing happens.
    pub fn check_target_tick(&mut self)
        requires
            old(self).wf(),
        ensures
            final(self).wf(),
            final(self).fixed() == old(self).fixed(),
            old(self)@.state == EditingState::Editing ==> final(self)@ == stepped(old(self)@).0,
            old(self)@.state != EditingState::Editing ==> final(self)@ == old(self)@,
    {
        match self.state {
            EditingState::Editing => {
                if self.sequence.check_target_tick() {
                    self.state = EditingState::Reconciliation;
                }
            },
            _ => {},
        }
    }

    /// Starts the replay over: the actors go back to where they start, the
    /// current tick to 0, and the action of tick 0 is sent out.
    pub fn restart(&mut self)
        requires
            old(self).wf(),
            old(self)@.state != EditingState::Catchup,
        ensures
            final(self).wf(),
            final(self).fixed() == old(self).fixed(),
            final(self)@ == (EditorView {
                actors: restarted(old(self)@.actors, old(self)@.player),
                current: 0,
                pending: Some(PlayerActionEvent { action: old(self)@.slots[0].0 }),
                ..old(self)@
            }),
    {
        restart_world(&mut self.world, self.player);
        self.pending = Some(PlayerActionEvent { action: self.sequence.sequence[0].0 });
        self.sequence.current_tick = 0;
        proof {
            lemma_restarted_keeps_wf(old(self)@.actors, old(self)@.player);
            lemma_same_players_sole(old(self)@.actors, self@.actors, self.player.0 as int);
        }
    }

    /// Sets the machine up for a replay. A replay only ever runs forward:
    /// where the simulation is ahead of the tick asked for, it starts over
    /// from tick 0; where it is at that tick or behind it, nothing changes
    /// and the replay goes on from the current tick.
    pub fn setup_sequence(&mut self)
        requires
            old(self).wf(),
            old(self)@.state != EditingState::Catchup,
        ensures
            final(self).wf(),
            final(self).fixed() == old(self).fixed(),
            final(self)@ == (if old(self)@.current > old(self)@.target {
                EditorView {
                    actors: restarted(old(self)@.actors, old(self)@.player),
                    current: 0,
                    pending: Some(PlayerActionEvent { action: old(self)@.slots[0].0 }),
                    ..old(self)@
                }
            } else {
                old(self)@
            }),
    {
        if self.sequence.current_tick > self.sequence.target_tick {
            self.restart();
        }
    }

    /// The step out of `Reconciliation`: the machine is set up for the
    /// replay and goes on to the checks of the tick it is then at.
    pub fn reconcile(&mut self)
        requires
            old(self).wf(),
            old(self)@.state == EditingState::Reconciliation,
        ensures
            final(self).wf(),
            final(self).fixed() == old(self).fixed(),
            final(self)@ == reconciled(old(self)@),
    {
        self.setup_sequence();
        self.state = EditingState::CatchupChecks;
    }

    /// Rewrites to idle the moves, from the current tick on, that lead to
    /// the tile on which the controlled actor already stands. Returns how
    /// many slots were rewritten.
    pub fn check_redundancies(&mut self) -> (rewritten: usize)
        requires
            old(self).wf(),
        ensures
            final(self).wf(),
            final(self).fixed() == old(self).fixed(),
            final(self)@ == (EditorView {
                slots: pruned(
                    old(self)@.slots,
                    old(self)@.current as int,
                    player_position(old(self)@),
                ),
                ..old(self)@
            }),
            rewritten <= old(self)@.slots.len() - old(self)@.current,
    {
        let position: Position = self.world.actors[self.player.0].unwrap().position;
        self.sequence.check_redundancies(position)
    }

    /// Sends out the action of the current tick and puts its settings into
    /// effect.
    pub fn send_actions(&mut self)
        requires
            old(self).wf(),
        ensures
            final(self).wf(),
            final(self).fixed() == old(self).fixed(),
            final(self)@ == (EditorView {
                pending: Some(
                    PlayerActionEvent { action: old(self)@.slots[old(self)@.current as int].0 },
                ),
                modifiers: old(self)@.slots[old(self)@.current as int].1,
                ..old(self)@
            }),
    {
        let slot: Slot = self.sequence.current_slot();
        self.modifiers = slot.1;
        self.pending = Some(PlayerActionEvent { action: slot.0 });
    }

    /// Decides where the machine goes after the checks of a tick: back to
    /// `Editing` where the tick asked for is reached, or else on to the
    /// replay of the current tick, which ends at the next.
    pub fn transition_check(&mut self)
        requires
            old(self).wf(),
        ensures
            final(self).wf(),
            final(self).fixed() == old(self).fixed(),
            final(self)@ == (if old(self)@.current >= old(self)@.target {
                EditorView { state: EditingState::Editing, ..old(self)@ }
            } else {
                EditorView {
                    state: EditingState::Catchup,
                    current: old(self)@.current + 1,
                    ..old(self)@
                }
            }),
    {
        if self.sequence.current_tick >= self.sequence.target_tick {
            self.state = EditingState::Editing;
        } else {
            self.state = EditingState::Catchup;
            self.sequence.current_tick = self.sequence.current_tick + 1;
        }
    }

    /// The step out of `CatchupChecks`: redundancy check, sending out the
    /// tick's action, and the transition.
    pub fn catchup_checks(&mut self)
        requires
            old(self).wf(),
            old(self)@.state == EditingState::CatchupChecks,
        ensures
            final(self).wf(),
            final(self).fixed() == old(self).fixed(),
            final(self)@ == checks_done(old(self)@),
    {
        self.check_redundancies();
        self.send_actions();
        self.transition_check();
    }

    /// After the replay of a tick, on to its checks.
    pub fn transition_to_catchup_checks(&mut self)
        requires
            old(self).wf(),
        ensures
            final(self).wf(),
            final(self).fixed() == old(self).fixed(),
            final(self)@ == (EditorView { state: EditingState::CatchupChecks, ..old(self)@ }),
    {
        self.state = EditingState::CatchupChecks;
    }

    /// The step out of `Catchup`: replays the tick before the current one.
    /// Where that fails, the machine is back in `Editing` at the tick that
    /// failed, and the error is returned.
    pub fn catchup(&mut self) -> (r: Result<(), WorldError>)
        requires
            old(self).wf(),
            old(self)@.state == EditingState::Catchup,
        ensures
            final(self).wf(),
            final(self).fixed() == old(self).fixed(),
            final(self)@ == caught(old(self)@).0,
            match caught(old(self)@).1 {
                Some(e) => r == Err::<(), WorldError>(e),
                None => r.is_ok(),
            },
    {
        let tick: usize = self.sequence.current_tick - 1;
        let roll: u64 = self.sequence.flee_rolls[tick];
        proof {
            lemma_stepped_keeps_wf(self@);
        }
        match simulate_tick(&mut self.world, self.player, self.pending, self.modifiers, roll) {
            Ok(()) => {
                self.pending = None;
                self.transition_to_catchup_checks();
                Ok(())
            },
            Err(e) => {
                self.pending = None;
                self.sequence.current_tick = tick;
                self.sequence.target_tick = tick;
                self.state = EditingState::Editing;
                Err(e)
            },
        }
    }

    /// One step of the state machine.
    pub fn step(&mut self) -> (r: Result<(), WorldError>)
        requires
            old(self).wf(),
        ensures
            final(self).wf(),
            final(self).fixed() == old(self).fixed(),
            final(self)@ == stepped(old(self)@).0,
            match stepped(old(self)@).1 {
                Some(e) => r == Err::<(), WorldError>(e),
                None => r.is_ok(),
            },
    {
        match self.state {
            EditingState::Editing => {
                self.check_target_tick();
                Ok(())
            },
            EditingState::Reconciliation => {
                self.reconcile();
                Ok(())
            },
            EditingState::CatchupChecks => {
                self.catchup_checks();
                Ok(())
            },
            EditingState::Catchup => self.catchup(),
        }
    }

    /// Tests whether the machine is in `Editing`.
    pub fn is_editing(&self) -> (b: bool)
        ensures
            b == (self@.state == EditingState::Editing),
    {
        match self.state {
            EditingState::Editing => true,
            _ => false,
        }
    }

    /// Runs the state machine until it is back in `Editing`: the whole
    /// replay, in one go. Returns the number of ticks replayed, or the error
    /// that stopped the replay. A machine that is in `Editing` already stays
    /// as it is.
    pub fn run_editing_catchup(&mut self) -> (r: Result<usize, WorldError>)
        requires
            old(self).wf(),
        ensures
            final(self).wf(),
            final(self).fixed() == old(self).fixed(),
            final(self)@ == outcome(old(self)@).0,
            final(self)@.state == EditingState::Editing,
            match outcome(old(self)@).1 {
                Some(e) => r == Err::<usize, WorldError>(e),
                None => r.is_ok() && r.unwrap() == final(self)@.current - replay_base(old(self)@),
            },
            old(self)@.state == EditingState::Reconciliation && r.is_ok() ==> {
                &&& final(self)@.current == old(self)@.target
                &&& final(self)@.target == old(self)@.target
                &&& r.unwrap() == old(self)@.target - replay_base(old(self)@)
            },
            old(self)@.state == EditingState::Reconciliation ==> {
                &&& final(self)@.current == final(self)@.target
                &&& replay_base(old(self)@) <= final(self)@.current <= old(self)@.target
                &&& (r.is_ok() <==> final(self)@.current == old(self)@.target)
            },
            old(self)@.state == EditingState::Reconciliation ==> {
                let start = reconciled(old(self)@);
                let replay = replayed(
                    start.actors,
                    start.slots,
                    start.rolls,
                    start.player,
                    start.current,
                    start.target,
                );
                &&& final(self)@.actors == replay.actors
                &&& final(self)@.slots == replay.slots
                &&& final(self)@.current == replay.tick
                &&& outcome(old(self)@).1 == replay.error
            },
    {
        proof {
            lemma_outcome_reaches_target(self@);
            lemma_reconciliation_replays(self@);
            if self@.state == EditingState::Reconciliation {
                lemma_catchup_terminates(self@);
            }
        }
        let mut ticks: usize = 0;
        while !self.is_editing()
            invariant
                self.wf(),
                self.fixed() == old(self).fixed(),
                outcome(self@) == outcome(old(self)@),
                replay_base(self@) == replay_base(old(self)@) + ticks,
                ticks <= self@.current,
                replays_tick_by_tick(old(self)@),
                ends_at_target(old(self)@),
                outcome(old(self)@).0.state == EditingState::Editing,
                old(self)@.state == EditingState::Reconciliation && outcome(old(self)@).1.is_none()
                    ==> outcome(old(self)@).0.current == old(self)@.target && outcome(
                    old(self)@,
                ).0.target == old(self)@.target,
            decreases steps_left(self@),
        {
            proof {
                lemma_step_advances(self@);
            }
            let replaying: bool = match self.state {
                EditingState::Catchup => true,
                _ => false,
            };
            match self.step() {
                Ok(()) => {
                    if replaying {
                        ticks = ticks + 1;
                    }
                },
                Err(e) => {
                    return Err(e);
                },
            }
        }
        Ok(ticks)
    }

    /// Puts a non-player actor with the given label into the world, attacking
    /// the controlled actor, and returns its identifier.
    pub fn spawn_npc(&mut self, npc: Npc) -> (id: EntityId)
        requires
            old(self).wf(),
        ensures
            final(self).wf(),
            final(self).world.labels@ == old(self).world.labels@.push(Some(npc)),
            final(self).sequence.seed == old(self).sequence.seed,
            id.0 == old(self)@.actors.len(),
            final(self)@ == (EditorView {
                actors: old(self)@.actors.push(
                    Some(Actor { target: Some(Target(old(self)@.player)), ..fresh_npc() }),
                ),
                ..old(self)@
            }),
    {
        let id = spawn_npc(&mut self.world, npc);
        let ghost spawned = self.world@;
        let attacked = self.world.set_target(id, self.player);
        assert(attacked.is_ok());
        assert(self.world@ =~= old(self)@.actors.push(
            Some(Actor { target: Some(Target(old(self)@.player)), ..fresh_npc() }),
        ));
        proof {
            let before = old(self)@.actors;
            let after = self.world@;
            assert forall|k: int| #[trigger] is_player(after, k) <==> is_player(before, k) by {
                if 0 <= k < before.len() {
                    assert(after[k] == before[k]);
                }
            }
            lemma_same_players_sole(before, after, self.player.0 as int);
        }
        id
    }

    /// Starts everything over: the sequence is one idle tick again, the
    /// controlled actor is as it was when it entered the world, the actors
    /// stand where they start, and the machine is in `Editing` at tick 0 with
    /// the idle action of that tick sent out. The settings in effect stay.
    pub fn reset(&mut self)
        requires
            old(self).wf(),
        ensures
            final(self).wf(),
            final(self).fixed() == old(self).fixed(),
            final(self)@.actors == restarted(
                old(self)@.actors.update(old(self)@.player.0 as int, Some(fresh_player())),
                old(self)@.player,
            ),
            final(self)@.slots == initial_slots(),
            final(self)@.current == 0,
            final(self)@.target == 0,
            final(self)@.state == EditingState::Editing,
            final(self)@.player == old(self)@.player,
            final(self)@.modifiers == old(self)@.modifiers,
            final(self)@.pending == Some(PlayerActionEvent { action: PlayerAction::Idle }),
    {
        self.sequence.reset();
        let ghost before = self.world@;
        self.world.actors.set(
            self.player.0,
            Some(
                Actor {
                    kind: ActorKind::Player,
                    position: Position::origin(),
                    size: Size(1),
                    speed: Speed(2),
                    movement_type: MovementType::CardinalFirst,
                    attack_range: AttackRange(1),
                    attack_speed: Some(AttackSpeed(4)),
                    under_behavior: Some(TargetUnderBehavior::MoveOut),
                    order: None,
                    destination: None,
                    target: None,
                },
            ),
        );
        proof {
            lemma_change_keeps_wf(before, self.world@);
            lemma_same_kinds_same_players(before, self.world@);
            lemma_same_players_sole(before, self.world@, self.player.0 as int);
        }
        self.world.reindex();
        self.state = EditingState::Editing;
        self.restart();
    }

    /// One round of editing, in `Editing`: the controlled actor takes the
    /// action left pending and then the one that comes in, if any; the
    /// settings take effect; every attacker checks its range, with the roll
    /// of the current tick; and the slot of the current tick records the
    /// settings and the last action taken, if one was. The machine leaves for
    /// `Reconciliation` where the current tick is not the one asked for.
    /// Where an action is refused or a check fails, nothing changes but that
    /// no action is pending any more.
    pub fn editing_update(
        &mut self,
        input: Option<PlayerActionEvent>,
        modifiers: PlayerModifiers,
    ) -> (r: Result<(), WorldError>)
        requires
            old(self).wf(),
            old(self)@.state == EditingState::Editing,
        ensures
            final(self).wf(),
            final(self).fixed() == old(self).fixed(),
            match edited(old(self)@, input, modifiers) {
                Ok(v) => r.is_ok() && final(self)@ == v,
                Err(e) => r == Err::<(), WorldError>(e) && final(self)@ == (EditorView {
                    pending: None,
                    ..old(self)@
                }),
            },
    {
        let before = self.world.snapshot();
        let pending = self.pending;
        self.pending = None;
        match pending {
            Some(sent) => {
                match update_action(&mut self.world, self.player, sent) {
                    Err(e) => {
                        return Err(e);
                    },
                    Ok(()) => {},
                }
                proof {
                    lemma_acted_keeps_wf(old(self)@.actors, self.player.0 as int, sent.action);
                }
            },
            None => {},
        }
        let ghost first = self.world@;
        match input {
            Some(sent) => {
                match update_action(&mut self.world, self.player, sent) {
                    Err(e) => {
                        self.world.restore(before);
                        return Err(e);
                    },
                    Ok(()) => {},
                }
                proof {
                    lemma_acted_keeps_wf(first, self.player.0 as int, sent.action);
                }
            },
            None => {},
        }
        match update_modifiers(&mut self.world, self.player, modifiers) {
            Err(e) => {
                self.world.restore(before);
                return Err(e);
            },
            Ok(()) => {},
        }
        let roll: u64 = self.sequence.current_roll();
        match check_in_range(&mut self.world, roll) {
            Err(e) => {
                self.world.restore(before);
                return Err(e);
            },
            Ok(()) => {},
        }
        proof {
            lemma_checked_keeps_wf(
                with_modifiers(
                    dispatched(first, self.player.0 as int, input).unwrap(),
                    self.player.0 as int,
                    modifiers,
                ),
                None,
                roll,
            );
        }
        match input {
            Some(sent) => {
                self.sequence.update_current_action(sent);
            },
            None => {
                match pending {
                    Some(sent) => {
                        self.sequence.update_current_action(sent);
                    },
                    None => {},
                }
            },
        }
        self.sequence.update_current_modifiers(modifiers);
        self.modifiers = modifiers;
        if self.sequence.check_target_tick() {
            self.state = EditingState::Reconciliation;
        }
        proof {
            let v = old(self)@;
            assert(self@.slots =~= v.slots.update(
                v.current as int,
                (recorded_action(v, input), modifiers),
            ));
            assert(edited(v, input, modifiers).is_ok());
            assert(self@.actors == edited(v, input, modifiers).unwrap().actors);
            let p = v.player.0 as int;
            let a1 = dispatched(v.actors, p, v.pending).unwrap();
            let a2 = dispatched(a1, p, input).unwrap();
            let a3 = with_modifiers(a2, p, modifiers);
            let a4 = checked(a3, None, v.rolls[v.current as int]);
            lemma_dispatched_keeps_wf(v.actors, p, v.pending);
            lemma_dispatched_keeps_wf(a1, p, input);
            lemma_same_players_chain(v.actors, a1, a2);
            lemma_with_modifiers_keeps_wf(a2, p, modifiers);
            lemma_same_players_chain(v.actors, a2, a3);
            lemma_checked_keeps_wf(a3, None, v.rolls[v.current as int]);
            lemma_same_players_chain(v.actors, a3, a4);
            lemma_same_players_sole(v.actors, a4, p);
        }
        Ok(())
    }
}

} // verus!
