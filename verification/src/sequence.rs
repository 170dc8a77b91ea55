//! The action sequence: one recorded action, with its settings, per tick.

use vstd::prelude::*;
use crate::geometry::Position;
use crate::player::{default_modifiers, PlayerAction, PlayerActionEvent, PlayerModifiers};
use crate::random::draw_roll;

verus! {

/// Most ticks of a sequence that are shown side by side.
pub const MAX_UI_TICK_SEQUENCE_LEN: usize = 10;

/// One slot of a sequence: the action of a tick and the settings it was
/// recorded under.
pub type Slot = (PlayerAction, PlayerModifiers);

/// Why an operation on a sequence was refused.
#[derive(Clone, Copy, Debug, PartialEq, Eq, Structural)]
pub enum SequenceError {
    /// The tick lies beyond the slot that an append would create.
    OutOfBounds,
}

/// The slots of a sequence that has just been made: one idle tick under the
/// default settings.
pub open spec fn initial_slots() -> Seq<Slot> {
    seq![(PlayerAction::Idle, default_modifiers())]
}

/// Whether a slot holds a move to the tile `d`.
pub open spec fn moves_to(slot: Slot, d: Position) -> bool {
    slot.0 == PlayerAction::Move(d)
}

/// Number of slots in a row, from tick `from` on, that hold a move to `d`.
pub open spec fn redundant_run(slots: Seq<Slot>, from: int, d: Position) -> nat
    decreases slots.len() - from,
{
    if 0 <= from < slots.len() && moves_to(slots[from], d) {
        1 + redundant_run(slots, from + 1, d)
    } else {
        0
    }
}

/// The slots after the redundancy check at tick `current`, with the
/// controlled actor on the tile `position`: the run of moves to `position`
/// that starts at `current` has become idle, everything else is as it was.
pub open spec fn pruned(slots: Seq<Slot>, current: int, position: Position) -> Seq<Slot> {
    Seq::new(
        slots.len(),
        |k: int|
            if current <= k < current + redundant_run(slots, current, position) {
                (PlayerAction::Idle, slots[k].1)
            } else {
                slots[k]
            },
    )
}

/// A run ends inside the sequence.
pub proof fn lemma_redundant_run_bound(slots: Seq<Slot>, from: int, d: Position)
    requires
        0 <= from <= slots.len(),
    ensures
        from + redundant_run(slots, from, d) <= slots.len(),
    decreases slots.len() - from,
{
    if from < slots.len() && moves_to(slots[from], d) {
        lemma_redundant_run_bound(slots, from + 1, d);
    }
}

/// A run is fixed by what it covers and what stops it: if every slot from
/// `from` up to `end` moves to `d`, and `end` is the end of the sequence or a
/// slot that does not, the run from `from` has `end - from` slots.
pub proof fn lemma_run_from_prefix(slots: Seq<Slot>, from: int, end: int, d: Position)
    requires
        0 <= from <= end <= slots.len(),
        forall|k: int| from <= k < end ==> moves_to(#[trigger] slots[k], d),
        end == slots.len() || !moves_to(slots[end], d),
    ensures
        redundant_run(slots, from, d) == end - from,
    decreases end - from,
{
    if from < end {
        assert(moves_to(slots[from], d));
        lemma_run_from_prefix(slots, from + 1, end, d);
    }
}

/// Tests whether an action is a move to the tile `d`.
fn is_move_to(action: &PlayerAction, d: Position) -> (b: bool)
    ensures
        b == (*action == PlayerAction::Move(d)),
{
    match action {
        PlayerAction::Move(to) => to.x == d.x && to.y == d.y,
        _ => false,
    }
}

/// The ticks shown side by side around the tick asked for, as a range from
/// the first to one past the last: the whole of a short sequence; else the
/// ticks around `target`, or the first or last ones where `target` is near
/// an end.
pub open spec fn visible_ticks(target: int, len: int) -> (int, int) {
    let most = MAX_UI_TICK_SEQUENCE_LEN as int;
    let half = most / 2;
    if len <= most {
        (0, len)
    } else if target + half < len && target > half {
        (target - half, target + half)
    } else if target + half < len {
        (0, most)
    } else {
        (len - most, len)
    }
}

/// The range of ticks to show for a sequence of `len` ticks when the tick
/// `target_tick` is asked for. It holds that tick and no more ticks than
/// `MAX_UI_TICK_SEQUENCE_LEN`.
pub fn tick_window(target_tick: usize, len: usize) -> (r: (usize, usize))
    requires
        target_tick < len,
    ensures
        r.0 == visible_ticks(target_tick as int, len as int).0,
        r.1 == visible_ticks(target_tick as int, len as int).1,
        r.0 <= target_tick < r.1 <= len,
        r.1 - r.0 <= MAX_UI_TICK_SEQUENCE_LEN,
{
    let half: usize = MAX_UI_TICK_SEQUENCE_LEN / 2;
    if len <= MAX_UI_TICK_SEQUENCE_LEN {
        (0, len)
    } else if len - target_tick > half && target_tick > half {
        (target_tick - half, target_tick + half)
    } else if len - target_tick > half {
        (0, MAX_UI_TICK_SEQUENCE_LEN)
    } else {
        (len - MAX_UI_TICK_SEQUENCE_LEN, len)
    }
}

/// The recorded actions of the controlled actor, one slot per tick, with the
/// tick that the simulation has reached and the tick that the editor wants to
/// look at.
#[derive(Debug)]
pub struct ActionSequence {
    pub target_tick: usize,
    pub current_tick: usize,
    pub sequence: Vec<Slot>,
    /// Random bits of each tick, drawn once when its slot is created, so that
    /// a replay meets the same bits again.
    pub flee_rolls: Vec<u64>,
    /// Seed of the source that the bits of new slots are drawn from.
    pub seed: u64,
}

impl ActionSequence {
    /// A sequence has at least one slot, a roll for every slot, and both of
    /// its ticks name a slot.
    pub open spec fn wf(&self) -> bool {
        &&& self.sequence@.len() >= 1
        &&& self.flee_rolls@.len() == self.sequence@.len()
        &&& self.current_tick < self.sequence@.len()
        &&& self.target_tick < self.sequence@.len()
    }

    /// Tests whether the sequence is sound.
    pub fn is_sound(&self) -> (b: bool)
        ensures
            b == self.wf(),
    {
        let len: usize = self.sequence.len();
        len >= 1 && self.flee_rolls.len() == len && self.current_tick < len && self.target_tick
            < len
    }

    /// The slots, as a mathematical sequence.
    pub open spec fn slots(&self) -> Seq<Slot> {
        self.sequence@
    }

    /// The rolls, as a mathematical sequence.
    pub open spec fn rolls(&self) -> Seq<u64> {
        self.flee_rolls@
    }

    /// A sequence of one idle slot under the default settings, at tick 0,
    /// whose rolls come from the source with the given seed.
    pub fn with_seed(seed: u64) -> (s: ActionSequence)
        ensures
            s.wf(),
            s.slots() == initial_slots(),
            s.current_tick == 0,
            s.target_tick == 0,
            s.seed == seed,
    {
        let mut sequence: Vec<Slot> = Vec::new();
        sequence.push((PlayerAction::Idle, PlayerModifiers::default()));
        let mut flee_rolls: Vec<u64> = Vec::new();
        flee_rolls.push(draw_roll(seed));
        ActionSequence { target_tick: 0, current_tick: 0, sequence, flee_rolls, seed }
    }

    /// Number of recorded ticks.
    pub fn len(&self) -> (n: usize)
        ensures
            n == self.slots().len(),
    {
        self.sequence.len()
    }

    /// The slot of a tick, if the sequence has that tick.
    pub fn get(&self, tick: usize) -> (slot: Option<Slot>)
        ensures
            tick < self.slots().len() ==> slot == Some(self.slots()[tick as int]),
            tick >= self.slots().len() ==> slot.is_none(),
    {
        if tick < self.sequence.len() {
            Some(self.sequence[tick])
        } else {
            None
        }
    }

    /// The action and settings of the current tick.
    pub fn current_slot(&self) -> (slot: Slot)
        requires
            self.wf(),
        ensures
            slot == self.slots()[self.current_tick as int],
    {
        self.sequence[self.current_tick]
    }

    /// The roll of the current tick.
    pub fn current_roll(&self) -> (roll: u64)
        requires
            self.wf(),
        ensures
            roll == self.rolls()[self.current_tick as int],
    {
        self.flee_rolls[self.current_tick]
    }

    /// Writes the slot of a tick. A tick the sequence has is overwritten; the
    /// tick right after the last one is appended, with a fresh roll; any later
    /// tick is refused and nothing changes.
    pub fn set(&mut self, tick: usize, action: PlayerAction, modifiers: PlayerModifiers) -> (r:
        Result<(), SequenceError>)
        requires
            old(self).wf(),
        ensures
            final(self).wf(),
            final(self).current_tick == old(self).current_tick,
            final(self).target_tick == old(self).target_tick,
            final(self).seed == old(self).seed,
            r.is_ok() <==> tick <= old(self).slots().len(),
            tick < old(self).slots().len() ==> {
                &&& final(self).slots() == old(self).slots().update(
                    tick as int,
                    (action, modifiers),
                )
                &&& final(self).rolls() == old(self).rolls()
            },
            tick == old(self).slots().len() ==> {
                &&& final(self).slots() == old(self).slots().push((action, modifiers))
                &&& final(self).rolls().len() == old(self).rolls().len() + 1
                &&& final(self).rolls().subrange(0, old(self).rolls().len() as int)
                    == old(self).rolls()
            },
            tick > old(self).slots().len() ==> {
                &&& r == Err::<(), SequenceError>(SequenceError::OutOfBounds)
                &&& final(self).slots() == old(self).slots()
                &&& final(self).rolls() == old(self).rolls()
            },
    {
        let len: usize = self.sequence.len();
        if tick < len {
            self.sequence.set(tick, (action, modifiers));
            Ok(())
        } else if tick == len {
            let roll: u64 = draw_roll(self.seed.wrapping_add(len as u64));
            self.sequence.push((action, modifiers));
            self.flee_rolls.push(roll);
            assert(self.flee_rolls@.subrange(0, old(self).rolls().len() as int)
                =~= old(self).rolls());
            Ok(())
        } else {
            Err(SequenceError::OutOfBounds)
        }
    }

    /// Appends a copy of the last slot, with a fresh roll.
    pub fn extend(&mut self)
        requires
            old(self).wf(),
        ensures
            final(self).wf(),
            final(self).slots() == old(self).slots().push(old(self).slots().last()),
            final(self).rolls().len() == old(self).rolls().len() + 1,
            final(self).rolls().subrange(0, old(self).rolls().len() as int) == old(self).rolls(),
            final(self).current_tick == old(self).current_tick,
            final(self).target_tick == old(self).target_tick,
            final(self).seed == old(self).seed,
    {
        let len: usize = self.sequence.len();
        let last: Slot = self.sequence[len - 1];
        let roll: u64 = draw_roll(self.seed.wrapping_add(len as u64));
        self.sequence.push(last);
        self.flee_rolls.push(roll);
        assert(self.flee_rolls@.subrange(0, old(self).rolls().len() as int) =~= old(self).rolls());
    }

    /// Back to a single idle slot at tick 0. The seed stays.
    pub fn reset(&mut self)
        ensures
            final(self).wf(),
            final(self).slots() == initial_slots(),
            final(self).current_tick == 0,
            final(self).target_tick == 0,
            final(self).seed == old(self).seed,
    {
        *self = ActionSequence::with_seed(self.seed);
    }

    /// Whether the simulation stands at another tick than the editor wants.
    pub fn check_target_tick(&self) -> (differs: bool)
        ensures
            differs == (self.current_tick != self.target_tick),
    {
        self.current_tick != self.target_tick
    }

    /// Asks for a tick. A tick that the sequence lacks is taken as the last
    /// one.
    pub fn set_target_tick(&mut self, tick: usize)
        requires
            old(self).wf(),
        ensures
            final(self).wf(),
            final(self).target_tick == (if tick < old(self).slots().len() {
                tick
            } else {
                (old(self).slots().len() - 1) as usize
            }),
            final(self).current_tick == old(self).current_tick,
            final(self).sequence == old(self).sequence,
            final(self).flee_rolls == old(self).flee_rolls,
            final(self).seed == old(self).seed,
    {
        let len: usize = self.sequence.len();
        if tick < len {
            self.target_tick = tick;
        } else {
            self.target_tick = len - 1;
        }
    }

    /// Asks for the first tick.
    pub fn go_to_first(&mut self)
        requires
            old(self).wf(),
        ensures
            final(self).wf(),
            final(self).target_tick == 0,
            final(self).current_tick == old(self).current_tick,
            final(self).sequence == old(self).sequence,
            final(self).flee_rolls == old(self).flee_rolls,
            final(self).seed == old(self).seed,
    {
        self.target_tick = 0;
    }

    /// Asks for the last tick.
    pub fn go_to_last(&mut self)
        requires
            old(self).wf(),
        ensures
            final(self).wf(),
            final(self).target_tick == old(self).slots().len() - 1,
            final(self).current_tick == old(self).current_tick,
            final(self).sequence == old(self).sequence,
            final(self).flee_rolls == old(self).flee_rolls,
            final(self).seed == old(self).seed,
    {
        self.target_tick = self.sequence.len() - 1;
    }

    /// Asks for the tick before the one asked for, if there is one.
    pub fn step_back(&mut self)
        requires
            old(self).wf(),
        ensures
            final(self).wf(),
            final(self).target_tick == (if old(self).target_tick > 0 {
                (old(self).target_tick - 1) as usize
            } else {
                0
            }),
            final(self).current_tick == old(self).current_tick,
            final(self).sequence == old(self).sequence,
            final(self).flee_rolls == old(self).flee_rolls,
            final(self).seed == old(self).seed,
    {
        if self.target_tick > 0 {
            self.target_tick = self.target_tick - 1;
        }
    }

    /// Asks for the tick after the one asked for. At the last tick the
    /// sequence first grows by a copy of its last slot.
    pub fn step_forward(&mut self)
        requires
            old(self).wf(),
        ensures
            final(self).wf(),
            final(self).target_tick == old(self).target_tick + 1,
            final(self).current_tick == old(self).current_tick,
            final(self).seed == old(self).seed,
            old(self).target_tick + 1 < old(self).slots().len() ==> {
                &&& final(self).sequence == old(self).sequence
                &&& final(self).flee_rolls == old(self).flee_rolls
            },
            old(self).target_tick + 1 == old(self).slots().len() ==> {
                &&& final(self).slots() == old(self).slots().push(old(self).slots().last())
                &&& final(self).rolls().len() == old(self).rolls().len() + 1
                &&& final(self).rolls().subrange(0, old(self).rolls().len() as int)
                    == old(self).rolls()
            },
    {
        if self.target_tick == self.sequence.len() - 1 {
            self.extend();
        }
        self.target_tick = self.target_tick + 1;
    }

    /// Records an action in the slot of the current tick.
    pub fn update_current_action(&mut self, event: PlayerActionEvent)
        requires
            old(self).wf(),
        ensures
            final(self).wf(),
            final(self).slots() == old(self).slots().update(
                old(self).current_tick as int,
                (event.action, old(self).slots()[old(self).current_tick as int].1),
            ),
            final(self).current_tick == old(self).current_tick,
            final(self).target_tick == old(self).target_tick,
            final(self).flee_rolls == old(self).flee_rolls,
            final(self).seed == old(self).seed,
    {
        let tick: usize = self.current_tick;
        let slot: Slot = self.sequence[tick];
        self.sequence.set(tick, (event.action, slot.1));
    }

    /// Records the settings in the slot of the current tick.
    pub fn update_current_modifiers(&mut self, modifiers: PlayerModifiers)
        requires
            old(self).wf(),
        ensures
            final(self).wf(),
            final(self).slots() == old(self).slots().update(
                old(self).current_tick as int,
                (old(self).slots()[old(self).current_tick as int].0, modifiers),
            ),
            final(self).current_tick == old(self).current_tick,
            final(self).target_tick == old(self).target_tick,
            final(self).flee_rolls == old(self).flee_rolls,
            final(self).seed == old(self).seed,
    {
        let tick: usize = self.current_tick;
        let slot: Slot = self.sequence[tick];
        self.sequence.set(tick, (slot.0, modifiers));
    }

    /// Rewrites to idle the moves that have become redundant: where the
    /// current tick's action is a move to the tile `position`, on which the
    /// controlled actor already stands, that slot and each slot after it that
    /// moves to the same tile, up to the first that does not. Settings and
    /// rolls stay. Returns the number of slots rewritten.
    pub fn check_redundancies(&mut self, position: Position) -> (rewritten: usize)
        requires
            old(self).wf(),
        ensures
            final(self).wf(),
            final(self).slots() == pruned(
                old(self).slots(),
                old(self).current_tick as int,
                position,
            ),
            rewritten == redundant_run(old(self).slots(), old(self).current_tick as int, position),
            rewritten <= old(self).slots().len() - old(self).current_tick,
            final(self).current_tick == old(self).current_tick,
            final(self).target_tick == old(self).target_tick,
            final(self).flee_rolls == old(self).flee_rolls,
            final(self).seed == old(self).seed,
    {
        let current: usize = self.current_tick;
        let len: usize = self.sequence.len();
        let mut i: usize = current;
        proof {
            lemma_redundant_run_bound(self.sequence@, current as int, position);
        }
        while i < len && is_move_to(&self.sequence[i].0, position)
            invariant
                current <= i <= len,
                len == self.sequence@.len(),
                len == old(self).sequence@.len(),
                self.current_tick == old(self).current_tick,
                self.target_tick == old(self).target_tick,
                self.flee_rolls == old(self).flee_rolls,
                self.seed == old(self).seed,
                forall|k: int|
                    current <= k < i ==> moves_to(#[trigger] old(self).sequence@[k], position),
                forall|k: int|
                    0 <= k < len ==> #[trigger] self.sequence@[k] == (if current <= k < i {
                        (PlayerAction::Idle, old(self).sequence@[k].1)
                    } else {
                        old(self).sequence@[k]
                    }),
            decreases len - i,
        {
            let slot: Slot = self.sequence[i];
            self.sequence.set(i, (PlayerAction::Idle, slot.1));
            i = i + 1;
        }
        proof {
            lemma_run_from_prefix(old(self).sequence@, current as int, i as int, position);
            assert(self.sequence@ =~= pruned(old(self).sequence@, current as int, position));
        }
        i - current
    }
}

impl Default for ActionSequence {
    fn default() -> (s: ActionSequence)
        ensures
            s.wf(),
            s.slots() == initial_slots(),
            s.current_tick == 0,
            s.target_tick == 0,
            s.seed == 0,
    {
        ActionSequence::with_seed(0)
    }
}

} // verus!
