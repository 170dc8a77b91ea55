//! Attack-range resolution: the gap between two footprints, the in-range
//! test, and the tile an attacker should walk to.

use vstd::prelude::*;
use crate::geometry::{abs, abs_i64, coord_in_bounds, max, min, Delta, EntityId, Position};
use crate::movement::{Destination, MovementOrder};
use crate::npc::Size;
use crate::world::{
    actor_sound, actors_placed, actors_wf, alive, is_player, lemma_change_keeps_wf,
    lemma_index_keeps, lemma_same_kinds_same_players, player_refusal, same_players, same_slots,
    same_targets, slot_sound_in, Actor, Actors, World, WorldError,
};

verus! {

/// The actor that an attacker is attacking.
#[derive(Clone, Copy, Debug, PartialEq, Eq, Structural)]
pub struct Target(pub EntityId);

/// The actors that attack one actor, in the order of their slots.
#[derive(Debug)]
pub struct TargetedBy(Vec<EntityId>);

impl TargetedBy {
    /// The attackers, as a mathematical sequence.
    pub closed spec fn view(&self) -> Seq<EntityId> {
        self.0@
    }

    /// Wraps a list of attackers.
    pub fn new(attackers: Vec<EntityId>) -> (t: TargetedBy)
        ensures
            t@ == attackers@,
    {
        TargetedBy(attackers)
    }

    /// Number of attackers.
    pub fn len(&self) -> (n: usize)
        ensures
            n == self@.len(),
    {
        self.0.len()
    }

    /// The attacker at place `i`.
    pub fn get(&self, i: usize) -> (id: EntityId)
        requires
            i < self@.len(),
        ensures
            id == self@[i as int],
    {
        self.0[i]
    }

    /// Tests whether an actor is among the attackers.
    pub fn contains(&self, id: EntityId) -> (b: bool)
        ensures
            b == exists|j: int| 0 <= j < self@.len() && (#[trigger] self@[j]).0 == id.0,
    {
        let len: usize = self.0.len();
        let mut j: usize = 0;
        while j < len
            invariant
                j <= len,
                len == self@.len(),
                forall|i: int| 0 <= i < j ==> (#[trigger] self@[i]).0 != id.0,
            decreases len - j,
        {
            if self.0[j].0 == id.0 {
                return true;
            }
            j = j + 1;
        }
        false
    }
}

/// What an attacker does when it stands underneath its target.
#[derive(Clone, Copy, Debug, PartialEq, Eq, Structural)]
pub enum TargetUnderBehavior {
    MoveOut,
    RandomCardinal,
    StayStill,
}

/// Ticks between two attacks of an actor.
#[derive(Clone, Copy, Debug, PartialEq, Eq, Structural)]
pub struct AttackSpeed(pub u8);

/// Reach of an actor's attack, in tiles.
#[derive(Clone, Copy, Debug, PartialEq, Eq, Structural)]
pub struct AttackRange(pub u8);

/// Gap along one axis between a footprint of `size` tiles starting at `start`
/// and one of `target_size` tiles starting at `target`. Negative when the
/// first lies before the second, positive when it lies after, zero when the
/// two overlap on this axis.
pub open spec fn axis_gap(start: int, size: int, target: int, target_size: int) -> int {
    if start < target {
        min(0, start - target + (size - 1))
    } else {
        max(0, start - target - (target_size - 1))
    }
}

/// Gap between two footprints, axis by axis.
pub open spec fn adjusted_distance(
    start: Position,
    size: Size,
    target: Position,
    target_size: Size,
) -> Delta {
    Delta {
        x: axis_gap(start.x as int, size.0 as int, target.x as int, target_size.0 as int) as i64,
        y: axis_gap(start.y as int, size.0 as int, target.y as int, target_size.0 as int) as i64,
    }
}

/// The gap never exceeds the raw coordinate difference in magnitude and has
/// its sign.
pub proof fn lemma_axis_gap_bounds(start: int, size: int, target: int, target_size: int)
    requires
        size >= 1,
        target_size >= 1,
    ensures
        abs(axis_gap(start, size, target, target_size)) <= abs(start - target),
        start < target ==> axis_gap(start, size, target, target_size) <= 0,
        start >= target ==> axis_gap(start, size, target, target_size) >= 0,
{
}

/// Swapping attacker and target negates the gap: each side's footprint then
/// plays the other's part.
pub proof fn lemma_axis_gap_antisymmetric(a: int, size_a: int, t: int, size_t: int)
    requires
        size_a >= 1,
        size_t >= 1,
    ensures
        axis_gap(t, size_t, a, size_a) == -axis_gap(a, size_a, t, size_t),
{
}

/// Swapping attacker and target negates the adjusted distance on both axes.
pub proof fn lemma_adjusted_distance_antisymmetric(
    a: Position,
    size_a: Size,
    t: Position,
    size_t: Size,
)
    requires
        a.in_bounds(),
        t.in_bounds(),
        size_a.valid(),
        size_t.valid(),
    ensures
        adjusted_distance(t, size_t, a, size_a).x == -adjusted_distance(a, size_a, t, size_t).x,
        adjusted_distance(t, size_t, a, size_a).y == -adjusted_distance(a, size_a, t, size_t).y,
{
    lemma_axis_gap_antisymmetric(a.x as int, size_a.0 as int, t.x as int, size_t.0 as int);
    lemma_axis_gap_antisymmetric(a.y as int, size_a.0 as int, t.y as int, size_t.0 as int);
    lemma_axis_gap_bounds(a.x as int, size_a.0 as int, t.x as int, size_t.0 as int);
    lemma_axis_gap_bounds(a.y as int, size_a.0 as int, t.y as int, size_t.0 as int);
}

/// Gap along one axis, computed.
fn gap_on_axis(start: i64, size: u8, target: i64, target_size: u8) -> (gap: i64)
    requires
        coord_in_bounds(start as int),
        coord_in_bounds(target as int),
        size >= 1,
        target_size >= 1,
    ensures
        gap == axis_gap(start as int, size as int, target as int, target_size as int),
{
    let raw: i64 = start - target;
    if raw < 0 {
        let reach: i64 = (size - 1) as i64;
        if -raw < reach {
            0
        } else {
            raw + reach
        }
    } else {
        let reach: i64 = (target_size - 1) as i64;
        if raw < reach {
            0
        } else {
            raw - reach
        }
    }
}

/// Adjusted distance from an attacker's footprint to its target's.
pub fn distance_to_entity(
    start_sw_tile: Position,
    size: Size,
    target_sw_tile: Position,
    target_size: Size,
) -> (dist: Delta)
    requires
        start_sw_tile.in_bounds(),
        target_sw_tile.in_bounds(),
        size.valid(),
        target_size.valid(),
    ensures
        dist == adjusted_distance(start_sw_tile, size, target_sw_tile, target_size),
        dist.x == axis_gap(
            start_sw_tile.x as int,
            size.0 as int,
            target_sw_tile.x as int,
            target_size.0 as int,
        ),
        dist.y == axis_gap(
            start_sw_tile.y as int,
            size.0 as int,
            target_sw_tile.y as int,
            target_size.0 as int,
        ),
        abs(dist.x as int) <= abs(start_sw_tile.x - target_sw_tile.x),
        abs(dist.y as int) <= abs(start_sw_tile.y - target_sw_tile.y),
{
    proof {
        lemma_axis_gap_bounds(
            start_sw_tile.x as int,
            size.0 as int,
            target_sw_tile.x as int,
            target_size.0 as int,
        );
        lemma_axis_gap_bounds(
            start_sw_tile.y as int,
            size.0 as int,
            target_sw_tile.y as int,
            target_size.0 as int,
        );
    }
    Delta {
        x: gap_on_axis(start_sw_tile.x, size.0, target_sw_tile.x, target_size.0),
        y: gap_on_axis(start_sw_tile.y, size.0, target_sw_tile.y, target_size.0),
    }
}

/// One of the four grid directions, in the order in which exits from under a
/// target are preferred.
#[derive(Clone, Copy, Debug, PartialEq, Eq, Structural)]
pub enum Cardinal {
    North,
    South,
    East,
    West,
}

/// How far a fleeing attacker sets its destination from where it stands.
pub const FLEE_DISTANCE: i64 = 10;

/// Whether a gap is too wide for an attack of the given range: wider than the
/// range on either axis, or diagonal adjacency at range 1.
pub open spec fn out_of_reach(dist: Delta, range: AttackRange) -> bool {
    abs(dist.x as int) > range.0 || abs(dist.y as int) > range.0 || (range.0 == 1 && abs(
        dist.x as int,
    ) == 1 && abs(dist.y as int) == 1)
}

/// Whether the two footprints overlap on both axes.
pub open spec fn is_under(dist: Delta) -> bool {
    dist.x == 0 && dist.y == 0
}

/// Whether an attack lands from this gap without any movement.
pub open spec fn in_range(dist: Delta, range: AttackRange) -> bool {
    !out_of_reach(dist, range) && !is_under(dist)
}

/// The tile just outside the target's footprint on the given side, in the
/// attacker's own column or row.
pub open spec fn exit_tile(
    start: Position,
    target: Position,
    target_size: Size,
    side: Cardinal,
) -> (int, int) {
    match side {
        Cardinal::North => (start.x as int, target.y + target_size.0),
        Cardinal::South => (start.x as int, target.y - 1),
        Cardinal::East => (target.x + target_size.0, start.y as int),
        Cardinal::West => (target.x - 1, start.y as int),
    }
}

/// Tiles the attacker has to cross to reach the exit tile on the given side.
pub open spec fn exit_cost(
    start: Position,
    target: Position,
    target_size: Size,
    side: Cardinal,
) -> int {
    match side {
        Cardinal::North => abs(start.y - (target.y + target_size.0)),
        Cardinal::South => abs(start.y - (target.y - 1)),
        Cardinal::East => abs(start.x - (target.x + target_size.0)),
        Cardinal::West => abs(start.x - (target.x - 1)),
    }
}

/// Rank of a side in the order of preference: North, South, East, West.
pub open spec fn side_rank(side: Cardinal) -> int {
    match side {
        Cardinal::North => 0,
        Cardinal::South => 1,
        Cardinal::East => 2,
        Cardinal::West => 3,
    }
}

/// The side by which an attacker leaves from under its target: the cheapest
/// exit, and among equally cheap ones the most preferred.
pub open spec fn exit_side(start: Position, target: Position, target_size: Size) -> Cardinal {
    let n = exit_cost(start, target, target_size, Cardinal::North);
    let s = exit_cost(start, target, target_size, Cardinal::South);
    let e = exit_cost(start, target, target_size, Cardinal::East);
    let w = exit_cost(start, target, target_size, Cardinal::West);
    if n <= s && n <= e && n <= w {
        Cardinal::North
    } else if s <= e && s <= w {
        Cardinal::South
    } else if e <= w {
        Cardinal::East
    } else {
        Cardinal::West
    }
}

/// The chosen exit is no dearer than any other, and strictly cheaper than
/// every side preferred to it.
pub proof fn lemma_exit_side_is_nearest(
    start: Position,
    target: Position,
    target_size: Size,
    other: Cardinal,
)
    ensures
        exit_cost(start, target, target_size, exit_side(start, target, target_size)) <= exit_cost(
            start,
            target,
            target_size,
            other,
        ),
        side_rank(other) < side_rank(exit_side(start, target, target_size)) ==> exit_cost(
            start,
            target,
            target_size,
            exit_side(start, target, target_size),
        ) < exit_cost(start, target, target_size, other),
{
}

/// Coordinate on the axis along which the attacker does not close in: the
/// attacker's own where it already overlaps a target wider than one tile, the
/// target's near edge otherwise.
pub open spec fn side_coord(gap: int, own: int, target: int, target_size: int) -> int {
    if gap == 0 {
        if target_size > 1 {
            own
        } else {
            target
        }
    } else if gap > 0 {
        target + (target_size - 1)
    } else {
        target
    }
}

/// The tile next to the target that an attacker outside its footprint walks
/// to. The axis with the wider gap is closed; on a tie, the north-south one.
/// From diagonal contact at the target's south side the attacker keeps its
/// row.
pub open spec fn approach_tile(
    start: Position,
    target: Position,
    target_size: Size,
    dist: Delta,
) -> (int, int) {
    if abs(dist.x as int) > abs(dist.y as int) {
        (
            if dist.x >= 0 {
                target.x + target_size.0
            } else {
                target.x - 1
            },
            side_coord(dist.y as int, start.y as int, target.y as int, target_size.0 as int),
        )
    } else {
        (
            side_coord(dist.x as int, start.x as int, target.x as int, target_size.0 as int),
            if dist.y >= 0 {
                target.y + target_size.0
            } else if abs(dist.x as int) == 1 && abs(dist.y as int) == 1 {
                start.y as int
            } else {
                target.y - 1
            },
        )
    }
}

/// The tile an attacker should walk to, as a pair of coordinates.
pub open spec fn closest_tile(
    start: Position,
    size: Size,
    target: Position,
    target_size: Size,
) -> (int, int) {
    let dist = adjusted_distance(start, size, target, target_size);
    if is_under(dist) {
        exit_tile(start, target, target_size, exit_side(start, target, target_size))
    } else {
        approach_tile(start, target, target_size, dist)
    }
}

/// Whether a pair of coordinates is the given tile.
pub open spec fn tile_is(p: Position, at: (int, int)) -> bool {
    p.x == at.0 && p.y == at.1
}

/// Tests the in-range rule on an adjusted distance.
pub fn is_in_range(dist: Delta, range: AttackRange) -> (b: bool)
    requires
        dist.x > i64::MIN,
        dist.y > i64::MIN,
    ensures
        b == in_range(dist, range),
{
    let ax: i64 = abs_i64(dist.x);
    let ay: i64 = abs_i64(dist.y);
    let r: i64 = range.0 as i64;
    !(ax > r || ay > r || (r == 1 && ax == 1 && ay == 1)) && !(dist.x == 0 && dist.y == 0)
}

/// Coordinate on the axis that is not closed, computed.
fn coord_on_side(gap: i64, own: i64, target: i64, target_size: u8) -> (c: i64)
    requires
        coord_in_bounds(target as int),
        target_size >= 1,
    ensures
        c == side_coord(gap as int, own as int, target as int, target_size as int),
{
    if gap == 0 {
        if target_size > 1 {
            own
        } else {
            target
        }
    } else if gap > 0 {
        target + (target_size - 1) as i64
    } else {
        target
    }
}

/// The tile next to the target that the attacker should walk to: out from
/// under it by the nearest side, or up to it along the wider gap.
pub fn closest_tile_to_entity(
    start_sw_tile: Position,
    size: Size,
    target_sw_tile: Position,
    target_size: Size,
) -> (tile: Position)
    requires
        start_sw_tile.in_bounds(),
        target_sw_tile.in_bounds(),
        size.valid(),
        target_size.valid(),
    ensures
        tile_is(tile, closest_tile(start_sw_tile, size, target_sw_tile, target_size)),
{
    let dist = distance_to_entity(start_sw_tile, size, target_sw_tile, target_size);
    let span: i64 = target_size.0 as i64;
    if dist.x == 0 && dist.y == 0 {
        let north_y: i64 = target_sw_tile.y + span;
        let south_y: i64 = target_sw_tile.y - 1;
        let east_x: i64 = target_sw_tile.x + span;
        let west_x: i64 = target_sw_tile.x - 1;
        let mut tile = Position { x: start_sw_tile.x, y: north_y };
        let mut closest: i64 = abs_i64(start_sw_tile.y - north_y);
        let south: i64 = abs_i64(start_sw_tile.y - south_y);
        if south < closest {
            tile = Position { x: start_sw_tile.x, y: south_y };
            closest = south;
        }
        let east: i64 = abs_i64(start_sw_tile.x - east_x);
        if east < closest {
            tile = Position { x: east_x, y: start_sw_tile.y };
            closest = east;
        }
        let west: i64 = abs_i64(start_sw_tile.x - west_x);
        if west < closest {
            tile = Position { x: west_x, y: start_sw_tile.y };
        }
        tile
    } else {
        let ax: i64 = abs_i64(dist.x);
        let ay: i64 = abs_i64(dist.y);
        if ax > ay {
            let x: i64 = if dist.x >= 0 {
                target_sw_tile.x + span
            } else {
                target_sw_tile.x - 1
            };
            let y: i64 = coord_on_side(dist.y, start_sw_tile.y, target_sw_tile.y, target_size.0);
            Position { x, y }
        } else {
            let y: i64 = if dist.y >= 0 {
                target_sw_tile.y + span
            } else if ax == 1 && ay == 1 {
                start_sw_tile.y
            } else {
                target_sw_tile.y - 1
            };
            let x: i64 = coord_on_side(dist.x, start_sw_tile.x, target_sw_tile.x, target_size.0);
            Position { x, y }
        }
    }
}

/// The side that a fleeing attacker runs to for a draw of 0, 1, 2 or 3.
pub open spec fn flee_side(draw: int) -> Cardinal {
    if draw == 0 {
        Cardinal::West
    } else if draw == 1 {
        Cardinal::East
    } else if draw == 2 {
        Cardinal::South
    } else {
        Cardinal::North
    }
}

/// The two bits of a tick's roll that belong to the actor in slot `id`. The
/// roll holds 32 such pairs; slot 32 shares the pair of slot 0, and so on.
pub open spec fn roll_draw(roll: u64, id: EntityId) -> u64 {
    (roll >> ((2 * (id.0 % 32)) as u64)) & 3
}

/// The side to which the actor in slot `id` flees in a tick with this roll.
pub fn flee_side_for(roll: u64, id: EntityId) -> (side: Cardinal)
    ensures
        side == flee_side(roll_draw(roll, id) as int),
{
    let shift: u64 = (2 * (id.0 % 32)) as u64;
    let draw: u64 = (roll >> shift) & 3;
    if draw == 0 {
        Cardinal::West
    } else if draw == 1 {
        Cardinal::East
    } else if draw == 2 {
        Cardinal::South
    } else {
        Cardinal::North
    }
}

/// The tile `FLEE_DISTANCE` tiles from `start` on the given side.
pub open spec fn flee_tile(start: Position, side: Cardinal) -> (int, int) {
    match side {
        Cardinal::North => (start.x as int, start.y + FLEE_DISTANCE),
        Cardinal::South => (start.x as int, start.y - FLEE_DISTANCE),
        Cardinal::East => (start.x + FLEE_DISTANCE, start.y as int),
        Cardinal::West => (start.x - FLEE_DISTANCE, start.y as int),
    }
}

/// The destination that an attacker has after the range check of a tick, if
/// any. Out of reach, it walks to the closest tile beside the target. Under
/// the target, its behavior decides: out by the nearest side, away to the
/// side `flee`, or nowhere. In range, it has none.
pub open spec fn resolved_destination(
    start: Position,
    size: Size,
    target: Position,
    target_size: Size,
    range: AttackRange,
    under: TargetUnderBehavior,
    flee: Cardinal,
) -> Option<(int, int)> {
    let dist = adjusted_distance(start, size, target, target_size);
    if out_of_reach(dist, range) {
        Some(closest_tile(start, size, target, target_size))
    } else if is_under(dist) {
        match under {
            TargetUnderBehavior::MoveOut => Some(closest_tile(start, size, target, target_size)),
            TargetUnderBehavior::RandomCardinal => Some(flee_tile(start, flee)),
            TargetUnderBehavior::StayStill => None,
        }
    } else {
        None
    }
}

/// Whether an optional tile is the optional pair of coordinates.
pub open spec fn tile_matches(dest: Option<Position>, at: Option<(int, int)>) -> bool {
    match at {
        Some(pair) => dest.is_some() && tile_is(dest.unwrap(), pair),
        None => dest.is_none(),
    }
}

/// The range check of one attacker for one tick. Returns the tile it should
/// move to, or `None` where it should stay: in range of its target, or under
/// it and told to stay still. `flee` is the side it runs to where its
/// behavior under the target is to flee.
pub fn resolve_destination(
    start_sw_tile: Position,
    size: Size,
    target_sw_tile: Position,
    target_size: Size,
    range: AttackRange,
    under: TargetUnderBehavior,
    flee: Cardinal,
) -> (dest: Option<Position>)
    requires
        start_sw_tile.in_bounds(),
        target_sw_tile.in_bounds(),
        size.valid(),
        target_size.valid(),
    ensures
        tile_matches(
            dest,
            resolved_destination(
                start_sw_tile,
                size,
                target_sw_tile,
                target_size,
                range,
                under,
                flee,
            ),
        ),
        dest.is_none() <==> in_range(
            adjusted_distance(start_sw_tile, size, target_sw_tile, target_size),
            range,
        ) || (is_under(adjusted_distance(start_sw_tile, size, target_sw_tile, target_size))
            && under == TargetUnderBehavior::StayStill),
{
    let dist = distance_to_entity(start_sw_tile, size, target_sw_tile, target_size);
    let under_target: bool = dist.x == 0 && dist.y == 0;
    if is_in_range(dist, range) {
        None
    } else if !under_target {
        Some(closest_tile_to_entity(start_sw_tile, size, target_sw_tile, target_size))
    } else {
        match under {
            TargetUnderBehavior::MoveOut => Some(
                closest_tile_to_entity(start_sw_tile, size, target_sw_tile, target_size),
            ),
            TargetUnderBehavior::RandomCardinal => Some(
                match flee {
                    Cardinal::North => Position {
                        x: start_sw_tile.x,
                        y: start_sw_tile.y + FLEE_DISTANCE,
                    },
                    Cardinal::South => Position {
                        x: start_sw_tile.x,
                        y: start_sw_tile.y - FLEE_DISTANCE,
                    },
                    Cardinal::East => Position {
                        x: start_sw_tile.x + FLEE_DISTANCE,
                        y: start_sw_tile.y,
                    },
                    Cardinal::West => Position {
                        x: start_sw_tile.x - FLEE_DISTANCE,
                        y: start_sw_tile.y,
                    },
                },
            ),
            TargetUnderBehavior::StayStill => None,
        }
    }
}

/// Whether the controlled actor moves in the first pass of a tick: at range
/// 1, with an adjusted distance of (2,2), (1,3) or (3,1) in magnitude.
pub open spec fn moves_first(dist: Delta, range: AttackRange) -> bool {
    range.0 == 1 && ((abs(dist.x as int) == 2 && abs(dist.y as int) == 2) || (abs(dist.x as int)
        == 1 && abs(dist.y as int) == 3) || (abs(dist.x as int) == 3 && abs(dist.y as int) == 1))
}

/// The movement pass of the controlled actor for a tick in which it attacks
/// from the given adjusted distance.
pub fn simultaneous_order(dist: Delta, range: AttackRange) -> (order: MovementOrder)
    requires
        dist.x > i64::MIN,
        dist.y > i64::MIN,
    ensures
        order == (if moves_first(dist, range) {
            MovementOrder::First
        } else {
            MovementOrder::Second
        }),
{
    let ax: i64 = abs_i64(dist.x);
    let ay: i64 = abs_i64(dist.y);
    if range.0 == 1 && ((ax == 2 && ay == 2) || (ax == 1 && ay == 3) || (ax == 3 && ay == 1)) {
        MovementOrder::First
    } else {
        MovementOrder::Second
    }
}

/// Whether an actor takes part in a pass of range checks: it has a target
/// and a behavior for standing under it, and its movement order is the one
/// the pass is for. A pass for no order in particular takes every such actor.
pub open spec fn checks_in_pass(a: Actor, pass: Option<MovementOrder>) -> bool {
    a.target.is_some() && a.under_behavior.is_some() && (pass.is_none() || a.order == pass)
}

/// What the range check gives the attacker in slot `k` as its destination in
/// a tick with the given roll.
pub open spec fn slot_resolution(actors: Actors, k: int, roll: u64) -> Option<(int, int)> {
    let a = actors[k].unwrap();
    let t = actors[a.target.unwrap().0.0 as int].unwrap();
    resolved_destination(
        a.position,
        a.size,
        t.position,
        t.size,
        a.attack_range,
        a.under_behavior.unwrap(),
        flee_side(roll_draw(roll, EntityId(k as usize)) as int),
    )
}

/// Whether the range check sends the attacker in slot `k` off the grid.
pub open spec fn slot_overflows(
    actors: Actors,
    k: int,
    pass: Option<MovementOrder>,
    roll: u64,
) -> bool {
    &&& alive(actors, k)
    &&& checks_in_pass(actors[k].unwrap(), pass)
    &&& match slot_resolution(actors, k, roll) {
        Some(at) => !coord_in_bounds(at.0) || !coord_in_bounds(at.1),
        None => false,
    }
}

/// Slot `k` after a pass of range checks: an attacker of the pass has the
/// destination that its check gives, or none; any other slot is as before.
pub open spec fn checked_slot(
    actors: Actors,
    k: int,
    pass: Option<MovementOrder>,
    roll: u64,
) -> Option<Actor> {
    if actors[k].is_some() && checks_in_pass(actors[k].unwrap(), pass) {
        Some(
            Actor {
                destination: match slot_resolution(actors, k, roll) {
                    Some(at) => Some(Destination(Position { x: at.0 as i64, y: at.1 as i64 })),
                    None => None,
                },
                ..actors[k].unwrap()
            },
        )
    } else {
        actors[k]
    }
}

/// Whether the attacker in slot `k` takes part in the pass and names a
/// target that does not exist.
pub open spec fn slot_dangles(actors: Actors, k: int, pass: Option<MovementOrder>) -> bool {
    &&& alive(actors, k)
    &&& checks_in_pass(actors[k].unwrap(), pass)
    &&& !alive(actors, actors[k].unwrap().target.unwrap().0.0 as int)
}

/// Whether some attacker of the pass names a target that does not exist.
pub open spec fn check_dangles(actors: Actors, pass: Option<MovementOrder>) -> bool {
    exists|k: int| slot_dangles(actors, k, pass)
}

/// Whether some attacker of the pass is sent off the grid.
pub open spec fn check_fails(actors: Actors, pass: Option<MovementOrder>, roll: u64) -> bool {
    exists|k: int| slot_overflows(actors, k, pass, roll)
}

/// Why a pass of range checks fails, if it does: an attacker of the pass
/// names a target that does not exist; or, where every target exists, an
/// attacker is sent off the grid.
pub open spec fn check_failure(actors: Actors, pass: Option<MovementOrder>, roll: u64) -> Option<
    WorldError,
> {
    if check_dangles(actors, pass) {
        Some(WorldError::MissingTarget)
    } else if check_fails(actors, pass, roll) {
        Some(WorldError::OutOfBounds)
    } else {
        None
    }
}

/// The world after a pass of range checks that does not fail.
pub open spec fn checked(actors: Actors, pass: Option<MovementOrder>, roll: u64) -> Actors {
    Seq::new(actors.len(), |k: int| checked_slot(actors, k, pass, roll))
}

/// In a sound world every target exists.
pub proof fn lemma_sound_never_dangles(actors: Actors, pass: Option<MovementOrder>)
    requires
        actors_wf(actors),
    ensures
        !check_dangles(actors, pass),
{
    assert forall|k: int| !slot_dangles(actors, k, pass) by {
        if alive(actors, k) {
            assert(actors[k].is_some());
        }
    }
}

/// A pass of range checks moves nobody and changes nobody's target or kind.
pub proof fn lemma_checked_shape(actors: Actors, pass: Option<MovementOrder>, roll: u64)
    ensures
        same_slots(actors, checked(actors, pass, roll)),
        same_players(actors, checked(actors, pass, roll)),
        same_targets(actors, checked(actors, pass, roll)),
{
    let after = checked(actors, pass, roll);
    assert forall|k: int| 0 <= k < actors.len() implies (#[trigger] after[k]).is_some()
        == actors[k].is_some() by {
        assert(after[k] == checked_slot(actors, k, pass, roll));
    }
    assert forall|k: int| 0 <= k < after.len() && (#[trigger] after[k]).is_some() implies
        after[k].unwrap().kind == actors[k].unwrap().kind by {
        assert(after[k] == checked_slot(actors, k, pass, roll));
    }
    lemma_same_kinds_same_players(actors, after);
    assert forall|k: int| 0 <= k < after.len() && (#[trigger] after[k]).is_some() implies
        after[k].unwrap().target == actors[k].unwrap().target by {
        assert(after[k] == checked_slot(actors, k, pass, roll));
    }
}

/// A pass of range checks that sends nobody off the grid leaves every
/// actor's own data sound.
pub proof fn lemma_checked_keeps_placed(actors: Actors, pass: Option<MovementOrder>, roll: u64)
    requires
        actors_placed(actors),
        !check_fails(actors, pass, roll),
    ensures
        actors_placed(checked(actors, pass, roll)),
{
    let after = checked(actors, pass, roll);
    assert forall|k: int| 0 <= k < after.len() && (#[trigger] after[k]).is_some() implies
        actor_sound(after[k].unwrap()) by {
        assert(after[k] == checked_slot(actors, k, pass, roll));
        assert(actors[k].is_some());
        assert(!slot_overflows(actors, k, pass, roll));
    }
}

/// A pass of range checks that does not fail keeps the world sound, moves
/// nobody and changes nobody's target, order or kind.
pub proof fn lemma_checked_keeps_wf(actors: Actors, pass: Option<MovementOrder>, roll: u64)
    requires
        actors_wf(actors),
        !check_fails(actors, pass, roll),
    ensures
        actors_wf(checked(actors, pass, roll)),
        same_slots(actors, checked(actors, pass, roll)),
        same_players(actors, checked(actors, pass, roll)),
        same_targets(actors, checked(actors, pass, roll)),
{
    let after = checked(actors, pass, roll);
    lemma_checked_shape(actors, pass, roll);
    assert(actors_placed(actors)) by {
        assert forall|i: int| 0 <= i < actors.len() && (#[trigger] actors[i]).is_some() implies
            actor_sound(actors[i].unwrap()) by {}
    }
    lemma_checked_keeps_placed(actors, pass, roll);
    assert forall|k: int| 0 <= k < after.len() && (#[trigger] after[k]).is_some() implies
        slot_sound_in(actors, after, k) by {
        assert(actors[k].is_some());
    }
    lemma_change_keeps_wf(actors, after);
}

/// Tests whether an actor's movement order is the one a pass is for.
fn order_in_pass(order: Option<MovementOrder>, pass: Option<MovementOrder>) -> (b: bool)
    ensures
        b == (pass.is_none() || order == pass),
{
    match pass {
        None => true,
        Some(MovementOrder::First) => match order {
            Some(MovementOrder::First) => true,
            _ => false,
        },
        Some(MovementOrder::Second) => match order {
            Some(MovementOrder::Second) => true,
            _ => false,
        },
    }
}

/// Looks for an attacker of the pass whose target does not exist.
fn find_dangling(world: &World, pass: Option<MovementOrder>) -> (found: bool)
    ensures
        found == check_dangles(world@, pass),
{
    let len: usize = world.actors.len();
    let mut k: usize = 0;
    while k < len
        invariant
            k <= len,
            len == world@.len(),
            forall|j: int| 0 <= j < k ==> !slot_dangles(world@, j, pass),
        decreases len - k,
    {
        match world.actors[k] {
            Some(actor) => {
                match (actor.target, actor.under_behavior) {
                    (Some(target), Some(_)) => {
                        if order_in_pass(actor.order, pass) && !(target.0.0 < len
                            && world.actors[target.0.0].is_some()) {
                            assert(slot_dangles(world@, k as int, pass));
                            return true;
                        }
                    },
                    _ => {},
                }
            },
            None => {},
        }
        k = k + 1;
    }
    false
}

/// One pass of range checks over the attackers whose movement order is
/// `pass`, or over all attackers where `pass` is `None`. Each gets the
/// destination that `resolve_destination` gives it, or loses the one it had.
/// Positions do not change. The pass fails, and changes nothing, where an
/// attacker names a target that does not exist or a destination would lie
/// off the grid.
pub fn check_pass(world: &mut World, pass: Option<MovementOrder>, roll: u64) -> (r: Result<
    (),
    WorldError,
>)
    requires
        old(world).placed(),
    ensures
        final(world).placed(),
        old(world).wf() ==> final(world).wf(),
        final(world).labels == old(world).labels,
        match check_failure(old(world)@, pass, roll) {
            Some(e) => r == Err::<(), WorldError>(e) && final(world)@ == old(world)@,
            None => r.is_ok() && final(world)@ == checked(old(world)@, pass, roll),
        },
{
    if find_dangling(world, pass) {
        return Err(WorldError::MissingTarget);
    }
    let len: usize = world.actors.len();
    let mut next: Vec<Option<Actor>> = Vec::new();
    let mut k: usize = 0;
    while k < len
        invariant
            k <= len,
            len == world@.len(),
            world@ == old(world)@,
            world.placed(),
            !check_dangles(world@, pass),
            next@.len() == k,
            forall|j: int|
                0 <= j < k ==> #[trigger] next@[j] == checked_slot(world@, j, pass, roll),
            forall|j: int| 0 <= j < k ==> !slot_overflows(world@, j, pass, roll),
        decreases len - k,
    {
        let slot: Option<Actor> = world.actors[k];
        let kept: Option<Actor> = match slot {
            None => None,
            Some(actor) => {
                match (actor.target, actor.under_behavior) {
                    (Some(target), Some(under)) => {
                        if order_in_pass(actor.order, pass) {
                            assert(!slot_dangles(world@, k as int, pass));
                            let other: Actor = world.actors[target.0.0].unwrap();
                            let dest = resolve_destination(
                                actor.position,
                                actor.size,
                                other.position,
                                other.size,
                                actor.attack_range,
                                under,
                                flee_side_for(roll, EntityId(k)),
                            );
                            let mut updated: Actor = actor;
                            match dest {
                                Some(tile) => {
                                    if !tile.is_in_bounds() {
                                        assert(slot_overflows(world@, k as int, pass, roll));
                                        return Err(WorldError::OutOfBounds);
                                    }
                                    updated.destination = Some(Destination(tile));
                                },
                                None => {
                                    updated.destination = None;
                                },
                            }
                            Some(updated)
                        } else {
                            Some(actor)
                        }
                    },
                    _ => Some(actor),
                }
            },
        };
        next.push(kept);
        k = k + 1;
    }
    world.actors = next;
    proof {
        assert(world@ =~= checked(old(world)@, pass, roll));
        assert(!check_fails(old(world)@, pass, roll));
        lemma_checked_shape(old(world)@, pass, roll);
        lemma_checked_keeps_placed(old(world)@, pass, roll);
        if old(world).wf() {
            lemma_checked_keeps_wf(old(world)@, pass, roll);
            lemma_index_keeps(old(world)@, world@, world.inverse());
        }
    }
    Ok(())
}

/// The range checks of the first movement pass.
pub fn first_check_in_range(world: &mut World, roll: u64) -> (r: Result<(), WorldError>)
    requires
        old(world).placed(),
    ensures
        final(world).placed(),
        old(world).wf() ==> final(world).wf(),
        final(world).labels == old(world).labels,
        match check_failure(old(world)@, Some(MovementOrder::First), roll) {
            Some(e) => r == Err::<(), WorldError>(e) && final(world)@ == old(world)@,
            None => r.is_ok() && final(world)@ == checked(
                old(world)@,
                Some(MovementOrder::First),
                roll,
            ),
        },
{
    check_pass(world, Some(MovementOrder::First), roll)
}

/// The range checks of the second movement pass.
pub fn second_check_in_range(world: &mut World, roll: u64) -> (r: Result<(), WorldError>)
    requires
        old(world).placed(),
    ensures
        final(world).placed(),
        old(world).wf() ==> final(world).wf(),
        final(world).labels == old(world).labels,
        match check_failure(old(world)@, Some(MovementOrder::Second), roll) {
            Some(e) => r == Err::<(), WorldError>(e) && final(world)@ == old(world)@,
            None => r.is_ok() && final(world)@ == checked(
                old(world)@,
                Some(MovementOrder::Second),
                roll,
            ),
        },
{
    check_pass(world, Some(MovementOrder::Second), roll)
}

/// The range checks of every attacker, whatever its movement order, as run
/// while the sequence is being edited.
pub fn check_in_range(world: &mut World, roll: u64) -> (r: Result<(), WorldError>)
    requires
        old(world).placed(),
    ensures
        final(world).placed(),
        old(world).wf() ==> final(world).wf(),
        final(world).labels == old(world).labels,
        match check_failure(old(world)@, None, roll) {
            Some(e) => r == Err::<(), WorldError>(e) && final(world)@ == old(world)@,
            None => r.is_ok() && final(world)@ == checked(old(world)@, None, roll),
        },
{
    check_pass(world, None, roll)
}

/// The movement pass of the controlled actor in slot `p` for this tick:
/// the second, unless it attacks from one of the distances of `moves_first`.
pub open spec fn player_order(actors: Actors, p: int) -> MovementOrder {
    let a = actors[p].unwrap();
    if a.target.is_some() {
        let t = actors[a.target.unwrap().0.0 as int].unwrap();
        if moves_first(adjusted_distance(a.position, a.size, t.position, t.size), a.attack_range) {
            MovementOrder::First
        } else {
            MovementOrder::Second
        }
    } else {
        MovementOrder::Second
    }
}

/// Why the movement pass of the actor in slot `p` cannot be decided, if it
/// cannot: the actor is not the one controlled actor, or its target does not
/// exist.
pub open spec fn order_refusal(actors: Actors, p: int) -> Option<WorldError> {
    match player_refusal(actors, p) {
        Some(e) => Some(e),
        None => if actors[p].unwrap().target.is_some() && !alive(
            actors,
            actors[p].unwrap().target.unwrap().0.0 as int,
        ) {
            Some(WorldError::MissingTarget)
        } else {
            None
        },
    }
}

/// The world after the controlled actor in slot `p` has been given its
/// movement pass for this tick.
pub open spec fn ordered(actors: Actors, p: int) -> Actors {
    actors.update(p, Some(Actor { order: Some(player_order(actors, p)), ..actors[p].unwrap() }))
}

/// Deciding the movement pass of the controlled actor changes nobody's
/// target or kind and leaves every actor's own data sound.
pub proof fn lemma_ordered_shape(actors: Actors, p: int)
    requires
        is_player(actors, p),
    ensures
        same_slots(actors, ordered(actors, p)),
        same_players(actors, ordered(actors, p)),
        same_targets(actors, ordered(actors, p)),
        actors_placed(actors) ==> actors_placed(ordered(actors, p)),
{
    lemma_same_kinds_same_players(actors, ordered(actors, p));
}

/// Deciding the movement pass of the controlled actor keeps the world sound
/// and the controlled actors what they are.
pub proof fn lemma_ordered_keeps_wf(actors: Actors, p: int)
    requires
        actors_wf(actors),
        is_player(actors, p),
    ensures
        actors_wf(ordered(actors, p)),
        same_slots(actors, ordered(actors, p)),
        same_players(actors, ordered(actors, p)),
        same_targets(actors, ordered(actors, p)),
{
    lemma_change_keeps_wf(actors, ordered(actors, p));
    lemma_same_kinds_same_players(actors, ordered(actors, p));
}

/// Decides in which movement pass of this tick the controlled actor takes
/// part. Refused, with nothing changed, where `player` is not the one
/// controlled actor or attacks an actor that does not exist.
pub fn simultaneous_check(world: &mut World, player: EntityId) -> (r: Result<(), WorldError>)
    requires
        old(world).placed(),
    ensures
        final(world).placed(),
        old(world).wf() ==> final(world).wf(),
        final(world).labels == old(world).labels,
        match order_refusal(old(world)@, player.0 as int) {
            Some(e) => r == Err::<(), WorldError>(e) && final(world)@ == old(world)@,
            None => r.is_ok() && final(world)@ == ordered(old(world)@, player.0 as int),
        },
{
    match world.check_player(player) {
        Err(e) => {
            return Err(e);
        },
        Ok(()) => {},
    }
    let mut actor: Actor = world.actors[player.0].unwrap();
    let order = match actor.target {
        Some(target) => {
            if target.0.0 >= world.actors.len() || world.actors[target.0.0].is_none() {
                return Err(WorldError::MissingTarget);
            }
            let other: Actor = world.actors[target.0.0].unwrap();
            let dist = distance_to_entity(actor.position, actor.size, other.position, other.size);
            simultaneous_order(dist, actor.attack_range)
        },
        None => MovementOrder::Second,
    };
    actor.order = Some(order);
    world.actors.set(player.0, Some(actor));
    proof {
        lemma_ordered_shape(old(world)@, player.0 as int);
        if old(world).wf() {
            lemma_ordered_keeps_wf(old(world)@, player.0 as int);
            lemma_index_keeps(old(world)@, world@, world.inverse());
        }
    }
    Ok(())
}

} // verus!
