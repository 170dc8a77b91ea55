//! The per-tick movement resolver: a cardinal phase that evens out the two
//! axis distances and a diagonal phase that closes both at once.

use vstd::prelude::*;
use crate::geometry::{abs, abs_i64, min, signum_i64, Delta, Position};
use crate::world::{
    actor_sound, actors_placed, actors_wf, lemma_change_keeps_wf, lemma_index_keeps,
    lemma_same_kinds_same_players, same_players, same_slots, same_targets, slot_sound_in, Actor,
    Actors, World,
};

verus! {

/// The tile an actor wants to reach.
#[derive(Clone, Copy, Debug, PartialEq, Eq, Structural)]
pub struct Destination(pub Position);

/// Tiles an actor may move in one tick.
#[derive(Clone, Copy, Debug, PartialEq, Eq, Structural)]
pub struct Speed(pub u8);

impl Default for Speed {
    fn default() -> (s: Speed)
        ensures
            s.0 == 1,
    {
        Speed(1)
    }
}

/// Which phase of a move spends the tick's speed first.
#[derive(Clone, Copy, Debug, PartialEq, Eq, Structural)]
pub enum MovementType {
    CardinalFirst,
    DiagonalFirst,
}

/// In which of a tick's two movement passes an actor takes part.
#[derive(Clone, Copy, Debug, PartialEq, Eq, Structural)]
pub enum MovementOrder {
    First,
    Second,
}

/// `steps` tiles in the direction of the signed distance `d`.
pub open spec fn toward(d: int, steps: int) -> int {
    if d > 0 {
        steps
    } else if d < 0 {
        -steps
    } else {
        0
    }
}

/// Steps of the cardinal phase: as many as even out the two axis distances,
/// as far as the speed allows.
pub open spec fn cardinal_steps(dx: int, dy: int, speed: int) -> int {
    min(speed, abs(abs(dx) - abs(dy)))
}

/// Steps of the diagonal phase: as many as bring one axis distance to zero,
/// as far as the speed allows.
pub open spec fn diagonal_steps(dx: int, dy: int, speed: int) -> int {
    min(speed, min(abs(dx), abs(dy)))
}

/// Displacement of the cardinal phase from `start` toward `destination`: along
/// the axis with the greater distance only.
pub open spec fn cardinal_delta(start: Position, destination: Position, speed: u8) -> (int, int) {
    let dx = destination.x - start.x;
    let dy = destination.y - start.y;
    let k = cardinal_steps(dx, dy, speed as int);
    if abs(dx) > abs(dy) {
        (toward(dx, k), 0)
    } else {
        (0, toward(dy, k))
    }
}

/// Displacement of the diagonal phase from `start` toward `destination`: the
/// same number of tiles along both axes.
pub open spec fn diagonal_delta(start: Position, destination: Position, speed: u8) -> (int, int) {
    let dx = destination.x - start.x;
    let dy = destination.y - start.y;
    let k = diagonal_steps(dx, dy, speed as int);
    (toward(dx, k), toward(dy, k))
}

/// Speed left after the cardinal phase.
pub open spec fn cardinal_speed_left(start: Position, destination: Position, speed: u8) -> int {
    speed - cardinal_steps(destination.x - start.x, destination.y - start.y, speed as int)
}

/// Speed left after the diagonal phase.
pub open spec fn diagonal_speed_left(start: Position, destination: Position, speed: u8) -> int {
    speed - diagonal_steps(destination.x - start.x, destination.y - start.y, speed as int)
}

/// Moves along one axis at a time, toward the destination, until both axis
/// distances are equal or the speed is spent. Returns the displacement and the
/// speed that is left.
pub fn move_cardinally(start: Position, destination: Position, speed: u8) -> (r: (Delta, u8))
    requires
        start.in_bounds(),
        destination.in_bounds(),
    ensures
        r.0.x == cardinal_delta(start, destination, speed).0,
        r.0.y == cardinal_delta(start, destination, speed).1,
        r.1 == cardinal_speed_left(start, destination, speed),
{
    let dx: i64 = destination.x - start.x;
    let dy: i64 = destination.y - start.y;
    let along_x: bool = abs_i64(dx) > abs_i64(dy);
    let mut delta = Delta { x: 0, y: 0 };
    let mut rest_x: i64 = dx;
    let mut rest_y: i64 = dy;
    let mut speed_left: u8 = speed;
    while abs_i64(rest_x) != abs_i64(rest_y) && speed_left > 0
        invariant
            start.in_bounds(),
            destination.in_bounds(),
            dx == destination.x - start.x,
            dy == destination.y - start.y,
            along_x == (abs(dx as int) > abs(dy as int)),
            speed_left <= speed,
            rest_x == dx - delta.x,
            rest_y == dy - delta.y,
            along_x ==> delta.x == toward(dx as int, speed - speed_left) && delta.y == 0,
            !along_x ==> delta.y == toward(dy as int, speed - speed_left) && delta.x == 0,
            speed - speed_left <= abs(abs(dx as int) - abs(dy as int)),
        decreases speed_left,
    {
        if abs_i64(rest_x) > abs_i64(rest_y) {
            delta.x = delta.x + signum_i64(rest_x);
        } else {
            delta.y = delta.y + signum_i64(rest_y);
        }
        rest_x = dx - delta.x;
        rest_y = dy - delta.y;
        speed_left = speed_left - 1;
    }
    (delta, speed_left)
}

/// Moves one tile along both axes at a time, toward the destination, until
/// one axis distance is zero or the speed is spent. Returns the displacement
/// and the speed that is left.
pub fn move_diagonally(start: Position, destination: Position, speed: u8) -> (r: (Delta, u8))
    requires
        start.in_bounds(),
        destination.in_bounds(),
    ensures
        r.0.x == diagonal_delta(start, destination, speed).0,
        r.0.y == diagonal_delta(start, destination, speed).1,
        r.1 == diagonal_speed_left(start, destination, speed),
{
    let dx: i64 = destination.x - start.x;
    let dy: i64 = destination.y - start.y;
    let mut delta = Delta { x: 0, y: 0 };
    let mut rest_x: i64 = dx;
    let mut rest_y: i64 = dy;
    let mut speed_left: u8 = speed;
    while rest_x != 0 && rest_y != 0 && speed_left > 0
        invariant
            start.in_bounds(),
            destination.in_bounds(),
            dx == destination.x - start.x,
            dy == destination.y - start.y,
            speed_left <= speed,
            rest_x == dx - delta.x,
            rest_y == dy - delta.y,
            delta.x == toward(dx as int, speed - speed_left),
            delta.y == toward(dy as int, speed - speed_left),
            speed - speed_left <= abs(dx as int),
            speed - speed_left <= abs(dy as int),
        decreases speed_left,
    {
        delta.x = delta.x + signum_i64(rest_x);
        delta.y = delta.y + signum_i64(rest_y);
        rest_x = dx - delta.x;
        rest_y = dy - delta.y;
        speed_left = speed_left - 1;
    }
    (delta, speed_left)
}

/// Displacement of the phase that a movement type runs first.
pub open spec fn first_delta(
    movement_type: MovementType,
    start: Position,
    destination: Position,
    speed: u8,
) -> (int, int) {
    match movement_type {
        MovementType::CardinalFirst => cardinal_delta(start, destination, speed),
        MovementType::DiagonalFirst => diagonal_delta(start, destination, speed),
    }
}

/// Speed left after the phase that a movement type runs first.
pub open spec fn first_speed_left(
    movement_type: MovementType,
    start: Position,
    destination: Position,
    speed: u8,
) -> int {
    match movement_type {
        MovementType::CardinalFirst => cardinal_speed_left(start, destination, speed),
        MovementType::DiagonalFirst => diagonal_speed_left(start, destination, speed),
    }
}

/// Displacement of the phase that a movement type runs second.
pub open spec fn second_delta(
    movement_type: MovementType,
    start: Position,
    destination: Position,
    speed: u8,
) -> (int, int) {
    match movement_type {
        MovementType::CardinalFirst => diagonal_delta(start, destination, speed),
        MovementType::DiagonalFirst => cardinal_delta(start, destination, speed),
    }
}

/// Steps that the phase run second takes.
pub open spec fn second_steps(
    movement_type: MovementType,
    start: Position,
    destination: Position,
    speed: u8,
) -> int {
    match movement_type {
        MovementType::CardinalFirst => diagonal_steps(
            destination.x - start.x,
            destination.y - start.y,
            speed as int,
        ),
        MovementType::DiagonalFirst => cardinal_steps(
            destination.x - start.x,
            destination.y - start.y,
            speed as int,
        ),
    }
}

/// Where an actor stands after the first phase of a tick's move.
pub open spec fn midway(
    start: Position,
    destination: Position,
    speed: Speed,
    movement_type: MovementType,
) -> Position {
    let d = first_delta(movement_type, start, destination, speed.0);
    Position { x: (start.x + d.0) as i64, y: (start.y + d.1) as i64 }
}

/// Where an actor stands after one tick of moving from `start` toward
/// `destination`: the first phase from `start`, then the other phase, with
/// the speed that is left, from where the first one ended.
pub open spec fn moved_position(
    start: Position,
    destination: Position,
    speed: Speed,
    movement_type: MovementType,
) -> Position {
    let mid = midway(start, destination, speed, movement_type);
    let left = first_speed_left(movement_type, start, destination, speed.0) as u8;
    let d = second_delta(movement_type, mid, destination, left);
    Position { x: (mid.x + d.0) as i64, y: (mid.y + d.1) as i64 }
}

/// Unit steps taken in one tick of moving from `start` toward `destination`,
/// both phases together.
pub open spec fn steps_taken(
    start: Position,
    destination: Position,
    speed: Speed,
    movement_type: MovementType,
) -> int {
    let mid = midway(start, destination, speed, movement_type);
    let left = first_speed_left(movement_type, start, destination, speed.0);
    (speed.0 - left) + second_steps(movement_type, mid, destination, left as u8)
}

/// Whether `v` lies between `a` and `b`, ends included, whichever is greater.
pub open spec fn between(v: int, a: int, b: int) -> bool {
    (a <= v <= b) || (b <= v <= a)
}

/// What one phase of a move does: it stays inside the rectangle spanned by
/// the start and the destination and moves as many tiles on an axis as it
/// takes steps, or none.
pub open spec fn phase_sound(
    start: Position,
    destination: Position,
    d: (int, int),
    steps: int,
    speed: int,
) -> bool {
    &&& 0 <= steps <= speed
    &&& between(start.x + d.0, start.x as int, destination.x as int)
    &&& between(start.y + d.1, start.y as int, destination.y as int)
    &&& abs(d.0) <= steps
    &&& abs(d.1) <= steps
    &&& (start == destination ==> d.0 == 0 && d.1 == 0)
    &&& (speed == 0 ==> d.0 == 0 && d.1 == 0)
}

/// The cardinal phase is sound.
pub proof fn lemma_cardinal_sound(start: Position, destination: Position, speed: u8)
    ensures
        phase_sound(
            start,
            destination,
            cardinal_delta(start, destination, speed),
            cardinal_steps(destination.x - start.x, destination.y - start.y, speed as int),
            speed as int,
        ),
{
}

/// The diagonal phase is sound.
pub proof fn lemma_diagonal_sound(start: Position, destination: Position, speed: u8)
    ensures
        phase_sound(
            start,
            destination,
            diagonal_delta(start, destination, speed),
            diagonal_steps(destination.x - start.x, destination.y - start.y, speed as int),
            speed as int,
        ),
{
}

/// One tick of movement stays inside the rectangle spanned by the start and
/// the destination, takes no more steps than the speed, and comes no farther
/// from the start than that on either axis. An actor already at its
/// destination stays there.
pub proof fn lemma_moved_position_bounds(
    start: Position,
    destination: Position,
    speed: Speed,
    movement_type: MovementType,
)
    requires
        start.in_bounds(),
        destination.in_bounds(),
    ensures
        between(
            moved_position(start, destination, speed, movement_type).x as int,
            start.x as int,
            destination.x as int,
        ),
        between(
            moved_position(start, destination, speed, movement_type).y as int,
            start.y as int,
            destination.y as int,
        ),
        moved_position(start, destination, speed, movement_type).in_bounds(),
        midway(start, destination, speed, movement_type).in_bounds(),
        0 <= steps_taken(start, destination, speed, movement_type) <= speed.0,
        abs(moved_position(start, destination, speed, movement_type).x - start.x) <= steps_taken(
            start,
            destination,
            speed,
            movement_type,
        ),
        abs(moved_position(start, destination, speed, movement_type).y - start.y) <= steps_taken(
            start,
            destination,
            speed,
            movement_type,
        ),
        start == destination ==> moved_position(start, destination, speed, movement_type) == start,
        speed.0 == 0 ==> moved_position(start, destination, speed, movement_type) == start,
{
    let d1 = first_delta(movement_type, start, destination, speed.0);
    let left = first_speed_left(movement_type, start, destination, speed.0);
    let k1 = speed.0 - left;
    match movement_type {
        MovementType::CardinalFirst => {
            lemma_cardinal_sound(start, destination, speed.0);
        },
        MovementType::DiagonalFirst => {
            lemma_diagonal_sound(start, destination, speed.0);
        },
    }
    assert(phase_sound(start, destination, d1, k1, speed.0 as int));
    let mid = midway(start, destination, speed, movement_type);
    assert(mid.x == start.x + d1.0 && mid.y == start.y + d1.1);
    assert(mid.in_bounds());
    assert(0 <= left <= speed.0);
    let d2 = second_delta(movement_type, mid, destination, left as u8);
    let k2 = second_steps(movement_type, mid, destination, left as u8);
    match movement_type {
        MovementType::CardinalFirst => {
            lemma_diagonal_sound(mid, destination, left as u8);
        },
        MovementType::DiagonalFirst => {
            lemma_cardinal_sound(mid, destination, left as u8);
        },
    }
    assert(phase_sound(mid, destination, d2, k2, left));
    let end = moved_position(start, destination, speed, movement_type);
    assert(end.x == mid.x + d2.0 && end.y == mid.y + d2.1);
    assert(steps_taken(start, destination, speed, movement_type) == k1 + k2);
}

/// One tick of movement for one actor: both phases in the order that the
/// movement type gives. Returns the new position and whether it is the
/// destination, in which case the actor has arrived and wants to move no
/// more.
pub fn move_entity(
    start: Position,
    destination: Destination,
    speed: Speed,
    movement_type: MovementType,
) -> (r: (Position, bool))
    requires
        start.in_bounds(),
        destination.0.in_bounds(),
    ensures
        r.0 == moved_position(start, destination.0, speed, movement_type),
        r.1 == (r.0 == destination.0),
        r.0.in_bounds(),
        start == destination.0 ==> r.0 == start && r.1,
        speed.0 == 0 ==> r.0 == start,
        steps_taken(start, destination.0, speed, movement_type) <= speed.0,
        abs(r.0.x - start.x) <= speed.0,
        abs(r.0.y - start.y) <= speed.0,
        between(r.0.x as int, start.x as int, destination.0.x as int),
        between(r.0.y as int, start.y as int, destination.0.y as int),
{
    proof {
        lemma_moved_position_bounds(start, destination.0, speed, movement_type);
    }
    let (first, speed_left) = match movement_type {
        MovementType::CardinalFirst => move_cardinally(start, destination.0, speed.0),
        MovementType::DiagonalFirst => move_diagonally(start, destination.0, speed.0),
    };
    assert(first.x == first_delta(movement_type, start, destination.0, speed.0).0);
    assert(first.y == first_delta(movement_type, start, destination.0, speed.0).1);
    assert(speed_left == first_speed_left(movement_type, start, destination.0, speed.0));
    let mid = Position { x: start.x + first.x, y: start.y + first.y };
    assert(mid == midway(start, destination.0, speed, movement_type));
    let (second, _) = match movement_type {
        MovementType::CardinalFirst => move_diagonally(mid, destination.0, speed_left),
        MovementType::DiagonalFirst => move_cardinally(mid, destination.0, speed_left),
    };
    assert(second.x == second_delta(movement_type, mid, destination.0, speed_left).0);
    assert(second.y == second_delta(movement_type, mid, destination.0, speed_left).1);
    let end = Position { x: mid.x + second.x, y: mid.y + second.y };
    let arrived: bool = end.x == destination.0.x && end.y == destination.0.y;
    (end, arrived)
}

/// Whether an actor moves in a movement pass: it has a destination and its
/// movement order is the one of the pass.
pub open spec fn moves_in_pass(a: Actor, pass: MovementOrder) -> bool {
    a.destination.is_some() && a.order == Some(pass)
}

/// Slot `k` after a movement pass: an actor of the pass has moved one tick
/// toward its destination and, having reached it, has none any more; any
/// other slot is as before.
pub open spec fn moved_slot(actors: Actors, k: int, pass: MovementOrder) -> Option<Actor> {
    if actors[k].is_some() && moves_in_pass(actors[k].unwrap(), pass) {
        let a = actors[k].unwrap();
        let to = moved_position(a.position, a.destination.unwrap().0, a.speed, a.movement_type);
        Some(
            Actor {
                position: to,
                destination: if to == a.destination.unwrap().0 {
                    None
                } else {
                    a.destination
                },
                ..a
            },
        )
    } else {
        actors[k]
    }
}

/// The world after a movement pass.
pub open spec fn moved(actors: Actors, pass: MovementOrder) -> Actors {
    Seq::new(actors.len(), |k: int| moved_slot(actors, k, pass))
}

/// A movement pass leaves every actor's own data sound.
pub proof fn lemma_moved_keeps_placed(actors: Actors, pass: MovementOrder)
    requires
        actors_placed(actors),
    ensures
        actors_placed(moved(actors, pass)),
{
    let after = moved(actors, pass);
    assert forall|k: int| 0 <= k < after.len() && (#[trigger] after[k]).is_some() implies
        actor_sound(after[k].unwrap()) by {
        assert(actors[k].is_some());
        let a = actors[k].unwrap();
        if moves_in_pass(a, pass) {
            lemma_moved_position_bounds(
                a.position,
                a.destination.unwrap().0,
                a.speed,
                a.movement_type,
            );
        }
    }
}

/// A movement pass keeps the world sound and changes nobody's target, order
/// or kind.
pub proof fn lemma_moved_keeps_wf(actors: Actors, pass: MovementOrder)
    requires
        actors_wf(actors),
    ensures
        actors_wf(moved(actors, pass)),
        same_slots(actors, moved(actors, pass)),
        same_players(actors, moved(actors, pass)),
        same_targets(actors, moved(actors, pass)),
{
    let after = moved(actors, pass);
    assert forall|k: int| 0 <= k < after.len() && (#[trigger] after[k]).is_some() implies
        slot_sound_in(actors, after, k) by {
        assert(actors[k].is_some());
        let a = actors[k].unwrap();
        if moves_in_pass(a, pass) {
            lemma_moved_position_bounds(
                a.position,
                a.destination.unwrap().0,
                a.speed,
                a.movement_type,
            );
        }
    }
    lemma_change_keeps_wf(actors, after);
    assert forall|k: int| 0 <= k < after.len() && (#[trigger] after[k]).is_some() implies
        after[k].unwrap().kind == actors[k].unwrap().kind by {
        assert(actors[k].is_some());
    }
    lemma_same_kinds_same_players(actors, after);
    assert forall|k: int| 0 <= k < after.len() && (#[trigger] after[k]).is_some() implies
        after[k].unwrap().target == actors[k].unwrap().target by {
        assert(actors[k].is_some());
    }
}

/// Tests whether an actor's movement order is that of a pass.
fn has_order(order: Option<MovementOrder>, pass: MovementOrder) -> (b: bool)
    ensures
        b == (order == Some(pass)),
{
    match (order, pass) {
        (Some(MovementOrder::First), MovementOrder::First) => true,
        (Some(MovementOrder::Second), MovementOrder::Second) => true,
        _ => false,
    }
}

/// One movement pass: every actor with a destination whose movement order
/// is `pass` moves one tick toward it, and gives the destination up on
/// arrival.
pub fn move_pass(world: &mut World, pass: MovementOrder)
    requires
        old(world).placed(),
    ensures
        final(world).placed(),
        old(world).wf() ==> final(world).wf(),
        final(world).labels == old(world).labels,
        final(world)@ == moved(old(world)@, pass),
{
    let len: usize = world.actors.len();
    let mut k: usize = 0;
    while k < len
        invariant
            k <= len,
            len == world@.len(),
            len == old(world)@.len(),
            old(world).placed(),
            world.labels == old(world).labels,
            world.attackers == old(world).attackers,
            forall|j: int| 0 <= j < k ==> #[trigger] world@[j] == moved_slot(old(world)@, j, pass),
            forall|j: int| k <= j < len ==> #[trigger] world@[j] == old(world)@[j],
        decreases len - k,
    {
        let slot: Option<Actor> = world.actors[k];
        match slot {
            Some(actor) => {
                match actor.destination {
                    Some(destination) => {
                        if has_order(actor.order, pass) {
                            let (to, arrived) = move_entity(
                                actor.position,
                                destination,
                                actor.speed,
                                actor.movement_type,
                            );
                            let mut updated: Actor = actor;
                            updated.position = to;
                            if arrived {
                                updated.destination = None;
                            }
                            world.actors.set(k, Some(updated));
                        }
                    },
                    None => {},
                }
            },
            None => {},
        }
        k = k + 1;
    }
    proof {
        assert(world@ =~= moved(old(world)@, pass));
        lemma_moved_keeps_placed(old(world)@, pass);
        if old(world).wf() {
            lemma_moved_keeps_wf(old(world)@, pass);
            lemma_index_keeps(old(world)@, world@, world.inverse());
        }
    }
}

/// The first movement pass of a tick.
pub fn move_first(world: &mut World)
    requires
        old(world).placed(),
    ensures
        final(world).placed(),
        old(world).wf() ==> final(world).wf(),
        final(world).labels == old(world).labels,
        final(world)@ == moved(old(world)@, MovementOrder::First),
{
    move_pass(world, MovementOrder::First)
}

/// The second movement pass of a tick.
pub fn move_second(world: &mut World)
    requires
        old(world).placed(),
    ensures
        final(world).placed(),
        old(world).wf() ==> final(world).wf(),
        final(world).labels == old(world).labels,
        final(world)@ == moved(old(world)@, MovementOrder::Second),
{
    move_pass(world, MovementOrder::Second)
}

} // verus!
