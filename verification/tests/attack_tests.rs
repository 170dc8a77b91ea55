use osrs_method_creator::attack::{
    closest_tile_to_entity, distance_to_entity, flee_side_for, is_in_range, resolve_destination,
    simultaneous_order, AttackRange, Cardinal, TargetUnderBehavior,
};
use osrs_method_creator::geometry::{Delta, EntityId, Position};
use osrs_method_creator::movement::MovementOrder;
use osrs_method_creator::npc::Size;

fn at(x: i64, y: i64) -> Position {
    Position { x, y }
}

#[test]
fn distance_counts_own_footprint_on_the_west_and_south() {
    // A 3-wide attacker two tiles west of the target's column touches it.
    assert_eq!(distance_to_entity(at(0, 0), Size(3), at(3, 0), Size(1)), Delta { x: -1, y: 0 });
    assert_eq!(distance_to_entity(at(0, 0), Size(3), at(2, 0), Size(1)), Delta { x: 0, y: 0 });
    assert_eq!(distance_to_entity(at(0, 0), Size(2), at(0, 5), Size(1)), Delta { x: 0, y: -4 });
}

#[test]
fn distance_counts_target_footprint_on_the_east_and_north() {
    assert_eq!(distance_to_entity(at(7, 0), Size(1), at(0, 0), Size(5)), Delta { x: 3, y: 0 });
    assert_eq!(distance_to_entity(at(4, 4), Size(1), at(0, 0), Size(5)), Delta { x: 0, y: 0 });
    assert_eq!(distance_to_entity(at(0, 9), Size(1), at(0, 0), Size(5)), Delta { x: 0, y: 5 });
}

#[test]
fn distance_is_antisymmetric() {
    let cases = [
        (at(0, 0), Size(1), at(5, 0), Size(1)),
        (at(-3, 4), Size(2), at(6, -2), Size(5)),
        (at(1, 1), Size(5), at(2, 3), Size(1)),
        (at(10, 10), Size(3), at(0, 0), Size(3)),
    ];
    for (a, sa, t, st) in cases {
        let forth = distance_to_entity(a, sa, t, st);
        let back = distance_to_entity(t, st, a, sa);
        assert_eq!(back.x, -forth.x);
        assert_eq!(back.y, -forth.y);
    }
}

#[test]
fn far_target_is_out_of_range_and_approached_from_the_west() {
    let dist = distance_to_entity(at(0, 0), Size(1), at(5, 0), Size(1));
    assert_eq!(dist, Delta { x: -5, y: 0 });
    assert!(!is_in_range(dist, AttackRange(1)));
    let dest = resolve_destination(
        at(0, 0),
        Size(1),
        at(5, 0),
        Size(1),
        AttackRange(1),
        TargetUnderBehavior::MoveOut,
        Cardinal::North,
    );
    assert_eq!(dest, Some(at(4, 0)));
}

#[test]
fn diagonal_contact_is_out_of_range_at_range_one() {
    let dist = distance_to_entity(at(0, 0), Size(1), at(1, 1), Size(1));
    assert_eq!(dist, Delta { x: -1, y: -1 });
    assert!(!is_in_range(dist, AttackRange(1)));
    assert!(is_in_range(dist, AttackRange(2)));
    let dest = resolve_destination(
        at(0, 0),
        Size(1),
        at(1, 1),
        Size(1),
        AttackRange(1),
        TargetUnderBehavior::StayStill,
        Cardinal::North,
    );
    // Directly south of the target: the attacker keeps its row.
    assert_eq!(dest, Some(at(1, 0)));
}

#[test]
fn cardinal_contact_is_in_range() {
    let dist = distance_to_entity(at(0, 0), Size(1), at(1, 0), Size(1));
    assert!(is_in_range(dist, AttackRange(1)));
    let dest = resolve_destination(
        at(0, 0),
        Size(1),
        at(1, 0),
        Size(1),
        AttackRange(1),
        TargetUnderBehavior::MoveOut,
        Cardinal::North,
    );
    assert_eq!(dest, None);
}

#[test]
fn under_a_target_north_wins_when_it_is_nearest() {
    let dest = closest_tile_to_entity(at(1, 2), Size(1), at(0, 0), Size(3));
    assert_eq!(dest, at(1, 3));
}

#[test]
fn under_a_target_north_wins_ties() {
    // The centre of a 3x3 target is two tiles from every exit.
    let dest = resolve_destination(
        at(1, 1),
        Size(1),
        at(0, 0),
        Size(3),
        AttackRange(1),
        TargetUnderBehavior::MoveOut,
        Cardinal::West,
    );
    assert_eq!(dest, Some(at(1, 3)));
}

#[test]
fn under_a_target_each_side_can_be_nearest() {
    // 5x5 target at the origin.
    assert_eq!(closest_tile_to_entity(at(2, 0), Size(1), at(0, 0), Size(5)), at(2, -1));
    assert_eq!(closest_tile_to_entity(at(4, 2), Size(1), at(0, 0), Size(5)), at(5, 2));
    assert_eq!(closest_tile_to_entity(at(0, 2), Size(1), at(0, 0), Size(5)), at(-1, 2));
    assert_eq!(closest_tile_to_entity(at(2, 4), Size(1), at(0, 0), Size(5)), at(2, 5));
    // South wins a tie against east and west.
    assert_eq!(closest_tile_to_entity(at(0, 0), Size(1), at(0, 0), Size(5)), at(0, -1));
}

#[test]
fn under_a_target_behavior_decides() {
    let stay = resolve_destination(
        at(1, 1),
        Size(1),
        at(0, 0),
        Size(3),
        AttackRange(5),
        TargetUnderBehavior::StayStill,
        Cardinal::East,
    );
    assert_eq!(stay, None);
    let sides = [
        (Cardinal::North, at(1, 11)),
        (Cardinal::South, at(1, -9)),
        (Cardinal::East, at(11, 1)),
        (Cardinal::West, at(-9, 1)),
    ];
    for (side, expected) in sides {
        let flee = resolve_destination(
            at(1, 1),
            Size(1),
            at(0, 0),
            Size(3),
            AttackRange(5),
            TargetUnderBehavior::RandomCardinal,
            side,
        );
        assert_eq!(flee, Some(expected));
    }
}

#[test]
fn approach_prefers_the_wider_gap() {
    // East of a 3x3 target, level with its middle row: keep the row.
    assert_eq!(closest_tile_to_entity(at(8, 1), Size(1), at(0, 0), Size(3)), at(3, 1));
    // East and north of it: the top row of the target.
    assert_eq!(closest_tile_to_entity(at(9, 4), Size(1), at(0, 0), Size(3)), at(3, 2));
    // East and south of it: the bottom row.
    assert_eq!(closest_tile_to_entity(at(9, -2), Size(1), at(0, 0), Size(3)), at(3, 0));
    // North of it by more than east of it.
    assert_eq!(closest_tile_to_entity(at(4, 9), Size(1), at(0, 0), Size(3)), at(2, 3));
    // South of a one-tile target, same column.
    assert_eq!(closest_tile_to_entity(at(0, -6), Size(1), at(0, 0), Size(1)), at(0, -1));
    // Equal gaps: the north-south axis is closed.
    assert_eq!(closest_tile_to_entity(at(-4, -4), Size(1), at(0, 0), Size(1)), at(0, -1));
}

#[test]
fn simultaneous_order_is_first_only_for_the_listed_distances() {
    let first = [(2, 2), (-2, 2), (1, 3), (3, -1), (-1, -3)];
    for (x, y) in first {
        assert_eq!(simultaneous_order(Delta { x, y }, AttackRange(1)), MovementOrder::First);
        assert_eq!(simultaneous_order(Delta { x, y }, AttackRange(2)), MovementOrder::Second);
    }
    let second = [(0, 0), (1, 1), (2, 1), (3, 3), (0, 2)];
    for (x, y) in second {
        assert_eq!(simultaneous_order(Delta { x, y }, AttackRange(1)), MovementOrder::Second);
    }
}

#[test]
fn flee_side_reads_two_bits_per_slot() {
    // Slot 0 reads bits 0-1, slot 1 bits 2-3, slot 32 wraps to bits 0-1.
    let roll: u64 = 0b1110_0100;
    assert_eq!(flee_side_for(roll, EntityId(0)), Cardinal::West);
    assert_eq!(flee_side_for(roll, EntityId(1)), Cardinal::East);
    assert_eq!(flee_side_for(roll, EntityId(2)), Cardinal::South);
    assert_eq!(flee_side_for(roll, EntityId(3)), Cardinal::North);
    assert_eq!(flee_side_for(roll, EntityId(4)), Cardinal::West);
    assert_eq!(flee_side_for(roll, EntityId(33)), Cardinal::East);
}
