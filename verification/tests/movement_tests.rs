use osrs_method_creator::geometry::{Delta, Position};
use osrs_method_creator::movement::{
    move_cardinally, move_diagonally, move_entity, Destination, MovementType, Speed,
};

fn at(x: i64, y: i64) -> Position {
    Position { x, y }
}

#[test]
fn cardinal_phase_evens_out_the_axes() {
    assert_eq!(move_cardinally(at(0, 0), at(5, 2), 10), (Delta { x: 3, y: 0 }, 7));
    assert_eq!(move_cardinally(at(0, 0), at(-1, -6), 10), (Delta { x: 0, y: -5 }, 5));
    assert_eq!(move_cardinally(at(0, 0), at(5, 2), 2), (Delta { x: 2, y: 0 }, 0));
    assert_eq!(move_cardinally(at(0, 0), at(3, 3), 4), (Delta { x: 0, y: 0 }, 4));
}

#[test]
fn diagonal_phase_closes_both_axes() {
    assert_eq!(move_diagonally(at(0, 0), at(5, 2), 10), (Delta { x: 2, y: 2 }, 8));
    assert_eq!(move_diagonally(at(0, 0), at(-3, 3), 2), (Delta { x: -2, y: 2 }, 0));
    assert_eq!(move_diagonally(at(0, 0), at(0, 7), 3), (Delta { x: 0, y: 0 }, 3));
}

#[test]
fn movement_at_destination_is_idempotent() {
    for kind in [MovementType::CardinalFirst, MovementType::DiagonalFirst] {
        for speed in [0u8, 1, 2, 255] {
            let (to, arrived) = move_entity(at(4, -7), Destination(at(4, -7)), Speed(speed), kind);
            assert_eq!(to, at(4, -7));
            assert!(arrived);
        }
    }
}

#[test]
fn zero_speed_does_not_move() {
    let (to, arrived) =
        move_entity(at(0, 0), Destination(at(3, 1)), Speed(0), MovementType::CardinalFirst);
    assert_eq!(to, at(0, 0));
    assert!(!arrived);
}

#[test]
fn order_of_phases_decides_the_path() {
    let (cardinal, _) =
        move_entity(at(0, 0), Destination(at(5, 2)), Speed(2), MovementType::CardinalFirst);
    assert_eq!(cardinal, at(2, 0));
    let (diagonal, _) =
        move_entity(at(0, 0), Destination(at(5, 2)), Speed(2), MovementType::DiagonalFirst);
    assert_eq!(diagonal, at(2, 2));
    let (both, arrived) =
        move_entity(at(0, 0), Destination(at(5, 2)), Speed(4), MovementType::CardinalFirst);
    assert_eq!(both, at(4, 1));
    assert!(!arrived);
}

#[test]
fn a_move_never_takes_more_steps_than_the_speed() {
    for speed in 0u8..8 {
        for kind in [MovementType::CardinalFirst, MovementType::DiagonalFirst] {
            let (to, _) = move_entity(at(0, 0), Destination(at(9, -4)), Speed(speed), kind);
            assert!(to.x.abs() <= speed as i64);
            assert!(to.y.abs() <= speed as i64);
            assert!(0 <= to.x && to.x <= 9 && -4 <= to.y && to.y <= 0);
        }
    }
}

#[test]
fn arrival_clears_the_destination() {
    let (to, arrived) =
        move_entity(at(0, 0), Destination(at(2, 1)), Speed(2), MovementType::CardinalFirst);
    assert_eq!(to, at(2, 1));
    assert!(arrived);
}
