use osrs_method_creator::geometry::{EntityId, Position};
use osrs_method_creator::player::{PlayerAction, PlayerActionEvent, PlayerModifiers};
use osrs_method_creator::sequence::{tick_window, ActionSequence, SequenceError};

fn at(x: i64, y: i64) -> Position {
    Position { x, y }
}

fn walking() -> PlayerModifiers {
    PlayerModifiers { run: false, weapon_speed: 5, weapon_range: 3 }
}

fn moves(to: Position, ticks: usize) -> ActionSequence {
    let mut s = ActionSequence::with_seed(7);
    s.set(0, PlayerAction::Move(to), PlayerModifiers::default()).unwrap();
    for tick in 1..ticks {
        s.set(tick, PlayerAction::Move(to), PlayerModifiers::default()).unwrap();
    }
    s
}

#[test]
fn default_sequence_is_one_idle_tick() {
    let s = ActionSequence::default();
    assert_eq!(s.len(), 1);
    assert_eq!(s.current_tick, 0);
    assert_eq!(s.target_tick, 0);
    assert_eq!(
        s.get(0),
        Some((PlayerAction::Idle, PlayerModifiers { run: true, weapon_speed: 4, weapon_range: 1 }))
    );
    assert_eq!(s.get(1), None);
    assert_eq!(s.flee_rolls.len(), 1);
}

#[test]
fn set_overwrites_appends_or_refuses() {
    let mut s = ActionSequence::default();
    assert_eq!(s.set(0, PlayerAction::Move(at(3, 4)), walking()), Ok(()));
    assert_eq!(s.get(0), Some((PlayerAction::Move(at(3, 4)), walking())));
    assert_eq!(s.len(), 1);
    assert_eq!(s.set(1, PlayerAction::Attack(EntityId(1)), walking()), Ok(()));
    assert_eq!(s.len(), 2);
    assert_eq!(s.flee_rolls.len(), 2);
    assert_eq!(s.get(1), Some((PlayerAction::Attack(EntityId(1)), walking())));
    assert_eq!(s.set(3, PlayerAction::Idle, walking()), Err(SequenceError::OutOfBounds));
    assert_eq!(s.len(), 2);
    assert_eq!(s.get(0), Some((PlayerAction::Move(at(3, 4)), walking())));
}

#[test]
fn extend_copies_the_last_slot() {
    let mut s = ActionSequence::default();
    s.set(0, PlayerAction::Move(at(1, 1)), walking()).unwrap();
    s.extend();
    assert_eq!(s.len(), 2);
    assert_eq!(s.get(1), Some((PlayerAction::Move(at(1, 1)), walking())));
    assert_eq!(s.flee_rolls.len(), 2);
    assert_eq!(s.current_tick, 0);
    assert_eq!(s.target_tick, 0);
}

#[test]
fn rolls_depend_on_the_seed_alone() {
    let mut a = ActionSequence::with_seed(42);
    let mut b = ActionSequence::with_seed(42);
    let mut c = ActionSequence::with_seed(43);
    for _ in 0..5 {
        a.extend();
        b.extend();
        c.extend();
    }
    assert_eq!(a.flee_rolls, b.flee_rolls);
    assert_ne!(a.flee_rolls, c.flee_rolls);
    // A source that handed its seed back would give consecutive numbers.
    assert_ne!(a.flee_rolls, vec![42, 43, 44, 45, 46, 47]);
}

#[test]
fn reset_keeps_the_seed() {
    let mut s = ActionSequence::with_seed(9);
    let first = s.flee_rolls.clone();
    s.extend();
    s.set_target_tick(1);
    s.reset();
    assert_eq!(s.len(), 1);
    assert_eq!(s.target_tick, 0);
    assert_eq!(s.current_tick, 0);
    assert_eq!(s.seed, 9);
    assert_eq!(s.flee_rolls, first);
    assert_eq!(s.get(0), Some((PlayerAction::Idle, PlayerModifiers::default())));
}

#[test]
fn target_tick_is_clamped_to_the_sequence() {
    let mut s = moves(at(1, 0), 4);
    s.set_target_tick(2);
    assert_eq!(s.target_tick, 2);
    s.set_target_tick(4);
    assert_eq!(s.target_tick, 3);
    s.set_target_tick(usize::MAX);
    assert_eq!(s.target_tick, 3);
    assert!(s.check_target_tick());
    s.set_target_tick(0);
    assert!(!s.check_target_tick());
}

#[test]
fn navigation_moves_the_target_tick() {
    let mut s = moves(at(1, 0), 3);
    s.step_back();
    assert_eq!(s.target_tick, 0);
    s.step_forward();
    assert_eq!((s.target_tick, s.len()), (1, 3));
    s.go_to_last();
    assert_eq!(s.target_tick, 2);
    s.step_forward();
    assert_eq!((s.target_tick, s.len()), (3, 4));
    assert_eq!(s.get(3), s.get(2));
    s.step_back();
    assert_eq!(s.target_tick, 2);
    s.go_to_first();
    assert_eq!(s.target_tick, 0);
    assert_eq!(s.current_tick, 0);
}

#[test]
fn current_slot_is_edited_in_place() {
    let mut s = moves(at(1, 0), 3);
    s.current_tick = 1;
    s.update_current_action(PlayerActionEvent { action: PlayerAction::Attack(EntityId(4)) });
    assert_eq!(s.get(1), Some((PlayerAction::Attack(EntityId(4)), PlayerModifiers::default())));
    s.update_current_modifiers(walking());
    assert_eq!(s.get(1), Some((PlayerAction::Attack(EntityId(4)), walking())));
    assert_eq!(s.current_slot(), (PlayerAction::Attack(EntityId(4)), walking()));
    assert_eq!(s.get(0), Some((PlayerAction::Move(at(1, 0)), PlayerModifiers::default())));
    assert_eq!(s.get(2), Some((PlayerAction::Move(at(1, 0)), PlayerModifiers::default())));
}

#[test]
fn tick_window_shows_at_most_ten_ticks() {
    assert_eq!(tick_window(0, 1), (0, 1));
    assert_eq!(tick_window(3, 5), (0, 5));
    assert_eq!(tick_window(9, 10), (0, 10));
    assert_eq!(tick_window(10, 20), (5, 15));
    assert_eq!(tick_window(2, 20), (0, 10));
    assert_eq!(tick_window(5, 20), (0, 10));
    assert_eq!(tick_window(6, 20), (1, 11));
    assert_eq!(tick_window(14, 20), (9, 19));
    assert_eq!(tick_window(15, 20), (10, 20));
    assert_eq!(tick_window(19, 20), (10, 20));
    assert_eq!(tick_window(5, 11), (0, 10));
    assert_eq!(tick_window(6, 11), (1, 11));
}

#[test]
fn reached_moves_are_rewritten_to_idle() {
    let mut s = moves(at(5, 5), 3);
    s.current_tick = 1;
    let rewritten = s.check_redundancies(at(5, 5));
    assert_eq!(rewritten, 2);
    assert_eq!(s.get(0), Some((PlayerAction::Move(at(5, 5)), PlayerModifiers::default())));
    assert_eq!(s.get(1), Some((PlayerAction::Idle, PlayerModifiers::default())));
    assert_eq!(s.get(2), Some((PlayerAction::Idle, PlayerModifiers::default())));
}

#[test]
fn pruning_stops_at_the_first_other_action() {
    let mut s = moves(at(5, 5), 6);
    s.set(3, PlayerAction::Move(at(5, 6)), walking()).unwrap();
    s.set(1, PlayerAction::Move(at(5, 5)), walking()).unwrap();
    s.current_tick = 1;
    assert_eq!(s.check_redundancies(at(5, 5)), 2);
    assert_eq!(s.get(0), Some((PlayerAction::Move(at(5, 5)), PlayerModifiers::default())));
    assert_eq!(s.get(1), Some((PlayerAction::Idle, walking())));
    assert_eq!(s.get(2), Some((PlayerAction::Idle, PlayerModifiers::default())));
    assert_eq!(s.get(3), Some((PlayerAction::Move(at(5, 6)), walking())));
    assert_eq!(s.get(4), Some((PlayerAction::Move(at(5, 5)), PlayerModifiers::default())));
    assert_eq!(s.get(5), Some((PlayerAction::Move(at(5, 5)), PlayerModifiers::default())));
}

#[test]
fn pruning_needs_the_actor_on_the_tile() {
    let mut s = moves(at(5, 5), 3);
    assert_eq!(s.check_redundancies(at(5, 4)), 0);
    for tick in 0..3 {
        assert_eq!(s.get(tick), Some((PlayerAction::Move(at(5, 5)), PlayerModifiers::default())));
    }
    let mut idle = ActionSequence::default();
    assert_eq!(idle.check_redundancies(at(0, 0)), 0);
    let mut attack = ActionSequence::default();
    attack.set(0, PlayerAction::Attack(EntityId(1)), walking()).unwrap();
    assert_eq!(attack.check_redundancies(at(0, 0)), 0);
    assert_eq!(attack.get(0), Some((PlayerAction::Attack(EntityId(1)), walking())));
}

#[test]
fn pruning_scans_no_further_than_the_end() {
    for len in 1..6usize {
        for current in 0..len {
            let mut s = moves(at(2, 2), len);
            s.current_tick = current;
            let rewritten = s.check_redundancies(at(2, 2));
            assert_eq!(rewritten, len - current);
            assert_eq!(s.len(), len);
        }
    }
}
