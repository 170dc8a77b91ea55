use osrs_method_creator::attack::{Target, TargetUnderBehavior};
use osrs_method_creator::editor::Editor;
use osrs_method_creator::geometry::{EntityId, Position};
use osrs_method_creator::movement::{Destination, MovementOrder};
use osrs_method_creator::npc::Npc;
use osrs_method_creator::player::{PlayerAction, PlayerActionEvent, PlayerModifiers};
use osrs_method_creator::state::{EditingState, ToolState};
use osrs_method_creator::world::WorldError;

fn at(x: i64, y: i64) -> Position {
    Position { x, y }
}

fn npc(name: &str) -> Npc {
    Npc { name: String::from(name) }
}

fn event(action: PlayerAction) -> PlayerActionEvent {
    PlayerActionEvent { action }
}

/// An editor whose sequence holds the given actions, all under the default
/// settings, at tick 0.
fn editor_with(actions: &[PlayerAction]) -> Editor {
    let mut e = Editor::new(11);
    for (tick, action) in actions.iter().enumerate() {
        e.sequence.set(tick, *action, PlayerModifiers::default()).unwrap();
    }
    e
}

fn player_position(e: &Editor) -> Position {
    e.world.get(e.player).unwrap().position
}

fn actions(e: &Editor) -> Vec<PlayerAction> {
    e.sequence.sequence.iter().map(|slot| slot.0).collect()
}

/// Asks for a tick and replays up to it.
fn scrub(e: &mut Editor, tick: usize) -> Result<usize, WorldError> {
    e.sequence.set_target_tick(tick);
    e.check_target_tick();
    e.run_editing_catchup()
}

#[test]
fn a_new_editor_is_editing_tick_zero() {
    let e = Editor::new(0);
    assert_eq!(e.state, EditingState::Editing);
    assert_eq!(e.player, EntityId(0));
    assert_eq!(e.sequence.len(), 1);
    assert_eq!(e.pending, None);
    assert_eq!(e.modifiers, PlayerModifiers::default());
    assert_eq!(player_position(&e), at(0, 0));
    assert_eq!(EditingState::default(), EditingState::Editing);
    assert_eq!(ToolState::default(), ToolState::Editing);
    assert_eq!(PlayerAction::default(), PlayerAction::Idle);
    assert_eq!(PlayerActionEvent::default().action, PlayerAction::Idle);
}

#[test]
fn the_machine_goes_through_its_states() {
    let mut e = editor_with(&[PlayerAction::Move(at(4, 0)), PlayerAction::Idle]);
    e.check_target_tick();
    assert_eq!(e.state, EditingState::Editing);
    e.sequence.set_target_tick(1);
    assert_eq!(e.step(), Ok(()));
    assert_eq!(e.state, EditingState::Reconciliation);
    assert_eq!(e.step(), Ok(()));
    assert_eq!(e.state, EditingState::CatchupChecks);
    assert_eq!(e.sequence.current_tick, 0);
    assert_eq!(e.step(), Ok(()));
    assert_eq!(e.state, EditingState::Catchup);
    assert_eq!(e.sequence.current_tick, 1);
    assert_eq!(e.pending, Some(event(PlayerAction::Move(at(4, 0)))));
    assert_eq!(player_position(&e), at(0, 0));
    assert_eq!(e.step(), Ok(()));
    assert_eq!(e.state, EditingState::CatchupChecks);
    assert_eq!(player_position(&e), at(2, 0));
    assert_eq!(e.pending, None);
    assert_eq!(e.step(), Ok(()));
    assert_eq!(e.state, EditingState::Editing);
    assert_eq!(e.sequence.current_tick, 1);
    assert_eq!(e.pending, Some(event(PlayerAction::Idle)));
    assert_eq!(e.step(), Ok(()));
    assert_eq!(e.state, EditingState::Editing);
}

#[test]
fn moves_reached_early_become_idle() {
    let to = PlayerAction::Move(at(2, 0));
    let mut e = editor_with(&[to, to, to]);
    // Running, the actor is at (2,0) after tick 0.
    assert_eq!(scrub(&mut e, 2), Ok(2));
    assert_eq!(actions(&e), vec![to, PlayerAction::Idle, PlayerAction::Idle]);
    assert_eq!(player_position(&e), at(2, 0));
    assert_eq!(e.state, EditingState::Editing);
    assert_eq!((e.sequence.current_tick, e.sequence.target_tick), (2, 2));
}

#[test]
fn moves_to_the_starting_tile_become_idle_at_once() {
    let home = PlayerAction::Move(at(0, 0));
    let away = PlayerAction::Move(at(0, 3));
    let mut e = editor_with(&[home, home, away, home]);
    assert_eq!(scrub(&mut e, 3), Ok(3));
    assert_eq!(actions(&e), vec![PlayerAction::Idle, PlayerAction::Idle, away, home]);
    assert_eq!(player_position(&e), at(0, 2));
}

#[test]
fn walking_takes_longer_so_less_is_redundant() {
    let to = PlayerAction::Move(at(2, 0));
    let mut e = editor_with(&[to, to, to, to]);
    let walking = PlayerModifiers { run: false, weapon_speed: 4, weapon_range: 1 };
    for tick in 0..4 {
        e.sequence.set(tick, to, walking).unwrap();
    }
    assert_eq!(scrub(&mut e, 3), Ok(3));
    assert_eq!(actions(&e), vec![to, to, PlayerAction::Idle, PlayerAction::Idle]);
    assert_eq!(player_position(&e), at(2, 0));
    assert_eq!(e.modifiers, walking);
}

#[test]
fn a_replay_takes_as_many_ticks_as_it_has_to_go() {
    let to = PlayerAction::Move(at(20, 7));
    let mut e = editor_with(&[to, to, to, to, to, to]);
    assert_eq!(scrub(&mut e, 3), Ok(3));
    let at_three = player_position(&e);
    // Forward without starting over.
    assert_eq!(scrub(&mut e, 5), Ok(2));
    let at_five = player_position(&e);
    // Backward: from tick 0 again.
    assert_eq!(scrub(&mut e, 3), Ok(3));
    assert_eq!(player_position(&e), at_three);
    assert_eq!(scrub(&mut e, 0), Ok(0));
    assert_eq!(player_position(&e), at(0, 0));
    assert_eq!(scrub(&mut e, 5), Ok(5));
    assert_eq!(player_position(&e), at_five);
    // Already there: nothing to do.
    assert_eq!(scrub(&mut e, 5), Ok(0));
    assert_eq!(e.state, EditingState::Editing);
    // Cardinal first: 13 tiles east even out the axes, then diagonally.
    assert_eq!(at_three, at(6, 0));
    assert_eq!(at_five, at(10, 0));
}

#[test]
fn the_target_tick_is_clamped_before_a_replay() {
    let mut e = editor_with(&[PlayerAction::Idle, PlayerAction::Idle]);
    assert_eq!(scrub(&mut e, 40), Ok(1));
    assert_eq!((e.sequence.current_tick, e.sequence.target_tick), (1, 1));
}

#[test]
fn replaying_twice_gives_the_same_world_and_sequence() {
    let to = PlayerAction::Move(at(3, 3));
    let script = [to, to, to, PlayerAction::Move(at(0, 9)), PlayerAction::Idle, to, to];
    let mut once = editor_with(&script);
    once.spawn_npc(npc("a"));
    let mut twice = editor_with(&script);
    twice.spawn_npc(npc("a"));
    assert_eq!(scrub(&mut once, 6), Ok(6));
    assert_eq!(scrub(&mut twice, 6), Ok(6));
    assert_eq!(once.world.snapshot(), twice.world.snapshot());
    assert_eq!(once.sequence.sequence, twice.sequence.sequence);
    // And again on the same editor, from a fresh start.
    let world = once.world.snapshot();
    let sequence = once.sequence.sequence.clone();
    assert_eq!(scrub(&mut once, 0), Ok(0));
    assert_eq!(scrub(&mut once, 6), Ok(6));
    assert_eq!(once.world.snapshot(), world);
    assert_eq!(once.sequence.sequence, sequence);
}

#[test]
fn a_refused_action_stops_the_replay_at_its_tick() {
    let to = PlayerAction::Move(at(9, 0));
    let mut e = editor_with(&[to, PlayerAction::Attack(EntityId(12)), to, to]);
    assert_eq!(scrub(&mut e, 3), Err(WorldError::MissingTarget));
    assert_eq!(e.state, EditingState::Editing);
    assert_eq!((e.sequence.current_tick, e.sequence.target_tick), (1, 1));
    assert_eq!(player_position(&e), at(2, 0));
    assert_eq!(e.pending, None);
    // Once the slot is mended the replay goes through.
    e.sequence.set(1, to, PlayerModifiers::default()).unwrap();
    assert_eq!(scrub(&mut e, 3), Ok(2));
    assert_eq!(player_position(&e), at(6, 0));
}

#[test]
fn a_move_off_the_grid_stops_the_replay() {
    let mut e = editor_with(&[PlayerAction::Move(at(0, -1_000_000_001)), PlayerAction::Idle]);
    assert_eq!(scrub(&mut e, 1), Err(WorldError::OutOfBounds));
    assert_eq!((e.sequence.current_tick, e.sequence.target_tick), (0, 0));
    assert_eq!(player_position(&e), at(0, 0));
    let own = PlayerAction::Attack(EntityId(0));
    let mut e = editor_with(&[own, PlayerAction::Idle]);
    assert_eq!(scrub(&mut e, 1), Err(WorldError::SelfTarget));
}

#[test]
fn attacking_walks_up_to_the_target() {
    let mut e = Editor::new(5);
    let foe = e.spawn_npc(npc("test"));
    assert_eq!(e.world.get(foe).unwrap().target, Some(Target(e.player)));
    // Put the 5x5 actor well away to the east, where a restart leaves it
    // no more: a restart puts it back at (1,1).
    let attack = PlayerAction::Attack(foe);
    for tick in 0..4 {
        e.sequence.set(tick, attack, PlayerModifiers::default()).unwrap();
    }
    assert_eq!(scrub(&mut e, 3), Ok(3));
    // From the origin the actor at (1,1) is diagonally adjacent: the player
    // keeps its row and steps east to (1,0), right under its south edge.
    assert_eq!(player_position(&e), at(1, 0));
    let p = e.world.get(e.player).unwrap();
    assert_eq!(p.target, Some(Target(foe)));
    assert_eq!(p.destination, None);
    assert_eq!(p.order, Some(MovementOrder::Second));
    assert_eq!(e.world.get(foe).unwrap().under_behavior, Some(TargetUnderBehavior::StayStill));
    assert_eq!(e.world.get(foe).unwrap().position, at(1, 1));
}

#[test]
fn editing_applies_the_pending_action_and_records_the_input() {
    let mut e = editor_with(&[PlayerAction::Move(at(4, 4)), PlayerAction::Idle]);
    let foe = e.spawn_npc(npc("test"));
    assert_eq!(scrub(&mut e, 1), Ok(1));
    assert_eq!(e.pending, Some(event(PlayerAction::Idle)));
    assert_eq!(player_position(&e), at(2, 2));
    let walking = PlayerModifiers { run: false, weapon_speed: 3, weapon_range: 2 };
    // Slot 1 reads bits 2-3 of the roll: 10 is south.
    e.sequence.flee_rolls[1] = 0b1000;
    assert_eq!(e.editing_update(None, walking), Ok(()));
    assert_eq!(e.pending, None);
    assert_eq!(e.modifiers, walking);
    assert_eq!(e.sequence.get(1), Some((PlayerAction::Idle, walking)));
    assert_eq!(e.state, EditingState::Editing);
    // The player stands under the 5x5 actor, which flees south.
    let f = e.world.get(foe).unwrap();
    assert_eq!(f.under_behavior, Some(TargetUnderBehavior::RandomCardinal));
    assert_eq!(f.destination, Some(Destination(at(1, -9))));
    let go = PlayerAction::Move(at(2, 9));
    assert_eq!(e.editing_update(Some(event(go)), walking), Ok(()));
    assert_eq!(e.sequence.get(1), Some((go, walking)));
    assert_eq!(e.world.get(e.player).unwrap().destination, Some(Destination(at(2, 9))));
    assert_eq!(e.sequence.get(0), Some((PlayerAction::Move(at(4, 4)), PlayerModifiers::default())));
    // A refused input changes nothing.
    let bad = PlayerAction::Attack(EntityId(40));
    assert_eq!(e.editing_update(Some(event(bad)), walking), Err(WorldError::MissingTarget));
    assert_eq!(e.sequence.get(1), Some((go, walking)));
    // Asking for another tick sends the machine to reconciliation.
    e.sequence.set_target_tick(0);
    assert_eq!(e.editing_update(None, walking), Ok(()));
    assert_eq!(e.state, EditingState::Reconciliation);
    assert_eq!(e.run_editing_catchup(), Ok(0));
    assert_eq!(player_position(&e), at(0, 0));
}

#[test]
fn reset_starts_everything_over() {
    let to = PlayerAction::Move(at(6, 6));
    let mut e = editor_with(&[to, to, to]);
    let foe = e.spawn_npc(npc("test"));
    assert_eq!(scrub(&mut e, 2), Ok(2));
    e.world.clear_target(foe);
    e.reset();
    assert_eq!(e.state, EditingState::Editing);
    assert_eq!(e.sequence.len(), 1);
    assert_eq!(e.sequence.get(0), Some((PlayerAction::Idle, PlayerModifiers::default())));
    assert_eq!((e.sequence.current_tick, e.sequence.target_tick), (0, 0));
    assert_eq!(player_position(&e), at(0, 0));
    assert_eq!(e.world.get(e.player).unwrap().destination, None);
    assert_eq!(e.world.get(foe).unwrap().position, at(1, 1));
    assert_eq!(e.world.get(foe).unwrap().target, Some(Target(e.player)));
    assert_eq!(e.pending, Some(event(PlayerAction::Idle)));
}

#[test]
fn an_editor_is_sound_with_exactly_its_player() {
    let mut e = editor_with(&[PlayerAction::Idle, PlayerAction::Idle]);
    e.spawn_npc(npc("test"));
    assert!(e.is_sound());
    e.player = EntityId(1);
    assert!(!e.is_sound());
    e.player = EntityId(0);
    e.sequence.current_tick = 2;
    assert!(!e.is_sound());
    e.sequence.current_tick = 0;
    e.state = EditingState::Catchup;
    assert!(!e.is_sound());
    e.sequence.current_tick = 1;
    assert!(e.is_sound());
    e.sequence.flee_rolls.pop();
    assert!(!e.is_sound());
}

#[test]
fn a_restart_forgets_what_the_last_replay_left() {
    let mut e = editor_with(&[PlayerAction::Move(at(0, 5)), PlayerAction::Idle]);
    let foe = e.spawn_npc(npc("test"));
    let walking = PlayerModifiers { run: false, weapon_speed: 7, weapon_range: 9 };
    e.sequence.set(0, PlayerAction::Move(at(0, 5)), walking).unwrap();
    assert_eq!(scrub(&mut e, 1), Ok(1));
    assert_eq!(player_position(&e), at(0, 1));
    assert_eq!(e.world.get(foe).unwrap().under_behavior, Some(TargetUnderBehavior::RandomCardinal));
    assert_eq!(scrub(&mut e, 0), Ok(0));
    let p = e.world.get(e.player).unwrap();
    assert_eq!(p.position, at(0, 0));
    assert_eq!(p.order, None);
    assert_eq!(p.destination, None);
    assert_eq!(p.speed, osrs_method_creator::movement::Speed(2));
    assert_eq!(e.world.get(foe).unwrap().under_behavior, None);
    assert_eq!(e.world.get(foe).unwrap().position, at(1, 1));
}

#[test]
fn setting_up_a_replay_starts_over_only_when_ahead() {
    let to = PlayerAction::Move(at(8, 0));
    let mut e = editor_with(&[to, to, to, to]);
    assert_eq!(scrub(&mut e, 2), Ok(2));
    assert_eq!(player_position(&e), at(4, 0));
    // Behind the tick asked for: nothing changes.
    e.sequence.set_target_tick(3);
    e.setup_sequence();
    assert_eq!(e.sequence.current_tick, 2);
    assert_eq!(player_position(&e), at(4, 0));
    // At the tick asked for: nothing changes.
    e.sequence.set_target_tick(2);
    e.setup_sequence();
    assert_eq!(e.sequence.current_tick, 2);
    assert_eq!(player_position(&e), at(4, 0));
    // Ahead of it: back to tick 0.
    e.sequence.set_target_tick(1);
    e.setup_sequence();
    assert_eq!(e.sequence.current_tick, 0);
    assert_eq!(player_position(&e), at(0, 0));
    assert_eq!(e.pending, Some(event(to)));
    // And without being asked, at any time.
    assert_eq!(scrub(&mut e, 3), Ok(3));
    e.restart();
    assert_eq!(e.sequence.current_tick, 0);
    assert_eq!(player_position(&e), at(0, 0));
}

#[test]
fn a_replay_that_fails_ends_before_the_tick_asked_for() {
    let to = PlayerAction::Move(at(3, 0));
    let far = PlayerAction::Move(at(0, 2_000_000_000));
    let mut e = editor_with(&[to, to, far, to, to]);
    assert_eq!(scrub(&mut e, 4), Err(WorldError::OutOfBounds));
    assert_eq!(e.state, EditingState::Editing);
    assert_eq!((e.sequence.current_tick, e.sequence.target_tick), (2, 2));
    // Short of the failing tick the replay runs to the end.
    assert_eq!(scrub(&mut e, 1), Ok(1));
    assert_eq!(scrub(&mut e, 2), Ok(1));
    assert_eq!((e.sequence.current_tick, e.sequence.target_tick), (2, 2));
}
