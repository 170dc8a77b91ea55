use osrs_method_creator::attack::{
    check_in_range, first_check_in_range, second_check_in_range, simultaneous_check, AttackRange,
    AttackSpeed, Target, TargetUnderBehavior,
};
use osrs_method_creator::geometry::{EntityId, Position};
use osrs_method_creator::movement::{
    move_first, move_second, Destination, MovementOrder, MovementType, Speed,
};
use osrs_method_creator::npc::{spawn_npc, target_player, Npc, Size};
use osrs_method_creator::player::{
    despawn_player, spawn_player, update_action, update_modifiers, PlayerAction, PlayerActionEvent,
    PlayerModifiers,
};
use osrs_method_creator::schedule::{free_roam_frame, game_tick, simulate_tick};
use osrs_method_creator::world::{Actor, ActorKind, World, WorldError};

fn at(x: i64, y: i64) -> Position {
    Position { x, y }
}

fn npc(name: &str) -> Npc {
    Npc { name: String::from(name) }
}

fn event(action: PlayerAction) -> PlayerActionEvent {
    PlayerActionEvent { action }
}

/// A world with the controlled actor in slot 0 and one non-player actor,
/// which attacks it, in slot 1.
fn arena() -> (World, EntityId, EntityId) {
    let mut world = World::new();
    let player = spawn_player(&mut world);
    let foe = spawn_npc(&mut world, npc("test"));
    target_player(&mut world, player).unwrap();
    (world, player, foe)
}

fn attacker(position: Position, order: MovementOrder) -> Actor {
    Actor {
        kind: ActorKind::Npc,
        position,
        size: Size(1),
        speed: Speed(1),
        movement_type: MovementType::DiagonalFirst,
        attack_range: AttackRange(1),
        attack_speed: None,
        under_behavior: Some(TargetUnderBehavior::MoveOut),
        order: Some(order),
        destination: None,
        target: None,
    }
}

#[test]
fn spawned_actors_have_their_defaults() {
    let (world, player, foe) = arena();
    assert_eq!((player, foe), (EntityId(0), EntityId(1)));
    assert_eq!(world.slots(), 2);
    let p = world.get(player).unwrap();
    assert_eq!(p.kind, ActorKind::Player);
    assert_eq!(p.position, at(0, 0));
    assert_eq!(p.size, Size(1));
    assert_eq!(p.speed, Speed(2));
    assert_eq!(p.attack_range, AttackRange(1));
    assert_eq!(p.attack_speed, Some(AttackSpeed(4)));
    assert_eq!(p.movement_type, MovementType::CardinalFirst);
    assert_eq!(p.under_behavior, Some(TargetUnderBehavior::MoveOut));
    assert_eq!(p.target, None);
    let f = world.get(foe).unwrap();
    assert_eq!(f.kind, ActorKind::Npc);
    assert_eq!(f.position, at(1, 1));
    assert_eq!(f.size, Size(5));
    assert_eq!(f.speed, Speed(1));
    assert_eq!(f.movement_type, MovementType::DiagonalFirst);
    assert_eq!(f.target, Some(Target(player)));
    assert_eq!(f.order, None);
    assert_eq!(world.label(foe), Some(&npc("test")));
    assert_eq!(world.label(player), None);
    assert_eq!(world.get(EntityId(2)), None);
    assert_eq!(Size::default(), Size(1));
    assert_eq!(Speed::default(), Speed(1));
}

#[test]
fn targets_are_refused_when_missing_or_self() {
    let (mut world, player, foe) = arena();
    assert_eq!(world.set_target(player, EntityId(9)), Err(WorldError::MissingTarget));
    assert_eq!(world.set_target(EntityId(9), player), Err(WorldError::MissingTarget));
    assert_eq!(world.set_target(player, player), Err(WorldError::SelfTarget));
    assert_eq!(world.get(player).unwrap().target, None);
    assert_eq!(world.set_target(player, foe), Ok(()));
    assert_eq!(world.get(player).unwrap().target, Some(Target(foe)));
    world.clear_target(player);
    assert_eq!(world.get(player).unwrap().target, None);
    world.clear_target(EntityId(9));
    assert_eq!(world.slots(), 2);
}

#[test]
fn targeted_by_lists_the_attackers_in_slot_order() {
    let (mut world, player, foe) = arena();
    let second = spawn_npc(&mut world, npc("second"));
    let third = spawn_npc(&mut world, npc("third"));
    world.set_target(third, player).unwrap();
    world.set_target(second, foe).unwrap();
    let by = world.targeted_by(player).unwrap();
    assert_eq!(by.len(), 2);
    assert_eq!(by.get(0), foe);
    assert_eq!(by.get(1), third);
    assert!(by.contains(third));
    assert!(!by.contains(second));
    assert_eq!(world.targeted_by(foe).unwrap().len(), 1);
    assert_eq!(world.targeted_by(foe).unwrap().get(0), second);
    assert_eq!(world.targeted_by(third).unwrap().len(), 0);
    assert!(world.targeted_by(EntityId(4)).is_none());
    // Changing a target moves the attacker from one list to the other.
    world.set_target(third, foe).unwrap();
    assert_eq!(world.targeted_by(player).unwrap().len(), 1);
    assert_eq!(world.targeted_by(foe).unwrap().len(), 2);
    assert_eq!(world.targeted_by(foe).unwrap().get(1), third);
    world.clear_target(second);
    assert_eq!(world.targeted_by(foe).unwrap().len(), 1);
    assert_eq!(world.targeted_by(foe).unwrap().get(0), third);
    assert!(world.is_sound());
}

#[test]
fn actions_keep_the_lists_of_attackers_up_to_date() {
    let (mut world, player, foe) = arena();
    assert_eq!(world.targeted_by(foe).unwrap().len(), 0);
    update_action(&mut world, player, event(PlayerAction::Attack(foe))).unwrap();
    assert_eq!(world.targeted_by(foe).unwrap().len(), 1);
    assert_eq!(world.targeted_by(foe).unwrap().get(0), player);
    update_action(&mut world, player, event(PlayerAction::Move(at(3, 0)))).unwrap();
    assert_eq!(world.targeted_by(foe).unwrap().len(), 0);
    assert_eq!(world.targeted_by(player).unwrap().len(), 1);
    // A tick that fails puts the lists back with the actors.
    update_action(&mut world, player, event(PlayerAction::Attack(foe))).unwrap();
    let bad = Some(event(PlayerAction::Attack(EntityId(9))));
    assert!(simulate_tick(&mut world, player, bad, PlayerModifiers::default(), 0).is_err());
    assert_eq!(world.targeted_by(foe).unwrap().len(), 1);
    assert!(world.is_sound());
}

#[test]
fn despawn_clears_every_attack_on_the_actor() {
    let (mut world, player, foe) = arena();
    let other = spawn_npc(&mut world, npc("other"));
    world.set_target(other, foe).unwrap();
    world.set_target(player, foe).unwrap();
    world.despawn(foe);
    assert_eq!(world.slots(), 3);
    assert_eq!(world.get(foe), None);
    assert_eq!(world.get(player).unwrap().target, None);
    assert_eq!(world.get(other).unwrap().target, None);
    assert_eq!(world.targeted_by(foe).unwrap().len(), 0);
    assert_eq!(world.targeted_by(player).unwrap().len(), 0);
    assert_eq!(world.set_target(player, foe), Err(WorldError::MissingTarget));
    // A later actor gets a new slot.
    assert_eq!(spawn_npc(&mut world, npc("late")), EntityId(3));
}

#[test]
fn the_controlled_actor_must_be_the_only_one() {
    let mut world = World::new();
    assert_eq!(world.player_id(), Err(WorldError::NoPlayer));
    assert_eq!(despawn_player(&mut world), Err(WorldError::NoPlayer));
    spawn_npc(&mut world, npc("alone"));
    assert_eq!(world.player_id(), Err(WorldError::NoPlayer));
    let player = spawn_player(&mut world);
    assert_eq!(world.player_id(), Ok(player));
    spawn_player(&mut world);
    assert_eq!(world.player_id(), Err(WorldError::MultiplePlayers));
    assert_eq!(despawn_player(&mut world), Err(WorldError::MultiplePlayers));
    world.despawn(EntityId(2));
    assert_eq!(despawn_player(&mut world), Ok(player));
    assert_eq!(world.player_id(), Err(WorldError::NoPlayer));
}

#[test]
fn clicks_attack_the_actor_under_them_or_move() {
    let (world, _, foe) = arena();
    // The non-player actor covers (1,1) to (5,5).
    assert_eq!(world.click_action(at(1, 1)), PlayerAction::Attack(foe));
    assert_eq!(world.click_action(at(5, 5)), PlayerAction::Attack(foe));
    assert_eq!(world.click_action(at(3, 2)), PlayerAction::Attack(foe));
    assert_eq!(world.click_action(at(6, 3)), PlayerAction::Move(at(6, 3)));
    assert_eq!(world.click_action(at(0, 1)), PlayerAction::Move(at(0, 1)));
    // The controlled actor's own tile is a move.
    assert_eq!(world.click_action(at(0, 0)), PlayerAction::Move(at(0, 0)));
    assert_eq!(world.npc_at(at(2, 2)), Some(foe));
    assert_eq!(world.npc_at(at(-1, 2)), None);
}

#[test]
fn a_move_sets_a_destination_and_drops_the_target() {
    let (mut world, player, foe) = arena();
    world.set_target(player, foe).unwrap();
    assert_eq!(update_action(&mut world, player, event(PlayerAction::Move(at(7, 2)))), Ok(()));
    let p = world.get(player).unwrap();
    assert_eq!(p.destination, Some(Destination(at(7, 2))));
    assert_eq!(p.target, None);
    assert_eq!(world.get(foe).unwrap().under_behavior, Some(TargetUnderBehavior::RandomCardinal));
    // A move to the tile it stands on leaves it without a destination.
    assert_eq!(update_action(&mut world, player, event(PlayerAction::Move(at(0, 0)))), Ok(()));
    assert_eq!(world.get(player).unwrap().destination, None);
}

#[test]
fn an_attack_sets_the_target_and_drops_the_destination() {
    let (mut world, player, foe) = arena();
    update_action(&mut world, player, event(PlayerAction::Move(at(7, 2)))).unwrap();
    assert_eq!(update_action(&mut world, player, event(PlayerAction::Attack(foe))), Ok(()));
    let p = world.get(player).unwrap();
    assert_eq!(p.destination, None);
    assert_eq!(p.target, Some(Target(foe)));
    assert_eq!(world.get(foe).unwrap().under_behavior, Some(TargetUnderBehavior::StayStill));
    assert_eq!(update_action(&mut world, player, event(PlayerAction::Idle)), Ok(()));
    let p = world.get(player).unwrap();
    assert_eq!((p.destination, p.target), (None, None));
    assert_eq!(world.get(foe).unwrap().under_behavior, Some(TargetUnderBehavior::RandomCardinal));
}

#[test]
fn only_attackers_of_the_player_are_told_what_to_do_under_it() {
    let (mut world, player, foe) = arena();
    let bystander = spawn_npc(&mut world, npc("bystander"));
    world.set_target(bystander, foe).unwrap();
    update_action(&mut world, player, event(PlayerAction::Idle)).unwrap();
    assert_eq!(world.get(foe).unwrap().under_behavior, Some(TargetUnderBehavior::RandomCardinal));
    assert_eq!(world.get(bystander).unwrap().under_behavior, None);
    assert_eq!(world.get(player).unwrap().under_behavior, Some(TargetUnderBehavior::MoveOut));
}

#[test]
fn refused_actions_change_nothing() {
    let (mut world, player, foe) = arena();
    update_action(&mut world, player, event(PlayerAction::Move(at(3, 3)))).unwrap();
    let before = world.snapshot();
    let far = PlayerAction::Move(at(1_000_000_001, 0));
    assert_eq!(update_action(&mut world, player, event(far)), Err(WorldError::OutOfBounds));
    let ghost = PlayerAction::Attack(EntityId(17));
    assert_eq!(update_action(&mut world, player, event(ghost)), Err(WorldError::MissingTarget));
    let own = PlayerAction::Attack(player);
    assert_eq!(update_action(&mut world, player, event(own)), Err(WorldError::SelfTarget));
    assert_eq!(update_action(&mut world, foe, event(PlayerAction::Idle)), Err(WorldError::NoPlayer));
    assert_eq!(
        update_action(&mut world, EntityId(5), event(PlayerAction::Idle)),
        Err(WorldError::NoPlayer)
    );
    assert_eq!(world.snapshot(), before);
    let edge = PlayerAction::Move(at(1_000_000_000, -1_000_000_000));
    assert_eq!(update_action(&mut world, player, event(edge)), Ok(()));
}

#[test]
fn modifiers_set_speed_and_weapon() {
    let (mut world, player, foe) = arena();
    let walking = PlayerModifiers { run: false, weapon_speed: 6, weapon_range: 8 };
    assert_eq!(update_modifiers(&mut world, player, walking), Ok(()));
    let p = world.get(player).unwrap();
    assert_eq!(p.speed, Speed(1));
    assert_eq!(p.attack_speed, Some(AttackSpeed(6)));
    assert_eq!(p.attack_range, AttackRange(8));
    assert_eq!(update_modifiers(&mut world, player, PlayerModifiers::default()), Ok(()));
    assert_eq!(world.get(player).unwrap().speed, Speed(2));
    assert_eq!(update_modifiers(&mut world, foe, walking), Err(WorldError::NoPlayer));
    assert_eq!(world.get(foe).unwrap().attack_range, AttackRange(1));
    assert_eq!(PlayerModifiers::default().speed(), Speed(2));
}

#[test]
fn the_player_moves_second_unless_the_distance_is_special() {
    let (mut world, player, foe) = arena();
    assert_eq!(simultaneous_check(&mut world, player), Ok(()));
    assert_eq!(world.get(player).unwrap().order, Some(MovementOrder::Second));
    // From (-2,-2) the 5x5 actor at (1,1) is (3,3) away: second.
    world.actors[0].as_mut().unwrap().position = at(-2, -2);
    world.set_target(player, foe).unwrap();
    simultaneous_check(&mut world, player).unwrap();
    assert_eq!(world.get(player).unwrap().order, Some(MovementOrder::Second));
    // From (-1,-1) it is (2,2) away: first.
    world.actors[0].as_mut().unwrap().position = at(-1, -1);
    simultaneous_check(&mut world, player).unwrap();
    assert_eq!(world.get(player).unwrap().order, Some(MovementOrder::First));
    // From (0,-2) it is (1,3) away: first.
    world.actors[0].as_mut().unwrap().position = at(0, -2);
    simultaneous_check(&mut world, player).unwrap();
    assert_eq!(world.get(player).unwrap().order, Some(MovementOrder::First));
    // Not at range 2.
    world.actors[0].as_mut().unwrap().attack_range = AttackRange(2);
    simultaneous_check(&mut world, player).unwrap();
    assert_eq!(world.get(player).unwrap().order, Some(MovementOrder::Second));
    assert_eq!(simultaneous_check(&mut world, foe), Err(WorldError::NoPlayer));
}

#[test]
fn range_checks_take_the_attackers_of_their_pass() {
    let mut world = World::new();
    let player = spawn_player(&mut world);
    let early = world.spawn(attacker(at(5, 0), MovementOrder::First));
    let late = world.spawn(attacker(at(0, 6), MovementOrder::Second));
    world.set_target(early, player).unwrap();
    world.set_target(late, player).unwrap();
    assert_eq!(first_check_in_range(&mut world, 0), Ok(()));
    assert_eq!(world.get(early).unwrap().destination, Some(Destination(at(1, 0))));
    assert_eq!(world.get(late).unwrap().destination, None);
    assert_eq!(second_check_in_range(&mut world, 0), Ok(()));
    assert_eq!(world.get(late).unwrap().destination, Some(Destination(at(0, 1))));
    // In range, the destination goes.
    world.actors[1].as_mut().unwrap().position = at(1, 0);
    assert_eq!(check_in_range(&mut world, 0), Ok(()));
    assert_eq!(world.get(early).unwrap().destination, None);
    assert_eq!(world.get(late).unwrap().destination, Some(Destination(at(0, 1))));
}

#[test]
fn a_check_that_leaves_the_grid_fails_and_changes_nothing() {
    let mut world = World::new();
    let player = spawn_player(&mut world);
    let mut edge = attacker(at(1_000_000_000, 0), MovementOrder::First);
    edge.under_behavior = Some(TargetUnderBehavior::RandomCardinal);
    edge.size = Size(1);
    let runner = world.spawn(edge);
    world.set_target(runner, player).unwrap();
    world.actors[0].as_mut().unwrap().position = at(1_000_000_000, 0);
    let before = world.snapshot();
    // Slot 1 reads bits 2-3: 01 is east, off the grid; 00 is west.
    assert_eq!(first_check_in_range(&mut world, 0b0100), Err(WorldError::OutOfBounds));
    assert_eq!(game_tick(&mut world, player, 0b0100), Err(WorldError::OutOfBounds));
    assert_eq!(world.snapshot(), before);
    assert_eq!(first_check_in_range(&mut world, 0b0000), Ok(()));
    assert_eq!(
        world.get(runner).unwrap().destination,
        Some(Destination(at(999_999_990, 0)))
    );
}

#[test]
fn movement_passes_move_the_actors_of_their_pass() {
    let mut world = World::new();
    let player = spawn_player(&mut world);
    let mut a = attacker(at(5, 5), MovementOrder::First);
    a.destination = Some(Destination(at(5, 8)));
    let mut b = attacker(at(-5, -5), MovementOrder::Second);
    b.destination = Some(Destination(at(-6, -6)));
    let early = world.spawn(a);
    let late = world.spawn(b);
    move_first(&mut world);
    assert_eq!(world.get(early).unwrap().position, at(5, 6));
    assert_eq!(world.get(late).unwrap().position, at(-5, -5));
    move_second(&mut world);
    assert_eq!(world.get(early).unwrap().position, at(5, 6));
    assert_eq!(world.get(late).unwrap().position, at(-6, -6));
    assert_eq!(world.get(late).unwrap().destination, None);
    assert_eq!(world.get(early).unwrap().destination, Some(Destination(at(5, 8))));
    assert_eq!(world.get(player).unwrap().position, at(0, 0));
}

#[test]
fn a_tick_checks_then_moves_pass_by_pass() {
    let (mut world, player, foe) = arena();
    {
        let f = world.actors[1].as_mut().unwrap();
        f.order = Some(MovementOrder::Second);
        f.under_behavior = Some(TargetUnderBehavior::MoveOut);
    }
    assert_eq!(game_tick(&mut world, player, 0), Ok(()));
    // From (1,1) the 5x5 actor touches the player diagonally and steps west.
    let f = world.get(foe).unwrap();
    assert_eq!(f.position, at(0, 1));
    assert_eq!(f.destination, None);
    assert_eq!(world.get(player).unwrap().position, at(0, 0));
    assert_eq!(world.get(player).unwrap().order, Some(MovementOrder::Second));
    // Now it is in range and stays.
    assert_eq!(game_tick(&mut world, player, 0), Ok(()));
    assert_eq!(world.get(foe).unwrap().position, at(0, 1));
}

#[test]
fn a_simulated_tick_takes_the_action_first() {
    let (mut world, player, foe) = arena();
    let go = Some(event(PlayerAction::Move(at(5, 0))));
    assert_eq!(simulate_tick(&mut world, player, go, PlayerModifiers::default(), 0), Ok(()));
    assert_eq!(world.get(player).unwrap().position, at(2, 0));
    assert_eq!(world.get(player).unwrap().destination, Some(Destination(at(5, 0))));
    let walking = PlayerModifiers { run: false, weapon_speed: 4, weapon_range: 1 };
    assert_eq!(simulate_tick(&mut world, player, None, walking, 0), Ok(()));
    assert_eq!(world.get(player).unwrap().position, at(3, 0));
    // The non-player actor has no movement order and stays where it is.
    assert_eq!(world.get(foe).unwrap().position, at(1, 1));
    let before = world.snapshot();
    let bad = Some(event(PlayerAction::Attack(EntityId(8))));
    assert_eq!(
        simulate_tick(&mut world, player, bad, walking, 0),
        Err(WorldError::MissingTarget)
    );
    assert_eq!(world.snapshot(), before);
}

#[test]
fn between_ticks_attackers_check_but_nobody_moves() {
    let (mut world, player, foe) = arena();
    {
        let f = world.actors[1].as_mut().unwrap();
        f.order = Some(MovementOrder::Second);
    }
    let go = Some(event(PlayerAction::Move(at(0, 4))));
    let mods = PlayerModifiers::default();
    assert_eq!(free_roam_frame(&mut world, player, go, mods, 0, false), Ok(()));
    assert_eq!(world.get(player).unwrap().position, at(0, 0));
    assert_eq!(world.get(player).unwrap().destination, Some(Destination(at(0, 4))));
    assert_eq!(world.get(foe).unwrap().position, at(1, 1));
    assert_eq!(world.get(foe).unwrap().destination, Some(Destination(at(0, 1))));
    // On a tick both move: the player two tiles north, the other one west.
    assert_eq!(free_roam_frame(&mut world, player, None, mods, 0, true), Ok(()));
    assert_eq!(world.get(player).unwrap().position, at(0, 2));
    assert_eq!(world.get(foe).unwrap().position, at(0, 1));
    let before = world.snapshot();
    let bad = Some(event(PlayerAction::Attack(player)));
    assert_eq!(
        free_roam_frame(&mut world, player, bad, mods, 0, false),
        Err(WorldError::SelfTarget)
    );
    assert_eq!(free_roam_frame(&mut world, foe, None, mods, 0, false), Err(WorldError::NoPlayer));
    assert_eq!(world.snapshot(), before);
}

#[test]
fn soundness_is_tested_at_run_time() {
    let (mut world, player, foe) = arena();
    assert!(world.is_sound());
    world.actors[1].as_mut().unwrap().target = Some(Target(EntityId(7)));
    assert!(!world.is_sound());
    world.actors[1].as_mut().unwrap().target = Some(Target(foe));
    assert!(!world.is_sound());
    world.actors[1].as_mut().unwrap().target = Some(Target(player));
    assert!(world.is_sound());
    world.actors[0].as_mut().unwrap().position = at(1_000_000_001, 0);
    assert!(!world.is_sound());
    world.actors[0].as_mut().unwrap().position = at(0, 0);
    world.actors[0].as_mut().unwrap().size = Size(0);
    assert!(!world.is_sound());
    world.actors[0].as_mut().unwrap().size = Size(1);
    world.actors[0].as_mut().unwrap().destination = Some(Destination(at(0, -1_000_000_001)));
    assert!(!world.is_sound());
    world.actors[0].as_mut().unwrap().destination = None;
    // The lists of attackers must match the targets.
    world.actors[1].as_mut().unwrap().target = None;
    assert!(!world.is_sound());
    world.reindex();
    assert!(world.is_sound());
    world.attackers.pop();
    assert!(!world.is_sound());
    world.reindex();
    world.labels.pop();
    assert!(!world.is_sound());
}

#[test]
fn a_second_controlled_actor_is_refused_everywhere() {
    let (mut world, player, foe) = arena();
    let second = spawn_player(&mut world);
    world.set_target(player, foe).unwrap();
    let before = world.snapshot();
    let mods = PlayerModifiers { run: false, weapon_speed: 6, weapon_range: 8 };
    let many = Err(WorldError::MultiplePlayers);
    assert_eq!(world.check_player(player), many);
    assert_eq!(world.check_player(second), many);
    assert_eq!(world.check_player(foe), Err(WorldError::NoPlayer));
    assert_eq!(simultaneous_check(&mut world, player), many);
    assert_eq!(simultaneous_check(&mut world, second), many);
    assert_eq!(update_action(&mut world, player, event(PlayerAction::Idle)), many);
    assert_eq!(update_modifiers(&mut world, player, mods), many);
    assert_eq!(target_player(&mut world, player), many);
    assert_eq!(game_tick(&mut world, player, 0), many);
    assert_eq!(simulate_tick(&mut world, player, None, mods, 0), many);
    assert_eq!(free_roam_frame(&mut world, player, None, mods, 0, false), many);
    assert_eq!(world.snapshot(), before);
    // Without the second one everything goes through again.
    world.despawn(second);
    assert_eq!(world.check_player(player), Ok(()));
    assert_eq!(simultaneous_check(&mut world, player), Ok(()));
    assert_eq!(game_tick(&mut world, player, 0), Ok(()));
}

#[test]
fn a_target_without_an_actor_is_reported_by_the_range_check() {
    let mut world = World::new();
    let player = spawn_player(&mut world);
    let early = world.spawn(attacker(at(5, 0), MovementOrder::First));
    let late = world.spawn(attacker(at(0, 6), MovementOrder::Second));
    world.set_target(early, player).unwrap();
    world.set_target(late, player).unwrap();
    // The second attacker names an actor that is not there.
    world.actors[2].as_mut().unwrap().target = Some(Target(EntityId(9)));
    world.actors[2].as_mut().unwrap().destination = Some(Destination(at(0, 3)));
    assert!(world.is_placed());
    assert!(!world.is_sound());
    let before = world.snapshot();
    // Its pass fails and touches nobody's destination.
    assert_eq!(second_check_in_range(&mut world, 0), Err(WorldError::MissingTarget));
    assert_eq!(check_in_range(&mut world, 0), Err(WorldError::MissingTarget));
    assert_eq!(world.snapshot(), before);
    assert_eq!(world.get(late).unwrap().destination, Some(Destination(at(0, 3))));
    assert_eq!(world.get(early).unwrap().destination, None);
    // The other pass does not look at it.
    assert_eq!(first_check_in_range(&mut world, 0), Ok(()));
    assert_eq!(world.get(early).unwrap().destination, Some(Destination(at(1, 0))));
    // A whole tick fails with it and changes nothing.
    let before = world.snapshot();
    assert_eq!(game_tick(&mut world, player, 0), Err(WorldError::MissingTarget));
    assert_eq!(world.snapshot(), before);
    // So does a target whose actor has left through the back door.
    world.actors[2].as_mut().unwrap().target = Some(Target(early));
    world.actors[1] = None;
    assert_eq!(second_check_in_range(&mut world, 0), Err(WorldError::MissingTarget));
}

#[test]
fn a_missing_target_of_the_player_is_reported_when_its_pass_is_decided() {
    let (mut world, player, foe) = arena();
    world.set_target(player, foe).unwrap();
    world.actors[1] = None;
    let before = world.snapshot();
    assert_eq!(simultaneous_check(&mut world, player), Err(WorldError::MissingTarget));
    assert_eq!(game_tick(&mut world, player, 0), Err(WorldError::MissingTarget));
    assert_eq!(world.snapshot(), before);
    assert_eq!(world.get(player).unwrap().order, None);
    world.actors[0].as_mut().unwrap().target = None;
    assert_eq!(simultaneous_check(&mut world, player), Ok(()));
    assert_eq!(world.get(player).unwrap().order, Some(MovementOrder::Second));
}
