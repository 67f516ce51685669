use load_runner::animate::{
    death_animation_step, next_sprite_index_once, next_sprite_index_option,
    next_sprite_index_repeat,
};
use load_runner::character::{
    enemy_hit_player, jump_animation, movement, patrol_advance, player_hits_enemy, walk_animation,
    Damage, HitOutcome, JumpAnimation, Life, MovementInput, VerticalMove, WalkAnimation,
};
use load_runner::contact::{ContactEvent, ContactSet, Climber, Jumping};
use load_runner::invuln::{pause_all, Invulnerable};
use load_runner::items::{collect_chest, try_open_door, Item, Items};
use load_runner::timer::{Countdown, Temporary};

#[test]
fn life_defaults_and_saturates() {
    assert_eq!(Life::from_field(None).get(), 5);
    assert_eq!(Life::from_field(Some(3)).get(), 3);
    let mut life = Life::new(2);
    life.hit(1);
    assert_eq!(life.get(), 1);
    assert!(!life.is_dead());
    life.hit(10);
    assert_eq!(life.get(), 0);
    assert!(life.is_dead());
}

#[test]
fn enemy_hit_kills_or_grants_invulnerability() {
    let mut life = Life::new(5);
    assert_eq!(enemy_hit_player(&mut life, Damage(2)), HitOutcome::BecomesInvulnerable);
    assert_eq!(life.get(), 3);
    assert_eq!(enemy_hit_player(&mut life, Damage(3)), HitOutcome::Dying);
    assert_eq!(life.get(), 0);
}

#[test]
fn stomped_enemies_lose_one_life_each() {
    let mut contacts = ContactSet::new();
    contacts.insert(10);
    contacts.insert(11);
    let enemies = vec![(10u64, Life::new(1)), (11u64, Life::new(3)), (12u64, Life::new(2))];
    let out = player_hits_enemy(enemies, &contacts);
    assert_eq!(out[0].1.get(), 0, "contacted enemy at one life dies");
    assert_eq!(out[1].1.get(), 2);
    assert_eq!(out[2].1.get(), 2, "enemy not in contact is untouched");
}

fn no_input() -> MovementInput {
    MovementInput { right: false, left: false, up: false, down: false, jump_pressed: false }
}

#[test]
fn jump_needs_ground_climb_or_water() {
    let input = MovementInput { jump_pressed: true, ..no_input() };

    let mut climber = Climber::new();
    let mut jumping = Jumping(false);
    let cmd = movement(input, &mut climber, &mut jumping, false, false, false);
    assert_eq!(cmd.vertical, VerticalMove::Unchanged, "airborne without support: no jump");
    assert!(!jumping.0);

    let cmd = movement(input, &mut climber, &mut jumping, true, false, false);
    assert_eq!(cmd.vertical, VerticalMove::Jump { with_boots: false });
    assert!(jumping.0);

    // already jumping: no second impulse even on ground
    let cmd = movement(input, &mut climber, &mut jumping, true, false, false);
    assert_ne!(cmd.vertical, VerticalMove::Jump { with_boots: false });
}

#[test]
fn boots_strengthen_the_jump_and_climb_ends_with_it() {
    let climbables = vec![70u64];
    let mut climber = Climber::new();
    climber.process_event(42, &ContactEvent::Started(42, 70), &climbables);
    let input = MovementInput { up: true, jump_pressed: true, ..no_input() };
    let mut jumping = Jumping(false);
    let cmd = movement(input, &mut climber, &mut jumping, false, false, true);
    assert_eq!(cmd.vertical, VerticalMove::Jump { with_boots: true });
    assert!(!climber.climbing, "a jump ends the climb");
}

#[test]
fn water_slows_and_allows_vertical_drift() {
    let input = MovementInput { right: true, up: true, ..no_input() };
    let mut climber = Climber::new();
    let mut jumping = Jumping(false);
    let cmd = movement(input, &mut climber, &mut jumping, false, true, false);
    assert_eq!(cmd.x_dir, 1);
    assert!(cmd.water_slows_x);
    assert_eq!(cmd.vertical, VerticalMove::Swim(1));
}

#[test]
fn opposed_input_cancels() {
    let input = MovementInput { right: true, left: true, ..no_input() };
    let mut climber = Climber::new();
    let mut jumping = Jumping(false);
    let cmd = movement(input, &mut climber, &mut jumping, true, false, false);
    assert_eq!(cmd.x_dir, 0);
}

#[test]
fn item_names_parse_with_unknown_fallback() {
    assert_eq!(Item::from_name(&"Gem".to_string()), Item::Gem);
    assert_eq!(Item::from_name(&"Boots".to_string()), Item::Boots);
    assert_eq!(Item::from_name(&"Key".to_string()), Item::Key);
    assert_eq!(Item::from_name(&"Crown".to_string()), Item::Unknown);
}

#[test]
fn item_atlas_indices() {
    assert_eq!(Item::Boots.atlas_index(), 18);
    assert_eq!(Item::Key.atlas_index(), 83);
    assert_eq!(Item::Gem.atlas_index(), 1483);
    assert_eq!(Item::Unknown.atlas_index(), 0);
}

#[test]
fn door_opens_only_with_all_expected_items_and_consumes_them() {
    let mut player = Items::new();
    player.add(Item::Key);
    player.add(Item::Gem);
    player.add(Item::Key);

    let mut expected = Items::new();
    expected.add(Item::Key);
    expected.add(Item::Boots);
    let mut p = player.clone();
    assert!(!try_open_door(&mut p, &expected), "missing boots");
    assert_eq!(p.iter().as_slice(), player.iter().as_slice());

    let mut expected = Items::new();
    expected.add(Item::Key);
    assert!(try_open_door(&mut player, &expected));
    assert_eq!(player.iter().as_slice(), &[Item::Gem, Item::Key]);
}

#[test]
fn duplicate_expectations_need_only_one_witness() {
    // the door's check tests membership per item, not multiplicity
    let mut player = Items::new();
    player.add(Item::Key);
    let mut expected = Items::new();
    expected.add(Item::Key);
    expected.add(Item::Key);
    assert!(player.contains_items(&expected));
    assert!(try_open_door(&mut player, &expected));
    assert!(player.iter().is_empty(), "both removals target the one key");
}

#[test]
fn chest_items_are_collected_in_order() {
    let mut player = Items::new();
    player.add(Item::Gem);
    let mut chest = Items::new();
    chest.add(Item::Boots);
    chest.add(Item::Key);
    let n = collect_chest(&mut player, &chest);
    assert_eq!(n, 2);
    assert_eq!(player.iter().as_slice(), &[Item::Gem, Item::Boots, Item::Key]);
}

#[test]
fn invulnerability_masks_and_restores_filters() {
    let mut mask: u32 = 0b1111;
    let inv = Invulnerable::new(100, 0b0010);
    inv.install(&mut mask);
    assert_eq!(mask, 0b1101);

    let mut inv = inv;
    assert!(!inv.tick(60, &mut mask));
    assert_eq!(mask, 0b1101);
    assert!(inv.tick(40, &mut mask), "the crossing tick reports completion once");
    assert_eq!(mask, 0b1111, "filters restored on completion");
    assert!(!inv.tick(10, &mut mask), "already finished: no second report");
}

#[test]
fn paused_invulnerability_does_not_advance() {
    let mut mask: u32 = 0;
    let mut inv = Invulnerable::new(100, 1);
    inv.tick(30, &mut mask);
    assert_eq!(inv.remaining(), 70);

    inv.pause(true);
    inv.tick(1000, &mut mask);
    assert_eq!(inv.remaining(), 70, "paused time must not shrink the window");

    inv.pause(false);
    inv.tick(30, &mut mask);
    assert_eq!(inv.remaining(), 40, "the countdown resumes where it left off");
}

#[test]
fn pause_all_toggles_every_window() {
    let windows = vec![Invulnerable::new(10, 1), Invulnerable::new(20, 2)];
    let paused = pause_all(windows, true);
    assert!(paused.iter().all(|w| w.is_paused()));
    let resumed = pause_all(paused, false);
    assert!(resumed.iter().all(|w| !w.is_paused()));
}

#[test]
fn countdown_finishes_once_and_reports_progress() {
    let mut c = Countdown::new(10);
    assert!(!c.tick(4));
    assert_eq!(c.progress_permille(), 400);
    assert!(c.tick(6));
    assert!(c.is_finished());
    assert!(!c.tick(1));
    assert_eq!(c.progress_permille(), 1000);
}

#[test]
fn temporary_expires_exactly_once() {
    let mut t = Temporary::new(5);
    assert!(!t.tick(4));
    assert!(t.tick(4));
    assert!(!t.tick(4));
}

#[test]
fn walk_and_jump_animation_choice() {
    assert_eq!(walk_animation(true, false, false, false), WalkAnimation::MoveRight);
    assert_eq!(walk_animation(false, true, true, true), WalkAnimation::MoveLeft);
    assert_eq!(walk_animation(false, false, true, true), WalkAnimation::ClimbMove);
    assert_eq!(walk_animation(false, false, true, false), WalkAnimation::ClimbHold);
    assert_eq!(walk_animation(false, false, false, false), WalkAnimation::Stand);
    assert_eq!(jump_animation(true, false), JumpAnimation::Right);
    assert_eq!(jump_animation(false, true), JumpAnimation::Left);
    assert_eq!(jump_animation(false, false), JumpAnimation::Front);
}

#[test]
fn sprite_strips_advance_and_wrap() {
    let strip: Vec<usize> = vec![8, 9, 10, 11];
    assert_eq!(next_sprite_index_option(&strip, 9), Some(2));
    assert_eq!(next_sprite_index_option(&strip, 11), Some(0), "wraps past the end");
    assert_eq!(next_sprite_index_option(&strip, 7), None);

    assert_eq!(next_sprite_index_repeat(&strip, 9), 10);
    assert_eq!(next_sprite_index_repeat(&strip, 11), 8);
    assert_eq!(next_sprite_index_repeat(&strip, 7), 8, "foreign frame restarts the loop");

    assert_eq!(next_sprite_index_once(&strip, 9), 10);
    assert_eq!(next_sprite_index_once(&strip, 7), 7, "foreign frame is kept");
}

#[test]
fn death_animation_runs_the_strip_then_reports() {
    let strip: Vec<usize> = vec![0, 1, 2];
    assert_eq!(death_animation_step(&strip, 0), Some(1));
    assert_eq!(death_animation_step(&strip, 1), Some(2));
    assert_eq!(death_animation_step(&strip, 2), None, "past the last frame the death fires");
}

#[test]
fn patrol_turns_around_at_both_ends() {
    assert_eq!(patrol_advance(0, 3, false), (1, true), "the first waypoint turns the walk forward");
    assert_eq!(patrol_advance(1, 3, true), (2, true));
    assert_eq!(patrol_advance(2, 3, true), (1, false), "the last waypoint turns it back");
    assert_eq!(patrol_advance(1, 3, false), (0, false));
}
