use load_runner::grid::{dig_target, CellKind, GridCoord, LevelGrid};
use load_runner::iter_ext::{IterExt, SingleIterError};
use load_runner::menu::{spawn_death_menu, MenuAction, MenuModel};
use load_runner::streaming::{
    cell_to_level, load_action, select_level, LevelBounds, LevelStreaming, LoadAction,
    StreamEvent, StreamingState,
};

#[test]
fn cell_codes_map_to_kinds_with_unknown_fallback() {
    assert_eq!(CellKind::from_code(0), None);
    assert_eq!(CellKind::from_code(1), Some(CellKind::SolidDestructible));
    assert_eq!(CellKind::from_code(2), Some(CellKind::Ladder));
    assert_eq!(CellKind::from_code(3), Some(CellKind::SolidIndestructible));
    assert_eq!(CellKind::from_code(4), Some(CellKind::Water));
    assert_eq!(CellKind::from_code(99), Some(CellKind::Unknown));
}

fn sample_grid() -> LevelGrid {
    // 4 wide, 3 tall: bottom row stone, one dirt and one ladder above,
    // water in the top row
    let codes = vec![
        3, 3, 3, 3, // y == 0
        1, 0, 2, 0, // y == 1
        4, 4, 0, 0, // y == 2
    ];
    LevelGrid::from_codes(4, 3, &codes)
}

#[test]
fn occupancy_queries_read_the_codes() {
    let g = sample_grid();
    assert!(g.is_solid_cell(GridCoord { x: 0, y: 0 }));
    assert!(g.is_solid_cell(GridCoord { x: 0, y: 1 }), "dirt is solid");
    assert!(!g.is_solid_cell(GridCoord { x: 2, y: 1 }), "ladder is not solid");
    assert!(!g.is_solid_cell(GridCoord { x: 0, y: 2 }), "water is not solid");
    assert!(g.is_ladder_cell(GridCoord { x: 2, y: 1 }));
    assert!(g.is_water_cell(GridCoord { x: 1, y: 2 }));
    assert!(!g.is_water_cell(GridCoord { x: 5, y: 5 }), "out of range reads empty");
    assert_eq!(g.kind_of_cell(GridCoord { x: -1, y: 0 }), None);
}

#[test]
fn digging_takes_only_standing_destructible_cells() {
    let mut g = sample_grid();
    assert!(!g.destroy_cell(GridCoord { x: 0, y: 0 }), "stone cannot be dug");
    assert!(!g.destroy_cell(GridCoord { x: 2, y: 1 }), "a ladder cannot be dug");
    assert!(g.destroy_cell(GridCoord { x: 0, y: 1 }), "dirt can");
    assert!(!g.destroy_cell(GridCoord { x: 0, y: 1 }), "but only once");
    assert!(!g.is_solid_cell(GridCoord { x: 0, y: 1 }));
    assert_eq!(
        g.kind_of_cell(GridCoord { x: 0, y: 1 }),
        Some(CellKind::SolidDestructible),
        "the tile kind itself is kept"
    );
}

#[test]
fn dig_target_is_beside_and_below() {
    let player = GridCoord { x: 5, y: 7 };
    assert_eq!(dig_target(player, true), GridCoord { x: 4, y: 6 });
    assert_eq!(dig_target(player, false), GridCoord { x: 6, y: 6 });
}

#[test]
fn world_positions_map_to_cells_by_flooring() {
    let g = sample_grid();
    // level origin at (-32, 16), 16-unit cells; position inside cell (1, 2)
    assert!(g.water_at_world(-32 + 31, 16 + 47, -32, 16, 16));
    // the same position against the wrong origin is not in water
    assert!(!g.water_at_world(-32 + 31, 16 + 47, 0, 0, 16));
    // a position left of the level: floor of a negative local goes below zero
    assert!(!g.water_at_world(-33, 16, -32, 16, 16));
    assert_eq!(
        g.cell_at_world(-33, 16, -32, 16, 16),
        None,
        "cell (-1, 0) lies outside the grid"
    );
    assert_eq!(
        g.cell_at_world(-32 + 31, 16 + 47, -32, 16, 16),
        Some(GridCoord { x: 1, y: 2 })
    );
}

#[test]
fn streaming_loads_only_after_the_last_spawn() {
    let mut m = LevelStreaming::new(200);
    assert_eq!(m.state(), StreamingState::Disabled);
    m.apply(StreamEvent::Start);
    assert_eq!(m.state(), StreamingState::Loading);

    m.apply(StreamEvent::SpawnTriggered(1));
    m.apply(StreamEvent::SpawnTriggered(2));
    m.apply(StreamEvent::SpawnTriggered(3));
    m.apply(StreamEvent::Spawned(1));
    assert_eq!(m.state(), StreamingState::Loading);
    m.apply(StreamEvent::Spawned(2));
    assert_eq!(m.state(), StreamingState::Loading, "one sub-area is still pending");
    m.apply(StreamEvent::Spawned(3));
    assert_eq!(m.state(), StreamingState::Loaded, "the third spawn completes loading");

    m.apply(StreamEvent::FadeTick(120));
    assert_eq!(m.state(), StreamingState::Loaded, "the fade has not elapsed yet");
    m.apply(StreamEvent::FadeTick(80));
    assert_eq!(m.state(), StreamingState::Running);
    assert!(m.is_running());
}

#[test]
fn pause_and_popup_suspend_timers_and_return_to_running() {
    let mut m = LevelStreaming::new(1);
    m.apply(StreamEvent::Start);
    m.apply(StreamEvent::Spawned(1));
    m.apply(StreamEvent::FadeTick(1));
    assert!(m.is_running());
    assert!(!m.suspends_timers());

    m.apply(StreamEvent::Pause);
    assert_eq!(m.state(), StreamingState::Paused);
    assert!(m.suspends_timers());
    m.apply(StreamEvent::Resume);
    assert!(m.is_running());

    m.apply(StreamEvent::ShowPopup);
    assert_eq!(m.state(), StreamingState::ShowingPopup);
    assert!(m.suspends_timers());
    m.apply(StreamEvent::DismissPopup);
    assert!(m.is_running());
}

#[test]
fn death_and_level_end_lead_to_retry_or_menu() {
    let mut m = LevelStreaming::new(1);
    m.apply(StreamEvent::Start);
    m.apply(StreamEvent::Spawned(1));
    m.apply(StreamEvent::FadeTick(1));

    m.apply(StreamEvent::Die);
    assert_eq!(m.state(), StreamingState::Died);
    m.apply(StreamEvent::Retry);
    assert_eq!(m.state(), StreamingState::Loading);

    m.apply(StreamEvent::Spawned(1));
    m.apply(StreamEvent::FadeTick(1));
    m.apply(StreamEvent::EndLevel);
    assert_eq!(m.state(), StreamingState::LevelEnded);
    m.apply(StreamEvent::ExitToMenu);
    assert_eq!(m.state(), StreamingState::Disabled);
}

#[test]
fn inapplicable_events_change_nothing() {
    let mut m = LevelStreaming::new(1);
    m.apply(StreamEvent::Pause);
    m.apply(StreamEvent::Spawned(1));
    m.apply(StreamEvent::FadeTick(5));
    assert_eq!(m.state(), StreamingState::Disabled);
}

#[test]
fn restart_without_a_level_is_a_no_op() {
    let m = LevelStreaming::new(1);
    assert!(!m.request_restart(false));
    assert!(m.request_restart(true));
}

#[test]
fn load_action_respawns_an_existing_project() {
    assert_eq!(load_action(true), LoadAction::Respawn);
    assert_eq!(load_action(false), LoadAction::SpawnNew);
}

#[test]
fn the_first_containing_level_is_selected() {
    let levels = vec![
        LevelBounds { level: 1, min_x: 0, min_y: 0, max_x: 100, max_y: 100 },
        LevelBounds { level: 2, min_x: 50, min_y: 0, max_x: 150, max_y: 100 },
    ];
    assert_eq!(select_level(&levels, 75, 10), Some(1), "both contain it; the first wins");
    assert_eq!(select_level(&levels, 120, 10), Some(2));
    assert_eq!(select_level(&levels, 500, 10), None);
}

#[test]
fn single_requires_exactly_one_element() {
    let none: Vec<u32> = vec![];
    assert_eq!(none.single(), Err(SingleIterError::NoResult));
    assert_eq!(vec![7u32].single(), Ok(7));
    assert_eq!(vec![7u32, 8].single(), Err(SingleIterError::MoreThanOneResult));
    assert_eq!(SingleIterError::NoResult.describe(), "no result");
    assert_eq!(SingleIterError::MoreThanOneResult.describe(), "more than one result");
}

#[test]
fn death_menu_offers_the_way_out() {
    let mut menus: Vec<MenuModel> = Vec::new();
    spawn_death_menu(&mut menus);
    assert_eq!(menus.len(), 1);
    assert_eq!(menus[0].title, "You died !");
    assert_eq!(menus[0].actions, vec![MenuAction::QuitGame]);
}

#[test]
fn cells_resolve_to_their_owning_level() {
    let owners: Vec<(u64, u64)> = vec![(100, 1), (101, 1), (200, 2)];
    assert_eq!(cell_to_level(&owners, 101), Some(1));
    assert_eq!(cell_to_level(&owners, 200), Some(2));
    assert_eq!(cell_to_level(&owners, 999), None);
}
