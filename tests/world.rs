use logica::components::{Coord, PositionVoxel, StateVoxel, TypeVoxel};
use logica::grid::Voxel;
use logica::save::{autosave_system, save_world, world_loader, SavedWorld};
use logica::scheduler::{logic_operation_system, simulation_speed_widget, MyTimer, SpeedBar};
use logica::selector::{VoxelSelector, HOTBAR_ELEMENT_NUMBER};

fn c(x: i32, y: i32, z: i32) -> Coord {
    Coord::new(x, y, z)
}

#[test]
fn grid_insert_replaces_and_remove_is_quiet() {
    let mut world = Voxel::new();
    assert_eq!(world.len(), 0);
    assert_eq!(world.get(c(0, 0, 0)), None);
    world.lean_place(c(0, 0, 0), TypeVoxel::Wire, true);
    world.lean_place(c(0, 0, 0), TypeVoxel::And, false);
    assert_eq!(world.len(), 1);
    assert_eq!(world.get(c(0, 0, 0)), Some((TypeVoxel::And, StateVoxel(false))));
    assert!(!world.remove(c(5, 5, 5)));
    assert_eq!(world.len(), 1);
    assert!(world.remove(c(0, 0, 0)));
    assert_eq!(world.get(c(0, 0, 0)), None);
    assert_eq!(world.len(), 0);
}

#[test]
fn grid_lists_voxels_in_placement_order() {
    let mut world = Voxel::new();
    world.lean_place(c(3, 0, 0), TypeVoxel::Tile, false);
    world.lean_place(c(1, 0, 0), TypeVoxel::Wire, true);
    world.lean_place(c(2, 0, 0), TypeVoxel::Out, false);
    world.lean_place(c(3, 0, 0), TypeVoxel::Switch, true);
    assert!(world.remove(c(1, 0, 0)));
    let all = world.voxels();
    assert_eq!(
        all,
        vec![
            (c(3, 0, 0), TypeVoxel::Switch, StateVoxel(true)),
            (c(2, 0, 0), TypeVoxel::Out, StateVoxel(false)),
        ]
    );
}

#[test]
fn place_uses_the_selected_kind() {
    let mut world = Voxel::new();
    let mut selector = VoxelSelector::new();
    selector.next();
    selector.next();
    selector.next();
    world.place(c(0, 0, 0), &selector, false);
    assert_eq!(world.get(c(0, 0, 0)), Some((TypeVoxel::Switch, StateVoxel(false))));
}

#[test]
fn only_switches_toggle() {
    let mut world = Voxel::new();
    world.lean_place(c(0, 0, 0), TypeVoxel::Switch, false);
    world.lean_place(c(1, 0, 0), TypeVoxel::Wire, false);
    assert!(world.toggle_switch(c(0, 0, 0)));
    assert_eq!(world.get(c(0, 0, 0)), Some((TypeVoxel::Switch, StateVoxel(true))));
    assert!(world.toggle_switch(c(0, 0, 0)));
    assert_eq!(world.get(c(0, 0, 0)), Some((TypeVoxel::Switch, StateVoxel(false))));
    assert!(!world.toggle_switch(c(1, 0, 0)));
    assert!(!world.set_state(c(1, 0, 0), true));
    assert_eq!(world.get(c(1, 0, 0)), Some((TypeVoxel::Wire, StateVoxel(false))));
    assert!(!world.toggle_switch(c(9, 9, 9)));
    assert!(world.set_state(c(0, 0, 0), true));
    assert_eq!(world.get(c(0, 0, 0)), Some((TypeVoxel::Switch, StateVoxel(true))));
}

#[test]
fn save_then_load_round_trip() {
    let mut world = Voxel::new();
    let kinds = [
        TypeVoxel::Tile,
        TypeVoxel::Wire,
        TypeVoxel::Out,
        TypeVoxel::Not,
        TypeVoxel::And,
        TypeVoxel::Or,
        TypeVoxel::Xor,
        TypeVoxel::Switch,
        TypeVoxel::DFlipFlop,
    ];
    for (i, k) in kinds.iter().enumerate() {
        world.lean_place(c(i as i32, -(i as i32), 7), *k, i % 2 == 0);
    }
    let saved = save_world(&world);
    assert_eq!(saved.voxels.len(), 9);
    let mut restored = Voxel::new();
    world_loader(&mut restored, &saved);
    assert_eq!(restored.len(), 9);
    for (i, k) in kinds.iter().enumerate() {
        let p = c(i as i32, -(i as i32), 7);
        assert_eq!(restored.get(p), Some((*k, StateVoxel(i % 2 == 0))));
    }
    assert_eq!(restored.voxels(), world.voxels());
}

#[test]
fn loading_keeps_the_last_record_of_a_position() {
    let saved = SavedWorld {
        voxels: vec![
            (PositionVoxel(c(0, 0, 0)), TypeVoxel::Wire, StateVoxel(true)),
            (PositionVoxel(c(0, 0, 0)), TypeVoxel::Switch, StateVoxel(false)),
        ],
    };
    let mut world = Voxel::new();
    world_loader(&mut world, &saved);
    assert_eq!(world.len(), 1);
    assert_eq!(world.get(c(0, 0, 0)), Some((TypeVoxel::Switch, StateVoxel(false))));
}

#[test]
fn timer_fires_and_drops_the_excess() {
    let mut timer = MyTimer::new(100);
    assert!(!timer.tick(60));
    assert_eq!(timer.elapsed_nanos, 60);
    assert!(timer.tick(70));
    assert_eq!(timer.elapsed_nanos, 0);
    assert!(!timer.tick(99));
    assert!(timer.tick(1));
    assert!(timer.tick(u64::MAX));
    let mut every = MyTimer::new(0);
    assert!(every.tick(0));
}

#[test]
fn pass_runs_only_when_the_timer_fires() {
    let mut world = Voxel::new();
    world.lean_place(c(1, 0, 0), TypeVoxel::Switch, true);
    world.lean_place(c(0, 0, 0), TypeVoxel::Out, false);
    let mut timer = MyTimer::new(1_000);
    assert!(!logic_operation_system(&mut world, &mut timer, 400));
    assert_eq!(world.get(c(0, 0, 0)), Some((TypeVoxel::Out, StateVoxel(false))));
    assert!(logic_operation_system(&mut world, &mut timer, 600));
    assert_eq!(world.get(c(0, 0, 0)), Some((TypeVoxel::Out, StateVoxel(true))));
    assert_eq!(timer.elapsed_nanos, 0);
}

#[test]
fn speed_presets() {
    let mut bar = SpeedBar::new();
    assert_eq!(bar.speed_index, 1);
    let mut timer = MyTimer::new(5);
    assert_eq!(simulation_speed_widget(&bar, &mut timer), 0);
    assert_eq!(timer.duration_nanos, 0);
    bar.adjust(true, false);
    assert_eq!(bar.speed_index, 2);
    assert_eq!(simulation_speed_widget(&bar, &mut timer), 1);
    assert_eq!(timer.duration_nanos, 500_000_000);
    let expected = [500_000_000u64, 100_000_000, 10_000_000, 1_000_000];
    for (i, e) in expected.iter().enumerate() {
        bar.speed_index = i + 2;
        simulation_speed_widget(&bar, &mut timer);
        assert_eq!(timer.duration_nanos, *e);
    }
    bar.speed_index = 5;
    bar.adjust(true, false);
    assert_eq!(bar.speed_index, 5);
    bar.adjust(false, true);
    assert_eq!(bar.speed_index, 4);
    bar.speed_index = 1;
    bar.adjust(false, true);
    assert_eq!(bar.speed_index, 1);
    bar.adjust(false, false);
    assert_eq!(bar.speed_index, 1);
}

#[test]
fn selector_wraps_both_ways() {
    let mut s = VoxelSelector::new();
    assert_eq!(s.current_voxel_type(), TypeVoxel::Tile);
    s.previous();
    assert_eq!(s.current_index, HOTBAR_ELEMENT_NUMBER - 1);
    assert_eq!(s.current_voxel_type(), TypeVoxel::DFlipFlop);
    s.next();
    assert_eq!(s.current_index, 0);
    let order = [
        TypeVoxel::Tile,
        TypeVoxel::Wire,
        TypeVoxel::Out,
        TypeVoxel::Switch,
        TypeVoxel::And,
        TypeVoxel::Or,
        TypeVoxel::Xor,
        TypeVoxel::Not,
        TypeVoxel::DFlipFlop,
    ];
    for k in order.iter() {
        assert_eq!(s.current_voxel_type(), *k);
        s.next();
    }
    assert_eq!(s.current_index, 0);
}

#[test]
fn autosave_once_per_mark() {
    let mut triggered = false;
    assert!(!autosave_system(4, 0, &mut triggered));
    assert!(!triggered);
    assert!(autosave_system(5, 0, &mut triggered));
    assert!(triggered);
    assert!(!autosave_system(5, 0, &mut triggered));
    assert!(triggered);
    assert!(!autosave_system(5, 1, &mut triggered));
    assert!(!triggered);
    assert!(autosave_system(10, 0, &mut triggered));
}
