use logica::components::{Coord, StateVoxel, TypeVoxel};
use logica::grid::Voxel;
use logica::interaction::{voxel_interaction_system, InteractionInput, VoxelInfo};
use logica::scheduler::SpeedBar;
use logica::selector::VoxelSelector;

fn c(x: i32, y: i32, z: i32) -> Coord {
    Coord::new(x, y, z)
}

fn quiet() -> InteractionInput {
    InteractionInput {
        primary_pressed: false,
        primary_repeat: false,
        secondary: false,
        modifier: false,
        speed_up: false,
        speed_down: false,
    }
}

#[test]
fn look_at_reports_kind_and_signal() {
    let mut world = Voxel::new();
    world.lean_place(c(0, 0, 0), TypeVoxel::Switch, true);
    let mut info = VoxelInfo::new();
    info.update_info(&world, Some((c(0, 0, 0), c(0, 1, 0), true)));
    assert_eq!(info.voxel_type, Some(TypeVoxel::Switch));
    assert_eq!(info.is_on, Some(true));
    assert_eq!(info.adjacent, c(0, 1, 0));
    assert!(info.in_range);
    info.update_info(&world, Some((c(4, 0, 0), c(4, 1, 0), false)));
    assert_eq!(info.voxel_type, None);
    assert_eq!(info.is_on, None);
    assert_eq!(info.position, c(4, 0, 0));
    info.update_info(&world, Some((c(0, 0, 0), c(0, 1, 0), true)));
    info.update_info(&world, None);
    assert_eq!(info.voxel_type, None);
    assert_eq!(info.position, c(0, 0, 0));
    assert!(info.in_range);
}

#[test]
fn clicks_place_toggle_and_remove() {
    let mut world = Voxel::new();
    world.lean_place(c(0, 0, 0), TypeVoxel::Switch, false);
    let mut info = VoxelInfo::new();
    info.update_info(&world, Some((c(0, 0, 0), c(0, 1, 0), true)));
    let mut selector = VoxelSelector::new();
    selector.next();
    let mut bar = SpeedBar::new();

    let mut place = quiet();
    place.primary_pressed = true;
    voxel_interaction_system(&mut world, &info, &selector, &mut bar, &place);
    assert_eq!(world.get(c(0, 1, 0)), Some((TypeVoxel::Wire, StateVoxel(false))));
    assert_eq!(world.get(c(0, 0, 0)), Some((TypeVoxel::Switch, StateVoxel(false))));

    let mut toggle = quiet();
    toggle.primary_pressed = true;
    toggle.modifier = true;
    toggle.speed_up = true;
    voxel_interaction_system(&mut world, &info, &selector, &mut bar, &toggle);
    assert_eq!(world.get(c(0, 0, 0)), Some((TypeVoxel::Switch, StateVoxel(true))));
    assert_eq!(world.len(), 2);
    assert_eq!(bar.speed_index, 2);

    let mut remove = quiet();
    remove.secondary = true;
    voxel_interaction_system(&mut world, &info, &selector, &mut bar, &remove);
    assert_eq!(world.get(c(0, 0, 0)), None);
    assert_eq!(world.len(), 1);
}

#[test]
fn out_of_reach_clicks_do_nothing() {
    let mut world = Voxel::new();
    world.lean_place(c(0, 0, 0), TypeVoxel::Tile, false);
    let mut info = VoxelInfo::new();
    info.update_info(&world, Some((c(0, 0, 0), c(1, 0, 0), false)));
    let selector = VoxelSelector::new();
    let mut bar = SpeedBar::new();
    let mut all = quiet();
    all.primary_pressed = true;
    all.secondary = true;
    voxel_interaction_system(&mut world, &info, &selector, &mut bar, &all);
    assert_eq!(world.len(), 1);
    assert_eq!(world.get(c(0, 0, 0)), Some((TypeVoxel::Tile, StateVoxel(false))));
}
