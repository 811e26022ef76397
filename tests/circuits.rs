use logica::components::{get_adjacent_positions, Coord, StateVoxel, TypeVoxel};
use logica::gates::{evaluate, process_logic_gate};
use logica::grid::Voxel;
use logica::propagation::{dfs_propagate, process_out_logic};
use logica::simulation::{apply_changes, collect_changes, logic_pass};

fn c(x: i32, y: i32, z: i32) -> Coord {
    Coord::new(x, y, z)
}

fn signal(world: &Voxel, p: Coord) -> bool {
    match world.get(p) {
        Some((_, s)) => s.0,
        None => panic!("no voxel at {:?}", p),
    }
}

#[test]
fn scenario_switch_drives_adjacent_out() {
    let mut world = Voxel::new();
    world.lean_place(c(1, 0, 0), TypeVoxel::Switch, true);
    world.lean_place(c(0, 0, 0), TypeVoxel::Out, false);
    logic_pass(&mut world);
    assert!(signal(&world, c(0, 0, 0)));
    assert!(signal(&world, c(1, 0, 0)));
}

#[test]
fn scenario_and_gate_with_two_wires() {
    let mut world = Voxel::new();
    world.lean_place(c(0, 0, 0), TypeVoxel::And, false);
    world.lean_place(c(1, 0, 0), TypeVoxel::Wire, false);
    world.lean_place(c(-1, 0, 0), TypeVoxel::Wire, true);
    logic_pass(&mut world);
    assert!(!signal(&world, c(0, 0, 0)));
    world.lean_place(c(1, 0, 0), TypeVoxel::Wire, true);
    logic_pass(&mut world);
    assert!(signal(&world, c(0, 0, 0)));
}

#[test]
fn scenario_wire_chain_from_switch() {
    let mut world = Voxel::new();
    world.lean_place(c(0, 0, 0), TypeVoxel::Out, false);
    world.lean_place(c(1, 0, 0), TypeVoxel::Wire, false);
    world.lean_place(c(2, 0, 0), TypeVoxel::Wire, false);
    world.lean_place(c(3, 0, 0), TypeVoxel::Wire, false);
    world.lean_place(c(4, 0, 0), TypeVoxel::Switch, true);
    // The switch touches the last wire only; an `Out` is driven by its own
    // neighbours, so the out and the wires it reaches stay off.
    logic_pass(&mut world);
    assert!(!signal(&world, c(0, 0, 0)));
    for x in 1..4 {
        assert!(!signal(&world, c(x, 0, 0)));
    }
    // With the switch beside the out, the out and the whole chain turn on.
    world.lean_place(c(0, 1, 0), TypeVoxel::Switch, true);
    logic_pass(&mut world);
    assert!(signal(&world, c(0, 0, 0)));
    for x in 1..4 {
        assert!(signal(&world, c(x, 0, 0)));
    }
}

#[test]
fn cycle_of_wires_converges() {
    let mut world = Voxel::new();
    world.lean_place(c(0, 0, 0), TypeVoxel::Out, false);
    world.lean_place(c(-1, 0, 0), TypeVoxel::Switch, true);
    // A square loop of four wires touching the out.
    let ring = [c(1, 0, 0), c(2, 0, 0), c(2, 0, 1), c(1, 0, 1)];
    for p in ring.iter() {
        world.lean_place(*p, TypeVoxel::Wire, false);
    }
    logic_pass(&mut world);
    for p in ring.iter() {
        assert!(signal(&world, *p));
    }
    world.set_state(c(-1, 0, 0), false);
    logic_pass(&mut world);
    for p in ring.iter() {
        assert!(!signal(&world, *p));
    }
    assert!(!signal(&world, c(0, 0, 0)));
}

#[test]
fn traversal_reaches_each_wire_once_and_repeats() {
    let mut world = Voxel::new();
    world.lean_place(c(0, 0, 0), TypeVoxel::Out, false);
    let ring = [c(1, 0, 0), c(2, 0, 0), c(2, 0, 1), c(1, 0, 1), c(0, 0, 1)];
    for p in ring.iter() {
        world.lean_place(*p, TypeVoxel::Wire, false);
    }
    world.lean_place(c(5, 0, 0), TypeVoxel::Wire, false);
    world.lean_place(c(0, 0, -1), TypeVoxel::Tile, false);
    let first = dfs_propagate(&world, c(0, 0, 0));
    let second = dfs_propagate(&world, c(0, 0, 0));
    assert_eq!(first.len(), 5);
    for p in ring.iter() {
        assert!(first.contains(p));
        assert!(second.contains(p));
    }
    assert!(!first.contains(&c(5, 0, 0)));
    assert!(!first.contains(&c(0, 0, 0)));
    assert_eq!(first.len(), second.len());
}

#[test]
fn queued_twice_commits_as_once() {
    let mut world = Voxel::new();
    world.lean_place(c(0, 0, 0), TypeVoxel::Out, false);
    world.lean_place(c(0, 1, 0), TypeVoxel::Switch, true);
    world.lean_place(c(1, 0, 0), TypeVoxel::Wire, false);
    world.lean_place(c(2, 0, 0), TypeVoxel::Wire, false);
    let mut once = Voxel::new();
    let mut twice = Voxel::new();
    for w in [&mut once, &mut twice] {
        w.lean_place(c(0, 0, 0), TypeVoxel::Out, false);
        w.lean_place(c(0, 1, 0), TypeVoxel::Switch, true);
        w.lean_place(c(1, 0, 0), TypeVoxel::Wire, false);
        w.lean_place(c(2, 0, 0), TypeVoxel::Wire, false);
    }
    let changes = collect_changes(&world);
    let mut doubled = changes.clone();
    doubled.extend(changes.iter().cloned());
    apply_changes(&mut once, &changes);
    apply_changes(&mut twice, &doubled);
    for p in [c(0, 0, 0), c(0, 1, 0), c(1, 0, 0), c(2, 0, 0)] {
        assert_eq!(once.get(p), twice.get(p));
    }
    assert!(signal(&once, c(2, 0, 0)));
}

#[test]
fn later_out_wins_on_shared_wire() {
    let mut world = Voxel::new();
    // Out A at x=0 driven by a switch; out B at x=3 undriven. Both touch the
    // wires at x=1 and x=2. B comes later in order, so its value wins.
    world.lean_place(c(0, 0, 0), TypeVoxel::Out, false);
    world.lean_place(c(0, 1, 0), TypeVoxel::Switch, true);
    world.lean_place(c(1, 0, 0), TypeVoxel::Wire, false);
    world.lean_place(c(2, 0, 0), TypeVoxel::Wire, false);
    world.lean_place(c(3, 0, 0), TypeVoxel::Out, false);
    logic_pass(&mut world);
    assert!(signal(&world, c(0, 0, 0)));
    assert!(!signal(&world, c(3, 0, 0)));
    assert!(!signal(&world, c(1, 0, 0)));
    assert!(!signal(&world, c(2, 0, 0)));
}

#[test]
fn out_ignores_wire_tile_and_out_neighbours() {
    let mut world = Voxel::new();
    world.lean_place(c(0, 0, 0), TypeVoxel::Out, false);
    world.lean_place(c(1, 0, 0), TypeVoxel::Wire, true);
    world.lean_place(c(-1, 0, 0), TypeVoxel::Tile, true);
    world.lean_place(c(0, 1, 0), TypeVoxel::Out, true);
    world.lean_place(c(0, -1, 0), TypeVoxel::Switch, false);
    assert!(!process_out_logic(&world, c(0, 0, 0)));
    world.lean_place(c(0, 0, 1), TypeVoxel::Not, true);
    assert!(process_out_logic(&world, c(0, 0, 0)));
}

#[test]
fn gates_read_the_snapshot_only() {
    let mut world = Voxel::new();
    // The Not reads its input as it stood before the pass, even though the
    // same pass switches that input on.
    world.lean_place(c(0, 0, 0), TypeVoxel::Out, false);
    world.lean_place(c(0, 1, 0), TypeVoxel::Switch, true);
    world.lean_place(c(1, 0, 0), TypeVoxel::Wire, false);
    world.lean_place(c(2, 0, 0), TypeVoxel::Not, false);
    logic_pass(&mut world);
    assert!(signal(&world, c(1, 0, 0)));
    assert!(signal(&world, c(2, 0, 0)));
    logic_pass(&mut world);
    assert!(!signal(&world, c(2, 0, 0)));
}

#[test]
fn gate_truth_tables() {
    let none = [None; 6];
    assert!(!evaluate(TypeVoxel::And, &none, true));
    assert!(!evaluate(TypeVoxel::Or, &none, true));
    assert!(!evaluate(TypeVoxel::Xor, &none, true));
    assert!(!evaluate(TypeVoxel::Not, &none, true));
    let tt = [Some(true), None, None, Some(true), None, None];
    assert!(evaluate(TypeVoxel::And, &tt, false));
    assert!(evaluate(TypeVoxel::Or, &tt, false));
    assert!(!evaluate(TypeVoxel::Xor, &tt, false));
    assert!(!evaluate(TypeVoxel::Not, &tt, false));
    let tf = [Some(true), Some(false), None, None, None, None];
    assert!(!evaluate(TypeVoxel::And, &tf, false));
    assert!(evaluate(TypeVoxel::Or, &tf, false));
    assert!(evaluate(TypeVoxel::Xor, &tf, false));
    assert!(!evaluate(TypeVoxel::Not, &tf, false));
    let f = [None, None, None, None, Some(false), None];
    assert!(!evaluate(TypeVoxel::And, &f, false));
    assert!(!evaluate(TypeVoxel::Or, &f, false));
    assert!(!evaluate(TypeVoxel::Xor, &f, false));
    assert!(evaluate(TypeVoxel::Not, &f, false));
    let ff = [None, None, None, None, Some(false), Some(false)];
    assert!(!evaluate(TypeVoxel::Not, &ff, false));
    // Kinds that are not gates keep their signal.
    assert!(evaluate(TypeVoxel::Switch, &tt, true));
    assert!(!evaluate(TypeVoxel::Wire, &tt, false));
}

#[test]
fn flip_flop_holds_and_loads() {
    let data_on = [Some(true), None, None, None, None, None];
    let data_on_clock_on = [Some(true), None, Some(true), None, None, None];
    let clock_on = [None, Some(false), Some(true), None, None, Some(false)];
    let clock_off = [Some(true), Some(true), Some(false), Some(true), Some(true), Some(true)];
    assert!(evaluate(TypeVoxel::DFlipFlop, &data_on, true));
    assert!(!evaluate(TypeVoxel::DFlipFlop, &data_on, false));
    assert!(evaluate(TypeVoxel::DFlipFlop, &clock_off, true));
    assert!(!evaluate(TypeVoxel::DFlipFlop, &clock_off, false));
    assert!(evaluate(TypeVoxel::DFlipFlop, &data_on_clock_on, false));
    assert!(!evaluate(TypeVoxel::DFlipFlop, &clock_on, true));
    // The -Y neighbour is no input of a flip-flop.
    let below = [None, None, None, Some(true), None, None];
    assert!(!evaluate(TypeVoxel::DFlipFlop, &below, false));
}

#[test]
fn flip_flop_in_world() {
    let mut world = Voxel::new();
    world.lean_place(c(0, 0, 0), TypeVoxel::DFlipFlop, false);
    world.lean_place(c(0, 1, 0), TypeVoxel::Wire, true);
    world.lean_place(c(1, 0, 0), TypeVoxel::Wire, true);
    assert!(process_logic_gate(&world, c(0, 0, 0), TypeVoxel::DFlipFlop));
    logic_pass(&mut world);
    assert!(signal(&world, c(0, 0, 0)));
    world.lean_place(c(0, 1, 0), TypeVoxel::Wire, false);
    world.lean_place(c(1, 0, 0), TypeVoxel::Wire, false);
    logic_pass(&mut world);
    assert!(signal(&world, c(0, 0, 0)));
    world.lean_place(c(0, 1, 0), TypeVoxel::Wire, true);
    logic_pass(&mut world);
    assert!(!signal(&world, c(0, 0, 0)));
}

#[test]
fn gate_ignores_non_wire_neighbours() {
    let mut world = Voxel::new();
    world.lean_place(c(0, 0, 0), TypeVoxel::Or, false);
    world.lean_place(c(1, 0, 0), TypeVoxel::Switch, true);
    world.lean_place(c(0, 0, 1), TypeVoxel::And, true);
    assert!(!process_logic_gate(&world, c(0, 0, 0), TypeVoxel::Or));
}

#[test]
fn neighbours_at_the_edge_of_the_range() {
    let adj = get_adjacent_positions(c(i32::MAX, 0, i32::MIN));
    assert_eq!(adj[0], None);
    assert_eq!(adj[1], Some(c(i32::MAX - 1, 0, i32::MIN)));
    assert_eq!(adj[2], Some(c(i32::MAX, 1, i32::MIN)));
    assert_eq!(adj[3], Some(c(i32::MAX, -1, i32::MIN)));
    assert_eq!(adj[4], Some(c(i32::MAX, 0, i32::MIN + 1)));
    assert_eq!(adj[5], None);
    let mut world = Voxel::new();
    world.lean_place(c(i32::MAX, 0, 0), TypeVoxel::Out, false);
    world.lean_place(c(i32::MAX - 1, 0, 0), TypeVoxel::Switch, true);
    logic_pass(&mut world);
    assert_eq!(world.get(c(i32::MAX, 0, 0)), Some((TypeVoxel::Out, StateVoxel(true))));
}
