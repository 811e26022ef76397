//! Persistence records: a world as an ordered list of (position, kind,
//! signal) triples, and the decision of when to save on its own.

use vstd::prelude::*;
use crate::components::{Coord, PositionVoxel, StateVoxel, TypeVoxel};
use crate::grid::{Cells, Voxel};

verus! {

/// A world as it is written to and read from storage.
pub struct SavedWorld {
    pub voxels: Vec<(PositionVoxel, TypeVoxel, StateVoxel)>,
}

/// The records of the positions of `order` in `g`, as plain triples.
pub open spec fn records_of(g: Cells, order: Seq<Coord>) -> Seq<(Coord, TypeVoxel, bool)> {
    order.map_values(|c: Coord| (c, g[c].0, g[c].1))
}

/// The records of a saved world, as plain triples.
pub open spec fn saved_records(voxels: Seq<(PositionVoxel, TypeVoxel, StateVoxel)>) -> Seq<
    (Coord, TypeVoxel, bool),
> {
    voxels.map_values(|r: (PositionVoxel, TypeVoxel, StateVoxel)| (r.0.0, r.1, r.2.0))
}

/// `g` after placing each record in turn; a later record at a position
/// replaces an earlier one.
pub open spec fn loaded(g: Cells, records: Seq<(Coord, TypeVoxel, bool)>) -> Cells
    decreases records.len(),
{
    if records.len() == 0 {
        g
    } else {
        let r = records.last();
        loaded(g, records.drop_last()).insert(r.0, (r.1, r.2))
    }
}

/// Every voxel of `world`, with its kind and signal, in the order in which
/// the grid lists them.
pub fn save_world(world: &Voxel) -> (r: SavedWorld)
    requires
        world.wf(),
    ensures
        saved_records(r.voxels@) == records_of(world@, world.positions()),
{
    let all = world.voxels();
    let mut voxels: Vec<(PositionVoxel, TypeVoxel, StateVoxel)> = Vec::new();
    let mut i: usize = 0;
    while i < all.len()
        invariant
            0 <= i <= all@.len(),
            all@.len() == world.positions().len(),
            forall|j: int|
                0 <= j < all@.len() ==> #[trigger] all@[j] == (
                    world.positions()[j],
                    world@[world.positions()[j]].0,
                    StateVoxel(world@[world.positions()[j]].1),
                ),
            voxels@.len() == i,
            forall|j: int|
                0 <= j < i ==> #[trigger] voxels@[j] == (PositionVoxel(all@[j].0), all@[j].1, all@[j].2),
        decreases all@.len() - i,
    {
        let (c, kind, state) = all[i];
        voxels.push((PositionVoxel(c), kind, state));
        i = i + 1;
    }
    let r = SavedWorld { voxels };
    assert(saved_records(r.voxels@) =~= records_of(world@, world.positions()));
    r
}

/// Places every voxel of `saved` into `world`, in order.
pub fn world_loader(world: &mut Voxel, saved: &SavedWorld)
    requires
        old(world).wf(),
    ensures
        final(world).wf(),
        final(world)@ == loaded(old(world)@, saved_records(saved.voxels@)),
{
    let ghost g = world@;
    let ghost recs = saved_records(saved.voxels@);
    assert(recs.take(0) =~= Seq::<(Coord, TypeVoxel, bool)>::empty());
    let mut i: usize = 0;
    while i < saved.voxels.len()
        invariant
            world.wf(),
            0 <= i <= saved.voxels@.len(),
            recs == saved_records(saved.voxels@),
            world@ == loaded(g, recs.take(i as int)),
        decreases saved.voxels@.len() - i,
    {
        let (position, kind, state) = saved.voxels[i];
        world.lean_place(position.0, kind, state.0);
        assert(recs.take(i + 1).drop_last() =~= recs.take(i as int));
        i = i + 1;
    }
    assert(recs.take(saved.voxels@.len() as int) =~= recs);
}

proof fn lemma_load_records(g: Cells, order: Seq<Coord>)
    ensures
        loaded(Cells::empty(), records_of(g, order)) == Map::new(
            |c: Coord| order.contains(c),
            |c: Coord| g[c],
        ),
    decreases order.len(),
{
    let m = Map::new(|c: Coord| order.contains(c), |c: Coord| g[c]);
    if order.len() == 0 {
        assert(m =~= Cells::empty());
    } else {
        let t = order.drop_last();
        lemma_load_records(g, t);
        assert(records_of(g, order).drop_last() =~= records_of(g, t));
        assert forall|c: Coord| order.contains(c) <==> (t.contains(c) || c == order.last()) by {
            if order.contains(c) {
                let j = choose|j: int| 0 <= j < order.len() && order[j] == c;
                if j < t.len() {
                    assert(t[j] == c);
                }
            }
            if t.contains(c) {
                let j = choose|j: int| 0 <= j < t.len() && t[j] == c;
                assert(order[j] == c);
            }
        }
        assert(loaded(Cells::empty(), records_of(g, order)) =~= m);
    }
}

/// Saving a world and loading the records into an empty world gives back
/// every position with the same kind and signal, and nothing else.
pub proof fn lemma_save_load_round_trip(world: &Voxel)
    requires
        world.wf(),
    ensures
        loaded(Cells::empty(), records_of(world@, world.positions())) == world@,
{
    world.lemma_positions();
    lemma_load_records(world@, world.positions());
    assert(Map::new(|c: Coord| world.positions().contains(c), |c: Coord| world@[c]) =~= world@);
}

/// Whether to save on the clock's own: once at each whole five-minute mark
/// (second zero). `triggered` records that the current mark was handled.
pub fn autosave_system(minute: u32, second: u32, triggered: &mut bool) -> (save: bool)
    ensures
        save == (minute % 5 == 0 && second == 0 && !*old(triggered)),
        *final(triggered) == (minute % 5 == 0 && second == 0),
{
    if minute % 5 == 0 && second == 0 {
        if !*triggered {
            *triggered = true;
            true
        } else {
            false
        }
    } else {
        *triggered = false;
        false
    }
}

} // verus!
