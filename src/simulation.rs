//! One simulation pass: every gate and every output sink computes its next
//! signal from the grid as it stood before the pass, the results are queued,
//! and the queue is committed in one batch.

use vstd::prelude::*;
use crate::components::{is_gate, is_gate_kind, Coord, TypeVoxel};
use crate::gates::{gate_output, process_logic_gate, wire_inputs};
use crate::grid::{Cells, Voxel};
use crate::propagation::{dfs_propagate, driven, is_wire, process_out_logic, reached, wire_path};

verus! {

/// The signal that the last change queued for `p` writes, if any.
pub open spec fn last_write(changes: Seq<(Coord, bool)>, p: Coord) -> Option<bool>
    decreases changes.len(),
{
    if changes.len() == 0 {
        None
    } else if changes.last().0 == p {
        Some(changes.last().1)
    } else {
        last_write(changes.drop_last(), p)
    }
}

/// The grid after committing `changes`: at each occupied position the last
/// change queued for it wins; a change at an empty position has no effect.
pub open spec fn committed(g: Cells, changes: Seq<(Coord, bool)>) -> Cells {
    Map::new(
        |p: Coord| g.dom().contains(p),
        |p: Coord|
            match last_write(changes, p) {
                Some(b) => (g[p].0, b),
                None => g[p],
            },
    )
}

/// What the last `Out` among `sources` that reaches the wire `w` drives.
pub open spec fn wire_value(g: Cells, sources: Seq<Coord>, w: Coord) -> Option<bool>
    decreases sources.len(),
{
    if sources.len() == 0 {
        None
    } else {
        let o = sources.last();
        if g.contains_key(o) && g[o].0 == TypeVoxel::Out && reached(g, o, w) {
            Some(driven(g, o))
        } else {
            wire_value(g, sources.drop_last(), w)
        }
    }
}

/// The signal of the voxel at `p` after one pass over `g`, taking the voxels
/// in the order `order`: an `Out` shows whether it is driven; a gate takes
/// its gate output; a wire takes what the last `Out` that reaches it drives,
/// and keeps its signal when none does; every other voxel keeps its signal.
pub open spec fn next_signal(g: Cells, order: Seq<Coord>, p: Coord) -> bool {
    let kind = g[p].0;
    let state = g[p].1;
    if kind == TypeVoxel::Out {
        driven(g, p)
    } else if is_gate(kind) {
        gate_output(kind, wire_inputs(g, p), state)
    } else if kind == TypeVoxel::Wire {
        match wire_value(g, order, p) {
            Some(b) => b,
            None => state,
        }
    } else {
        state
    }
}

/// The grid after one pass: kinds and positions stay, signals move on.
pub open spec fn pass_result(g: Cells, order: Seq<Coord>) -> Cells {
    Map::new(|p: Coord| g.dom().contains(p), |p: Coord| (g[p].0, next_signal(g, order, p)))
}

/// What a pass that has gone through the voxels of `done` has queued last
/// for `p`.
pub open spec fn queued(g: Cells, done: Seq<Coord>, p: Coord) -> Option<bool> {
    let kind = g[p].0;
    if kind == TypeVoxel::Out || is_gate(kind) {
        if done.contains(p) {
            Some(next_signal(g, done, p))
        } else {
            None
        }
    } else if kind == TypeVoxel::Wire {
        wire_value(g, done, p)
    } else {
        None
    }
}

proof fn lemma_last_write_push(changes: Seq<(Coord, bool)>, c: (Coord, bool))
    ensures
        forall|p: Coord|
            #[trigger] last_write(changes.push(c), p) == if c.0 == p {
                Some(c.1)
            } else {
                last_write(changes, p)
            },
{
    assert(changes.push(c).drop_last() == changes);
}

/// Commits every change of `changes` to `world`, in order.
pub fn apply_changes(world: &mut Voxel, changes: &Vec<(Coord, bool)>)
    requires
        old(world).wf(),
    ensures
        final(world).wf(),
        final(world)@ == committed(old(world)@, changes@),
        final(world).positions() == old(world).positions(),
{
    let ghost g = world@;
    assert(committed(g, changes@.take(0)) =~= g);
    let mut i: usize = 0;
    while i < changes.len()
        invariant
            world.wf(),
            0 <= i <= changes@.len(),
            world@ == committed(g, changes@.take(i as int)),
            world.positions() == old(world).positions(),
            g == old(world)@,
        decreases changes@.len() - i,
    {
        let (p, state) = changes[i];
        let ghost before = world@;
        world.set_signal(p, state);
        proof {
            assert(changes@.take(i + 1) == changes@.take(i as int).push(changes@[i as int]));
            lemma_last_write_push(changes@.take(i as int), changes@[i as int]);
            assert(world@ =~= committed(g, changes@.take(i + 1)));
        }
        i = i + 1;
    }
    assert(changes@.take(changes@.len() as int) == changes@);
}

proof fn lemma_take_step(order: Seq<Coord>, k: int)
    requires
        0 <= k < order.len(),
        order.no_duplicates(),
    ensures
        order.take(k + 1).drop_last() == order.take(k),
        order.take(k + 1).last() == order[k],
        forall|q: Coord| #[trigger] order.take(k + 1).contains(q) <==> order.take(k).contains(q) || q == order[k],
{
    let a = order.take(k + 1);
    let b = order.take(k);
    assert(a.drop_last() =~= b);
    assert forall|q: Coord| #[trigger] a.contains(q) <==> b.contains(q) || q == order[k] by {
        if a.contains(q) {
            let j = choose|j: int| 0 <= j < a.len() && a[j] == q;
            if j < k {
                assert(b[j] == q);
            }
        }
        if b.contains(q) {
            let j = choose|j: int| 0 <= j < b.len() && b[j] == q;
            assert(a[j] == q);
        }
        assert(a[k] == order[k]);
    }
}

/// The queue of changes that one pass over `world` makes, without touching
/// `world`: for each voxel in order, an `Out` queues whether it is driven and
/// the same value for every wire it reaches; a gate queues its output.
#[verifier::rlimit(40)]
pub fn collect_changes(world: &Voxel) -> (changes: Vec<(Coord, bool)>)
    requires
        world.wf(),
    ensures
        forall|p: Coord|
            world@.contains_key(p) ==> #[trigger] last_write(changes@, p) == queued(
                world@,
                world.positions(),
                p,
            ),
{
    let ghost g = world@;
    let ghost order = world.positions();
    proof {
        world.lemma_positions();
    }
    let snapshot = world.voxels();
    let mut changes: Vec<(Coord, bool)> = Vec::new();
    let mut k: usize = 0;
    while k < snapshot.len()
        invariant
            world.wf(),
            g == world@,
            order == world.positions(),
            order.no_duplicates(),
            g.dom() == order.to_set(),
            snapshot@.len() == order.len(),
            forall|i: int|
                0 <= i < snapshot@.len() ==> #[trigger] snapshot@[i] == (
                    order[i],
                    g[order[i]].0,
                    crate::components::StateVoxel(g[order[i]].1),
                ),
            0 <= k <= snapshot@.len(),
            forall|p: Coord|
                g.contains_key(p) ==> #[trigger] last_write(changes@, p) == queued(
                    g,
                    order.take(k as int),
                    p,
                ),
        decreases snapshot@.len() - k,
    {
        let (p, kind, _) = snapshot[k];
        assert(snapshot@[k as int] == (order[k as int], g[order[k as int]].0, crate::components::StateVoxel(g[order[k as int]].1)));
        proof {
            lemma_take_step(order, k as int);
            assert(order[k as int] == p);
            assert(order.contains(p));
            assert(order.to_set().contains(p));
            assert(g.contains_key(p));
        }
        let ghost done = order.take(k as int);
        let ghost done1 = order.take(k + 1);
        if matches!(kind, TypeVoxel::Out) {
            let d = process_out_logic(world, p);
            let ghost base = changes@;
            changes.push((p, d));
            proof {
                lemma_last_write_push(base, (p, d));
            }
            let wires = dfs_propagate(world, p);
            let mut j: usize = 0;
            while j < wires.len()
                invariant
                    0 <= j <= wires@.len(),
                    forall|q: Coord| g.contains_key(q) ==> #[trigger] last_write(changes@, q) == if q == p
                        || wires@.take(j as int).contains(q) {
                        Some(d)
                    } else {
                        last_write(base, q)
                    },
                decreases wires@.len() - j,
            {
                let ghost before = changes@;
                changes.push((wires[j], d));
                proof {
                    lemma_last_write_push(before, (wires@[j as int], d));
                    assert forall|q: Coord| #[trigger] wires@.take(j + 1).contains(q) <==> wires@.take(j as int).contains(q) || q == wires@[j as int] by {
                        let a = wires@.take(j + 1);
                        let b = wires@.take(j as int);
                        if a.contains(q) {
                            let t = choose|t: int| 0 <= t < a.len() && a[t] == q;
                            if t < j {
                                assert(b[t] == q);
                            }
                        }
                        if b.contains(q) {
                            let t = choose|t: int| 0 <= t < b.len() && b[t] == q;
                            assert(a[t] == q);
                        }
                        assert(a[j as int] == wires@[j as int]);
                    }
                }
                j = j + 1;
            }
            proof {
                assert(wires@.take(wires@.len() as int) == wires@);
                assert forall|q: Coord| g.contains_key(q) implies #[trigger] last_write(changes@, q) == queued(g, done1, q) by {
                    if wires@.contains(q) {
                        assert(reached(g, p, q));
                    }
                }
            }
        } else if is_gate_kind(kind) {
            let on = process_logic_gate(world, p, kind);
            let ghost base = changes@;
            changes.push((p, on));
            proof {
                lemma_last_write_push(base, (p, on));
                assert forall|q: Coord| g.contains_key(q) implies #[trigger] last_write(changes@, q) == queued(g, done1, q) by {
                    assert(wire_value(g, done1, q) == wire_value(g, done, q));
                }
            }
        } else {
            proof {
                assert forall|q: Coord| g.contains_key(q) implies #[trigger] last_write(changes@, q) == queued(g, done1, q) by {
                    assert(wire_value(g, done1, q) == wire_value(g, done, q));
                }
            }
        }
        k = k + 1;
    }
    proof {
        assert(order.take(snapshot@.len() as int) == order);
    }
    changes
}

/// Runs one pass over `world`: all signals are computed from the grid as it
/// stood before the pass, then committed together.
pub fn logic_pass(world: &mut Voxel)
    requires
        old(world).wf(),
    ensures
        final(world).wf(),
        final(world)@ == pass_result(old(world)@, old(world).positions()),
        final(world).positions() == old(world).positions(),
{
    let changes = collect_changes(world);
    apply_changes(world, &changes);
    proof {
        let g = old(world)@;
        let order = old(world).positions();
        old(world).lemma_positions();
        assert forall|p: Coord| g.contains_key(p) implies #[trigger] committed(g, changes@)[p] == pass_result(g, order)[p] by {
            assert(order.to_set().contains(p));
            assert(order.contains(p));
        }
        assert(world@ =~= pass_result(g, order));
    }
}

/// The changes that one `Out` at `o` queues, given the wires its traversal
/// returned: its own signal, then the same value for each wire.
pub open spec fn source_changes(g: Cells, o: Coord, wires: Seq<Coord>) -> Seq<(Coord, bool)> {
    seq![(o, driven(g, o))] + wires.map_values(|w: Coord| (w, driven(g, o)))
}

proof fn lemma_last_write_concat(a: Seq<(Coord, bool)>, b: Seq<(Coord, bool)>, p: Coord)
    ensures
        last_write(a + b, p) == match last_write(b, p) {
            Some(v) => Some(v),
            None => last_write(a, p),
        },
    decreases b.len(),
{
    if b.len() == 0 {
        assert(a + b == a);
    } else {
        assert((a + b).drop_last() == a + b.drop_last());
        assert((a + b).last() == b.last());
        lemma_last_write_concat(a, b.drop_last(), p);
    }
}

proof fn lemma_last_write_source(g: Cells, o: Coord, wires: Seq<Coord>, p: Coord)
    ensures
        last_write(source_changes(g, o, wires), p) == if p == o || wires.contains(p) {
            Some(driven(g, o))
        } else {
            None
        },
    decreases wires.len(),
{
    let s = source_changes(g, o, wires);
    if wires.len() == 0 {
        assert(s == seq![(o, driven(g, o))]);
        assert(s.drop_last() =~= Seq::<(Coord, bool)>::empty());
        assert(s.last() == (o, driven(g, o)));
        assert(last_write(s.drop_last(), p) == None::<bool>);
        assert(!wires.contains(p));
    } else {
        let w = wires.drop_last();
        lemma_last_write_source(g, o, w, p);
        assert(s.drop_last() =~= source_changes(g, o, w));
        assert(s.last() == (wires.last(), driven(g, o)));
        assert(wires.contains(p) <==> (w.contains(p) || wires.last() == p)) by {
            if wires.contains(p) {
                let j = choose|j: int| 0 <= j < wires.len() && wires[j] == p;
                if j < w.len() {
                    assert(w[j] == p);
                }
            }
            if w.contains(p) {
                let j = choose|j: int| 0 <= j < w.len() && w[j] == p;
                assert(wires[j] == p);
            }
        }
    }
}

/// Running the traversal twice from the same `Out` within one pass reaches
/// the same wires, and queueing the changes of both runs leaves every
/// signal as queueing those of one run does, whatever was queued before.
pub proof fn lemma_rerun_propagation(
    g: Cells,
    o: Coord,
    first: Seq<Coord>,
    second: Seq<Coord>,
    earlier: Seq<(Coord, bool)>,
)
    requires
        forall|w: Coord| #[trigger] first.contains(w) <==> reached(g, o, w),
        forall|w: Coord| #[trigger] second.contains(w) <==> reached(g, o, w),
    ensures
        first.to_set() == second.to_set(),
        committed(g, earlier + source_changes(g, o, first) + source_changes(g, o, second))
            == committed(g, earlier + source_changes(g, o, first)),
{
    assert(first.to_set() =~= second.to_set());
    let once = earlier + source_changes(g, o, first);
    let twice = once + source_changes(g, o, second);
    assert forall|p: Coord| #[trigger] last_write(twice, p) == last_write(once, p) by {
        lemma_last_write_concat(once, source_changes(g, o, second), p);
        lemma_last_write_concat(earlier, source_changes(g, o, first), p);
        lemma_last_write_source(g, o, first, p);
        lemma_last_write_source(g, o, second, p);
    }
    assert(committed(g, twice) =~= committed(g, once));
}

proof fn lemma_reached_is_wire(g: Cells, a: Coord, b: Coord)
    requires
        reached(g, a, b),
    ensures
        is_wire(g, b),
{
    let path = choose|path: Seq<Coord>| #[trigger] wire_path(g, path) && path[0] == a && path.last() == b;
    assert(path.len() >= 2);
    assert(is_wire(g, path[path.len() - 1]));
}

proof fn lemma_reached_trans(g: Cells, a: Coord, b: Coord, c: Coord)
    requires
        reached(g, a, b),
        reached(g, b, c),
        c != a,
    ensures
        reached(g, a, c),
{
    let p1 = choose|path: Seq<Coord>| #[trigger] wire_path(g, path) && path[0] == a && path.last() == b;
    let p2 = choose|path: Seq<Coord>| #[trigger] wire_path(g, path) && path[0] == b && path.last() == c;
    let p = p1 + p2.drop_first();
    assert forall|k: int| 1 <= k < p.len() implies is_wire(g, #[trigger] p[k]) && crate::components::adjacent(
        p[k - 1],
        p[k],
    ) by {
        if k < p1.len() {
            assert(p[k] == p1[k] && p[k - 1] == p1[k - 1]);
        } else {
            let m = k - p1.len() + 1;
            assert(p[k] == p2[m]);
            if k == p1.len() {
                assert(p[k - 1] == p1.last());
                assert(p2[m - 1] == b);
            } else {
                assert(p[k - 1] == p2[m - 1]);
            }
        }
    }
    assert(wire_path(g, p));
    if p2.len() == 1 {
        assert(p2.last() == b);
        assert(p.last() == c);
    } else {
        assert(p.last() == p2.last());
    }
}

proof fn lemma_wire_value_agrees(g: Cells, sources: Seq<Coord>, w1: Coord, w2: Coord)
    requires
        reached(g, w1, w2),
        reached(g, w2, w1),
    ensures
        wire_value(g, sources, w1) == wire_value(g, sources, w2),
    decreases sources.len(),
{
    lemma_reached_is_wire(g, w1, w2);
    lemma_reached_is_wire(g, w2, w1);
    if sources.len() > 0 {
        let o = sources.last();
        lemma_wire_value_agrees(g, sources.drop_last(), w1, w2);
        if g.contains_key(o) && g[o].0 == TypeVoxel::Out {
            if reached(g, o, w1) {
                lemma_reached_trans(g, o, w1, w2);
            }
            if reached(g, o, w2) {
                lemma_reached_trans(g, o, w2, w1);
            }
        }
    }
}

proof fn lemma_wire_value_some(g: Cells, sources: Seq<Coord>, o: Coord, w: Coord)
    requires
        sources.contains(o),
        g.contains_key(o),
        g[o].0 == TypeVoxel::Out,
        reached(g, o, w),
    ensures
        wire_value(g, sources, w).is_some(),
    decreases sources.len(),
{
    if sources.last() != o {
        let j = choose|j: int| 0 <= j < sources.len() && sources[j] == o;
        assert(sources.drop_last()[j] == o);
        lemma_wire_value_some(g, sources.drop_last(), o, w);
    }
}

/// Wires joined to each other by wire paths both ways, as on a cycle, end a
/// pass with the same signal once some `Out` of the pass reaches one of them.
pub proof fn lemma_wire_network_agrees(g: Cells, order: Seq<Coord>, o: Coord, w1: Coord, w2: Coord)
    requires
        order.contains(o),
        g.contains_key(o),
        g[o].0 == TypeVoxel::Out,
        reached(g, o, w1),
        reached(g, w1, w2),
        reached(g, w2, w1),
    ensures
        pass_result(g, order).contains_key(w1),
        pass_result(g, order).contains_key(w2),
        pass_result(g, order)[w1] == pass_result(g, order)[w2],
{
    lemma_reached_is_wire(g, w1, w2);
    lemma_reached_is_wire(g, w2, w1);
    lemma_wire_value_agrees(g, order, w1, w2);
    lemma_wire_value_some(g, order, o, w1);
}

} // verus!
