//! Output sinks: whether an `Out` is driven, and the traversal that carries
//! its signal across the wires connected to it.

use std::collections::HashSet;
use vstd::prelude::*;
use crate::components::{adj, adjacent, get_adjacent_positions, is_driving, is_driving_kind, Coord, TypeVoxel};
use crate::grid::{key, key_of, lemma_key_injective, Cells, Voxel};

verus! {

pub open spec fn is_wire(g: Cells, c: Coord) -> bool {
    g.contains_key(c) && g[c].0 == TypeVoxel::Wire
}

/// The voxel at `n`, if any, drives a neighbouring `Out`: it is of a driving
/// kind and its signal is on.
pub open spec fn drives(g: Cells, n: Option<Coord>) -> bool {
    match n {
        Some(c) => g.contains_key(c) && is_driving(g[c].0) && g[c].1,
        None => false,
    }
}

/// An `Out` at `p` is driven when one of its six neighbours drives it.
pub open spec fn driven(g: Cells, p: Coord) -> bool {
    exists|i: int| 0 <= i < 6 && #[trigger] drives(g, adj(p, i))
}

/// `path` steps from its first position to adjacent positions, through wires
/// only.
pub open spec fn wire_path(g: Cells, path: Seq<Coord>) -> bool {
    &&& path.len() >= 1
    &&& forall|k: int|
        1 <= k < path.len() ==> is_wire(g, #[trigger] path[k]) && adjacent(path[k - 1], path[k])
}

/// `w` is a wire, other than `start`, that a wire path from `start` reaches.
pub open spec fn reached(g: Cells, start: Coord, w: Coord) -> bool {
    &&& w != start
    &&& exists|path: Seq<Coord>| #[trigger] wire_path(g, path) && path[0] == start && path.last() == w
}

/// Whether the `Out` at `position` is driven by a neighbour.
pub fn process_out_logic(world: &Voxel, position: Coord) -> (r: bool)
    requires
        world.wf(),
    ensures
        r == driven(world@, position),
{
    let adjacent = get_adjacent_positions(position);
    let mut i: usize = 0;
    while i < 6
        invariant
            0 <= i <= 6,
            world.wf(),
            forall|j: int| 0 <= j < 6 ==> adjacent@[j] == #[trigger] adj(position, j),
            forall|j: int| 0 <= j < i ==> !#[trigger] drives(world@, adj(position, j)),
        decreases 6 - i,
    {
        assert(adjacent@[i as int] == adj(position, i as int));
        if let Some(n) = adjacent[i] {
            if let Some((kind, state)) = world.get(n) {
                if is_driving_kind(kind) && state.0 {
                    assert(drives(world@, adj(position, i as int)));
                    return true;
                }
            }
        }
        i = i + 1;
    }
    false
}

proof fn lemma_extend_path(g: Cells, start: Coord, cur: Coord, n: Coord, i: int)
    requires
        cur == start || reached(g, start, cur),
        0 <= i < 6,
        adj(cur, i) == Some(n),
        is_wire(g, n),
        n != start,
    ensures
        reached(g, start, n),
{
    assert(adjacent(cur, n));
    if cur == start {
        let path = seq![start, n];
        assert(wire_path(g, path));
    } else {
        let path = choose|path: Seq<Coord>|
            #[trigger] wire_path(g, path) && path[0] == start && path.last() == cur;
        let p2 = path.push(n);
        assert forall|k: int| 1 <= k < p2.len() implies is_wire(g, #[trigger] p2[k]) && adjacent(
            p2[k - 1],
            p2[k],
        ) by {
            if k < path.len() {
                assert(p2[k] == path[k] && p2[k - 1] == path[k - 1]);
            }
        }
        assert(wire_path(g, p2));
        assert(p2[0] == start && p2.last() == n);
    }
}

proof fn lemma_push_fresh(s: Seq<Coord>, x: Coord)
    requires
        s.no_duplicates(),
        !s.contains(x),
    ensures
        s.push(x).no_duplicates(),
        forall|c: Coord| #[trigger] s.push(x).contains(c) <==> s.contains(c) || c == x,
{
    let t = s.push(x);
    assert forall|c: Coord| #[trigger] t.contains(c) <==> s.contains(c) || c == x by {
        if t.contains(c) {
            let j = choose|j: int| 0 <= j < t.len() && t[j] == c;
            if j < s.len() {
                assert(s[j] == c);
            }
        }
        if s.contains(c) {
            let j = choose|j: int| 0 <= j < s.len() && s[j] == c;
            assert(t[j] == c);
        }
        assert(t[s.len() as int] == x);
    }
    assert forall|a: int, b: int| 0 <= a < t.len() && 0 <= b < t.len() && a != b implies t[a] != t[b] by {
        if a < s.len() && b == s.len() {
            assert(s[a] == t[a]);
        }
        if b < s.len() && a == s.len() {
            assert(s[b] == t[b]);
        }
    }
}

proof fn lemma_len_within(s: Seq<Coord>, d: Set<Coord>)
    requires
        s.no_duplicates(),
        d.finite(),
        forall|c: Coord| #[trigger] s.contains(c) ==> d.contains(c),
    ensures
        s.len() <= d.len(),
{
    s.unique_seq_to_set();
    vstd::set_lib::lemma_len_subset(s.to_set(), d);
}

/// A set closed under stepping to adjacent wires.
pub open spec fn closed_under_wires(g: Cells, vis: Set<Coord>) -> bool {
    forall|c: Coord, i: int|
        #![trigger vis.contains(c), adj(c, i)]
        vis.contains(c) && 0 <= i < 6 && adj(c, i).is_some() && is_wire(g, adj(c, i).unwrap())
            ==> vis.contains(adj(c, i).unwrap())
}

proof fn lemma_closed_holds_path(g: Cells, vis: Set<Coord>, path: Seq<Coord>)
    requires
        closed_under_wires(g, vis),
        wire_path(g, path),
        vis.contains(path[0]),
    ensures
        vis.contains(path.last()),
    decreases path.len(),
{
    if path.len() > 1 {
        let q = path.drop_last();
        assert forall|k: int| 1 <= k < q.len() implies is_wire(g, #[trigger] q[k]) && adjacent(
            q[k - 1],
            q[k],
        ) by {
            assert(q[k] == path[k] && q[k - 1] == path[k - 1]);
        }
        lemma_closed_holds_path(g, vis, q);
        let k = path.len() - 1;
        assert(is_wire(g, path[k]) && adjacent(path[k - 1], path[k]));
        let i = choose|i: int| 0 <= i < 6 && #[trigger] adj(path[k - 1], i) == Some(path[k]);
        assert(vis.contains(path[k - 1]));
        assert(vis.contains(adj(path[k - 1], i).unwrap()));
    }
}

/// Every wire that a wire path from `start` reaches, each listed once.
/// A visited set keyed by position guards the walk, so it ends on any
/// topology, cycles included.
#[verifier::rlimit(40)]
pub fn dfs_propagate(world: &Voxel, start: Coord) -> (r: Vec<Coord>)
    requires
        world.wf(),
    ensures
        r@.no_duplicates(),
        forall|w: Coord| #[trigger] r@.contains(w) <==> reached(world@, start, w),
{
    let ghost g = world@;
    proof {
        world.lemma_positions();
    }
    let mut visited: HashSet<u128> = HashSet::new();
    visited.insert(key_of(start));
    let mut stack: Vec<Coord> = Vec::new();
    stack.push(start);
    let mut out: Vec<Coord> = Vec::new();
    let ghost mut vis: Set<Coord> = set![start];
    proof {
        assert forall|c: Coord| vis.contains(c) <==> visited@.contains(key(c)) by {
            lemma_key_injective(c, start);
        }
        assert(stack@[0] == start);
        assert(vis =~= out@.to_set().insert(start));
    }
    while stack.len() > 0
        invariant
            world.wf(),
            g == world@,
            g.dom().finite(),
            forall|c: Coord| vis.contains(c) <==> #[trigger] visited@.contains(key(c)),
            vis == out@.to_set().insert(start),
            out@.no_duplicates(),
            !out@.contains(start),
            forall|w: Coord| #[trigger] out@.contains(w) ==> reached(g, start, w) && g.dom().contains(w),
            out@.len() <= g.dom().len(),
            stack@.no_duplicates(),
            forall|c: Coord| #[trigger] stack@.contains(c) ==> vis.contains(c),
            forall|c: Coord, i: int|
                #![trigger vis.contains(c), adj(c, i)]
                vis.contains(c) && !stack@.contains(c) && 0 <= i < 6 && adj(c, i).is_some()
                    && is_wire(g, adj(c, i).unwrap()) ==> vis.contains(adj(c, i).unwrap()),
        decreases g.dom().len() - out@.len(), stack@.len(),
    {
        let ghost stack_before = stack@;
        let cur = stack.pop().unwrap();
        let ghost stack0 = stack@;
        let ghost out0 = out@;
        assert(stack_before[stack_before.len() - 1] == cur);
        assert(stack_before.contains(cur));
        assert(vis.contains(cur));
        assert forall|c: Coord| #[trigger] stack@.contains(c) implies stack_before.contains(c) by {
            let j = choose|j: int| 0 <= j < stack@.len() && stack@[j] == c;
            assert(stack_before[j] == c);
        }
        assert forall|c: Coord| #[trigger] stack_before.contains(c) implies stack@.contains(c) || c == cur by {
            let j = choose|j: int| 0 <= j < stack_before.len() && stack_before[j] == c;
            if j < stack@.len() {
                assert(stack@[j] == c);
            }
        }
        assert(!stack@.contains(cur)) by {
            if stack@.contains(cur) {
                let j = choose|j: int| 0 <= j < stack@.len() && stack@[j] == cur;
                assert(stack_before[j] == cur);
            }
        }
        let adjacent = get_adjacent_positions(cur);
        let mut i: usize = 0;
        while i < 6
            invariant
                0 <= i <= 6,
                world.wf(),
                g == world@,
                g.dom().finite(),
                vis.contains(cur),
                cur == start || reached(g, start, cur),
                !stack@.contains(cur),
                forall|j: int| 0 <= j < 6 ==> adjacent@[j] == #[trigger] adj(cur, j),
                forall|c: Coord| vis.contains(c) <==> #[trigger] visited@.contains(key(c)),
                vis == out@.to_set().insert(start),
                out@.no_duplicates(),
                !out@.contains(start),
                forall|w: Coord| #[trigger] out@.contains(w) ==> reached(g, start, w) && g.dom().contains(w),
                stack@.no_duplicates(),
                forall|c: Coord| #[trigger] stack@.contains(c) ==> vis.contains(c),
                forall|c: Coord, k: int|
                    #![trigger vis.contains(c), adj(c, k)]
                    vis.contains(c) && !stack@.contains(c) && c != cur && 0 <= k < 6 && adj(c, k).is_some()
                        && is_wire(g, adj(c, k).unwrap()) ==> vis.contains(adj(c, k).unwrap()),
                forall|k: int|
                    0 <= k < i && adj(cur, k).is_some() && is_wire(g, adj(cur, k).unwrap())
                        ==> vis.contains(#[trigger] adj(cur, k).unwrap()),
                out@.len() >= out0.len(),
                out@.len() == out0.len() ==> stack@.len() == stack0.len(),
            decreases 6 - i,
        {
            assert(adjacent@[i as int] == adj(cur, i as int));
            if let Some(n) = adjacent[i] {
                if let Some((kind, _)) = world.get(n) {
                    if matches!(kind, TypeVoxel::Wire) {
                        let k = key_of(n);
                        if !visited.contains(&k) {
                            proof {
                                lemma_extend_path(g, start, cur, n, i as int);
                            }
                            visited.insert(k);
                            let ghost stack1 = stack@;
                            let ghost out1 = out@;
                            stack.push(n);
                            out.push(n);
                            proof {
                                vis = vis.insert(n);
                                assert forall|c: Coord| vis.contains(c) <==> #[trigger] visited@.contains(key(c)) by {
                                    lemma_key_injective(c, n);
                                }
                                lemma_push_fresh(out1, n);
                                lemma_push_fresh(stack1, n);
                                assert(vis =~= out@.to_set().insert(start));
                            }
                        }
                    }
                }
            }
            i = i + 1;
        }
        proof {
            assert forall|c: Coord, k: int|
                #![trigger vis.contains(c), adj(c, k)]
                vis.contains(c) && !stack@.contains(c) && 0 <= k < 6 && adj(c, k).is_some()
                    && is_wire(g, adj(c, k).unwrap()) implies vis.contains(adj(c, k).unwrap()) by {
                if c == cur {
                    assert(vis.contains(adj(cur, k).unwrap()));
                }
            }
            lemma_len_within(out@, g.dom());
        }
    }
    proof {
        assert(closed_under_wires(g, vis));
        assert forall|w: Coord| #[trigger] out@.contains(w) <==> reached(g, start, w) by {
            if reached(g, start, w) {
                let path = choose|path: Seq<Coord>|
                    #[trigger] wire_path(g, path) && path[0] == start && path.last() == w;
                lemma_closed_holds_path(g, vis, path);
            }
        }
    }
    out
}

} // verus!
