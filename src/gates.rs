//! Gate evaluation: the next signal of a gate from the wire signals around it.

use vstd::prelude::*;
use crate::components::{adj, get_adjacent_positions, Coord, TypeVoxel};
use crate::grid::{Cells, Voxel};

verus! {

/// The input in direction `i` of the voxel at `p`: the signal of the
/// neighbour there if that neighbour is a `Wire`, else nothing.
pub open spec fn wire_input(g: Cells, p: Coord, i: int) -> Option<bool> {
    match adj(p, i) {
        Some(n) => if g.contains_key(n) && g[n].0 == TypeVoxel::Wire {
            Some(g[n].1)
        } else {
            None
        },
        None => None,
    }
}

/// The six inputs of the voxel at `p`, in the order +X, -X, +Y, -Y, +Z, -Z.
pub open spec fn wire_inputs(g: Cells, p: Coord) -> Seq<Option<bool>> {
    Seq::new(6, |i: int| wire_input(g, p, i))
}

pub open spec fn present(o: Option<bool>) -> nat {
    if o.is_some() {
        1
    } else {
        0
    }
}

pub open spec fn on(o: Option<bool>) -> nat {
    if o == Some(true) {
        1
    } else {
        0
    }
}

/// How many of the six inputs are present.
pub open spec fn num_present(s: Seq<Option<bool>>) -> nat {
    present(s[0]) + present(s[1]) + present(s[2]) + present(s[3]) + present(s[4]) + present(s[5])
}

/// How many of the six inputs are on.
pub open spec fn num_true(s: Seq<Option<bool>>) -> nat {
    on(s[0]) + on(s[1]) + on(s[2]) + on(s[3]) + on(s[4]) + on(s[5])
}

/// The clock of a flip-flop is its +Y input; its data inputs are the four
/// lateral ones.
pub open spec fn clock_high(inputs: Seq<Option<bool>>) -> bool {
    inputs[2] == Some(true)
}

pub open spec fn data_active(inputs: Seq<Option<bool>>) -> bool {
    inputs[0] == Some(true) || inputs[1] == Some(true) || inputs[4] == Some(true) || inputs[5]
        == Some(true)
}

/// The next signal of a voxel of kind `kind` with these inputs and this
/// signal now. Kinds that are not gates keep their signal.
pub open spec fn gate_output(kind: TypeVoxel, inputs: Seq<Option<bool>>, previous: bool) -> bool {
    match kind {
        TypeVoxel::And => num_present(inputs) > 0 && num_true(inputs) == num_present(inputs),
        TypeVoxel::Or => num_true(inputs) > 0,
        TypeVoxel::Xor => num_true(inputs) == 1,
        TypeVoxel::Not => num_present(inputs) == 1 && num_true(inputs) == 0,
        TypeVoxel::DFlipFlop => if clock_high(inputs) {
            data_active(inputs)
        } else {
            previous
        },
        _ => previous,
    }
}

/// The truth tables of the combinational gates, over every combination of
/// six inputs: `And` is on iff some input is present and every present input
/// is on; `Or` iff some input is on; `Xor` iff exactly one input is on; `Not`
/// iff exactly one input is present and it is off.
pub proof fn lemma_gate_truth_tables(inputs: Seq<Option<bool>>, previous: bool)
    requires
        inputs.len() == 6,
    ensures
        gate_output(TypeVoxel::And, inputs, previous) <==> (exists|i: int|
            0 <= i < 6 && (#[trigger] inputs[i]).is_some()) && (forall|i: int|
            0 <= i < 6 && (#[trigger] inputs[i]).is_some() ==> inputs[i] == Some(true)),
        gate_output(TypeVoxel::Or, inputs, previous) <==> exists|i: int|
            0 <= i < 6 && #[trigger] inputs[i] == Some(true),
        gate_output(TypeVoxel::Xor, inputs, previous) <==> exists|i: int|
            0 <= i < 6 && #[trigger] inputs[i] == Some(true) && forall|j: int|
                0 <= j < 6 && j != i ==> #[trigger] inputs[j] != Some(true),
        gate_output(TypeVoxel::Not, inputs, previous) <==> exists|i: int|
            0 <= i < 6 && #[trigger] inputs[i] == Some(false) && forall|j: int|
                0 <= j < 6 && j != i ==> (#[trigger] inputs[j]).is_none(),
{
    let s = inputs;
    if s[0].is_some() {
        assert(s[0].is_some());
    } else if s[1].is_some() {
        assert(s[1].is_some());
    } else if s[2].is_some() {
        assert(s[2].is_some());
    } else if s[3].is_some() {
        assert(s[3].is_some());
    } else if s[4].is_some() {
        assert(s[4].is_some());
    } else if s[5].is_some() {
        assert(s[5].is_some());
    }
    if s[0] == Some(true) {
        assert(s[0] == Some(true));
    } else if s[1] == Some(true) {
        assert(s[1] == Some(true));
    } else if s[2] == Some(true) {
        assert(s[2] == Some(true));
    } else if s[3] == Some(true) {
        assert(s[3] == Some(true));
    } else if s[4] == Some(true) {
        assert(s[4] == Some(true));
    } else if s[5] == Some(true) {
        assert(s[5] == Some(true));
    }
    if gate_output(TypeVoxel::Not, s, previous) {
        let i: int = if s[0].is_some() {
            0
        } else if s[1].is_some() {
            1
        } else if s[2].is_some() {
            2
        } else if s[3].is_some() {
            3
        } else if s[4].is_some() {
            4
        } else {
            5
        };
        assert forall|j: int| 0 <= j < 6 && j != i implies (#[trigger] s[j]).is_none() by {
            assert(j == 0 || j == 1 || j == 2 || j == 3 || j == 4 || j == 5);
        }
        assert(s[i] == Some(false));
    }
    if exists|i: int|
        0 <= i < 6 && #[trigger] s[i] == Some(false) && forall|j: int|
            0 <= j < 6 && j != i ==> (#[trigger] s[j]).is_none() {
        let i = choose|i: int|
            0 <= i < 6 && #[trigger] s[i] == Some(false) && forall|j: int|
                0 <= j < 6 && j != i ==> (#[trigger] s[j]).is_none();
        assert(i == 0 || s[0].is_none());
        assert(i == 1 || s[1].is_none());
        assert(i == 2 || s[2].is_none());
        assert(i == 3 || s[3].is_none());
        assert(i == 4 || s[4].is_none());
        assert(i == 5 || s[5].is_none());
    }
}

/// A flip-flop holds its signal while its clock input is off, whatever its
/// data inputs are; while the clock is on it takes whether any data input is
/// on.
pub proof fn lemma_flip_flop_memory(inputs: Seq<Option<bool>>, previous: bool)
    requires
        inputs.len() == 6,
    ensures
        inputs[2] != Some(true) ==> gate_output(TypeVoxel::DFlipFlop, inputs, previous)
            == previous,
        inputs[2] == Some(true) ==> gate_output(TypeVoxel::DFlipFlop, inputs, previous) == (
        exists|i: int| (i == 0 || i == 1 || i == 4 || i == 5) && #[trigger] inputs[i] == Some(true)),
{
    if inputs[2] == Some(true) && data_active(inputs) {
        if inputs[0] == Some(true) {
            assert(inputs[0] == Some(true));
        } else if inputs[1] == Some(true) {
            assert(inputs[1] == Some(true));
        } else if inputs[4] == Some(true) {
            assert(inputs[4] == Some(true));
        } else {
            assert(inputs[5] == Some(true));
        }
    }
}

fn present_count(o: Option<bool>) -> (r: u8)
    ensures
        r == present(o),
{
    if o.is_some() {
        1
    } else {
        0
    }
}

fn on_count(o: Option<bool>) -> (r: u8)
    ensures
        r == on(o),
{
    if o == Some(true) {
        1
    } else {
        0
    }
}

/// The next signal of a voxel of `kind` whose six inputs are `inputs` and
/// whose signal is `previous`.
pub fn evaluate(kind: TypeVoxel, inputs: &[Option<bool>; 6], previous: bool) -> (r: bool)
    ensures
        r == gate_output(kind, inputs@, previous),
{
    let active = on_count(inputs[0]) + on_count(inputs[1]) + on_count(inputs[2]) + on_count(
        inputs[3],
    ) + on_count(inputs[4]) + on_count(inputs[5]);
    let total = present_count(inputs[0]) + present_count(inputs[1]) + present_count(inputs[2])
        + present_count(inputs[3]) + present_count(inputs[4]) + present_count(inputs[5]);
    match kind {
        TypeVoxel::And => active == total && total > 0,
        TypeVoxel::Or => active > 0,
        TypeVoxel::Xor => active == 1,
        TypeVoxel::Not => total == 1 && active == 0,
        TypeVoxel::DFlipFlop => {
            let clock = inputs[2] == Some(true);
            let data = inputs[0] == Some(true) || inputs[1] == Some(true) || inputs[4] == Some(true)
                || inputs[5] == Some(true);
            if clock {
                data
            } else {
                previous
            }
        },
        _ => previous,
    }
}

/// The six wire inputs of the voxel at `position`, read from `world`.
pub fn wire_inputs_at(world: &Voxel, position: Coord) -> (r: [Option<bool>; 6])
    requires
        world.wf(),
    ensures
        r@ == wire_inputs(world@, position),
{
    let adjacent = get_adjacent_positions(position);
    let mut r: [Option<bool>; 6] = [None; 6];
    let mut i: usize = 0;
    while i < 6
        invariant
            0 <= i <= 6,
            world.wf(),
            forall|j: int| 0 <= j < 6 ==> adjacent@[j] == #[trigger] adj(position, j),
            forall|j: int| 0 <= j < i ==> r@[j] == #[trigger] wire_input(world@, position, j),
            forall|j: int| i <= j < 6 ==> r@[j] == None::<bool>,
        decreases 6 - i,
    {
        if let Some(n) = adjacent[i] {
            if let Some((kind, state)) = world.get(n) {
                if matches!(kind, TypeVoxel::Wire) {
                    r[i] = Some(state.0);
                }
            }
        }
        assert(adjacent@[i as int] == adj(position, i as int));
        i = i + 1;
    }
    assert(r@ =~= wire_inputs(world@, position));
    r
}

/// What a gate at `position` outputs next, given its six wire inputs; its
/// own signal counts as off when the position is empty.
pub fn process_logic_gate(world: &Voxel, position: Coord, voxel_type: TypeVoxel) -> (r: bool)
    requires
        world.wf(),
    ensures
        r == gate_output(
            voxel_type,
            wire_inputs(world@, position),
            world@.contains_key(position) && world@[position].1,
        ),
{
    let inputs = wire_inputs_at(world, position);
    let previous = match world.get(position) {
        Some((_, state)) => state.0,
        None => false,
    };
    evaluate(voxel_type, &inputs, previous)
}

} // verus!
