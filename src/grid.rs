//! The sparse voxel grid: at most one voxel per position, looked up by a
//! hash of the position, and enumerated in the order in which positions were
//! first filled.

use std::collections::HashMap;
use vstd::prelude::*;
use crate::components::{Coord, StateVoxel, TypeVoxel};
use crate::selector::{slot_kind, VoxelSelector};

verus! {

/// What the grid holds at a position: the voxel's kind and its signal.
pub type Cells = Map<Coord, (TypeVoxel, bool)>;

/// A position packed into one integer below 2^96, one 32-bit field per axis.
pub open spec fn key_int(c: Coord) -> int {
    (c.x + 0x8000_0000) * 0x1_0000_0000_0000_0000 + (c.y + 0x8000_0000) * 0x1_0000_0000 + (c.z
        + 0x8000_0000)
}

pub open spec fn key(c: Coord) -> u128 {
    key_int(c) as u128
}

pub proof fn lemma_key_injective(a: Coord, b: Coord)
    ensures
        key(a) == key(b) <==> a == b,
{
    assert(0 <= key_int(a) < 0x1_0000_0000_0000_0000_0000_0000);
    assert(0 <= key_int(b) < 0x1_0000_0000_0000_0000_0000_0000);
}

pub fn key_of(c: Coord) -> (k: u128)
    ensures
        k == key(c),
{
    let x = (c.x as i64 + 0x8000_0000) as u128;
    let y = (c.y as i64 + 0x8000_0000) as u128;
    let z = (c.z as i64 + 0x8000_0000) as u128;
    x * 0x1_0000_0000_0000_0000 + y * 0x1_0000_0000 + z
}

#[derive(Clone, Copy, Debug)]
struct Cell {
    kind: TypeVoxel,
    state: bool,
}

/// The world of placed voxels.
pub struct Voxel {
    cells: HashMap<u128, Cell>,
    order: Vec<Coord>,
}

impl View for Voxel {
    type V = Cells;

    closed spec fn view(&self) -> Cells {
        Map::new(
            |c: Coord| self.order@.contains(c),
            |c: Coord| (self.cells@[key(c)].kind, self.cells@[key(c)].state),
        )
    }
}

impl Voxel {
    /// The occupied positions, in the order in which they were first filled.
    pub closed spec fn positions(&self) -> Seq<Coord> {
        self.order@
    }

    pub closed spec fn wf(&self) -> bool {
        &&& self.order@.no_duplicates()
        &&& forall|c: Coord| #[trigger] self.order@.contains(c) <==> self.cells@.contains_key(key(c))
    }

    /// The occupied positions are those of the view, each listed once.
    pub proof fn lemma_positions(&self)
        requires
            self.wf(),
        ensures
            self@.dom() == self.positions().to_set(),
            self.positions().no_duplicates(),
            self@.dom().finite(),
            self@.len() == self.positions().len(),
    {
        assert(self@.dom() =~= self.positions().to_set());
        self.order@.unique_seq_to_set();
    }

    pub fn new() -> (r: Voxel)
        ensures
            r.wf(),
            r@ == Cells::empty(),
            r.positions() == Seq::<Coord>::empty(),
    {
        let r = Voxel { cells: HashMap::new(), order: Vec::new() };
        assert(r@ =~= Cells::empty());
        r
    }

    fn lookup(&self, position: Coord) -> (r: Option<Cell>)
        requires
            self.wf(),
        ensures
            r.is_some() == self@.contains_key(position),
            r.is_some() ==> self@[position] == (r.unwrap().kind, r.unwrap().state),
    {
        let k = key_of(position);
        match self.cells.get(&k) {
            Some(cell) => Some(*cell),
            None => None,
        }
    }

    /// The kind and signal of the voxel at `position`; nothing if it is empty.
    pub fn get(&self, position: Coord) -> (r: Option<(TypeVoxel, StateVoxel)>)
        requires
            self.wf(),
        ensures
            r == (if self@.contains_key(position) {
                Some((self@[position].0, StateVoxel(self@[position].1)))
            } else {
                None
            }),
    {
        match self.lookup(position) {
            Some(cell) => Some((cell.kind, StateVoxel(cell.state))),
            None => None,
        }
    }

    /// Rewrites the cell at a position that is already occupied, in place.
    fn overwrite(&mut self, position: Coord, kind: TypeVoxel, state: bool)
        requires
            old(self).wf(),
            old(self)@.contains_key(position),
        ensures
            final(self).wf(),
            final(self)@ == old(self)@.insert(position, (kind, state)),
            final(self).positions() == old(self).positions(),
    {
        let k = key_of(position);
        self.cells.insert(k, Cell { kind, state });
        proof {
            assert forall|c: Coord| #[trigger] self.order@.contains(c) <==> self.cells@.contains_key(key(c)) by {
                lemma_key_injective(c, position);
            }
            assert forall|c: Coord| self@.contains_key(c) implies self@[c] == old(self)@.insert(position, (kind, state))[c] by {
                lemma_key_injective(c, position);
            }
            assert(self@ =~= old(self)@.insert(position, (kind, state)));
        }
    }

    /// Places a voxel of `voxel_type` with signal `state` at `position`,
    /// replacing what was there.
    pub fn lean_place(&mut self, position: Coord, voxel_type: TypeVoxel, state: bool)
        requires
            old(self).wf(),
        ensures
            final(self).wf(),
            final(self)@ == old(self)@.insert(position, (voxel_type, state)),
            final(self).positions() == (if old(self)@.contains_key(position) {
                old(self).positions()
            } else {
                old(self).positions().push(position)
            }),
    {
        let k = key_of(position);
        if self.cells.contains_key(&k) {
            self.overwrite(position, voxel_type, state);
        } else {
            self.cells.insert(k, Cell { kind: voxel_type, state });
            self.order.push(position);
            proof {
                assert(!old(self).order@.contains(position));
                assert forall|a: int, b: int|
                    0 <= a < self.order@.len() && 0 <= b < self.order@.len() && a != b
                    implies self.order@[a] != self.order@[b] by {
                    if a < old(self).order@.len() && b == old(self).order@.len() {
                        assert(old(self).order@[a] == self.order@[a]);
                    }
                    if b < old(self).order@.len() && a == old(self).order@.len() {
                        assert(old(self).order@[b] == self.order@[b]);
                    }
                }
                assert forall|c: Coord| #[trigger] self.order@.contains(c) <==> self.cells@.contains_key(key(c)) by {
                    lemma_key_injective(c, position);
                    if c != position && self.order@.contains(c) {
                        let i = choose|i: int| 0 <= i < self.order@.len() && self.order@[i] == c;
                        assert(old(self).order@[i] == c);
                    }
                    if old(self).order@.contains(c) {
                        let i = choose|i: int| 0 <= i < old(self).order@.len() && old(self).order@[i] == c;
                        assert(self.order@[i] == c);
                    }
                    assert(self.order@[self.order@.len() - 1] == position);
                }
                assert forall|c: Coord| self@.contains_key(c) implies self@[c] == old(self)@.insert(position, (voxel_type, state))[c] by {
                    lemma_key_injective(c, position);
                }
                assert(self@ =~= old(self)@.insert(position, (voxel_type, state)));
            }
        }
    }

    /// Places a voxel of the kind selected in the hotbar at `position`, with
    /// signal `state`, replacing what was there.
    pub fn place(&mut self, position: Coord, voxel_selector: &VoxelSelector, state: bool)
        requires
            old(self).wf(),
        ensures
            final(self).wf(),
            final(self)@ == old(self)@.insert(
                position,
                (slot_kind(voxel_selector.current_index as int), state),
            ),
            final(self).positions() == (if old(self)@.contains_key(position) {
                old(self).positions()
            } else {
                old(self).positions().push(position)
            }),
    {
        let voxel_type = voxel_selector.current_voxel_type();
        self.lean_place(position, voxel_type, state);
    }

    /// Sets the signal of the `Switch` at `position` to `new_state`. Any
    /// other voxel, and an empty position, is left alone. Returns whether a
    /// switch was set.
    pub fn set_state(&mut self, position: Coord, new_state: bool) -> (r: bool)
        requires
            old(self).wf(),
        ensures
            final(self).wf(),
            r == (old(self)@.contains_key(position) && old(self)@[position].0 == TypeVoxel::Switch),
            final(self)@ == (if r {
                old(self)@.insert(position, (TypeVoxel::Switch, new_state))
            } else {
                old(self)@
            }),
            final(self).positions() == old(self).positions(),
    {
        match self.lookup(position) {
            Some(cell) => {
                if matches!(cell.kind, TypeVoxel::Switch) {
                    self.overwrite(position, TypeVoxel::Switch, new_state);
                    true
                } else {
                    false
                }
            },
            None => false,
        }
    }

    /// Flips the signal of the `Switch` at `position`; any other voxel, and
    /// an empty position, is left alone. Returns whether a switch flipped.
    pub fn toggle_switch(&mut self, position: Coord) -> (r: bool)
        requires
            old(self).wf(),
        ensures
            final(self).wf(),
            r == (old(self)@.contains_key(position) && old(self)@[position].0 == TypeVoxel::Switch),
            final(self)@ == (if r {
                old(self)@.insert(position, (TypeVoxel::Switch, !old(self)@[position].1))
            } else {
                old(self)@
            }),
            final(self).positions() == old(self).positions(),
    {
        match self.lookup(position) {
            Some(cell) => {
                if matches!(cell.kind, TypeVoxel::Switch) {
                    self.overwrite(position, TypeVoxel::Switch, !cell.state);
                    true
                } else {
                    false
                }
            },
            None => false,
        }
    }

    /// Removes the voxel at `position`; returns whether one was there.
    pub fn remove(&mut self, position: Coord) -> (r: bool)
        requires
            old(self).wf(),
        ensures
            final(self).wf(),
            r == old(self)@.contains_key(position),
            final(self)@ == old(self)@.remove(position),
            !r ==> final(self).positions() == old(self).positions(),
            r ==> exists|i: int|
                0 <= i < old(self).positions().len() && old(self).positions()[i] == position
                    && final(self).positions() == old(self).positions().remove(i),
    {
        let k = key_of(position);
        if !self.cells.contains_key(&k) {
            assert(self@ =~= old(self)@.remove(position));
            return false;
        }
        let mut i: usize = 0;
        while i < self.order.len() && self.order[i] != position
            invariant
                self == old(self),
                self.wf(),
                self.order@.contains(position),
                0 <= i <= self.order@.len(),
                forall|j: int| 0 <= j < i ==> self.order@[j] != position,
            decreases self.order@.len() - i,
        {
            i = i + 1;
        }
        proof {
            if i == self.order@.len() {
                let j = choose|j: int| 0 <= j < self.order@.len() && self.order@[j] == position;
                assert(self.order@[j] != position);
            }
        }
        self.order.remove(i);
        self.cells.remove(&k);
        proof {
            let s = old(self).order@;
            s.remove_ensures(i as int);
            assert forall|a: int, b: int|
                0 <= a < self.order@.len() && 0 <= b < self.order@.len() && a != b
                implies self.order@[a] != self.order@[b] by {
                let a2 = if a < i { a } else { a + 1 };
                let b2 = if b < i { b } else { b + 1 };
                assert(self.order@[a] == s[a2]);
                assert(self.order@[b] == s[b2]);
            }
            assert forall|c: Coord| #[trigger] self.order@.contains(c) <==> self.cells@.contains_key(key(c)) by {
                lemma_key_injective(c, position);
                if self.order@.contains(c) {
                    let j = choose|j: int| 0 <= j < self.order@.len() && self.order@[j] == c;
                    let j2 = if j < i { j } else { j + 1 };
                    assert(s[j2] == c);
                    assert(j2 != i);
                }
                if s.contains(c) && c != position {
                    let j = choose|j: int| 0 <= j < s.len() && s[j] == c;
                    assert(j != i);
                    let j2 = if j < i { j } else { j - 1 };
                    assert(self.order@[j2] == c);
                }
            }
            assert forall|c: Coord| self@.contains_key(c) implies self@[c] == old(self)@.remove(position)[c] by {
                lemma_key_injective(c, position);
            }
            assert(self@ =~= old(self)@.remove(position));
            assert(s[i as int] == position && self.order@ == s.remove(i as int));
            assert(old(self).positions()[i as int] == position && self.positions() == old(self).positions().remove(i as int));
        }
        true
    }

    /// Sets the signal of the voxel at `position` when one is there; the kind
    /// stays. Returns whether a voxel was there.
    pub(crate) fn set_signal(&mut self, position: Coord, state: bool) -> (r: bool)
        requires
            old(self).wf(),
        ensures
            final(self).wf(),
            r == old(self)@.contains_key(position),
            final(self)@ == (if r {
                old(self)@.insert(position, (old(self)@[position].0, state))
            } else {
                old(self)@
            }),
            final(self).positions() == old(self).positions(),
    {
        match self.lookup(position) {
            Some(cell) => {
                self.overwrite(position, cell.kind, state);
                true
            },
            None => false,
        }
    }

    /// Every voxel as (position, kind, signal), in the order of `positions`.
    pub fn voxels(&self) -> (r: Vec<(Coord, TypeVoxel, StateVoxel)>)
        requires
            self.wf(),
        ensures
            r@.len() == self.positions().len(),
            forall|i: int|
                0 <= i < r@.len() ==> #[trigger] r@[i] == (
                    self.positions()[i],
                    self@[self.positions()[i]].0,
                    StateVoxel(self@[self.positions()[i]].1),
                ),
    {
        let mut r: Vec<(Coord, TypeVoxel, StateVoxel)> = Vec::new();
        let mut i: usize = 0;
        while i < self.order.len()
            invariant
                self.wf(),
                0 <= i <= self.order@.len(),
                r@.len() == i,
                forall|j: int|
                    0 <= j < i ==> #[trigger] r@[j] == (
                        self.order@[j],
                        self@[self.order@[j]].0,
                        StateVoxel(self@[self.order@[j]].1),
                    ),
            decreases self.order@.len() - i,
        {
            let c = self.order[i];
            assert(self.order@.contains(c));
            let cell = self.lookup(c).unwrap();
            r.push((c, cell.kind, StateVoxel(cell.state)));
            i = i + 1;
        }
        r
    }

    /// The number of placed voxels.
    pub fn len(&self) -> (r: usize)
        requires
            self.wf(),
        ensures
            r == self@.len(),
    {
        proof {
            self.lemma_positions();
        }
        self.order.len()
    }
}

} // verus!
