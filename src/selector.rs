use vstd::prelude::*;
use crate::shapes::{
    cube,
    cube_lattice,
    cube_sorted,
    gasket_rows,
    polygon_tower,
    sierpinski_gasket,
    torus,
    torus_slots,
    tower_rings,
    Cell,
    Slot,
};

verus! {

/// How many shapes the animation cycles through.
pub const SHAPE_COUNT: usize = 4;

/// The lattice behind one generated shape, in drawing order.
#[derive(Debug)]
pub enum PointSet {
    /// Cells `(x, y, z)` of the 5 x 5 x 5 cube.
    Cube(Vec<Cell>),
    /// Slots `(h, n)`: point `n` of the `h`-gon ring of the tower.
    Tower(Vec<Slot>),
    /// Slots `(n, k)`: major step `n` of 16 and minor step `k` of 8.
    Torus(Vec<Slot>),
    /// Slots `(n, k)`: row `n` and column `k` of the gasket's triangle.
    Gasket(Vec<Slot>),
}

impl PointSet {
    /// The shape's index: cube 0, tower 1, torus 2, gasket 3.
    pub open spec fn kind_of(&self) -> usize {
        match self {
            PointSet::Cube(_) => 0,
            PointSet::Tower(_) => 1,
            PointSet::Torus(_) => 2,
            PointSet::Gasket(_) => 3,
        }
    }

    pub open spec fn len_of(&self) -> nat {
        match self {
            PointSet::Cube(v) => v@.len(),
            PointSet::Tower(v) => v@.len(),
            PointSet::Torus(v) => v@.len(),
            PointSet::Gasket(v) => v@.len(),
        }
    }

    /// `self` is shape `kind` as its generator makes it, with `coin` as the
    /// generator's one random choice (the cube's build order, the torus's
    /// loop nesting; ignored by the other two).
    pub open spec fn generated_as(&self, kind: usize, coin: bool) -> bool {
        &&& self.kind_of() == kind
        &&& match self {
            PointSet::Cube(v) => if coin {
                &&& v@.len() == 125
                &&& cube_sorted(v@)
                &&& forall|c: Cell| #[trigger] v@.contains(c) <==> cube_lattice().contains(c)
            } else {
                v@ == cube_lattice()
            },
            PointSet::Tower(v) => v@ == tower_rings(16),
            PointSet::Torus(v) => v@ == torus_slots(coin),
            PointSet::Gasket(v) => v@ == gasket_rows(16),
        }
    }

    /// The number of points.
    pub fn len(&self) -> (r: usize)
        ensures
            r == self.len_of(),
    {
        match self {
            PointSet::Cube(v) => v.len(),
            PointSet::Tower(v) => v.len(),
            PointSet::Torus(v) => v.len(),
            PointSet::Gasket(v) => v.len(),
        }
    }

    /// The shape's index: cube 0, tower 1, torus 2, gasket 3.
    pub fn kind(&self) -> (r: usize)
        ensures
            r == self.kind_of(),
    {
        match self {
            PointSet::Cube(_) => 0,
            PointSet::Tower(_) => 1,
            PointSet::Torus(_) => 2,
            PointSet::Gasket(_) => 3,
        }
    }
}

/// Generates shape `kind`; `coin` settles the generator's one random choice.
/// Cube: 125 points; tower: 136; torus: 128; gasket: at most 136.
pub fn generate(kind: usize, coin: bool) -> (r: PointSet)
    requires
        kind < SHAPE_COUNT,
    ensures
        r.generated_as(kind, coin),
        kind == 0 ==> r.len_of() == 125,
        kind == 1 ==> r.len_of() == 136,
        kind == 2 ==> r.len_of() == 128,
        kind == 3 ==> r.len_of() <= 136,
{
    if kind == 0 {
        PointSet::Cube(cube(coin))
    } else if kind == 1 {
        PointSet::Tower(polygon_tower())
    } else if kind == 2 {
        PointSet::Torus(torus(coin))
    } else {
        PointSet::Gasket(sierpinski_gasket())
    }
}

/// The shape picked after `prev` with the random draw `draw`: any of the four
/// at first, afterwards one of the three others.
pub open spec fn next_shape_index(prev: Option<usize>, draw: u64) -> usize {
    match prev {
        None => (draw % 4) as usize,
        Some(p) => ((p + 1 + draw % 3) % 4) as usize,
    }
}

pub open spec fn valid_prev(prev: Option<usize>) -> bool {
    match prev {
        None => true,
        Some(p) => p < SHAPE_COUNT,
    }
}

/// Picks the next shape index from the previous one and a random draw.
pub fn pick_shape(prev: Option<usize>, draw: u64) -> (r: usize)
    requires
        valid_prev(prev),
    ensures
        r == next_shape_index(prev, draw),
        r < SHAPE_COUNT,
        prev != Some(r),
{
    match prev {
        None => (draw % 4) as usize,
        Some(p) => (p + 1 + (draw % 3) as usize) % 4,
    }
}

/// Every shape other than the previous one can come next: for each such
/// target some draw picks it.
pub proof fn lemma_every_other_shape_reachable(prev: Option<usize>, target: usize)
    requires
        valid_prev(prev),
        target < SHAPE_COUNT,
        prev != Some(target),
    ensures
        exists|draw: u64| next_shape_index(prev, draw) == target,
{
    match prev {
        None => {
            assert(next_shape_index(prev, target as u64) == target);
        },
        Some(p) => {
            let draw: u64 = ((target + 3 - p) % 4) as u64;
            assert(next_shape_index(prev, draw) == target);
        },
    }
}

/// Relies on rand::random::<u64>: a draw from the thread-local generator,
/// of which nothing is promised.
#[verifier::external_body]
fn random_u64() -> (r: u64) {
    rand::random::<u64>()
}

/// Remembers the last shape shown, so that the next one always differs.
#[derive(Clone, Copy, Debug)]
pub struct ShapeSelector {
    last: Option<usize>,
}

impl ShapeSelector {
    pub closed spec fn last_of(&self) -> Option<usize> {
        self.last
    }

    pub open spec fn wf(&self) -> bool {
        valid_prev(self.last_of())
    }

    /// A selector with no shape chosen yet.
    pub fn new() -> (r: ShapeSelector)
        ensures
            r.last_of() == None::<usize>,
            r.wf(),
    {
        ShapeSelector { last: None }
    }

    /// The last shape chosen, if any.
    pub fn last(&self) -> (r: Option<usize>)
        ensures
            r == self.last_of(),
    {
        self.last
    }

    /// Chooses and records the next shape index from the random draw `draw`.
    pub fn pick(&mut self, draw: u64) -> (r: usize)
        requires
            old(self).wf(),
        ensures
            r == next_shape_index(old(self).last_of(), draw),
            r < SHAPE_COUNT,
            old(self).last_of() != Some(r),
            final(self).last_of() == Some(r),
            final(self).wf(),
    {
        let r = pick_shape(self.last, draw);
        self.last = Some(r);
        r
    }

    /// Chooses a shape different from the last one at random and generates
    /// it, settling the generator's coin at random too.
    pub fn next(&mut self) -> (r: PointSet)
        requires
            old(self).wf(),
        ensures
            final(self).wf(),
            final(self).last_of() == Some(r.kind_of()),
            old(self).last_of() != Some(r.kind_of()),
            exists|coin: bool| r.generated_as(r.kind_of(), coin),
            r.len_of() <= 136,
    {
        let kind = self.pick(random_u64());
        let coin = random_u64() % 2 == 1;
        generate(kind, coin)
    }
}

} // verus!
