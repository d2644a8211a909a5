//! Fuse storage: an N-dimensional grid of booleans, stored with the last
//! dimension varying fastest.

use vstd::prelude::*;

verus! {

/// Number of cells spanned by the first `d` dimensions of `shape`.
pub open spec fn cells_upto(shape: Seq<usize>, d: int) -> int
    decreases d,
{
    if d <= 0 {
        1
    } else {
        cells_upto(shape, d - 1) * shape[d - 1]
    }
}

/// Number of cells of a grid of the given shape.
pub open spec fn cell_count(shape: Seq<usize>) -> int {
    cells_upto(shape, shape.len() as int)
}

/// Linear index of the first `d` components of `c`.
pub open spec fn linear_upto(shape: Seq<usize>, c: Seq<int>, d: int) -> int
    decreases d,
{
    if d <= 0 {
        0
    } else {
        linear_upto(shape, c, d - 1) * shape[d - 1] + c[d - 1]
    }
}

/// Linear index of coordinate `c` in a grid of the given shape.
pub open spec fn linear(shape: Seq<usize>, c: Seq<int>) -> int {
    linear_upto(shape, c, c.len() as int)
}

/// `c` has one component per dimension, each inside the grid.
pub open spec fn in_bounds(shape: Seq<usize>, c: Seq<int>) -> bool {
    c.len() == shape.len() && forall|d: int| 0 <= d < c.len() ==> 0 <= #[trigger] c[d] < shape[d]
}

/// A coordinate given as machine integers, viewed as integers.
pub open spec fn coord_view(c: Seq<usize>) -> Seq<int> {
    Seq::new(c.len(), |d: int| c[d] as int)
}

/// A grid of fuses.
pub struct Grid {
    /// Extent of each dimension.
    pub shape: Vec<usize>,
    /// The cells, last dimension fastest.
    pub cells: Vec<bool>,
}

/// `a * n + x == b * n + y` with `x` and `y` below `n` forces `a == b`, `x == y`.
proof fn lemma_mixed_radix_unique(a: int, x: int, b: int, y: int, n: int)
    requires
        0 <= x < n,
        0 <= y < n,
        a * n + x == b * n + y,
    ensures
        a == b,
        x == y,
{
    if a < b {
        assert(a * n + x < b * n + y) by (nonlinear_arith)
            requires
                a < b,
                0 <= x < n,
                0 <= y,
        ;
    } else if b < a {
        assert(b * n + y < a * n + x) by (nonlinear_arith)
            requires
                b < a,
                0 <= y < n,
                0 <= x,
        ;
    }
}

/// An in-bounds coordinate has a linear index below the cell count.
pub proof fn lemma_linear_bounds(shape: Seq<usize>, c: Seq<int>, d: int)
    requires
        0 <= d <= shape.len(),
        d <= c.len(),
        forall|e: int| 0 <= e < d ==> 0 <= #[trigger] c[e] < shape[e],
    ensures
        0 <= linear_upto(shape, c, d) < cells_upto(shape, d),
    decreases d,
{
    if d > 0 {
        lemma_linear_bounds(shape, c, d - 1);
        let l = linear_upto(shape, c, d - 1);
        let m = cells_upto(shape, d - 1);
        let n = shape[d - 1] as int;
        let x = c[d - 1];
        assert(0 <= l * n + x < m * n) by (nonlinear_arith)
            requires
                0 <= l < m,
                0 <= x < n,
        ;
    }
}

/// Distinct in-bounds coordinates have distinct linear indices.
pub proof fn lemma_linear_injective(shape: Seq<usize>, a: Seq<int>, b: Seq<int>)
    requires
        in_bounds(shape, a),
        in_bounds(shape, b),
        linear(shape, a) == linear(shape, b),
    ensures
        a == b,
{
    lemma_linear_injective_upto(shape, a, b, a.len() as int);
    assert(a =~= b);
}

proof fn lemma_linear_injective_upto(shape: Seq<usize>, a: Seq<int>, b: Seq<int>, d: int)
    requires
        in_bounds(shape, a),
        in_bounds(shape, b),
        0 <= d <= a.len(),
        linear_upto(shape, a, d) == linear_upto(shape, b, d),
    ensures
        forall|e: int| 0 <= e < d ==> a[e] == b[e],
    decreases d,
{
    if d > 0 {
        lemma_linear_bounds(shape, a, d - 1);
        lemma_linear_bounds(shape, b, d - 1);
        lemma_mixed_radix_unique(
            linear_upto(shape, a, d - 1),
            a[d - 1],
            linear_upto(shape, b, d - 1),
            b[d - 1],
            shape[d - 1] as int,
        );
        lemma_linear_injective_upto(shape, a, b, d - 1);
    }
}

/// With no empty dimension, a prefix spans no more cells than the whole.
proof fn lemma_cells_monotone(shape: Seq<usize>, d: int, e: int)
    requires
        0 <= d <= e <= shape.len(),
        forall|i: int| 0 <= i < shape.len() ==> #[trigger] shape[i] >= 1,
    ensures
        cells_upto(shape, d) <= cells_upto(shape, e),
    decreases e - d,
{
    if d < e {
        lemma_cells_monotone(shape, d, e - 1);
        lemma_cells_positive(shape, e - 1);
        let m = cells_upto(shape, e - 1);
        let n = shape[e - 1] as int;
        assert(m <= m * n) by (nonlinear_arith)
            requires
                m >= 1,
                n >= 1,
        ;
    }
}

proof fn lemma_cells_positive(shape: Seq<usize>, d: int)
    requires
        0 <= d <= shape.len(),
        forall|i: int| 0 <= i < shape.len() ==> #[trigger] shape[i] >= 1,
    ensures
        cells_upto(shape, d) >= 1,
    decreases d,
{
    if d > 0 {
        lemma_cells_positive(shape, d - 1);
        let m = cells_upto(shape, d - 1);
        let n = shape[d - 1] as int;
        assert(m * n >= 1) by (nonlinear_arith)
            requires
                m >= 1,
                n >= 1,
        ;
    }
}

/// An empty dimension leaves no cells.
proof fn lemma_cells_zero(shape: Seq<usize>, d: int, e: int)
    requires
        1 <= d <= e <= shape.len(),
        shape[d - 1] == 0,
    ensures
        cells_upto(shape, e) == 0,
    decreases e - d,
{
    if d < e {
        lemma_cells_zero(shape, d, e - 1);
    }
}

impl Grid {
    /// Storage holds exactly one cell per coordinate.
    pub open spec fn wf(&self) -> bool {
        self.cells@.len() == cell_count(self.shape@)
    }

    /// Value of the cell at an in-bounds coordinate.
    pub open spec fn cell(&self, c: Seq<int>) -> bool {
        self.cells@[linear(self.shape@, c)]
    }

    /// A one-dimensional grid holding `cells`.
    pub fn from_cells(cells: Vec<bool>) -> (r: Grid)
        ensures
            r.wf(),
            r.shape@ == seq![cells@.len() as usize],
            r.cells@ == cells@,
    {
        let mut shape: Vec<usize> = Vec::new();
        shape.push(cells.len());
        let r = Grid { shape, cells };
        assert(cells_upto(r.shape@, 1) == cells_upto(r.shape@, 0) * r.shape@[0]);
        r
    }

    /// A grid of the given shape with every cell set to `fill`; `None` where
    /// the number of cells does not fit in `usize`.
    pub fn new(shape: Vec<usize>, fill: bool) -> (r: Option<Grid>)
        ensures
            match r {
                Some(g) => g.wf() && g.shape@ == shape@ && g.cells@ == Seq::new(
                    cell_count(shape@) as nat,
                    |_i: int| fill,
                ),
                None => cell_count(shape@) > usize::MAX,
            },
    {
        let mut d: usize = 0;
        while d < shape.len()
            invariant
                d <= shape@.len(),
                forall|i: int| 0 <= i < d ==> #[trigger] shape@[i] >= 1,
            decreases shape@.len() - d,
        {
            if shape[d] == 0 {
                proof {
                    lemma_cells_zero(shape@, d as int + 1, shape@.len() as int);
                }
                let r = Grid { shape, cells: Vec::new() };
                assert(r.cells@ =~= Seq::new(cell_count(shape@) as nat, |_i: int| fill));
                return Some(r);
            }
            d = d + 1;
        }
        let mut n: usize = 1;
        let mut d: usize = 0;
        while d < shape.len()
            invariant
                d <= shape@.len(),
                forall|i: int| 0 <= i < shape@.len() ==> #[trigger] shape@[i] >= 1,
                n as int == cells_upto(shape@, d as int),
            decreases shape@.len() - d,
        {
            match n.checked_mul(shape[d]) {
                Some(m) => n = m,
                None => {
                    proof {
                        lemma_cells_monotone(shape@, d as int + 1, shape@.len() as int);
                    }
                    return None;
                },
            }
            d = d + 1;
        }
        let cells = vec![fill; n];
        let r = Grid { shape, cells };
        assert(r.cells@ =~= Seq::new(cell_count(shape@) as nat, |_i: int| fill));
        Some(r)
    }

    /// Linear index of coordinate `c`, or `None` where it is out of bounds.
    pub fn index_of(&self, c: &[usize]) -> (r: Option<usize>)
        requires
            self.wf(),
        ensures
            match r {
                Some(i) => in_bounds(self.shape@, coord_view(c@)) && i as int == linear(
                    self.shape@,
                    coord_view(c@),
                ) && i < self.cells@.len(),
                None => !in_bounds(self.shape@, coord_view(c@)),
            },
    {
        let shape = &self.shape;
        let ghost cv = coord_view(c@);
        if c.len() != shape.len() {
            return None;
        }
        let mut d: usize = 0;
        while d < c.len()
            invariant
                c@.len() == shape@.len(),
                cv == coord_view(c@),
                shape == &self.shape,
                d <= c@.len(),
                forall|e: int| 0 <= e < d ==> 0 <= #[trigger] cv[e] < shape@[e],
            decreases c@.len() - d,
        {
            if c[d] >= shape[d] {
                assert(!(0 <= cv[d as int] < shape@[d as int]));
                assert(!in_bounds(shape@, cv));
                return None;
            }
            d = d + 1;
        }
        assert(in_bounds(shape@, cv));
        let total = self.cells.len();
        let mut idx: usize = 0;
        let mut d: usize = 0;
        while d < c.len()
            invariant
                c@.len() == shape@.len(),
                cv == coord_view(c@),
                in_bounds(shape@, cv),
                self.wf(),
                shape == &self.shape,
                total == self.cells@.len(),
                d <= c@.len(),
                idx as int == linear_upto(shape@, cv, d as int),
            decreases c@.len() - d,
        {
            proof {
                lemma_linear_bounds(shape@, cv, d as int + 1);
                assert forall|i: int| 0 <= i < shape@.len() implies #[trigger] shape@[i] >= 1 by {
                    assert(0 <= cv[i] < shape@[i]);
                }
                lemma_cells_monotone(shape@, d as int + 1, shape@.len() as int);
                assert(linear_upto(shape@, cv, d as int + 1) == idx * shape@[d as int] + cv[d as int]);
            }
            idx = idx * shape[d] + c[d];
            d = d + 1;
        }
        proof {
            lemma_linear_bounds(shape@, cv, shape@.len() as int);
        }
        Some(idx)
    }

    /// Value at coordinate `c`, or `None` where it is out of bounds.
    pub fn get(&self, c: &[usize]) -> (r: Option<bool>)
        requires
            self.wf(),
        ensures
            match r {
                Some(b) => in_bounds(self.shape@, coord_view(c@)) && b == self.cell(coord_view(c@)),
                None => !in_bounds(self.shape@, coord_view(c@)),
            },
    {
        match self.index_of(c) {
            Some(i) => Some(self.cells[i]),
            None => None,
        }
    }

    /// Sets the cell at coordinate `c`; returns `false`, changing nothing,
    /// where it is out of bounds.
    pub fn set(&mut self, c: &[usize], b: bool) -> (r: bool)
        requires
            old(self).wf(),
        ensures
            final(self).wf(),
            final(self).shape == old(self).shape,
            r == in_bounds(old(self).shape@, coord_view(c@)),
            r ==> final(self).cells@ == old(self).cells@.update(
                linear(old(self).shape@, coord_view(c@)),
                b,
            ),
            !r ==> final(self).cells@ == old(self).cells@,
    {
        match self.index_of(c) {
            Some(i) => {
                self.cells.set(i, b);
                true
            },
            None => false,
        }
    }
}

} // verus!
