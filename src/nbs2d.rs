//! The neighbour-search grid of the plane.
use vstd::prelude::*;

use crate::geometry::{
    axis_cells,
    axis_count,
    axis_slot,
    fits,
    lemma_count_positive,
    lemma_slot_below_count,
    lemma_slot_le_count,
    plane_stencil,
    slot,
};
use crate::linked_cells::{
    SENTINEL,
    cell_contents,
    clear,
    empty_slots,
    gather,
    gather_cells,
    head_after,
    lemma_chain_is_members,
    lemma_members_contains,
    lemma_rebuilt_links_ok,
    links_ok,
    next_after,
    push_front,
};
use crate::{NNPS, NnpsError};

verus! {

/// A uniform grid over the rectangle `[x_min, x_max] × [y_min, y_max]`, with
/// `no_x_cells` cells to a row and `no_y_cells` rows. Cell `(nx, ny)` has the
/// flat index `ny * no_x_cells + nx`.
#[derive(Debug, Clone)]
pub struct NBS2D {
    /// The latest particle registered in each cell, or the sentinel.
    pub head: Vec<usize>,
    /// For each particle, the one registered before it in its cell, or the
    /// sentinel.
    pub next: Vec<usize>,
    pub no_x_cells: usize,
    pub no_y_cells: usize,
    pub total_no_cells: usize,
    pub cell_size: i64,
    pub x_min: i64,
    pub x_max: i64,
    pub y_min: i64,
    pub y_max: i64,
}

/// The cell count of a grid over the given rectangle fits in `usize`,
/// whenever the cell fits the rectangle.
pub open spec fn cells_fit_2d(x_min: int, x_max: int, y_min: int, y_max: int, cell_size: int) -> bool {
    cell_size <= x_max - x_min && cell_size <= y_max - y_min ==> axis_cells(x_min, x_max, cell_size)
        * axis_cells(y_min, y_max, cell_size) <= usize::MAX
}

impl NBS2D {
    /// The point lies in the rectangle, bounds included.
    pub open spec fn spec_in_domain(&self, x: i64, y: i64) -> bool {
        &&& self.x_min <= x <= self.x_max
        &&& self.y_min <= y <= self.y_max
    }

    /// The flat index of the cell that holds a point of the rectangle. On the
    /// far edges it runs past a row, or past the grid.
    pub open spec fn flat_index(&self, x: i64, y: i64) -> int {
        axis_slot(y as int, self.y_min as int, self.cell_size as int) * self.no_x_cells
            + axis_slot(x as int, self.x_min as int, self.cell_size as int)
    }

    /// The cell that registration puts a particle at `(x, y)` into, if any.
    pub open spec fn cell_of(&self, x: i64, y: i64) -> Option<int> {
        if self.spec_in_domain(x, y) && self.flat_index(x, y) < self.total_no_cells {
            Some(self.flat_index(x, y))
        } else {
            None
        }
    }

    /// The cell of each particle, if any.
    pub open spec fn particle_cells(&self, x: Seq<i64>, y: Seq<i64>) -> Seq<Option<int>> {
        Seq::new(x.len(), |i: int| self.cell_of(x[i], y[i]))
    }

    pub open spec fn spec_well_formed(&self) -> bool {
        &&& 0 < self.cell_size
        &&& self.cell_size <= self.x_max - self.x_min
        &&& self.cell_size <= self.y_max - self.y_min
        &&& self.no_x_cells == axis_cells(self.x_min as int, self.x_max as int, self.cell_size as int)
        &&& self.no_y_cells == axis_cells(self.y_min as int, self.y_max as int, self.cell_size as int)
        &&& self.total_no_cells == self.no_x_cells * self.no_y_cells
        &&& self.head@.len() == self.total_no_cells
        &&& links_ok(self.head@, self.next@)
    }

    /// Same bounds, cell size and cell counts.
    pub open spec fn same_geometry(&self, other: &Self) -> bool {
        &&& self.no_x_cells == other.no_x_cells
        &&& self.no_y_cells == other.no_y_cells
        &&& self.total_no_cells == other.total_no_cells
        &&& self.cell_size == other.cell_size
        &&& self.x_min == other.x_min
        &&& self.x_max == other.x_max
        &&& self.y_min == other.y_min
        &&& self.y_max == other.y_max
    }

    /// `self` holds the chains of the particles at `x`, `y`, built on the
    /// geometry and the `next` length of `before`: each cell lists its
    /// particles latest first.
    pub open spec fn spec_rebuilt_from(&self, before: &Self, x: Seq<i64>, y: Seq<i64>) -> bool {
        let cells = before.particle_cells(x, y);
        &&& self.same_geometry(before)
        &&& self.head@ == head_after(cells, cells.len(), before.total_no_cells as nat)
        &&& self.next@ == next_after(cells, cells.len(), before.next@.len())
    }

    /// The particles of the nine cells round the cell of `(x, y)`, in
    /// stencil order; nothing for a point outside the rectangle.
    pub open spec fn spec_neighbours(&self, x: i64, y: i64) -> Seq<usize> {
        if self.spec_in_domain(x, y) {
            gather(self.head@, self.next@, plane_stencil(self.flat_index(x, y), self.no_x_cells as int))
        } else {
            Seq::empty()
        }
    }

    /// Builds an empty grid over `[x_min, x_max] × [y_min, y_max]` with cells
    /// of side `cell_size`; fails when the cell is larger than the rectangle
    /// along either axis. The grid holds no particle slots until
    /// `initialize_next` is called.
    pub fn new(x_min: i64, x_max: i64, y_min: i64, y_max: i64, cell_size: i64) -> (r: Result<
        NBS2D,
        NnpsError,
    >)
        requires
            0 < cell_size,
            cells_fit_2d(x_min as int, x_max as int, y_min as int, y_max as int, cell_size as int),
        ensures
            r is Err <==> cell_size > x_max - x_min || cell_size > y_max - y_min,
            r is Err ==> r == Err::<NBS2D, NnpsError>(NnpsError::CellSizeExceedsDomain),
            r matches Ok(g) ==> {
                &&& g.spec_well_formed()
                &&& g.x_min == x_min && g.x_max == x_max
                &&& g.y_min == y_min && g.y_max == y_max
                &&& g.cell_size == cell_size
                &&& g.no_x_cells == axis_cells(x_min as int, x_max as int, cell_size as int)
                &&& g.no_y_cells == axis_cells(y_min as int, y_max as int, cell_size as int)
                &&& g.total_no_cells == g.no_x_cells * g.no_y_cells
                &&& g.head@ == Seq::new(g.total_no_cells as nat, |c: int| SENTINEL)
                &&& g.next@.len() == 0
            },
    {
        if !fits(x_min, x_max, cell_size) || !fits(y_min, y_max, cell_size) {
            return Err(NnpsError::CellSizeExceedsDomain);
        }
        let ghost w = axis_cells(x_min as int, x_max as int, cell_size as int);
        let ghost h = axis_cells(y_min as int, y_max as int, cell_size as int);
        proof {
            lemma_count_positive(x_min as int, x_max as int, cell_size as int);
            lemma_count_positive(y_min as int, y_max as int, cell_size as int);
        }
        assert(w <= usize::MAX && h <= usize::MAX) by (nonlinear_arith)
            requires
                w * h <= usize::MAX,
                w >= 1,
                h >= 1,
        ;
        let no_x_cells = axis_count(x_min, x_max, cell_size);
        let no_y_cells = axis_count(y_min, y_max, cell_size);
        let total_no_cells = no_x_cells * no_y_cells;
        let grid = NBS2D {
            head: empty_slots(total_no_cells),
            next: Vec::new(),
            no_x_cells,
            no_y_cells,
            total_no_cells,
            cell_size,
            x_min,
            x_max,
            y_min,
            y_max,
        };
        Ok(grid)
    }

    /// Sizes the particle slots for `no_of_particles` particles and empties
    /// every cell.
    pub fn initialize_next(&mut self, no_of_particles: usize)
        requires
            old(self).spec_well_formed(),
        ensures
            final(self).spec_well_formed(),
            final(self).same_geometry(old(self)),
            final(self).next@ == Seq::new(no_of_particles as nat, |i: int| SENTINEL),
            final(self).head@ == Seq::new(old(self).total_no_cells as nat, |c: int| SENTINEL),
    {
        self.next = empty_slots(no_of_particles);
        clear(&mut self.head);
    }

    /// `new`, then `initialize_next(no_of_particles)`.
    pub fn from_limits_and_no_of_particles(
        x_min: i64,
        x_max: i64,
        y_min: i64,
        y_max: i64,
        cell_size: i64,
        no_of_particles: usize,
    ) -> (r: Result<NBS2D, NnpsError>)
        requires
            0 < cell_size,
            cells_fit_2d(x_min as int, x_max as int, y_min as int, y_max as int, cell_size as int),
        ensures
            r is Err <==> cell_size > x_max - x_min || cell_size > y_max - y_min,
            r is Err ==> r == Err::<NBS2D, NnpsError>(NnpsError::CellSizeExceedsDomain),
            r matches Ok(g) ==> {
                &&& g.spec_well_formed()
                &&& g.x_min == x_min && g.x_max == x_max
                &&& g.y_min == y_min && g.y_max == y_max
                &&& g.cell_size == cell_size
                &&& g.total_no_cells == g.no_x_cells * g.no_y_cells
                &&& g.head@ == Seq::new(g.total_no_cells as nat, |c: int| SENTINEL)
                &&& g.next@ == Seq::new(no_of_particles as nat, |i: int| SENTINEL)
            },
    {
        let mut grid = NBS2D::new(x_min, x_max, y_min, y_max, cell_size)?;
        grid.initialize_next(no_of_particles);
        Ok(grid)
    }

    /// A grid over the square `[-max, max] × [-max, max]`.
    pub fn from_maximum_coordinate(max: i64, cell_size: i64) -> (r: Result<NBS2D, NnpsError>)
        requires
            0 < cell_size,
            cells_fit_2d(-max, max as int, -max, max as int, cell_size as int),
        ensures
            r is Err <==> cell_size > 2 * max,
            r is Err ==> r == Err::<NBS2D, NnpsError>(NnpsError::CellSizeExceedsDomain),
            r matches Ok(g) ==> {
                &&& g.spec_well_formed()
                &&& g.x_min == -max && g.x_max == max
                &&& g.y_min == -max && g.y_max == max
                &&& g.cell_size == cell_size
                &&& g.head@ == Seq::new(g.total_no_cells as nat, |c: int| SENTINEL)
                &&& g.next@.len() == 0
            },
    {
        if max <= 0 {
            return Err(NnpsError::CellSizeExceedsDomain);
        }
        NBS2D::new(-max, max, -max, max, cell_size)
    }

    /// `from_maximum_coordinate`, then `initialize_next(no_of_particles)`.
    pub fn from_maximum_and_no_of_particles(max: i64, cell_size: i64, no_of_particles: usize) -> (r:
        Result<NBS2D, NnpsError>)
        requires
            0 < cell_size,
            cells_fit_2d(-max, max as int, -max, max as int, cell_size as int),
        ensures
            r is Err <==> cell_size > 2 * max,
            r is Err ==> r == Err::<NBS2D, NnpsError>(NnpsError::CellSizeExceedsDomain),
            r matches Ok(g) ==> {
                &&& g.spec_well_formed()
                &&& g.x_min == -max && g.x_max == max
                &&& g.y_min == -max && g.y_max == max
                &&& g.cell_size == cell_size
                &&& g.head@ == Seq::new(g.total_no_cells as nat, |c: int| SENTINEL)
                &&& g.next@ == Seq::new(no_of_particles as nat, |i: int| SENTINEL)
            },
    {
        let mut grid = NBS2D::from_maximum_coordinate(max, cell_size)?;
        grid.initialize_next(no_of_particles);
        Ok(grid)
    }
}

/// After registration a particle lies in the chain of cell `c` exactly when
/// `c` is its cell. So a particle outside the rectangle lies in no chain,
/// and on a grid that a whole number of cells fills, a particle below the
/// upper bounds lies in the chain of exactly one cell.
pub proof fn lemma_registered_particle_cells(
    before: NBS2D,
    after: NBS2D,
    x: Seq<i64>,
    y: Seq<i64>,
    i: int,
)
    requires
        before.spec_well_formed(),
        y.len() == x.len(),
        x.len() <= before.next@.len(),
        after.spec_rebuilt_from(&before, x, y),
        0 <= i < x.len(),
    ensures
        forall|c: int|
            0 <= c < after.total_no_cells ==> (#[trigger] cell_contents(after.head@, after.next@, c).contains(
                i as usize,
            ) <==> before.cell_of(x[i], y[i]) == Some(c)),
        !before.spec_in_domain(x[i], y[i]) ==> forall|c: int|
            0 <= c < after.total_no_cells ==> !(#[trigger] cell_contents(
                after.head@,
                after.next@,
                c,
            ).contains(i as usize)),
        ({
            &&& before.x_min <= x[i] < before.x_max
            &&& before.y_min <= y[i] < before.y_max
            &&& (before.x_max - before.x_min) % (before.cell_size as int) == 0
            &&& (before.y_max - before.y_min) % (before.cell_size as int) == 0
        }) ==> exists|c: int|
            {
                &&& 0 <= c < after.total_no_cells
                &&& #[trigger] cell_contents(after.head@, after.next@, c).contains(i as usize)
                &&& forall|d: int|
                    0 <= d < after.total_no_cells && #[trigger] cell_contents(
                        after.head@,
                        after.next@,
                        d,
                    ).contains(i as usize) ==> d == c
            },
{
    let cells = before.particle_cells(x, y);
    let n_slots = before.next@.len();
    assert(n_slots == before.next.len());
    assert forall|c: int| 0 <= c < after.total_no_cells implies (#[trigger] cell_contents(
        after.head@,
        after.next@,
        c,
    ).contains(i as usize) <==> before.cell_of(x[i], y[i]) == Some(c)) by {
        lemma_chain_is_members(cells, n_slots, c, cells.len());
        lemma_members_contains(cells, c, cells.len(), i);
    }
    if before.x_min <= x[i] < before.x_max && before.y_min <= y[i] < before.y_max && (before.x_max
        - before.x_min) % (before.cell_size as int) == 0 && (before.y_max - before.y_min) % (
    before.cell_size as int) == 0 {
        let cs = before.cell_size as int;
        let nx = axis_slot(x[i] as int, before.x_min as int, cs);
        let ny = axis_slot(y[i] as int, before.y_min as int, cs);
        let w = before.no_x_cells as int;
        let h = before.no_y_cells as int;
        lemma_slot_below_count(x[i] as int, before.x_min as int, before.x_max as int, cs);
        lemma_slot_below_count(y[i] as int, before.y_min as int, before.y_max as int, cs);
        lemma_slot_le_count(x[i] as int, before.x_min as int, before.x_max as int, cs);
        lemma_slot_le_count(y[i] as int, before.y_min as int, before.y_max as int, cs);
        assert(0 <= ny * w + nx < w * h) by (nonlinear_arith)
            requires
                0 <= nx < w,
                0 <= ny < h,
        ;
        let c = before.flat_index(x[i], y[i]);
        assert(before.cell_of(x[i], y[i]) == Some(c));
        assert(0 <= c < after.total_no_cells);
        assert(cell_contents(after.head@, after.next@, c).contains(i as usize));
        assert forall|d: int|
            0 <= d < after.total_no_cells && #[trigger] cell_contents(
                after.head@,
                after.next@,
                d,
            ).contains(i as usize) implies d == c by {}
    }
}

/// Registering the same particles a second time rebuilds the very same
/// `head` and `next` arrays.
pub proof fn lemma_register_again(g0: NBS2D, g1: NBS2D, g2: NBS2D, x: Seq<i64>, y: Seq<i64>)
    requires
        g0.spec_well_formed(),
        g1.spec_rebuilt_from(&g0, x, y),
        g2.spec_rebuilt_from(&g1, x, y),
    ensures
        g2.head@ == g1.head@,
        g2.next@ == g1.next@,
{
    assert(g1.particle_cells(x, y) =~= g0.particle_cells(x, y));
}

impl NNPS for NBS2D {
    open spec fn well_formed(&self) -> bool {
        self.spec_well_formed()
    }

    /// One `y` per `x`, and no more particles than slots; `z` is not read.
    open spec fn accepts(&self, x: Seq<i64>, y: Seq<i64>, z: Seq<i64>) -> bool {
        y.len() == x.len() && x.len() <= self.next@.len()
    }

    open spec fn rebuilt_from(&self, before: &Self, x: Seq<i64>, y: Seq<i64>, z: Seq<i64>) -> bool {
        self.spec_rebuilt_from(before, x, y)
    }

    open spec fn in_domain(&self, x: i64, y: i64, z: i64) -> bool {
        self.spec_in_domain(x, y)
    }

    open spec fn neighbours(&self, x: i64, y: i64, z: i64) -> Seq<usize> {
        self.spec_neighbours(x, y)
    }

    fn register_particles_to_nnps(&mut self, x: &[i64], y: &[i64], z: &[i64]) -> (r: Result<
        (),
        NnpsError,
    >) {
        if y.len() != x.len() || x.len() > self.next.len() {
            return Err(NnpsError::LengthMismatch);
        }
        let ghost before = *self;
        let ghost cells = before.particle_cells(x@, y@);
        let ghost n_cells = before.total_no_cells as nat;
        let ghost n_slots = before.next@.len();
        clear(&mut self.head);
        clear(&mut self.next);
        assert(self.head@ =~= head_after(cells, 0, n_cells));
        assert(self.next@ =~= next_after(cells, 0, n_slots));
        let n = x.len();
        let mut i: usize = 0;
        while i < n
            invariant
                n == x@.len(),
                n == y@.len(),
                n <= n_slots,
                i <= n,
                before.spec_well_formed(),
                self.same_geometry(&before),
                cells == before.particle_cells(x@, y@),
                n_cells == before.total_no_cells,
                n_slots == before.next@.len(),
                self.head@ == head_after(cells, i as nat, n_cells),
                self.next@ == next_after(cells, i as nat, n_slots),
            decreases n - i,
        {
            let xi = x[i];
            let yi = y[i];
            let ghost cell = cells[i as int];
            assert(cell == self.cell_of(xi, yi));
            if self.x_min <= xi && xi <= self.x_max && self.y_min <= yi && yi <= self.y_max {
                let nx = slot(xi, self.x_min, self.cell_size);
                let ny = slot(yi, self.y_min, self.cell_size);
                let w = self.no_x_cells as u128;
                let h = self.no_y_cells as u128;
                proof {
                    lemma_slot_le_count(xi as int, self.x_min as int, self.x_max as int, self.cell_size as int);
                    lemma_slot_le_count(yi as int, self.y_min as int, self.y_max as int, self.cell_size as int);
                }
                if ny < h {
                    assert(ny * w + nx <= h * w) by (nonlinear_arith)
                        requires
                            ny < h,
                            nx <= w,
                    ;
                    let idx = ny * w + nx;
                    if idx < self.total_no_cells as u128 {
                        assert(cell == Some(idx as int));
                        push_front(&mut self.head, &mut self.next, i, idx as usize);
                    } else {
                        assert(cell is None);
                    }
                } else {
                    assert(ny * w >= h * w) by (nonlinear_arith)
                        requires
                            ny >= h,
                    ;
                    assert(cell is None);
                }
            }
            assert(self.head@ =~= head_after(cells, (i + 1) as nat, n_cells));
            assert(self.next@ =~= next_after(cells, (i + 1) as nat, n_slots));
            i = i + 1;
        }
        proof {
            lemma_rebuilt_links_ok(cells, n_cells, n_slots);
        }
        Ok(())
    }

    fn get_neighbours(&self, x: i64, y: i64, z: i64) -> (r: Vec<usize>) {
        if self.x_min <= x && x <= self.x_max && self.y_min <= y && y <= self.y_max {
            let nx = slot(x, self.x_min, self.cell_size);
            let ny = slot(y, self.y_min, self.cell_size);
            proof {
                lemma_slot_le_count(x as int, self.x_min as int, self.x_max as int, self.cell_size as int);
                lemma_slot_le_count(y as int, self.y_min as int, self.y_max as int, self.cell_size as int);
            }
            let w = self.no_x_cells as i128;
            let h = self.no_y_cells as i128;
            assert(ny * w <= w * h) by (nonlinear_arith)
                requires
                    ny <= h,
                    0 <= w,
            ;
            assert(w * h == self.total_no_cells);
            assert(ny <= h && nx <= w);
            let c = (ny as i128) * w + (nx as i128);
            let left = c - 1;
            let below = c - w;
            let above = c + w;
            let cells = vec![c, left, c + 1, below, below - 1, below + 1, above, above - 1, above + 1];
            assert(cells@.map_values(|v: i128| v as int) =~= plane_stencil(self.flat_index(x, y), w as int));
            gather_cells(&self.head, &self.next, &cells)
        } else {
            Vec::new()
        }
    }
}

} // verus!
