//! Uniform-grid neighbour search for particles in two or three dimensions.
//!
//! Coordinates are integers in a length unit of the caller's choosing. A
//! grid covers a rectangle (or box) of the plane (or space), cut into square
//! (or cubic) cells of one size. Registration sorts particle indices into the
//! cells; a query lists the particles of the block of cells round a point.
use vstd::prelude::*;

pub mod geometry;
pub mod linked_cells;
pub mod nbs2d;
pub mod nbs3d;
pub mod octree_nnps;
pub mod particle_array;

verus! {

/// Why a grid could not be built, or particles could not be registered.
#[derive(Debug, Clone, Copy, PartialEq, Eq, Structural)]
pub enum NnpsError {
    /// The cell size is larger than the domain along some axis.
    CellSizeExceedsDomain,
    /// The coordinate sequences differ in length, or hold more particles
    /// than the grid was sized for.
    LengthMismatch,
}

/// What a neighbour-search grid offers, whatever its dimension.
pub trait NNPS: Sized {
    /// The grid's arrays agree with its geometry and its chains are sound.
    spec fn well_formed(&self) -> bool;

    /// Registration takes these coordinate sequences.
    spec fn accepts(&self, x: Seq<i64>, y: Seq<i64>, z: Seq<i64>) -> bool;

    /// `self` is what registering `x`, `y`, `z` into `before` gives.
    spec fn rebuilt_from(&self, before: &Self, x: Seq<i64>, y: Seq<i64>, z: Seq<i64>) -> bool;

    /// The point lies in the domain, bounds included.
    spec fn in_domain(&self, x: i64, y: i64, z: i64) -> bool;

    /// The particles that a query at the point lists, in order.
    spec fn neighbours(&self, x: i64, y: i64, z: i64) -> Seq<usize>;

    /// Rebuilds the cell chains from scratch for the particles whose
    /// coordinates are given, one entry per particle and axis.
    fn register_particles_to_nnps(&mut self, x: &[i64], y: &[i64], z: &[i64]) -> (r: Result<
        (),
        NnpsError,
    >)
        requires
            old(self).well_formed(),
        ensures
            final(self).well_formed(),
            r is Ok <==> old(self).accepts(x@, y@, z@),
            r is Ok ==> final(self).rebuilt_from(old(self), x@, y@, z@),
            r is Err ==> *final(self) == *old(self) && r == Err::<(), NnpsError>(
                NnpsError::LengthMismatch,
            ),
    ;

    /// The particles registered in the block of cells round the point.
    fn get_neighbours(&self, x: i64, y: i64, z: i64) -> (r: Vec<usize>)
        requires
            self.well_formed(),
        ensures
            r@ == self.neighbours(x, y, z),
            !self.in_domain(x, y, z) ==> r@.len() == 0,
    ;
}

} // verus!
