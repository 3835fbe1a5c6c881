//! Particle coordinates and radii, one entry per particle.
use vstd::prelude::*;

verus! {

/// The positions and radii of a set of particles, as parallel arrays.
pub struct ParticleArray {
    pub x: Vec<i64>,
    pub y: Vec<i64>,
    pub z: Vec<i64>,
    pub radius: Vec<i64>,
}

/// `n` zeros.
fn zeros(n: usize) -> (v: Vec<i64>)
    ensures
        v@ == Seq::new(n as nat, |i: int| 0i64),
{
    let mut v: Vec<i64> = Vec::with_capacity(n);
    let mut i: usize = 0;
    while i < n
        invariant
            i <= n,
            v@ == Seq::new(i as nat, |j: int| 0i64),
        decreases n - i,
    {
        v.push(0);
        i = i + 1;
        assert(v@ =~= Seq::new(i as nat, |j: int| 0i64));
    }
    v
}

impl ParticleArray {
    /// `total_no_particles` particles, all at the origin with radius zero.
    pub fn new(total_no_particles: usize) -> (r: Self)
        ensures
            r.x@ == Seq::new(total_no_particles as nat, |i: int| 0i64),
            r.y@ == Seq::new(total_no_particles as nat, |i: int| 0i64),
            r.z@ == Seq::new(total_no_particles as nat, |i: int| 0i64),
            r.radius@ == Seq::new(total_no_particles as nat, |i: int| 0i64),
    {
        ParticleArray {
            x: zeros(total_no_particles),
            y: zeros(total_no_particles),
            z: zeros(total_no_particles),
            radius: zeros(total_no_particles),
        }
    }

    /// Particles with the given coordinates and radii.
    pub fn from_xyz_rad(x: &[i64], y: &[i64], z: &[i64], radius: &[i64]) -> (r: Self)
        ensures
            r.x@ == x@,
            r.y@ == y@,
            r.z@ == z@,
            r.radius@ == radius@,
    {
        ParticleArray {
            x: vstd::slice::slice_to_vec(x),
            y: vstd::slice::slice_to_vec(y),
            z: vstd::slice::slice_to_vec(z),
            radius: vstd::slice::slice_to_vec(radius),
        }
    }
}

} // verus!
