//! Dimensionality of the simulated world and the record layout that
//! follows from it.
//!
//! A world is configured once as two- or three-dimensional; the choice
//! fixes how many scalars a pose and the velocities carry, and with them
//! the stride of one record in the transform mirror buffer: 13 scalars in
//! three dimensions (3 translation + 4 quaternion + 3 linear velocity +
//! 3 angular velocity), 6 in two (2 + 1 angle + 2 + 1).
use vstd::prelude::*;

verus! {

/// The dimensionality a world is configured with; never mixed within one
/// running instance.
#[derive(Clone, Copy, PartialEq, Eq, Structural, Debug)]
pub enum Dim {
    Dim2,
    Dim3,
}

impl Dim {
    /// Number of scalars in a translation vector or a linear velocity.
    pub open spec fn spec_tdim(self) -> int {
        match self {
            Dim::Dim2 => 2,
            Dim::Dim3 => 3,
        }
    }

    /// Number of scalars in an orientation: one angle or one quaternion.
    pub open spec fn spec_rdim(self) -> int {
        match self {
            Dim::Dim2 => 1,
            Dim::Dim3 => 4,
        }
    }

    /// Number of scalars in an angular velocity.
    pub open spec fn spec_adim(self) -> int {
        match self {
            Dim::Dim2 => 1,
            Dim::Dim3 => 3,
        }
    }

    /// Number of scalars in a principal-inertia frame: a quaternion in
    /// three dimensions, nothing in two.
    pub open spec fn spec_fdim(self) -> int {
        match self {
            Dim::Dim2 => 0,
            Dim::Dim3 => 4,
        }
    }

    /// Scalars per entity record in the transform mirror buffer:
    /// translation, then orientation, then linear, then angular velocity.
    pub open spec fn spec_stride(self) -> int {
        self.spec_tdim() + self.spec_rdim() + self.spec_tdim() + self.spec_adim()
    }

    /// The stride as an executable count: 6 in two dimensions, 13 in three.
    pub fn stride(self) -> (r: usize)
        ensures
            r == self.spec_stride(),
    {
        match self {
            Dim::Dim2 => 6,
            Dim::Dim3 => 13,
        }
    }
}

/// A fixed-length tuple of scalars (a point, a vector or an orientation),
/// each held as a 32-bit IEEE-754 bit pattern.
#[derive(Clone, PartialEq, Debug)]
pub struct RawVector {
    pub coords: Vec<u32>,
}

impl RawVector {
    /// A vector of translation width for the given dimensionality.
    pub open spec fn wf(self, dim: Dim) -> bool {
        self.coords@.len() == dim.spec_tdim()
    }

    pub fn new(coords: Vec<u32>) -> (r: RawVector)
        ensures
            r.coords@ == coords@,
    {
        RawVector { coords }
    }
}

/// Copies a sequence of scalars into a fresh vector; the store hands out
/// copies rather than aliases of its mirrored state.
pub fn copy_scalars(src: &Vec<u32>) -> (r: Vec<u32>)
    ensures
        r@ == src@,
{
    let mut r: Vec<u32> = Vec::new();
    let mut j: usize = 0;
    while j < src.len()
        invariant
            j <= src@.len(),
            r@ == src@.subrange(0, j as int),
        decreases src@.len() - j,
    {
        r.push(src[j]);
        proof {
            assert(r@ == src@.subrange(0, j + 1 as int));
        }
        j = j + 1;
    }
    proof {
        assert(src@.subrange(0, src@.len() as int) == src@);
    }
    r
}

} // verus!
