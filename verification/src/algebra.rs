use vstd::prelude::*;

verus! {

/// What a triangle holds: the indices of its three corner points and of its material.
pub struct TriangleView {
    pub v0: usize,
    pub v1: usize,
    pub v2: usize,
    pub material: usize,
}

/// A triangle of a mesh: three indices into the mesh's points, and the index of its
/// material in the mesh's material colours.
#[derive(Clone, Copy, Debug)]
pub struct Triangle {
    v0: usize,
    v1: usize,
    v2: usize,
    mat_idx: usize,
}

impl View for Triangle {
    type V = TriangleView;

    closed spec fn view(&self) -> TriangleView {
        TriangleView { v0: self.v0, v1: self.v1, v2: self.v2, material: self.mat_idx }
    }
}

impl Triangle {
    /// The triangle with corners `v0`, `v1`, `v2` and the default material, index 0.
    pub fn new(v0: usize, v1: usize, v2: usize) -> (t: Self)
        ensures
            t@ == (TriangleView { v0, v1, v2, material: 0 }),
    {
        Triangle { v0, v1, v2, mat_idx: 0 }
    }

    /// The triangle with corners `v0`, `v1`, `v2` and material `mat_idx`.
    pub fn with_material(v0: usize, v1: usize, v2: usize, mat_idx: usize) -> (t: Self)
        ensures
            t@ == (TriangleView { v0, v1, v2, material: mat_idx }),
    {
        Triangle { v0, v1, v2, mat_idx }
    }

    /// The indices of the three corners.
    pub fn return_indices(&self) -> (idx: (usize, usize, usize))
        ensures
            idx == (self@.v0, self@.v1, self@.v2),
    {
        (self.v0, self.v1, self.v2)
    }

    /// The index of the material.
    pub fn return_mat_idx(&self) -> (m: usize)
        ensures
            m == self@.material,
    {
        self.mat_idx
    }
}

} // verus!
