//! The planet lab's triangle mesh: vertex positions and index triples.
use vstd::prelude::*;

verus! {

#[verifier::external_type_specification]
#[verifier::external_body]
pub struct ExVec3(glam::Vec3);

/// A triangle mesh: positions, and triangles as triples of 0-based indices
/// into them.
pub struct Mesh {
    pub positions: Vec<glam::Vec3>,
    pub indices: Vec<[u32; 3]>,
}

impl Mesh {
    /// The mesh of `positions` and `indices`.
    pub fn new(positions: Vec<glam::Vec3>, indices: Vec<[u32; 3]>) -> (m: Self)
        ensures
            m.positions@ == positions@,
            m.indices@ == indices@,
    {
        Self { positions, indices }
    }
}

} // verus!
