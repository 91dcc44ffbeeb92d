//! Mesh geometry: vertex positions and triangular faces.

use vstd::prelude::*;

use crate::math_utils::vector::{lemma_vector_len, Vector, Vector3};

verus! {

broadcast use lemma_vector_len;

/// A triangle, as three indices into a mesh's vertices.
pub type Face = [u32; 3];

/// Vertex positions and the triangular faces over them.
pub struct Mesh<T> {
    pub vertices: Vec<Vector3<T>>,
    pub faces: Vec<Face>,
}

impl<T: Copy> Mesh<T> {
    pub fn new() -> (m: Self)
        ensures
            m.vertices@.len() == 0,
            m.faces@.len() == 0,
    {
        Mesh { vertices: Vec::new(), faces: Vec::new() }
    }

    /// Builds a mesh from flat buffers: each three consecutive coordinates
    /// make a vertex and each three consecutive indices a face. A trailing
    /// incomplete group is ignored.
    pub fn from_buffers(positions: &[T], indices: &[u32]) -> (m: Self)
        ensures
            m.vertices@.len() == positions@.len() / 3,
            forall|i: int|
                0 <= i < m.vertices@.len() ==> #[trigger] m.vertices@[i]@ == seq![
                    positions@[3 * i],
                    positions@[3 * i + 1],
                    positions@[3 * i + 2],
                ],
            m.faces@.len() == indices@.len() / 3,
            forall|i: int|
                0 <= i < m.faces@.len() ==> #[trigger] m.faces@[i]@ == seq![
                    indices@[3 * i],
                    indices@[3 * i + 1],
                    indices@[3 * i + 2],
                ],
    {
        let mut mesh = Mesh::new();
        let n_faces = indices.len() / 3;
        let mut i: usize = 0;
        while i < n_faces
            invariant
                n_faces == indices@.len() / 3,
                indices@.len() <= usize::MAX,
                i <= n_faces,
                mesh.vertices@.len() == 0,
                mesh.faces@.len() == i,
                forall|k: int|
                    0 <= k < i ==> #[trigger] mesh.faces@[k]@ == seq![
                        indices@[3 * k],
                        indices@[3 * k + 1],
                        indices@[3 * k + 2],
                    ],
            decreases n_faces - i,
        {
            assert(3 * i + 2 < indices@.len());
            let face = [indices[i * 3], indices[i * 3 + 1], indices[i * 3 + 2]];
            mesh.faces.push(face);
            i += 1;
        }
        let n_vertices = positions.len() / 3;
        let mut i: usize = 0;
        while i < n_vertices
            invariant
                n_vertices == positions@.len() / 3,
                positions@.len() <= usize::MAX,
                i <= n_vertices,
                mesh.faces@.len() == indices@.len() / 3,
                forall|k: int|
                    0 <= k < mesh.faces@.len() ==> #[trigger] mesh.faces@[k]@ == seq![
                        indices@[3 * k],
                        indices@[3 * k + 1],
                        indices@[3 * k + 2],
                    ],
                mesh.vertices@.len() == i,
                forall|k: int|
                    0 <= k < i ==> #[trigger] mesh.vertices@[k]@ == seq![
                        positions@[3 * k],
                        positions@[3 * k + 1],
                        positions@[3 * k + 2],
                    ],
            decreases n_vertices - i,
        {
            assert(3 * i + 2 < positions@.len());
            let vertex = Vector::new([positions[i * 3], positions[i * 3 + 1], positions[i * 3 + 2]]);
            mesh.vertices.push(vertex);
            i += 1;
        }
        mesh
    }
}

} // verus!
