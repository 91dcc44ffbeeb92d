use zesty_engine2::math_utils::vector::{Vector, Vector2, Vector3, Vector4};
use zesty_engine2::object::Mesh;

#[test]
fn vector_accessors() {
    let mut v: Vector3<i32> = Vector::new([1, 2, 3]);
    assert_eq!((v.x(), v.y(), v.z()), (1, 2, 3));
    v.set_x(7);
    v.set_y(8);
    v.set_z(9);
    assert_eq!(v.array(), &[7, 8, 9]);
}

#[test]
fn vector_one() {
    let v: Vector4<f32> = Vector::one();
    assert_eq!(v.array(), &[1.0, 1.0, 1.0, 1.0]);
    let w: Vector2<usize> = Vector::one();
    assert_eq!(w, Vector2::new([1, 1]));
}

#[test]
fn mesh_from_buffers_groups_by_three() {
    let positions = [0.0_f32, 1.0, 2.0, 3.0, 4.0, 5.0, 6.0];
    let indices = [0_u32, 1, 0, 1, 1, 0, 9];
    let mesh = Mesh::from_buffers(&positions, &indices);

    assert_eq!(mesh.vertices, vec![Vector3::new([0.0, 1.0, 2.0]), Vector3::new([3.0, 4.0, 5.0])]);
    assert_eq!(mesh.faces, vec![[0, 1, 0], [1, 1, 0]]);
}

#[test]
fn mesh_new_is_empty() {
    let mesh: Mesh<f32> = Mesh::new();
    assert!(mesh.vertices.is_empty());
    assert!(mesh.faces.is_empty());
}
