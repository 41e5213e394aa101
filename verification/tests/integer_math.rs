use crystal_surface_generator::integer_basis::{
    find_primitive_in_plane_basis, find_stacking_vector,
};
use crystal_surface_generator::linalg::IVec3;
use crystal_surface_generator::number::gcd;
use crystal_surface_generator::reduction::reduce_2d_integer;
use crystal_surface_generator::structure::SurfaceError;

fn dot(h: i64, k: i64, l: i64, v: IVec3) -> i64 {
    h * v.x + k * v.y + l * v.z
}

fn gcd3_abs(v: IVec3) -> i64 {
    gcd(gcd(v.x, v.y), v.z)
}

#[test]
fn basis_100_is_orthogonal_and_primitive() {
    let (u, v) = find_primitive_in_plane_basis(1, 0, 0).unwrap();
    assert_eq!(dot(1, 0, 0, u), 0);
    assert_eq!(dot(1, 0, 0, v), 0);
    assert_eq!(gcd3_abs(u), 1);
    assert_eq!(gcd3_abs(v), 1);
    assert_eq!(u, IVec3 { x: 0, y: -1, z: 0 });
    assert_eq!(v, IVec3 { x: 0, y: 0, z: -1 });
}

#[test]
fn basis_111_is_orthogonal_and_primitive() {
    let (u, v) = find_primitive_in_plane_basis(1, 1, 1).unwrap();
    assert_eq!(dot(1, 1, 1, u), 0);
    assert_eq!(dot(1, 1, 1, v), 0);
    assert_eq!(gcd3_abs(u), 1);
    assert_eq!(gcd3_abs(v), 1);
}

#[test]
fn basis_310_high_index() {
    let (u, v) = find_primitive_in_plane_basis(3, 1, 0).unwrap();
    assert_eq!(dot(3, 1, 0, u), 0);
    assert_eq!(dot(3, 1, 0, v), 0);
    assert_eq!(gcd3_abs(u), 1);
    assert_eq!(gcd3_abs(v), 1);
    // the vectors span the plane: their cross product is non-zero
    let cx = u.y * v.z - u.z * v.y;
    let cy = u.z * v.x - u.x * v.z;
    let cz = u.x * v.y - u.y * v.x;
    assert!(cx != 0 || cy != 0 || cz != 0);
}

#[test]
fn basis_001_along_z_switches_trial_vector() {
    let (u, v) = find_primitive_in_plane_basis(0, 0, 2).unwrap();
    assert_eq!(dot(0, 0, 2, u), 0);
    assert_eq!(dot(0, 0, 2, v), 0);
    assert_eq!(gcd3_abs(u), 1);
    assert_eq!(gcd3_abs(v), 1);
}

#[test]
fn basis_zero_triple_is_degenerate() {
    let r = find_primitive_in_plane_basis(0, 0, 0);
    assert_eq!(r.unwrap_err(), SurfaceError::DegenerateIndices);
}

#[test]
fn stacking_vector_100() {
    let w = find_stacking_vector(1, 0, 0);
    assert_eq!(dot(1, 0, 0, w), 1);
    assert_eq!(w, IVec3 { x: 1, y: -10, z: -10 });
}

#[test]
fn stacking_vector_222_meets_gcd() {
    let w = find_stacking_vector(2, 2, 2);
    assert_eq!(dot(2, 2, 2, w), 2);
}

#[test]
fn gcd_basics() {
    assert_eq!(gcd(12, 18), 6);
    assert_eq!(gcd(-12, 18), 6);
    assert_eq!(gcd(0, 0), 0);
    assert_eq!(gcd(7, 0), 7);
}

#[test]
fn reduce_2d_shortens_pair() {
    let u = IVec3 { x: 1, y: 0, z: 0 };
    let v = IVec3 { x: 3, y: 1, z: 0 };
    let (a, b) = reduce_2d_integer(u, v);
    let na = a.x * a.x + a.y * a.y + a.z * a.z;
    let nb = b.x * b.x + b.y * b.y + b.z * b.z;
    let d = a.x * b.x + a.y * b.y + a.z * b.z;
    assert!(na <= nb);
    assert!(2 * d.abs() <= na);
    assert_eq!(a, IVec3 { x: 1, y: 0, z: 0 });
    assert_eq!(b, IVec3 { x: 0, y: 1, z: 0 });
}

#[test]
fn reduce_2d_zero_first_vector_soft_fails() {
    let u = IVec3 { x: 0, y: 0, z: 0 };
    let v = IVec3 { x: 2, y: 1, z: 0 };
    let (a, b) = reduce_2d_integer(u, v);
    assert_eq!(a, IVec3 { x: 0, y: 0, z: 0 });
    assert_eq!(b, IVec3 { x: 2, y: 1, z: 0 });
}

#[test]
fn reduce_2d_already_reduced_pair_is_kept() {
    let u = IVec3 { x: 0, y: -1, z: 0 };
    let v = IVec3 { x: 0, y: 0, z: -1 };
    let (a, b) = reduce_2d_integer(u, v);
    let na = a.x * a.x + a.y * a.y + a.z * a.z;
    let d = a.x * b.x + a.y * b.y + a.z * b.z;
    assert!(2 * d.abs() <= na);
    assert_eq!(a, IVec3 { x: 0, y: -1, z: 0 });
    assert_eq!(b, IVec3 { x: 0, y: 0, z: -1 });
}

#[test]
fn reduce_2d_multiple_iterations() {
    let u = IVec3 { x: 5, y: 3, z: 0 };
    let v = IVec3 { x: 8, y: 5, z: 0 };
    let (a, b) = reduce_2d_integer(u, v);
    assert_eq!(a, IVec3 { x: -1, y: 0, z: 0 });
    assert_eq!(b, IVec3 { x: 0, y: -1, z: 0 });
    // the reduced pair still spans the whole plane: determinant +-1
    let det = a.x * b.y - a.y * b.x;
    assert_eq!(det.abs(), 1);
}
