//! Vector arithmetic over fixed-point scalars.

use ray_tracer::fixed::{FX_ONE, FX_TWO, FX_HALF};
use ray_tracer::vec3::Vec3;

#[test]
fn componentwise_arithmetic() {
    let a = Vec3::new(FX_ONE, 2 * FX_ONE, 3 * FX_ONE);
    let b = Vec3::new(FX_HALF, FX_ONE, -FX_ONE);
    assert_eq!(a.add(&b), Vec3::new(98304, 3 * FX_ONE, 2 * FX_ONE));
    assert_eq!(a.sub(&b), Vec3::new(32768, FX_ONE, 4 * FX_ONE));
    assert_eq!(a.neg(), Vec3::new(-FX_ONE, -2 * FX_ONE, -3 * FX_ONE));
    assert_eq!(a.mul(&b), Vec3::new(32768, 2 * FX_ONE, -3 * FX_ONE));
    assert_eq!(a.scale(FX_TWO), Vec3::new(2 * FX_ONE, 4 * FX_ONE, 6 * FX_ONE));
    assert_eq!(a.div(FX_TWO), Vec3::new(32768, FX_ONE, 98304));
}

#[test]
fn dot_cross_and_length() {
    let a = Vec3::new(3 * FX_ONE, 4 * FX_ONE, 0);
    assert_eq!(a.dot(&a), 25 * FX_ONE);
    assert_eq!(a.length(), 5 * FX_ONE);

    let x = Vec3::new(FX_ONE, 0, 0);
    let y = Vec3::new(0, FX_ONE, 0);
    assert_eq!(x.cross(&y), Vec3::new(0, 0, FX_ONE));
    assert_eq!(y.cross(&x), Vec3::new(0, 0, -FX_ONE));
    assert_eq!(x.dot(&y), 0);
}

#[test]
fn unit_vector_divides_by_the_length() {
    let a = Vec3::new(2 * FX_ONE, 0, 0);
    assert_eq!(a.unit_vector(), Vec3::new(FX_ONE, 0, 0));
    let b = Vec3::new(0, -3 * FX_ONE, 0);
    assert_eq!(b.unit_vector(), Vec3::new(0, -FX_ONE, 0));
}

#[test]
fn make_unit_vector_rescales_by_the_squared_length() {
    // This in-place rescaling divides by the squared length (not the
    // length), so a vector of length 2 ends up with length 1/2.
    let mut a = Vec3::new(2 * FX_ONE, 0, 0);
    a.make_unit_vector();
    assert_eq!(a, Vec3::new(FX_HALF, 0, 0));
    // A vector that already has unit length is unchanged.
    let mut b = Vec3::new(0, FX_ONE, 0);
    b.make_unit_vector();
    assert_eq!(b, Vec3::new(0, FX_ONE, 0));
}
