use guidance::{Scalar, Vector3};

#[test]
fn scalar_holds_thousandths() {
    assert_eq!(Scalar::new(1500).unwrap().thousandths(), 1500);
    assert_eq!(Scalar::new(-1).unwrap().thousandths(), -1);
    assert_eq!(Scalar::new(0).unwrap().thousandths(), 0);
}

#[test]
fn scalar_within_limit() {
    assert!(Scalar::new(0x4000_0000).is_some());
    assert!(Scalar::new(-0x4000_0000).is_some());
    assert!(Scalar::new(0x4000_0001).is_none());
    assert!(Scalar::new(-0x4000_0001).is_none());
    assert!(Scalar::new(i32::MAX).is_none());
    assert!(Scalar::new(i32::MIN).is_none());
}

#[test]
fn vector_widens_to_its_components() {
    let v = Vector3::new(
        Scalar::new(1).unwrap(),
        Scalar::new(-2).unwrap(),
        Scalar::new(3).unwrap(),
    );
    let w = v.widen();
    assert_eq!((w.x, w.y, w.z), (1, -2, 3));
}

#[test]
fn dot_product() {
    let a = Vector3::new(
        Scalar::new(1).unwrap(),
        Scalar::new(2).unwrap(),
        Scalar::new(3).unwrap(),
    );
    let b = Vector3::new(
        Scalar::new(-4).unwrap(),
        Scalar::new(5).unwrap(),
        Scalar::new(6).unwrap(),
    );
    assert_eq!(a.dot(&b), 24);
    assert_eq!(b.dot(&a), 24);
    assert_eq!(a.dot(&a), 14);
}
