use herpooles::geometry::{Point, Vector, SCALE};

#[test]
fn mul_scalar_vec() {
    let v = Vector { x: 2000, y: 3000 };
    let result = v.clone() * 3000;
    let expected = Vector { x: 6000, y: 9000 };
    assert_eq!(result.x, expected.x);
    assert_eq!(result.y, expected.y);
}

#[test]
fn add_vec_to_point() {
    let v = Vector { x: 2000, y: 3000 };
    let p = Point { x: 1000, y: 1000 };
    let res = p + v;
    let expected = Point { x: 3000, y: 4000 };
    assert_eq!(res.x, expected.x);
    assert_eq!(res.y, expected.y);
}

#[test]
fn unit_vec() {
    let v = Vector { x: 4000, y: 3000 };
    let expected = Vector { x: 800, y: 600 };
    assert_eq!(v.unit_vec().x, expected.x);
    assert_eq!(v.unit_vec().y, expected.y);
}

#[test]
fn mul_truncates_toward_zero() {
    let v = Vector { x: -1001, y: 1001 };
    let r = v * 500;
    assert_eq!(r, Vector { x: -500, y: 500 });
}

#[test]
fn unit_vec_of_negative_components_keeps_signs() {
    let v = Vector { x: -4000, y: -3000 };
    assert_eq!(v.unit_vec(), Vector { x: -800, y: -600 });
}

#[test]
fn unit_vec_of_zero_is_zero() {
    let v = Vector { x: 0, y: 0 };
    assert_eq!(v.unit_vec(), Vector { x: 0, y: 0 });
}

#[test]
fn unit_vec_of_tiny_diagonal() {
    // Length sqrt(2) fixed-point steps: each component is SCALE / sqrt(2), rounded down.
    let v = Vector { x: 1, y: 1 };
    assert_eq!(v.unit_vec(), Vector { x: 707, y: 707 });
}

#[test]
fn unit_vec_has_unit_length_within_rounding() {
    let cases = [
        Vector { x: 1, y: 1 },
        Vector { x: 1, y: 0 },
        Vector { x: 0, y: -7 },
        Vector { x: 3, y: -5 },
        Vector { x: 123_456_789, y: -987_654_321 },
        Vector { x: -2_000_000_000_000, y: 2_000_000_000_000 },
        Vector { x: 2_000_000_000_000, y: 1 },
    ];
    for v in cases.iter() {
        let u = v.unit_vec();
        let len_sq = u.x * u.x + u.y * u.y;
        assert!(len_sq >= (SCALE - 2) * (SCALE - 2), "{:?} -> {:?}", v, u);
        assert!(len_sq < (SCALE + 1) * (SCALE + 1), "{:?} -> {:?}", v, u);
    }
}

#[test]
fn translate_by_vector_between_round_trips() {
    let pairs = [
        (Point { x: 0, y: 0 }, Point { x: 500_000, y: -20_500 }),
        (Point { x: -1_000_000_000_000, y: 1_000_000_000_000 }, Point { x: 1_000_000_000_000, y: -1_000_000_000_000 }),
        (Point { x: 42, y: 42 }, Point { x: 42, y: 42 }),
    ];
    for (p, q) in pairs.iter() {
        let v = Vector::new(*p, *q);
        assert_eq!(*p + v, *q);
    }
}

#[test]
fn vector_between_points() {
    let v = Vector::new(Point { x: 1000, y: 5000 }, Point { x: 4000, y: 1000 });
    assert_eq!(v, Vector { x: 3000, y: -4000 });
}
