use perlin_field::math::smoothstep;
use perlin_field::math::isqrt;
use perlin_field::vector::Vector2D;

#[test]
fn smoothstep_endpoints_and_midpoint() {
    // f(0) == 0, f(1) == 1, f(0.5) == 0.5 at scale 1000
    assert_eq!(smoothstep(0), 0);
    assert_eq!(smoothstep(1000), 1000);
    assert_eq!(smoothstep(500), 500);
}

#[test]
fn smoothstep_monotone_on_unit_interval() {
    let mut prev: i64 = 0;
    let mut t: i64 = 0;
    while t <= 1000 {
        let cur = smoothstep(t);
        assert!(cur >= prev, "smoothstep decreased at t={}", t);
        assert!((0..=1000).contains(&cur));
        prev = cur;
        t += 1;
    }
}

#[test]
fn isqrt_exact_squares_and_neighbors() {
    assert_eq!(isqrt(0), 0);
    assert_eq!(isqrt(1), 1);
    assert_eq!(isqrt(2), 1);
    assert_eq!(isqrt(999999), 999);
    assert_eq!(isqrt(1000000), 1000);
    assert_eq!(isqrt(u64::MAX), 4294967295);
}

#[test]
fn normalized_of_three_four_five_triangle() {
    // (3, 4) at scale 1000: length 5000, normalized (600, 800), unit length
    let v = Vector2D { x: 3000, y: 4000 };
    assert_eq!(v.length(), 5000);
    let n = v.normalized();
    assert_eq!(n, Vector2D { x: 600, y: 800 });
    assert_eq!(n.length(), 1000);
}

#[test]
fn normalized_zero_vector_is_zero() {
    let z = Vector2D { x: 0, y: 0 };
    assert_eq!(z.length(), 0);
    assert_eq!(z.normalized(), Vector2D { x: 0, y: 0 });
}

#[test]
fn normalized_length_within_tolerance() {
    // all sorts of directions and magnitudes, from a single grid step up to
    // the component limit: every nonzero vector normalizes to unit length
    // within 3 parts in 1000
    let samples = [
        (1i64, 0i64),
        (1, 1),
        (2, -3),
        (-499, 1),
        (501, 0),
        (-702, 33),
        (40000, -1),
        (123456, 654321),
        (-250000, -250000),
        (1, 700),
        (1073741824, 1073741824),
    ];
    for (x, y) in samples {
        let v = Vector2D { x, y };
        let l = v.normalized().length();
        assert!(
            (997..=1001).contains(&l),
            "normalized length {} out of tolerance for ({}, {})",
            l,
            x,
            y
        );
    }
}

#[test]
fn normalized_widens_tiny_vectors() {
    // a single-grid-step diagonal keeps its direction: (1, 1) is widened
    // before the division, so it normalizes like any other diagonal
    assert_eq!(Vector2D { x: 1, y: 1 }.normalized(), Vector2D { x: 707, y: 707 });
    assert_eq!(Vector2D { x: 1, y: 0 }.normalized(), Vector2D { x: 1000, y: 0 });
    assert_eq!(Vector2D { x: 0, y: -1 }.normalized(), Vector2D { x: 0, y: -1000 });
    assert_eq!(Vector2D { x: 2, y: -3 }.normalized(), Vector2D { x: 554, y: -832 });
}

#[test]
fn normalized_is_idempotent_within_rounding() {
    let samples = [(1i64, 1i64), (2, -3), (3000, 4000), (-702, 33), (123456, 654321)];
    for (x, y) in samples {
        let n1 = Vector2D { x, y }.normalized();
        let n2 = n1.normalized();
        assert!((n2.x - n1.x).abs() <= 3, "x drifted for ({}, {})", x, y);
        assert!((n2.y - n1.y).abs() <= 3, "y drifted for ({}, {})", x, y);
    }
}

#[test]
fn dot_stays_in_cosine_band() {
    // cosine similarity never leaves [-1, 1] by more than rounding,
    // whatever the operand magnitudes
    let samples = [
        (1i64, 1i64),
        (1, 0),
        (2, -3),
        (3000, 4000),
        (-702, 33),
        (123456, 654321),
        (-250000, -250000),
    ];
    for a in samples {
        for b in samples {
            let d = Vector2D { x: a.0, y: a.1 }.dot(&Vector2D { x: b.0, y: b.1 });
            assert!(
                (-1005..=1005).contains(&d),
                "dot {} out of cosine band for {:?} . {:?}",
                d,
                a,
                b
            );
        }
    }
    // a vector with itself: cosine 1 within rounding, even at one grid step
    assert_eq!(Vector2D { x: 1, y: 1 }.dot(&Vector2D { x: 1, y: 1 }), 999);
}

#[test]
fn dot_fast_of_unit_vectors() {
    let a = Vector2D { x: 1000, y: 0 };
    let b = Vector2D { x: 0, y: 1000 };
    let c = Vector2D { x: 707, y: 707 };
    // orthogonal unit vectors: cosine 0
    assert_eq!(a.dot_fast(&b), 0);
    // parallel unit vectors: cosine 1
    assert_eq!(a.dot_fast(&a), 1000);
    // 45 degrees: cosine ~ 0.707
    assert_eq!(a.dot_fast(&c), 707);
    // anti-parallel: cosine -1
    assert_eq!(a.dot_fast(&Vector2D { x: -1000, y: 0 }), -1000);
}

#[test]
fn dot_normalizes_its_operands() {
    // dot normalizes first, so magnitudes do not matter
    let long_x = Vector2D { x: 5000, y: 0 };
    let long_y = Vector2D { x: 0, y: 123000 };
    assert_eq!(long_x.dot(&long_y), 0);
    assert_eq!(long_x.dot(&Vector2D { x: 9000, y: 0 }), 1000);
    // matches dot_fast on the already-normalized operands
    let a = Vector2D { x: 3000, y: 4000 };
    let b = Vector2D { x: -4000, y: 3000 };
    assert_eq!(a.dot(&b), a.normalized().dot_fast(&b.normalized()));
    // magnitude invariance down to a single grid step: (1, 1) and
    // (5000, 5000) point the same way and produce the same cosines
    let tiny = Vector2D { x: 1, y: 1 };
    let long = Vector2D { x: 5000, y: 5000 };
    assert_eq!(tiny.normalized(), long.normalized());
    assert_eq!(tiny.dot(&b), long.dot(&b));
}
