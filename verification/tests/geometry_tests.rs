use slime_battle::geom::{apply_offset, dist2_exec, isqrt, midpoint_exec, offset_toward_exec, Pos};

#[test]
fn isqrt_exact_values() {
    assert_eq!(isqrt(0), 0);
    assert_eq!(isqrt(1), 1);
    assert_eq!(isqrt(99), 9);
    assert_eq!(isqrt(100), 10);
    assert_eq!(isqrt(101), 10);
    assert_eq!(isqrt(2_500_000_000), 50_000);
}

#[test]
fn dist2_exact() {
    let a = Pos { x: 3_000, y: 4_000 };
    let b = Pos { x: 0, y: 0 };
    assert_eq!(dist2_exec(a, b), 25_000_000);
}

#[test]
fn offset_axis_aligned_is_exact() {
    // Along an axis the displacement magnitude equals the requested one
    // exactly.
    let from = Pos { x: 0, y: 0 };
    let to = Pos { x: 50_000, y: 0 };
    let off = offset_toward_exec(from, to, 30_000);
    assert_eq!(off, Pos { x: 30_000, y: 0 });
    let back = offset_toward_exec(to, from, 30_000);
    assert_eq!(back, Pos { x: -30_000, y: 0 });
    let up = offset_toward_exec(from, Pos { x: 0, y: -1 }, 7);
    assert_eq!(up, Pos { x: 0, y: -7 });
}

#[test]
fn offset_never_exceeds_magnitude() {
    let from = Pos { x: 0, y: 0 };
    let to = Pos { x: 33_333, y: -71_111 };
    let off = offset_toward_exec(from, to, 10_000);
    assert!(off.x.abs() <= 10_000);
    assert!(off.y.abs() <= 10_000);
    // And it points in the right quadrant.
    assert!(off.x > 0 && off.y < 0);
}

#[test]
fn offset_zero_for_coincident_points() {
    let p = Pos { x: 5, y: 5 };
    assert_eq!(offset_toward_exec(p, p, 9_999), Pos { x: 0, y: 0 });
}

#[test]
fn apply_offset_clamps_at_world_edge() {
    let p = Pos { x: 99_999_999, y: 0 };
    let q = apply_offset(p, Pos { x: 5_000, y: 0 });
    assert_eq!(q.x, 100_000_000);
}

#[test]
fn midpoint_rounds_toward_zero() {
    let a = Pos { x: -3, y: 3 };
    let b = Pos { x: 0, y: 0 };
    assert_eq!(midpoint_exec(a, b), Pos { x: -1, y: 1 });
    assert_eq!(
        midpoint_exec(Pos { x: 10, y: 20 }, Pos { x: 30, y: 40 }),
        Pos { x: 20, y: 30 }
    );
}
