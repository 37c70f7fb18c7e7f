use vstd::prelude::*;
use crate::vector::Vector2D;
use crate::math::SCALE;

verus! {

/// Number of gradient directions in the fixed palette.
pub const PALETTE_LEN: usize = 24;

/// The fixed gradient palette: 24 pre-normalized unit vectors evenly spaced
/// at 15-degree increments, stored fixed-point at scale `SCALE`. Every
/// lattice cell holds one of these, so one random draw per cell suffices.
pub open spec fn palette_spec(i: int) -> Vector2D {
    if i == 0 {
        Vector2D { x: 1000, y: 0 }
    } else if i == 1 {
        Vector2D { x: 966, y: 259 }
    } else if i == 2 {
        Vector2D { x: 866, y: 500 }
    } else if i == 3 {
        Vector2D { x: 707, y: 707 }
    } else if i == 4 {
        Vector2D { x: 500, y: 866 }
    } else if i == 5 {
        Vector2D { x: 259, y: 966 }
    } else if i == 6 {
        Vector2D { x: 0, y: 1000 }
    } else if i == 7 {
        Vector2D { x: -259i64, y: 966 }
    } else if i == 8 {
        Vector2D { x: -500i64, y: 866 }
    } else if i == 9 {
        Vector2D { x: -707i64, y: 707 }
    } else if i == 10 {
        Vector2D { x: -866i64, y: 500 }
    } else if i == 11 {
        Vector2D { x: -966i64, y: 259 }
    } else if i == 12 {
        Vector2D { x: -1000i64, y: 0 }
    } else if i == 13 {
        Vector2D { x: -966i64, y: -259i64 }
    } else if i == 14 {
        Vector2D { x: -866i64, y: -500i64 }
    } else if i == 15 {
        Vector2D { x: -707i64, y: -707i64 }
    } else if i == 16 {
        Vector2D { x: -500i64, y: -866i64 }
    } else if i == 17 {
        Vector2D { x: -259i64, y: -966i64 }
    } else if i == 18 {
        Vector2D { x: 0, y: -1000i64 }
    } else if i == 19 {
        Vector2D { x: 259, y: -966i64 }
    } else if i == 20 {
        Vector2D { x: 500, y: -866i64 }
    } else if i == 21 {
        Vector2D { x: 707, y: -707i64 }
    } else if i == 22 {
        Vector2D { x: 866, y: -500i64 }
    } else {
        Vector2D { x: 966, y: -259i64 }
    }
}

/// Whether a vector is one of the 24 palette gradients.
pub open spec fn in_palette(v: Vector2D) -> bool {
    exists|i: int| 0 <= i < PALETTE_LEN && v == palette_spec(i)
}

/// Every palette gradient has components within `[-SCALE, SCALE]` and
/// squared norm within a quarter percent of `SCALE * SCALE`: the palette
/// really is a table of (fixed-point) unit vectors.
pub proof fn lemma_palette_unit(v: Vector2D)
    requires
        in_palette(v),
    ensures
        -SCALE <= v.x <= SCALE,
        -SCALE <= v.y <= SCALE,
        999698 <= v.x * v.x + v.y * v.y <= 1000237,
{
    let i = choose|i: int| 0 <= i < PALETTE_LEN && v == palette_spec(i);
    assert(0 <= i < 24 && v == palette_spec(i));
    let a: int = if v.x >= 0 { v.x as int } else { -(v.x as int) };
    let b: int = if v.y >= 0 { v.y as int } else { -(v.y as int) };
    assert((a == 1000 && b == 0) || (a == 966 && b == 259) || (a == 866 && b == 500) || (a == 707
        && b == 707) || (a == 500 && b == 866) || (a == 259 && b == 966) || (a == 0 && b == 1000));
    assert(v.x * v.x == a * a && v.y * v.y == b * b) by (nonlinear_arith)
        requires
            a == if v.x >= 0 { v.x as int } else { -(v.x as int) },
            b == if v.y >= 0 { v.y as int } else { -(v.y as int) },
    ;
    assert(999698 <= a * a + b * b <= 1000237) by (nonlinear_arith)
        requires
            (a == 1000 && b == 0) || (a == 966 && b == 259) || (a == 866 && b == 500) || (a == 707
                && b == 707) || (a == 500 && b == 866) || (a == 259 && b == 966) || (a == 0 && b
                == 1000),
    ;
}

/// Looks a gradient up in the palette table.
pub fn palette_vector(i: usize) -> (r: Vector2D)
    requires
        i < PALETTE_LEN,
    ensures
        r == palette_spec(i as int),
        in_palette(r),
{
    let r: Vector2D = if i == 0 {
        Vector2D { x: 1000, y: 0 }
    } else if i == 1 {
        Vector2D { x: 966, y: 259 }
    } else if i == 2 {
        Vector2D { x: 866, y: 500 }
    } else if i == 3 {
        Vector2D { x: 707, y: 707 }
    } else if i == 4 {
        Vector2D { x: 500, y: 866 }
    } else if i == 5 {
        Vector2D { x: 259, y: 966 }
    } else if i == 6 {
        Vector2D { x: 0, y: 1000 }
    } else if i == 7 {
        Vector2D { x: -259, y: 966 }
    } else if i == 8 {
        Vector2D { x: -500, y: 866 }
    } else if i == 9 {
        Vector2D { x: -707, y: 707 }
    } else if i == 10 {
        Vector2D { x: -866, y: 500 }
    } else if i == 11 {
        Vector2D { x: -966, y: 259 }
    } else if i == 12 {
        Vector2D { x: -1000, y: 0 }
    } else if i == 13 {
        Vector2D { x: -966, y: -259 }
    } else if i == 14 {
        Vector2D { x: -866, y: -500 }
    } else if i == 15 {
        Vector2D { x: -707, y: -707 }
    } else if i == 16 {
        Vector2D { x: -500, y: -866 }
    } else if i == 17 {
        Vector2D { x: -259, y: -966 }
    } else if i == 18 {
        Vector2D { x: 0, y: -1000 }
    } else if i == 19 {
        Vector2D { x: 259, y: -966 }
    } else if i == 20 {
        Vector2D { x: 500, y: -866 }
    } else if i == 21 {
        Vector2D { x: 707, y: -707 }
    } else if i == 22 {
        Vector2D { x: 866, y: -500 }
    } else {
        Vector2D { x: 966, y: -259 }
    };
    proof {
        assert(r == palette_spec(i as int));
        assert(in_palette(r)) by {
            assert(0 <= (i as int) && (i as int) < PALETTE_LEN && r == palette_spec(i as int));
        }
    }
    r
}

} // verus!
