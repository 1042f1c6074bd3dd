//! Racking: the sixteen balls and their initial triangular layout.
//!
//! The rack pins every ball exactly: index `i` carries id `rack_id(i)` and
//! type `rack_btype(i)`, the first fifteen stand at the triangle position of
//! slot `rack_slot(i)` (the head ball and the eight ball are moved into
//! place after the triangle is laid out), and the cue waits at the origin.

use vstd::prelude::*;

use crate::ball::{Ball, BallState, BallType, PhysicsConfig, PARAM_LIMIT, POS_LIMIT};
use crate::num::{isqrt_u128, lemma_mul_bounds, lemma_sqrt_floor_bounds, mul_i128, sqrt_floor};
use crate::vec2::Vec2;

verus! {

/// Ball type by number: 1 to 7 solids, 8 the eight ball, 9 to 15 stripes,
/// anything else the cue.
pub open spec fn btype_of_number(n: int) -> BallType {
    if 1 <= n <= 7 {
        BallType::SOLID
    } else if n == 8 {
        BallType::EIGHT
    } else if 9 <= n <= 15 {
        BallType::STRIPED
    } else {
        BallType::CUE
    }
}

pub fn assign_btype(n: usize) -> (t: BallType)
    ensures
        t == btype_of_number(n as int),
{
    if 1 <= n && n <= 7 {
        BallType::SOLID
    } else if n == 8 {
        BallType::EIGHT
    } else if 9 <= n && n <= 15 {
        BallType::STRIPED
    } else {
        BallType::CUE
    }
}

/// Triangle row of a flat slot: the back row of five is laid out first.
pub open spec fn rack_row(i: int) -> int {
    if i < 5 {
        5
    } else if i < 9 {
        4
    } else if i < 12 {
        3
    } else if i < 14 {
        2
    } else {
        1
    }
}

/// Offset of a flat slot within its triangle row.
pub open spec fn rack_col(i: int) -> int {
    if i < 5 {
        i
    } else if i < 9 {
        i - 5
    } else if i < 12 {
        i - 9
    } else if i < 14 {
        i - 12
    } else {
        0
    }
}

/// Horizontal triangle position of a slot: balls of a row sit two radii
/// apart, each row indented one radius from the one behind it.
pub open spec fn triangle_x(i: int, radius: int) -> int {
    radius * (rack_row(i) + 2 * rack_col(i))
}

/// Vertical triangle position of a slot: row `row` sits at height
/// `radius * (1 + row * sqrt(3))`, rounded down to the integer grid.
pub open spec fn triangle_y(i: int, radius: int) -> int {
    radius + sqrt_floor((3 * (rack_row(i) * radius) * (rack_row(i) * radius)) as nat) as int
}

/// The triangle slot whose position ball index `i` finally occupies: the
/// head-of-triangle ball trades places with ball index 14, and the balls at
/// indices 7 and 10 are swapped whole so the eight ball sits centrally.
pub open spec fn rack_slot(i: int) -> int {
    if i == 0 {
        14
    } else if i == 14 {
        0
    } else if i == 7 {
        10
    } else if i == 10 {
        7
    } else {
        i
    }
}

/// The ball number at rack index `i`: numbers run 1 to 16 in order, except
/// that the swap of indices 7 and 10 carries the numbers along.
pub open spec fn rack_id(i: int) -> int {
    if i == 7 {
        11
    } else if i == 10 {
        8
    } else {
        i + 1
    }
}

/// The ball type at rack index `i` after the rack's rearrangement.
pub open spec fn rack_btype(i: int) -> BallType {
    if i == 0 {
        BallType::STRIPED
    } else if i <= 6 {
        BallType::SOLID
    } else if i == 10 {
        BallType::EIGHT
    } else if i == 14 {
        BallType::SOLID
    } else if i == 15 {
        BallType::CUE
    } else {
        BallType::STRIPED
    }
}

/// Row and offset of a flat rack slot, as executable values.
fn triangle_slot(idx: usize) -> (rj: (usize, usize))
    requires
        idx < 15,
    ensures
        rj.0 == rack_row(idx as int),
        rj.1 == rack_col(idx as int),
        1 <= rj.0 <= 5,
        rj.1 < rj.0,
{
    if idx < 5 {
        (5, idx)
    } else if idx < 9 {
        (4, idx - 5)
    } else if idx < 12 {
        (3, idx - 9)
    } else if idx < 14 {
        (2, idx - 12)
    } else {
        (1, 0)
    }
}

/// Place the first fifteen balls at their triangle slots; the ball at index
/// 15 is left where it is.
fn apply_triangle(balls: &mut Vec<Ball>, radius: i64)
    requires
        old(balls)@.len() == 16,
        1 <= radius <= PARAM_LIMIT,
    ensures
        final(balls)@.len() == 16,
        forall|i: int|
            0 <= i < 16 ==> {
                let b = #[trigger] final(balls)@[i];
                let o = old(balls)@[i];
                b.id == o.id && b.btype == o.btype && b.bstate == o.bstate && b.v == o.v && b.dir
                    == o.dir && b.speed == o.speed
            },
        forall|i: int|
            0 <= i < 15 ==> (#[trigger] final(balls)@[i]).r.x == triangle_x(i, radius as int)
                && final(balls)@[i].r.y == triangle_y(i, radius as int),
        forall|i: int|
            0 <= i < 15 ==> -POS_LIMIT <= (#[trigger] final(balls)@[i]).r.x <= POS_LIMIT
                && -POS_LIMIT <= final(balls)@[i].r.y <= POS_LIMIT,
        final(balls)@[15] == old(balls)@[15],
{
    let mut idx: usize = 0;
    while idx < 15
        invariant
            balls@.len() == 16,
            1 <= radius <= PARAM_LIMIT,
            idx <= 15,
            forall|i: int|
                0 <= i < 16 ==> {
                    let b = #[trigger] balls@[i];
                    let o = old(balls)@[i];
                    b.id == o.id && b.btype == o.btype && b.bstate == o.bstate && b.v == o.v
                        && b.dir == o.dir && b.speed == o.speed
                },
            forall|i: int| idx <= i < 16 ==> (#[trigger] balls@[i]).r == old(balls)@[i].r,
            forall|i: int|
                0 <= i < idx ==> (#[trigger] balls@[i]).r.x == triangle_x(i, radius as int)
                    && balls@[i].r.y == triangle_y(i, radius as int),
            forall|i: int|
                0 <= i < idx ==> -POS_LIMIT <= (#[trigger] balls@[i]).r.x <= POS_LIMIT
                    && -POS_LIMIT <= balls@[i].r.y <= POS_LIMIT,
        decreases 15 - idx,
    {
        let (row, j) = triangle_slot(idx);
        let rr: i128 = mul_i128(row as i128, radius as i128);
        proof {
            lemma_mul_bounds(row as int, radius as int, 5, PARAM_LIMIT as int);
        }
        let three_rr_sq: i128 = mul_i128(3 * rr, rr);
        proof {
            lemma_mul_bounds(3 * (rr as int), rr as int, 251_658_240, 83_886_080);
        }
        let root: u128 = isqrt_u128(three_rr_sq as u128);
        proof {
            assert((root as int) * (root as int) <= three_rr_sq);
            assert(root as int <= 1_000_000_000_000) by (nonlinear_arith)
                requires
                    (root as int) * (root as int) <= three_rr_sq,
                    0 <= three_rr_sq <= 3 * 83_886_080 * 83_886_080,
            ;
        }
        let y: i64 = radius + (root as i64);
        let x128: i128 = mul_i128(radius as i128, (row as i128) + 2 * (j as i128));
        proof {
            lemma_mul_bounds(radius as int, (row as int) + 2 * (j as int), PARAM_LIMIT as int, 13);
        }
        let x: i64 = x128 as i64;
        let mut b = balls[idx];
        b.r = Vec2 { x, y };
        balls.set(idx, b);
        idx += 1;
    }
}

/// Move the one ball to the head of the triangle and spread the types, as
/// the standard rack asks.
fn sort_balls(balls: &mut Vec<Ball>)
    requires
        old(balls)@.len() == 16,
    ensures
        final(balls)@.len() == 16,
        final(balls)@[0] == (Ball {
            r: old(balls)@[14].r,
            btype: BallType::STRIPED,
            ..old(balls)@[0]
        }),
        final(balls)@[14] == (Ball {
            r: old(balls)@[0].r,
            btype: BallType::SOLID,
            ..old(balls)@[14]
        }),
        final(balls)@[7] == old(balls)@[10],
        final(balls)@[10] == old(balls)@[7],
        final(balls)@[15] == old(balls)@[15],
        forall|i: int|
            0 <= i < 16 && i != 0 && i != 7 && i != 10 && i != 14
                ==> #[trigger] final(balls)@[i] == old(balls)@[i],
{
    let r_tmp = balls[0].r;
    let mut b0 = balls[0];
    b0.r = balls[14].r;
    b0.btype = BallType::STRIPED;
    balls.set(0, b0);
    let mut b14 = balls[14];
    b14.r = r_tmp;
    b14.btype = BallType::SOLID;
    balls.set(14, b14);
    let b7 = balls[7];
    let b10 = balls[10];
    balls.set(7, b10);
    balls.set(10, b7);
}

/// The sixteen balls of a fresh rack, every one of them pinned exactly:
/// index `i` carries id `rack_id(i)` and type `rack_btype(i)` — 7 solids,
/// 7 stripes, the eight ball and the cue — every ball is at rest, the first
/// fifteen stand at their triangle slots, and the cue is at the origin.
pub fn rack(radius: i64) -> (balls: Vec<Ball>)
    requires
        1 <= radius <= PARAM_LIMIT,
    ensures
        balls@.len() == 16,
        forall|i: int|
            0 <= i < 16 ==> {
                let b = #[trigger] balls@[i];
                b.id == rack_id(i) && b.btype == rack_btype(i) && b.speed == 0 && b.bstate
                    == BallState::STATIONARY && b.v == Vec2::zero_spec() && b.dir
                    == Vec2::zero_spec()
            },
        forall|i: int|
            0 <= i < 15 ==> (#[trigger] balls@[i]).r.x == triangle_x(rack_slot(i), radius as int)
                && balls@[i].r.y == triangle_y(rack_slot(i), radius as int),
        balls@[15].r == Vec2::zero_spec(),
        forall|i: int, cfg: PhysicsConfig|
            0 <= i < 16 && cfg.wf() ==> (#[trigger] balls@[i].wf(cfg)),
{
    let mut balls: Vec<Ball> = Vec::new();
    let mut n: usize = 1;
    while n <= 16
        invariant
            1 <= n <= 17,
            balls@.len() == n - 1,
            forall|i: int|
                0 <= i < n - 1 ==> {
                    let b = #[trigger] balls@[i];
                    b.id == i + 1 && b.btype == btype_of_number(i + 1) && b.speed == 0 && b.bstate
                        == BallState::STATIONARY && b.r == Vec2::zero_spec() && b.v
                        == Vec2::zero_spec() && b.dir == Vec2::zero_spec()
                },
            forall|i: int, cfg: PhysicsConfig|
                0 <= i < n - 1 && cfg.wf() ==> (#[trigger] balls@[i].wf(cfg)),
        decreases 17 - n,
    {
        let btype = assign_btype(n);
        balls.push(Ball::new(n, btype));
        n += 1;
    }
    apply_triangle(&mut balls, radius);
    sort_balls(&mut balls);
    proof {
        assert forall|i: int, cfg: PhysicsConfig|
            0 <= i < 16 && cfg.wf() implies (#[trigger] balls@[i].wf(cfg)) by {
        }
    }
    balls
}

/// The height of a triangle row grows strictly with the row number.
proof fn lemma_row_height_strict(rho1: int, rho2: int, radius: int)
    requires
        1 <= rho1 < rho2 <= 5,
        1 <= radius <= PARAM_LIMIT,
    ensures
        sqrt_floor((3 * (rho1 * radius) * (rho1 * radius)) as nat) < sqrt_floor(
            (3 * (rho2 * radius) * (rho2 * radius)) as nat,
        ),
{
    let v1 = 3 * (rho1 * radius) * (rho1 * radius);
    let v2 = 3 * (rho2 * radius) * (rho2 * radius);
    assert(0 <= v1 && 0 <= v2 && v1 <= v2) by (nonlinear_arith)
        requires
            v1 == 3 * (rho1 * radius) * (rho1 * radius),
            v2 == 3 * (rho2 * radius) * (rho2 * radius),
            1 <= rho1 < rho2 <= 5,
            1 <= radius,
    ;
    let g1 = sqrt_floor(v1 as nat);
    let g2 = sqrt_floor(v2 as nat);
    lemma_sqrt_floor_bounds(v1 as nat);
    lemma_sqrt_floor_bounds(v2 as nat);
    assert(g1 <= 2 * rho1 * radius) by (nonlinear_arith)
        requires
            g1 * g1 <= v1,
            v1 == 3 * (rho1 * radius) * (rho1 * radius),
            1 <= rho1,
            1 <= radius,
            g1 >= 0,
    ;
    assert((g1 + 1) * (g1 + 1) <= v2) by (nonlinear_arith)
        requires
            g1 * g1 <= v1,
            g1 <= 2 * rho1 * radius,
            v1 == 3 * (rho1 * radius) * (rho1 * radius),
            v2 == 3 * (rho2 * radius) * (rho2 * radius),
            1 <= rho1,
            rho2 >= rho1 + 1,
            1 <= radius,
            g1 >= 0,
    ;
    assert(g1 < g2) by (nonlinear_arith)
        requires
            (g1 + 1) * (g1 + 1) <= v2,
            v2 < (g2 + 1) * (g2 + 1),
            g1 >= 0,
            g2 >= 0,
    ;
}

/// Law: the fifteen triangle slots hold fifteen distinct positions. Two
/// slots of the same row are a whole number of diameters apart in `x`, so
/// their centers never come closer than one diameter; slots of different
/// rows sit at strictly different heights.
pub proof fn lemma_rack_positions_distinct(a: int, b: int, radius: int)
    requires
        0 <= a < 15,
        0 <= b < 15,
        a != b,
        1 <= radius <= PARAM_LIMIT,
    ensures
        triangle_x(a, radius) != triangle_x(b, radius) || triangle_y(a, radius) != triangle_y(
            b,
            radius,
        ),
        rack_row(a) == rack_row(b) ==> ({
            let dx = triangle_x(a, radius) - triangle_x(b, radius);
            dx * dx >= (2 * radius) * (2 * radius)
        }),
{
    if rack_row(a) == rack_row(b) {
        assert(rack_col(a) != rack_col(b));
        assert(({
            let dx = triangle_x(a, radius) - triangle_x(b, radius);
            dx * dx >= (2 * radius) * (2 * radius) && dx != 0
        })) by (nonlinear_arith)
            requires
                triangle_x(a, radius) == radius * (rack_row(a) + 2 * rack_col(a)),
                triangle_x(b, radius) == radius * (rack_row(b) + 2 * rack_col(b)),
                rack_row(a) == rack_row(b),
                rack_col(a) != rack_col(b),
                1 <= radius,
        ;
    } else if rack_row(a) < rack_row(b) {
        lemma_row_height_strict(rack_row(a), rack_row(b), radius);
    } else {
        lemma_row_height_strict(rack_row(b), rack_row(a), radius);
    }
}

} // verus!
