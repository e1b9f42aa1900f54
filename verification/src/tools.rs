//! Painting tool geometry and edits: lines of cells, snapshots of tile regions
//! for undo, rectangle fills and flood fills on a tile layer.

use vstd::prelude::*;
use crate::ids::Uuid;
use crate::layer::{Layer, LayerData};
use crate::layout::u32_as_i32;
use crate::level::Level;
use crate::editor_project::{Project, last_index_of, level_keys, tileset_keys};
use crate::flood::{flood_cells, flooded};

verus! {

/// The sign step toward a target coordinate: 1 when `from < to`, otherwise -1.
pub open spec fn step_toward(from: int, to: int) -> int {
    if from < to { 1 } else { -1 }
}

/// The absolute value of `v`.
pub open spec fn abs(v: int) -> int {
    if v < 0 { -v } else { v }
}

/// One step of Bresenham's line walk from (x, y) with error term `err`
/// toward (x1, y1); `dx = |x1 - x0|`, `dy = -|y1 - y0|`. `None` when the walk
/// stops at this point.
pub open spec fn bresenham_step(
    x: int,
    y: int,
    err: int,
    x1: int,
    y1: int,
    dx: int,
    dy: int,
    sx: int,
    sy: int,
) -> Option<(int, int, int)> {
    if x == x1 && y == y1 {
        None
    } else {
        let e2 = 2 * err;
        if e2 >= dy && x == x1 {
            None
        } else {
            let (x2, err2) = if e2 >= dy { (x + sx, err + dy) } else { (x, err) };
            if e2 <= dx && y == y1 {
                None
            } else {
                let (y2, err3) = if e2 <= dx { (y + sy, err2 + dx) } else { (y, err2) };
                Some((x2, y2, err3))
            }
        }
    }
}

/// The points Bresenham's walk visits from (x, y) with error `err`, at most
/// `fuel` of them after the first.
pub open spec fn bresenham_from(
    x: int,
    y: int,
    err: int,
    x1: int,
    y1: int,
    dx: int,
    dy: int,
    sx: int,
    sy: int,
    fuel: nat,
) -> Seq<(int, int)>
    decreases fuel,
{
    match bresenham_step(x, y, err, x1, y1, dx, dy, sx, sy) {
        None => seq![(x, y)],
        Some((x2, y2, err2)) => if fuel == 0 {
            seq![(x, y)]
        } else {
            seq![(x, y)] + bresenham_from(x2, y2, err2, x1, y1, dx, dy, sx, sy, (fuel - 1) as nat)
        },
    }
}

/// The cells of Bresenham's line from (x0, y0) to (x1, y1), in order.
pub open spec fn spec_bresenham(x0: int, y0: int, x1: int, y1: int) -> Seq<(int, int)> {
    let dx = abs(x1 - x0);
    let dy = -abs(y1 - y0);
    bresenham_from(
        x0,
        y0,
        dx + dy,
        x1,
        y1,
        dx,
        dy,
        step_toward(x0, x1),
        step_toward(y0, y1),
        (dx - dy) as nat,
    )
}

/// Where the walk stands after `i` steps in x and `j` steps in y from (x0, y0).
pub open spec fn walk_state(x0: int, y0: int, x1: int, y1: int, i: int, j: int) -> (int, int, int) {
    let a = abs(x1 - x0);
    let b = abs(y1 - y0);
    (x0 + step_toward(x0, x1) * i, y0 + step_toward(y0, y1) * j, (j + 1) * a - (i + 1) * b)
}

/// Each step of the walk that has not reached the end moves one cell toward
/// the end in x, in y, or in both, and keeps the error term in step with the
/// cells walked.
proof fn lemma_walk_step(x0: int, y0: int, x1: int, y1: int, i: int, j: int)
    requires
        0 <= i <= abs(x1 - x0),
        0 <= j <= abs(y1 - y0),
        !(i == abs(x1 - x0) && j == abs(y1 - y0)),
    ensures
        ({
            let (x, y, err) = walk_state(x0, y0, x1, y1, i, j);
            let a = abs(x1 - x0);
            let b = abs(y1 - y0);
            match bresenham_step(x, y, err, x1, y1, a, -b, step_toward(x0, x1), step_toward(y0, y1)) {
                Some((x2, y2, err2)) => exists|i2: int, j2: int|
                    (i2 == i || i2 == i + 1) && (j2 == j || j2 == j + 1) && i2 + j2 > i + j && i2
                        <= a && j2 <= b && (x2, y2, err2) == walk_state(x0, y0, x1, y1, i2, j2),
                None => false,
            }
        }),
{
    let a = abs(x1 - x0);
    let b = abs(y1 - y0);
    let sx = step_toward(x0, x1);
    let sy = step_toward(y0, y1);
    let (x, y, err) = walk_state(x0, y0, x1, y1, i, j);
    let e2 = 2 * err;
    assert(x == x1 <==> i == a) by {
        if x1 >= x0 {
            if x0 < x1 {
                assert(sx == 1);
            }
        } else {
            assert(sx == -1);
        }
    }
    assert(y == y1 <==> j == b) by {
        if y1 >= y0 {
            if y0 < y1 {
                assert(sy == 1);
            }
        } else {
            assert(sy == -1);
        }
    }
    if i == a {
        assert(j < b);
        assert(e2 < -b) by (nonlinear_arith)
            requires
                e2 == 2 * ((j + 1) * a - (i + 1) * b),
                i == a,
                0 <= j < b,
                a >= 0,
        ;
    }
    if j == b {
        assert(i < a);
        assert(e2 > a) by (nonlinear_arith)
            requires
                e2 == 2 * ((j + 1) * a - (i + 1) * b),
                j == b,
                0 <= i < a,
                b >= 0,
        ;
    }
    let i2 = if e2 >= -b { i + 1 } else { i };
    let j2 = if e2 <= a { j + 1 } else { j };
    let err2 = err + (if e2 >= -b { -b } else { 0 }) + (if e2 <= a { a } else { 0 });
    assert(err2 == (j2 + 1) * a - (i2 + 1) * b) by (nonlinear_arith)
        requires
            err == (j + 1) * a - (i + 1) * b,
            i2 == i || i2 == i + 1,
            j2 == j || j2 == j + 1,
            err2 == err + (if i2 == i + 1 { -b } else { 0 }) + (if j2 == j + 1 { a } else { 0 }),
    ;
    assert(x0 + sx * i2 == (if e2 >= -b { x + sx } else { x })) by (nonlinear_arith)
        requires
            x == x0 + sx * i,
            i2 == (if e2 >= -b { i + 1 } else { i }),
    ;
    assert(y0 + sy * j2 == (if e2 <= a { y + sy } else { y })) by (nonlinear_arith)
        requires
            y == y0 + sy * j,
            j2 == (if e2 <= a { j + 1 } else { j }),
    ;
    assert((x0 + sx * i2, y0 + sy * j2, err2) == walk_state(x0, y0, x1, y1, i2, j2));
}

/// Whether `q` is one cell from `p`, moved by `sx` in x, by `sy` in y, or both.
pub open spec fn moves_toward(p: (int, int), q: (int, int), sx: int, sy: int) -> bool {
    ||| (q.0 == p.0 + sx && q.1 == p.1)
    ||| (q.0 == p.0 && q.1 == p.1 + sy)
    ||| (q.0 == p.0 + sx && q.1 == p.1 + sy)
}

/// Whether `s` is a line walk from `start` to `end`: it starts at `start`,
/// ends at `end`, and each point is one step from the previous one toward the end.
pub open spec fn is_walk(s: Seq<(int, int)>, start: (int, int), end: (int, int), sx: int, sy: int) -> bool {
    &&& s.len() > 0
    &&& s[0] == start
    &&& s.last() == end
    &&& forall|k: int| 0 <= k < s.len() - 1 ==> moves_toward(#[trigger] s[k], s[k + 1], sx, sy)
}

proof fn lemma_walk_from(x0: int, y0: int, x1: int, y1: int, i: int, j: int, fuel: nat)
    requires
        0 <= i <= abs(x1 - x0),
        0 <= j <= abs(y1 - y0),
        fuel >= abs(x1 - x0) + abs(y1 - y0) - i - j,
    ensures
        ({
            let (x, y, err) = walk_state(x0, y0, x1, y1, i, j);
            is_walk(
                bresenham_from(
                    x,
                    y,
                    err,
                    x1,
                    y1,
                    abs(x1 - x0),
                    -abs(y1 - y0),
                    step_toward(x0, x1),
                    step_toward(y0, y1),
                    fuel,
                ),
                (x, y),
                (x1, y1),
                step_toward(x0, x1),
                step_toward(y0, y1),
            )
        }),
    decreases fuel,
{
    let a = abs(x1 - x0);
    let b = abs(y1 - y0);
    let sx = step_toward(x0, x1);
    let sy = step_toward(y0, y1);
    let (x, y, err) = walk_state(x0, y0, x1, y1, i, j);
    if i == a && j == b {
        assert(x == x1) by {
            if x0 < x1 {
            } else {
            }
        }
        assert(y == y1) by {
            if y0 < y1 {
            } else {
            }
        }
    } else {
        lemma_walk_step(x0, y0, x1, y1, i, j);
        let (x2, y2, err2) = bresenham_step(x, y, err, x1, y1, a, -b, sx, sy)->0;
        let (i2, j2) = choose|i2: int, j2: int|
            (i2 == i || i2 == i + 1) && (j2 == j || j2 == j + 1) && i2 + j2 > i + j && i2 <= a
                && j2 <= b && (x2, y2, err2) == walk_state(x0, y0, x1, y1, i2, j2);
        assert(fuel > 0);
        lemma_walk_from(x0, y0, x1, y1, i2, j2, (fuel - 1) as nat);
        let rest = bresenham_from(x2, y2, err2, x1, y1, a, -b, sx, sy, (fuel - 1) as nat);
        let whole = bresenham_from(x, y, err, x1, y1, a, -b, sx, sy, fuel);
        assert(whole == seq![(x, y)] + rest);
        assert(x2 == x0 + sx * i2 && x == x0 + sx * i);
        assert(moves_toward((x, y), (x2, y2), sx, sy)) by {
            assert(x2 == x + sx || x2 == x) by (nonlinear_arith)
                requires
                    x2 == x0 + sx * i2,
                    x == x0 + sx * i,
                    i2 == i || i2 == i + 1,
            ;
            assert(y2 == y + sy || y2 == y) by (nonlinear_arith)
                requires
                    y2 == y0 + sy * j2,
                    y == y0 + sy * j,
                    j2 == j || j2 == j + 1,
            ;
            assert(x2 == x + sx <==> i2 == i + 1) by (nonlinear_arith)
                requires
                    x2 == x0 + sx * i2,
                    x == x0 + sx * i,
                    i2 == i || i2 == i + 1,
                    sx == 1 || sx == -1,
            ;
            assert(y2 == y + sy <==> j2 == j + 1) by (nonlinear_arith)
                requires
                    y2 == y0 + sy * j2,
                    y == y0 + sy * j,
                    j2 == j || j2 == j + 1,
                    sy == 1 || sy == -1,
            ;
        }
        assert forall|k: int| 0 <= k < whole.len() - 1 implies moves_toward(
            #[trigger] whole[k],
            whole[k + 1],
            sx,
            sy,
        ) by {
            if k > 0 {
                assert(whole[k] == rest[k - 1]);
                assert(whole[k + 1] == rest[k]);
            }
        }
    }
}

proof fn lemma_walk_start(x0: int, y0: int, x1: int, y1: int)
    ensures
        walk_state(x0, y0, x1, y1, 0, 0) == (x0, y0, abs(x1 - x0) - abs(y1 - y0)),
{
}

/// Bresenham's line from (x0, y0) to (x1, y1) starts at (x0, y0), ends at
/// (x1, y1), and moves one cell at a time toward the end: horizontally,
/// vertically or diagonally.
pub proof fn law_bresenham_walk(x0: int, y0: int, x1: int, y1: int)
    ensures
        is_walk(
            spec_bresenham(x0, y0, x1, y1),
            (x0, y0),
            (x1, y1),
            step_toward(x0, x1),
            step_toward(y0, y1),
        ),
{
    lemma_walk_from(x0, y0, x1, y1, 0, 0, (abs(x1 - x0) + abs(y1 - y0)) as nat);
    assert(walk_state(x0, y0, x1, y1, 0, 0) == (x0, y0, abs(x1 - x0) - abs(y1 - y0)));
}

/// The points of `v` as pairs of integers.
pub open spec fn int_points(v: Seq<(i32, i32)>) -> Seq<(int, int)> {
    v.map_values(|p: (i32, i32)| (p.0 as int, p.1 as int))
}

/// Bresenham's line algorithm - generates all tile coordinates along a line
pub fn bresenham_line(x0: i32, y0: i32, x1: i32, y1: i32) -> (r: Vec<(i32, i32)>)
    ensures
        int_points(r@) == spec_bresenham(x0 as int, y0 as int, x1 as int, y1 as int),
{
    let ghost gx0 = x0 as int;
    let ghost gy0 = y0 as int;
    let ghost gx1 = x1 as int;
    let ghost gy1 = y1 as int;
    let ghost a = abs(gx1 - gx0);
    let ghost b = abs(gy1 - gy0);
    let ghost sxg = step_toward(gx0, gx1);
    let ghost syg = step_toward(gy0, gy1);
    let ghost whole = spec_bresenham(gx0, gy0, gx1, gy1);
    let mut points: Vec<(i32, i32)> = Vec::new();
    let ddx: i64 = x1 as i64 - x0 as i64;
    let ddy: i64 = y1 as i64 - y0 as i64;
    let dx: i64 = if ddx < 0 { -ddx } else { ddx };
    let dy: i64 = if ddy < 0 { ddy } else { -ddy };
    let sx: i64 = if x0 < x1 { 1 } else { -1 };
    let sy: i64 = if y0 < y1 { 1 } else { -1 };
    let mut err: i64 = dx + dy;
    let mut x: i64 = x0 as i64;
    let mut y: i64 = y0 as i64;
    let ghost mut i: int = 0;
    let ghost mut j: int = 0;
    let ghost mut fuel: nat = (a + b) as nat;
    proof {
        lemma_walk_start(gx0, gy0, gx1, gy1);
    }
    loop
        invariant_except_break
            int_points(points@) + bresenham_from(
                x as int,
                y as int,
                err as int,
                gx1,
                gy1,
                a,
                -b,
                sxg,
                syg,
                fuel,
            ) == whole,
        invariant
            dx == a,
            dy == -b,
            sx == sxg,
            sy == syg,
            a == abs(gx1 - gx0),
            b == abs(gy1 - gy0),
            sxg == step_toward(gx0, gx1),
            syg == step_toward(gy0, gy1),
            gx0 == x0,
            gy0 == y0,
            gx1 == x1,
            gy1 == y1,
            whole == spec_bresenham(gx0, gy0, gx1, gy1),
            0 <= i <= a,
            0 <= j <= b,
            fuel >= a + b - i - j,
            -2 * b <= err <= 2 * a,
            (x as int, y as int, err as int) == walk_state(gx0, gy0, gx1, gy1, i, j),
        ensures
            int_points(points@) == whole,
        decreases fuel,
    {
        proof {
            assert(x == x0 + sxg * i && y == y0 + syg * j);
            assert(i32::MIN <= x <= i32::MAX) by (nonlinear_arith)
                requires
                    x == gx0 + sxg * i,
                    0 <= i <= a,
                    a == abs(gx1 - gx0),
                    sxg == step_toward(gx0, gx1),
                    i32::MIN <= gx0 <= i32::MAX,
                    i32::MIN <= gx1 <= i32::MAX,
            ;
            assert(i32::MIN <= y <= i32::MAX) by (nonlinear_arith)
                requires
                    y == gy0 + syg * j,
                    0 <= j <= b,
                    b == abs(gy1 - gy0),
                    syg == step_toward(gy0, gy1),
                    i32::MIN <= gy0 <= i32::MAX,
                    i32::MIN <= gy1 <= i32::MAX,
            ;
        }
        let ghost before = points@;
        points.push((x as i32, y as i32));
        proof {
            assert(int_points(points@) =~= int_points(before).push((x as int, y as int)));
        }
        if x == x1 as i64 && y == y1 as i64 {
            proof {
                assert(i == a && j == b) by {
                    if x0 < x1 {
                    } else {
                    }
                    if y0 < y1 {
                    } else {
                    }
                    assert(x == x0 + sxg * i && y == y0 + syg * j);
                    assert(i == a) by (nonlinear_arith)
                        requires
                            x == gx0 + sxg * i,
                            x == gx1,
                            sxg == step_toward(gx0, gx1),
                            a == abs(gx1 - gx0),
                    ;
                    assert(j == b) by (nonlinear_arith)
                        requires
                            y == gy0 + syg * j,
                            y == gy1,
                            syg == step_toward(gy0, gy1),
                            b == abs(gy1 - gy0),
                    ;
                }
                assert(int_points(points@) =~= whole);
            }
            break;
        }
        proof {
            lemma_walk_step(gx0, gy0, gx1, gy1, i, j);
        }
        let ghost step = bresenham_step(x as int, y as int, err as int, gx1, gy1, a, -b, sxg, syg);
        let ghost xo = x as int;
        let ghost yo = y as int;
        let ghost erro = err as int;
        let e2 = 2 * err;
        if e2 >= dy {
            if x == x1 as i64 {
                break;
            }
            err = err + dy;
            x = x + sx;
        }
        if e2 <= dx {
            if y == y1 as i64 {
                break;
            }
            err = err + dx;
            y = y + sy;
        }
        proof {
            let (i2, j2) = choose|i2: int, j2: int|
                (i2 == i || i2 == i + 1) && (j2 == j || j2 == j + 1) && i2 + j2 > i + j && i2 <= a
                    && j2 <= b && step->0 == walk_state(gx0, gy0, gx1, gy1, i2, j2);
            assert(step->0 == (x as int, y as int, err as int));
            let rest = bresenham_from(x as int, y as int, err as int, gx1, gy1, a, -b, sxg, syg, (fuel - 1) as nat);
            assert(fuel > 0);
            i = i2;
            j = j2;
            fuel = (fuel - 1) as nat;
            assert(bresenham_from(xo, yo, erro, gx1, gy1, a, -b, sxg, syg, (fuel + 1) as nat) == seq![(xo, yo)] + rest);
            assert(int_points(points@) + rest =~= int_points(before) + (seq![(xo, yo)] + rest));
        }
    }
    points
}

/// The tile stored for cell (x, y) of a row-major tile grid of the given
/// width: `None` past the end of `tiles` or for an empty cell.
pub open spec fn cell_tile(tiles: Seq<Option<u32>>, width: u32, x: int, y: int) -> Option<u32> {
    let idx = y * width + x;
    if 0 <= idx < tiles.len() { tiles[idx] } else { None }
}

/// Whether (x, y) lies inside a grid of the given size.
pub open spec fn in_grid(width: u32, height: u32, x: int, y: int) -> bool {
    0 <= x < as_i32_spec(width) && 0 <= y < as_i32_spec(height)
}

/// `v` read as an `i32`, as `v as i32` does.
pub open spec fn as_i32_spec(v: u32) -> int {
    crate::layout::as_i32(v)
}

/// The snapshot entries of row `y` for columns `x0..x_end` (exclusive), in
/// order, keeping only the cells inside the grid.
pub open spec fn snapshot_row(
    tiles: Seq<Option<u32>>,
    width: u32,
    height: u32,
    y: int,
    x0: int,
    x_end: int,
) -> Seq<((u32, u32), Option<u32>)>
    decreases x_end - x0,
{
    if x_end <= x0 {
        Seq::empty()
    } else {
        let before = snapshot_row(tiles, width, height, y, x0, x_end - 1);
        let x = x_end - 1;
        if in_grid(width, height, x, y) {
            before.push(((x as u32, y as u32), cell_tile(tiles, width, x, y)))
        } else {
            before
        }
    }
}

/// The snapshot entries of rows `y0..y_end` (exclusive) for columns `x0..=x1`.
pub open spec fn snapshot_rows(
    tiles: Seq<Option<u32>>,
    width: u32,
    height: u32,
    x0: int,
    x1: int,
    y0: int,
    y_end: int,
) -> Seq<((u32, u32), Option<u32>)>
    decreases y_end - y0,
{
    if y_end <= y0 {
        Seq::empty()
    } else {
        snapshot_rows(tiles, width, height, x0, x1, y0, y_end - 1) + snapshot_row(
            tiles,
            width,
            height,
            y_end - 1,
            x0,
            x1 + 1,
        )
    }
}

/// Whether every cell inside the grid has a row-major index that fits in a `u32`.
pub open spec fn grid_index_fits(width: u32, height: u32) -> bool {
    forall|x: int, y: int|
        #![trigger in_grid(width, height, x, y)]
        in_grid(width, height, x, y) ==> y * width + x <= u32::MAX
}

/// Capture a snapshot of tiles in a rectangular bounds for undo tracking:
/// every cell of the rectangle `min_x..=max_x` by `min_y..=max_y` that lies
/// inside the grid, with its tile, row by row.
pub fn capture_tile_region_bounds(
    tiles: &[Option<u32>],
    width: u32,
    height: u32,
    min_x: i32,
    min_y: i32,
    max_x: i32,
    max_y: i32,
) -> (r: Vec<((u32, u32), Option<u32>)>)
    requires
        grid_index_fits(width, height),
    ensures
        r@ == snapshot_rows(tiles@, width, height, min_x as int, max_x as int, min_y as int, max_y + 1),
{
    let w = crate::layout::u32_as_i32(width);
    let h = crate::layout::u32_as_i32(height);
    let mut snapshot: Vec<((u32, u32), Option<u32>)> = Vec::new();
    let mut y: i64 = min_y as i64;
    while y <= max_y as i64
        invariant
            min_y <= y <= max_y as int + 1 || (y == min_y && min_y > max_y),
            w == as_i32_spec(width),
            h == as_i32_spec(height),
            grid_index_fits(width, height),
            snapshot@ == snapshot_rows(tiles@, width, height, min_x as int, max_x as int, min_y as int, y as int),
        decreases max_y + 1 - y,
    {
        let ghost row_start = snapshot@;
        let mut x: i64 = min_x as i64;
        while x <= max_x as i64
            invariant
                min_y <= y <= max_y,
                min_x <= x <= max_x as int + 1 || (x == min_x && min_x > max_x),
                w == as_i32_spec(width),
                h == as_i32_spec(height),
                grid_index_fits(width, height),
                snapshot@ == row_start + snapshot_row(tiles@, width, height, y as int, min_x as int, x as int),
            decreases max_x + 1 - x,
        {
            if x >= 0 && y >= 0 && x < w as i64 && y < h as i64 {
                assert(in_grid(width, height, x as int, y as int));
                let xu = x as u32;
                let yu = y as u32;
                let idx = (yu * width + xu) as usize;
                let tile = if idx < tiles.len() { tiles[idx] } else { None };
                snapshot.push(((xu, yu), tile));
            }
            x = x + 1;
        }
        proof {
            if min_x > max_x {
                assert(snapshot_row(tiles@, width, height, y as int, min_x as int, max_x + 1) =~= Seq::empty());
            }
        }
        y = y + 1;
    }
    snapshot
}

/// Capture a snapshot of tiles in a region around a center point for undo
/// tracking: the square of the given radius around the center.
pub fn capture_tile_region(
    tiles: &[Option<u32>],
    width: u32,
    height: u32,
    center_x: i32,
    center_y: i32,
    radius: i32,
) -> (r: Vec<((u32, u32), Option<u32>)>)
    requires
        grid_index_fits(width, height),
        i32::MIN <= center_x - radius && center_x + radius <= i32::MAX,
        i32::MIN <= center_y - radius && center_y + radius <= i32::MAX,
        i32::MIN <= center_x + radius && center_x - radius <= i32::MAX,
        i32::MIN <= center_y + radius && center_y - radius <= i32::MAX,
    ensures
        r@ == snapshot_rows(
            tiles@,
            width,
            height,
            center_x - radius,
            center_x + radius,
            center_y - radius,
            center_y + radius + 1,
        ),
{
    capture_tile_region_bounds(
        tiles,
        width,
        height,
        center_x - radius,
        center_y - radius,
        center_x + radius,
        center_y + radius,
    )
}

/// Whether cell index `k` is the row-major index of a cell of the rectangle
/// `x0..=x1` by `y0..=y1` in a grid of the given width.
pub open spec fn rect_covers(width: int, x0: int, x1: int, y0: int, y1: int, k: int) -> bool {
    exists|x: int, y: int| x0 <= x <= x1 && y0 <= y <= y1 && #[trigger] (y * width + x) == k
}

/// The cells `cells` after every cell of the rectangle `x0..=x1` by `y0..=y1`
/// that lies in the vector is set to `value`.
pub open spec fn rect_filled(
    cells: Seq<Option<u32>>,
    width: int,
    x0: int,
    x1: int,
    y0: int,
    y1: int,
    value: Option<u32>,
) -> Seq<Option<u32>> {
    Seq::new(
        cells.len(),
        |k: int| if rect_covers(width, x0, x1, y0, y1, k) { value } else { cells[k] },
    )
}

/// Filling the same rectangle with the same value twice gives what one fill gives.
pub proof fn law_rect_fill_idempotent(
    cells: Seq<Option<u32>>,
    width: int,
    x0: int,
    x1: int,
    y0: int,
    y1: int,
    value: Option<u32>,
)
    ensures
        rect_filled(rect_filled(cells, width, x0, x1, y0, y1, value), width, x0, x1, y0, y1, value)
            == rect_filled(cells, width, x0, x1, y0, y1, value),
{
    assert(rect_filled(rect_filled(cells, width, x0, x1, y0, y1, value), width, x0, x1, y0, y1, value)
        =~= rect_filled(cells, width, x0, x1, y0, y1, value));
}

/// Sets every cell of the rectangle `x0..=x1` by `y0..=y1` that lies in the
/// vector to `value`.
pub(crate) fn fill_rect_cells(
    tiles: &mut Vec<Option<u32>>,
    width: u32,
    x0: u32,
    x1: u32,
    y0: u32,
    y1: u32,
    value: Option<u32>,
)
    requires
        x1 < width,
        y1 as int * width as int + x1 as int <= u32::MAX,
    ensures
        final(tiles)@ == rect_filled(old(tiles)@, width as int, x0 as int, x1 as int, y0 as int, y1 as int, value),
{
    let ghost original = tiles@;
    let mut y: u64 = y0 as u64;
    while y <= y1 as u64
        invariant
            x1 < width,
            y1 as int * width as int + x1 as int <= u32::MAX,
            y0 <= y <= y1 as int + 1 || (y == y0 && y0 > y1),
            tiles@ == rect_filled(original, width as int, x0 as int, x1 as int, y0 as int, y - 1, value),
        decreases y1 + 1 - y,
    {
        let mut x: u64 = x0 as u64;
        while x <= x1 as u64
            invariant
                x1 < width,
                y1 as int * width as int + x1 as int <= u32::MAX,
                y0 <= y <= y1,
                x0 <= x <= x1 as int + 1 || (x == x0 && x0 > x1),
                tiles@.len() == original.len(),
                forall|k: int|
                    0 <= k < original.len() ==> #[trigger] tiles@[k] == if rect_covers(
                        width as int,
                        x0 as int,
                        x1 as int,
                        y0 as int,
                        y - 1,
                        k,
                    ) || rect_covers(width as int, x0 as int, x - 1, y as int, y as int, k) {
                        value
                    } else {
                        original[k]
                    },
            decreases x1 + 1 - x,
        {
            assert(y * width + x <= u32::MAX) by (nonlinear_arith)
                requires
                    y <= y1,
                    x <= x1,
                    x1 < width,
                    y1 as int * width as int + x1 as int <= u32::MAX,
            ;
            let idx = (y as u32 * width + x as u32) as usize;
            if idx < tiles.len() {
                tiles.set(idx, value);
            }
            proof {
                assert forall|k: int| 0 <= k < original.len() implies #[trigger] tiles@[k] == if rect_covers(
                    width as int,
                    x0 as int,
                    x1 as int,
                    y0 as int,
                    y - 1,
                    k,
                ) || rect_covers(width as int, x0 as int, x as int, y as int, y as int, k) {
                    value
                } else {
                    original[k]
                } by {
                    if k == idx {
                        assert(rect_covers(width as int, x0 as int, x as int, y as int, y as int, k)) by {
                            assert((y as int) * (width as int) + (x as int) == k);
                        }
                    } else if rect_covers(width as int, x0 as int, x as int, y as int, y as int, k) {
                        let (xa, ya) = choose|xa: int, ya: int|
                            x0 <= xa <= x && y <= ya <= y && #[trigger] (ya * width + xa) == k;
                        if xa == x {
                            assert(ya == y);
                        } else {
                            assert(rect_covers(width as int, x0 as int, x - 1, y as int, y as int, k));
                        }
                    }
                }
            }
            x = x + 1;
        }
        proof {
            assert forall|k: int| 0 <= k < original.len() implies #[trigger] tiles@[k] == rect_filled(
                original,
                width as int,
                x0 as int,
                x1 as int,
                y0 as int,
                y as int,
                value,
            )[k] by {
                let before = rect_covers(width as int, x0 as int, x1 as int, y0 as int, y - 1, k);
                let row = rect_covers(width as int, x0 as int, x1 as int, y as int, y as int, k);
                let all = rect_covers(width as int, x0 as int, x1 as int, y0 as int, y as int, k);
                if all {
                    let (xa, ya) = choose|xa: int, ya: int|
                        x0 <= xa <= x1 && y0 <= ya <= y && #[trigger] (ya * width + xa) == k;
                    if ya == y {
                        assert(row);
                    } else {
                        assert(before);
                    }
                }
                if before {
                    let (xa, ya) = choose|xa: int, ya: int|
                        x0 <= xa <= x1 && y0 <= ya <= y - 1 && #[trigger] (ya * width + xa) == k;
                    assert(all);
                }
                if row {
                    let (xa, ya) = choose|xa: int, ya: int|
                        x0 <= xa <= x1 && y <= ya <= y && #[trigger] (ya * width + xa) == k;
                    assert(all);
                }
            }
            assert(tiles@ =~= rect_filled(original, width as int, x0 as int, x1 as int, y0 as int, y as int, value));
        }
        y = y + 1;
    }
    proof {
        if y0 > y1 {
            assert(rect_filled(original, width as int, x0 as int, x1 as int, y0 as int, y0 - 1, value) =~= rect_filled(original, width as int, x0 as int, x1 as int, y0 as int, y1 as int, value));
        }
    }
}

/// Whether a layer is a tile layer with at least one non-empty cell.
pub open spec fn spec_layer_has_tiles(layer: Layer) -> bool {
    match layer.data {
        LayerData::Tiles { tiles, .. } => has_some_tile(tiles@),
        LayerData::Objects { .. } => false,
    }
}

/// Whether some cell holds a tile.
pub open spec fn has_some_tile(cells: Seq<Option<u32>>) -> bool {
    exists|i: int| 0 <= i < cells.len() && #[trigger] cells[i] is Some
}

/// Check if a layer has any non-empty tiles
pub fn layer_has_tiles(layer: &Layer) -> (r: bool)
    ensures
        r == spec_layer_has_tiles(*layer),
{
    match &layer.data {
        LayerData::Tiles { tiles, .. } => {
            let mut i: usize = 0;
            while i < tiles.len()
                invariant
                    i <= tiles@.len(),
                    spec_layer_has_tiles(*layer) == has_some_tile(tiles@),
                    forall|j: int| 0 <= j < i ==> tiles@[j] is None,
                decreases tiles@.len() - i,
            {
                if tiles[i].is_some() {
                    assert(tiles@[i as int] is Some);
                    assert(has_some_tile(tiles@));
                    return true;
                }
                i = i + 1;
            }
            false
        },
        LayerData::Objects { .. } => false,
    }
}

/// Get the tileset_id for a layer
pub fn get_layer_tileset_id(layer: &Layer) -> (r: Option<Uuid>)
    ensures
        r == layer.spec_tileset_id(),
{
    layer.tileset_id()
}

/// The smaller of two integers.
pub open spec fn min_int(a: int, b: int) -> int {
    if a <= b { a } else { b }
}

/// The larger of two integers.
pub open spec fn max_int(a: int, b: int) -> int {
    if a >= b { a } else { b }
}

/// The columns (or rows) `lo..=hi` that a rectangle fill covers between two
/// corner coordinates, clamped to `0..size` (empty when `lo > hi`).
pub open spec fn fill_span(a: int, b: int, size: u32) -> (int, int) {
    (max_int(min_int(a, b), 0), min_int(max_int(a, b), as_i32_spec(size) - 1))
}

/// What a fill writes: the tile when both a tile and a tileset are selected,
/// otherwise nothing (the cells are cleared).
pub open spec fn fill_value(tile: Option<u32>, tileset: Option<Uuid>) -> Option<u32> {
    if tile is Some && tileset is Some { tile } else { None }
}

/// Whether a fill of `layer` with a selected tile and tileset is refused:
/// the layer already holds tiles of another tileset.
pub open spec fn fill_refused(layer: Layer, tile: Option<u32>, tileset: Option<Uuid>) -> bool {
    tile is Some && tileset is Some && spec_layer_has_tiles(layer) && layer.spec_tileset_id()
        != tileset
}

/// Whether `layer_idx` addresses an existing tile layer of the level.
pub open spec fn is_tile_layer_at(level: Level, layer_idx: int) -> bool {
    0 <= layer_idx < level.layers@.len() && level.layers@[layer_idx].data is Tiles
}

/// Check if the selected layer of a project's level is a Tile layer (false
/// for an Object layer, a missing layer or a missing level)
pub fn is_tile_layer(project: &Project, level_id: Uuid, layer_idx: usize) -> (r: bool)
    requires
        project.wf(),
    ensures
        r == match last_index_of(level_keys(project.levels@), level_id.value) {
            Some(i) => is_tile_layer_at(project.levels@[i], layer_idx as int),
            None => false,
        },
{
    match project.get_level(level_id) {
        Some(level) => layer_idx < level.layers.len() && match &level.layers[layer_idx].data {
            LayerData::Tiles { .. } => true,
            LayerData::Objects { .. } => false,
        },
        None => false,
    }
}

/// The tileset of the selected tile layer of the selected level, if both are
/// selected, exist, and the layer is a tile layer.
pub open spec fn selected_layer_tileset(
    project: Project,
    level_id: Option<Uuid>,
    layer_idx: Option<usize>,
) -> Option<Uuid> {
    match (level_id, layer_idx) {
        (Some(id), Some(idx)) => match last_index_of(level_keys(project.levels@), id.value) {
            Some(i) => if idx < project.levels@[i].layers@.len() {
                match project.levels@[i].layers@[idx as int].data {
                    LayerData::Tiles { tileset_id, .. } => Some(tileset_id),
                    LayerData::Objects { .. } => None,
                }
            } else {
                None
            },
            None => None,
        },
        _ => None,
    }
}

/// The tile size in pixels the viewport works with: that of the selected tile
/// layer's tileset, else of the selected tileset, else 32.
pub fn get_tile_size(
    project: &Project,
    selected_level: Option<Uuid>,
    selected_layer: Option<usize>,
    selected_tileset: Option<Uuid>,
) -> (r: u32)
    requires
        project.wf(),
    ensures
        r == match (match selected_layer_tileset(*project, selected_level, selected_layer) {
            Some(t) => Some(t),
            None => selected_tileset,
        }) {
            Some(t) => match last_index_of(tileset_keys(project.tilesets@), t.value) {
                Some(j) => project.tilesets@[j].tile_size,
                None => 32,
            },
            None => 32,
        },
{
    let mut layer_tileset: Option<Uuid> = None;
    if let (Some(id), Some(idx)) = (selected_level, selected_layer) {
        if let Some(level) = project.get_level(id) {
            if idx < level.layers.len() {
                if let LayerData::Tiles { tileset_id, .. } = &level.layers[idx].data {
                    layer_tileset = Some(*tileset_id);
                }
            }
        }
    }
    let chosen = match layer_tileset {
        Some(t) => Some(t),
        None => selected_tileset,
    };
    match chosen {
        Some(t) => match project.get_tileset(t) {
            Some(ts) => ts.tile_size,
            None => 32,
        },
        None => 32,
    }
}

/// How a rectangle fill that went ahead changes a level: only the addressed
/// tile layer changes; it takes the selected tileset when a tile and a tileset
/// are selected, and every covered cell gets the fill value.
pub open spec fn fill_rectangle_post(
    before: Level,
    after: Level,
    layer_idx: int,
    xs: (int, int),
    ys: (int, int),
    tile: Option<u32>,
    tileset: Option<Uuid>,
) -> bool {
    &&& after == (Level { layers: after.layers, ..before })
    &&& after.layers@.len() == before.layers@.len()
    &&& forall|i: int|
        0 <= i < before.layers@.len() && i != layer_idx ==> after.layers@[i]
            == before.layers@[i]
    &&& ({
        let l0 = before.layers@[layer_idx];
        let l1 = after.layers@[layer_idx];
        &&& l1.name == l0.name
        &&& l1.visible == l0.visible
        &&& l0.data matches LayerData::Tiles { tileset_id: t0, tiles: c0, occupied_cells: o0 }
        &&& l1.data matches LayerData::Tiles { tileset_id: t1, tiles: c1, occupied_cells: o1 }
        &&& o1 == o0
        &&& t1 == (if tile is Some && tileset is Some { tileset->0 } else { t0 })
        &&& c1@ == rect_filled(
            c0@,
            before.width as int,
            xs.0,
            xs.1,
            ys.0,
            ys.1,
            fill_value(tile, tileset),
        )
    })
}

/// Fill the rectangle between two corner cells on a tile layer, clamped to
/// the level. With a tile and a tileset selected the cells get that tile (an
/// empty layer first takes the tileset; a layer holding tiles of another
/// tileset is left alone); otherwise the cells are cleared. Returns whether
/// the fill went ahead.
pub fn fill_rectangle(
    level: &mut Level,
    layer_idx: usize,
    start_x: i32,
    start_y: i32,
    end_x: i32,
    end_y: i32,
    tile: Option<u32>,
    tileset: Option<Uuid>,
) -> (applied: bool)
    requires
        grid_index_fits(old(level).width, old(level).height),
        i32::MIN < as_i32_spec(old(level).width),
        i32::MIN < as_i32_spec(old(level).height),
    ensures
        applied == (is_tile_layer_at(*old(level), layer_idx as int) && !fill_refused(
            old(level).layers@[layer_idx as int],
            tile,
            tileset,
        )),
        !applied ==> *final(level) == *old(level),
        applied ==> fill_rectangle_post(
            *old(level),
            *final(level),
            layer_idx as int,
            fill_span(start_x as int, end_x as int, old(level).width),
            fill_span(start_y as int, end_y as int, old(level).height),
            tile,
            tileset,
        ),
{
    if layer_idx >= level.layers.len() {
        return false;
    }
    let is_tiles = match &level.layers[layer_idx].data {
        LayerData::Tiles { .. } => true,
        LayerData::Objects { .. } => false,
    };
    if !is_tiles {
        return false;
    }
    let has_tiles = layer_has_tiles(&level.layers[layer_idx]);
    let layer_tileset = get_layer_tileset_id(&level.layers[layer_idx]);
    let width = level.width;
    let height = level.height;
    let level_width = u32_as_i32(width);
    let level_height = u32_as_i32(height);
    let min_x = if start_x < end_x { start_x } else { end_x };
    let min_x = if min_x > 0 { min_x } else { 0 };
    let max_x = if start_x > end_x { start_x } else { end_x };
    let max_x = if max_x < level_width - 1 { max_x } else { level_width - 1 };
    let min_y = if start_y < end_y { start_y } else { end_y };
    let min_y = if min_y > 0 { min_y } else { 0 };
    let max_y = if start_y > end_y { start_y } else { end_y };
    let max_y = if max_y < level_height - 1 { max_y } else { level_height - 1 };
    let mut new_tileset: Option<Uuid> = None;
    let value: Option<u32> = match (tile, tileset) {
        (Some(t), Some(ts)) => {
            if has_tiles {
                match layer_tileset {
                    Some(current) => {
                        if current != ts {
                            return false;
                        }
                    },
                    None => {
                        return false;
                    },
                }
            } else {
                new_tileset = Some(ts);
            }
            Some(t)
        },
        _ => None,
    };
    let ghost before = *level;
    let layer = &mut level.layers[layer_idx];
    match &mut layer.data {
        LayerData::Tiles { tileset_id, tiles, .. } => {
            if let Some(ts) = new_tileset {
                *tileset_id = ts;
            }
            if min_x <= max_x && min_y <= max_y {
                assert(in_grid(width, height, max_x as int, max_y as int));
                fill_rect_cells(
                    tiles,
                    width,
                    min_x as u32,
                    max_x as u32,
                    min_y as u32,
                    max_y as u32,
                    value,
                );
            } else {
                assert(tiles@ =~= rect_filled(
                    tiles@,
                    width as int,
                    min_x as int,
                    max_x as int,
                    min_y as int,
                    max_y as int,
                    value,
                ));
            }
        },
        LayerData::Objects { .. } => {},
    }
    true
}

/// How a flood fill that went ahead changes a level: only the addressed tile
/// layer changes; it takes the selected tileset, and the region of the start
/// cell gets the tile.
pub open spec fn fill_area_post(
    before: Level,
    after: Level,
    layer_idx: int,
    start: (int, int),
    tile: u32,
    tileset: Uuid,
) -> bool {
    &&& after == (Level { layers: after.layers, ..before })
    &&& after.layers@.len() == before.layers@.len()
    &&& forall|i: int|
        0 <= i < before.layers@.len() && i != layer_idx ==> after.layers@[i]
            == before.layers@[i]
    &&& ({
        let l0 = before.layers@[layer_idx];
        let l1 = after.layers@[layer_idx];
        &&& l1.name == l0.name
        &&& l1.visible == l0.visible
        &&& l0.data matches LayerData::Tiles { tileset_id: t0, tiles: c0, occupied_cells: o0 }
        &&& l1.data matches LayerData::Tiles { tileset_id: t1, tiles: c1, occupied_cells: o1 }
        &&& o1 == o0
        &&& t1 == tileset
        &&& c1@ == flooded(
            c0@,
            before.width,
            before.height,
            start,
            before.tile_at(layer_idx, start.0 as u32, start.1 as u32),
            tile,
        )
    })
}

/// A grid whose cell indices fit in a `u32` has at most 2^32 cells.
proof fn lemma_grid_cell_count(width: u32, height: u32)
    requires
        grid_index_fits(width, height),
        0 < width <= i32::MAX,
        0 < height <= i32::MAX,
    ensures
        width * height <= u32::MAX + 1,
{
    assert(in_grid(width, height, width - 1, height - 1));
    assert(width * height == (height - 1) * width + (width - 1) + 1) by (nonlinear_arith);
}

/// Bucket fill from cell (`start_x`, `start_y`) on a tile layer: the start
/// cell and every cell connected to it through shared sides over cells with
/// the same tile get `tile`. Nothing happens when the start lies outside the
/// level, already holds `tile`, or the layer holds tiles of another tileset;
/// an empty layer first takes the tileset. Returns whether the fill went ahead.
pub fn fill_area(
    level: &mut Level,
    layer_idx: usize,
    start_x: i32,
    start_y: i32,
    tile: u32,
    tileset: Uuid,
) -> (applied: bool)
    requires
        grid_index_fits(old(level).width, old(level).height),
    ensures
        applied == (is_tile_layer_at(*old(level), layer_idx as int) && in_grid(
            old(level).width,
            old(level).height,
            start_x as int,
            start_y as int,
        ) && old(level).tile_at(layer_idx as int, start_x as u32, start_y as u32) != Some(tile)
            && !fill_refused(old(level).layers@[layer_idx as int], Some(tile), Some(tileset))),
        !applied ==> *final(level) == *old(level),
        applied ==> fill_area_post(
            *old(level),
            *final(level),
            layer_idx as int,
            (start_x as int, start_y as int),
            tile,
            tileset,
        ),
{
    if layer_idx >= level.layers.len() {
        return false;
    }
    let is_tiles = match &level.layers[layer_idx].data {
        LayerData::Tiles { .. } => true,
        LayerData::Objects { .. } => false,
    };
    if !is_tiles {
        return false;
    }
    let width = level.width;
    let height = level.height;
    if start_x < 0 || start_y < 0 || start_x >= u32_as_i32(width) || start_y >= u32_as_i32(
        height,
    ) {
        return false;
    }
    let sx = start_x as u32;
    let sy = start_y as u32;
    proof {
        assert(in_grid(width, height, start_x as int, start_y as int));
        lemma_grid_cell_count(width, height);
    }
    let target = level.get_tile(layer_idx, sx, sy);
    if let Some(t) = target {
        if t == tile {
            return false;
        }
    }
    let has_tiles = layer_has_tiles(&level.layers[layer_idx]);
    let layer_tileset = get_layer_tileset_id(&level.layers[layer_idx]);
    if has_tiles {
        match layer_tileset {
            Some(current) => {
                if current != tileset {
                    return false;
                }
            },
            None => {
                return false;
            },
        }
    }
    let layer = &mut level.layers[layer_idx];
    match &mut layer.data {
        LayerData::Tiles { tileset_id, tiles, .. } => {
            *tileset_id = tileset;
            flood_cells(tiles, width, height, sx, sy, target, tile);
        },
        LayerData::Objects { .. } => {},
    }
    true
}

/// The entity ids of an object layer; empty for a tile layer.
pub open spec fn layer_entity_ids(layer: Layer) -> Seq<Uuid> {
    match layer.data {
        LayerData::Objects { entities } => entities@,
        LayerData::Tiles { .. } => Seq::empty(),
    }
}

/// Place an entity on an object layer of the level: the entity joins the
/// level's entities and its id joins the layer's list. Nothing happens when
/// the layer does not exist or is a tile layer. Returns whether it was placed.
pub fn place_entity(level: &mut Level, layer_idx: usize, entity: crate::level::EntityInstance) -> (placed: bool)
    ensures
        placed == (layer_idx < old(level).layers@.len() && old(level).layers@[layer_idx as int].data is Objects),
        !placed ==> *final(level) == *old(level),
        placed ==> {
            &&& final(level).entities@ == old(level).entities@.push(entity)
            &&& *final(level) == (Level {
                entities: final(level).entities,
                layers: final(level).layers,
                ..*old(level)
            })
            &&& final(level).layers@.len() == old(level).layers@.len()
            &&& forall|i: int|
                0 <= i < old(level).layers@.len() && i != layer_idx ==> final(level).layers@[i]
                    == old(level).layers@[i]
            &&& final(level).layers@[layer_idx as int].name == old(level).layers@[layer_idx as int].name
            &&& final(level).layers@[layer_idx as int].visible == old(level).layers@[layer_idx as int].visible
            &&& final(level).layers@[layer_idx as int].data is Objects
            &&& layer_entity_ids(final(level).layers@[layer_idx as int]) == layer_entity_ids(
                old(level).layers@[layer_idx as int],
            ).push(entity.id)
        },
{
    if layer_idx >= level.layers.len() {
        return false;
    }
    let is_objects = match &level.layers[layer_idx].data {
        LayerData::Objects { .. } => true,
        LayerData::Tiles { .. } => false,
    };
    if !is_objects {
        return false;
    }
    let id = entity.id;
    level.entities.push(entity);
    let layer = &mut level.layers[layer_idx];
    match &mut layer.data {
        LayerData::Objects { entities } => {
            entities.push(id);
        },
        LayerData::Tiles { .. } => {},
    }
    true
}

} // verus!

verus! {

/// Whether layer `layer_idx` of the last level with the id exists and is an
/// object layer.
pub open spec fn can_place_on(project: Project, level_id: Uuid, layer_idx: usize) -> bool {
    match last_index_of(level_keys(project.levels@), level_id.value) {
        Some(i) => layer_idx < project.levels@[i].layers@.len()
            && project.levels@[i].layers@[layer_idx as int].data is Objects,
        None => false,
    }
}

/// Place a new entity of the given type at the given position on object
/// layer `layer_idx` of a level (the last level with the id): the entity
/// gets a fresh id and the declared defaults of its type's properties, joins
/// the level's entities and the layer's list, and the project is marked
/// dirty. Returns the new id, or `None` (nothing changed) when the layer does
/// not exist or is a tile layer. Snapping the position to the grid and
/// checking it against the level's size are floating-point work left to the
/// caller.
#[verifier::rlimit(50)]
pub fn place_new_entity(
    project: &mut Project,
    level_id: Uuid,
    layer_idx: usize,
    entity_type: String,
    position: [u32; 2],
) -> (r: Option<Uuid>)
    requires
        old(project).wf(),
    ensures
        final(project).wf(),
        r is Some <==> can_place_on(*old(project), level_id, layer_idx),
        r is None ==> *final(project) == *old(project),
        r matches Some(new_id) ==> {
            let i = last_index_of(level_keys(old(project).levels@), level_id.value)->0;
            let l0 = old(project).levels@[i];
            let l1 = final(project).levels@[i];
            let e = l1.entities@.last();
            &&& *final(project) == (Project { levels: final(project).levels, dirty: true, ..*old(project) })
            &&& final(project).levels@.len() == old(project).levels@.len()
            &&& forall|j: int| 0 <= j < old(project).levels@.len() && j != i ==> #[trigger] final(project).levels@[j]
                == old(project).levels@[j]
            &&& l1 == (Level { entities: l1.entities, layers: l1.layers, ..l0 })
            &&& l1.entities@.drop_last() == l0.entities@
            &&& l1.entities@.len() == l0.entities@.len() + 1
            &&& e.id == new_id
            &&& crate::ids::is_random_v4(new_id.value)
            &&& e.entity_type@ == entity_type@
            &&& e.position == position
            &&& crate::ui_actions::entity_starting_properties(old(project).schema, entity_type@, e.properties@)
            &&& l1.layers@.len() == l0.layers@.len()
            &&& forall|k: int| 0 <= k < l0.layers@.len() && k != layer_idx ==> #[trigger] l1.layers@[k] == l0.layers@[k]
            &&& l1.layers@[layer_idx as int].name == l0.layers@[layer_idx as int].name
            &&& l1.layers@[layer_idx as int].visible == l0.layers@[layer_idx as int].visible
            &&& l1.layers@[layer_idx as int].data is Objects
            &&& layer_entity_ids(l1.layers@[layer_idx as int]) == layer_entity_ids(l0.layers@[layer_idx as int]).push(new_id)
        },
{
    let i = match project.level_position(level_id) {
        Some(i) => i,
        None => {
            return None;
        },
    };
    if layer_idx >= project.levels[i].layers.len() {
        return None;
    }
    let is_objects = match &project.levels[i].layers[layer_idx].data {
        LayerData::Objects { .. } => true,
        LayerData::Tiles { .. } => false,
    };
    if !is_objects {
        return None;
    }
    let entity = crate::ui_actions::new_entity(&project.schema, entity_type, position);
    let new_id = entity.id;
    let ghost made = entity;
    let ghost l0 = project.levels@[i as int];
    let mut level = project.levels.remove(i);
    let placed = place_entity(&mut level, layer_idx, entity);
    assert(placed);
    assert(level.entities@.last() == made);
    assert(level.id == l0.id);
    project.levels.insert(i, level);
    proof {
        assert(project.levels@ =~= old(project).levels@.update(i as int, level));
        assert(level_keys(project.levels@) =~= level_keys(old(project).levels@));
    }
    project.dirty = true;
    Some(new_id)
}

} // verus!
