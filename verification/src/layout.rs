//! World view arrangement: where a new level goes, and the linear and
//! grid-snapping layouts of all levels of a project.

use vstd::prelude::*;
use crate::editor_project::Project;
use crate::level::Level;
use crate::world::WorldLayout;

verus! {

/// The Rust quotient of `a` by `b`: rounded toward zero.
pub open spec fn trunc_div(a: int, b: int) -> int {
    if a >= 0 {
        if b > 0 { a / b } else { -(a / (-b)) }
    } else {
        if b > 0 { -((-a) / b) } else { (-a) / (-b) }
    }
}

/// The tile size of the project's first tileset, or 32 without tilesets.
pub open spec fn spec_default_tile_size(p: &Project) -> u32 {
    if p.tilesets@.len() > 0 { p.tilesets@[0].tile_size } else { 32 }
}

/// Get the default tile size from the first tileset
pub fn get_default_tile_size(project: &Project) -> (r: u32)
    ensures
        r == spec_default_tile_size(project),
{
    if project.tilesets.len() > 0 {
        project.tilesets[0].tile_size
    } else {
        32
    }
}

/// `v` read as an `i32` (two's complement wrap-around of the low 32 bits).
pub open spec fn as_i32(v: u32) -> int {
    if v <= i32::MAX { v as int } else { v as int - 0x1_0000_0000 }
}

/// `v` converted with `as i32`: the same bits read as a signed number.
pub fn u32_as_i32(v: u32) -> (r: i32)
    ensures
        r == as_i32(v),
{
    if v <= 0x7FFF_FFFF {
        v as i32
    } else {
        let low: i32 = (v - 0x8000_0000u32) as i32;
        low - 0x7FFF_FFFF - 1
    }
}

proof fn lemma_rightmost_bounds(levels: Seq<Level>, ts: u32, n: int)
    ensures
        rightmost(levels, ts, n) matches Some(k) ==> 0 <= k < n,
    decreases n,
{
    if n > 0 {
        lemma_rightmost_bounds(levels, ts, n - 1);
    }
}

/// The right edge of a level in world pixels.
pub open spec fn right_edge(l: Level, tile_size: u32) -> int {
    l.world_x + as_i32(l.width) * as_i32(tile_size)
}

/// Whether `v` fits in an `i32`.
pub open spec fn fits_i32(v: int) -> bool {
    i32::MIN <= v <= i32::MAX
}

/// Among the first `n` levels, the first one whose right edge is the largest,
/// provided that edge lies right of `i32::MIN` (the starting point of the search).
pub open spec fn rightmost(levels: Seq<Level>, tile_size: u32, n: int) -> Option<int>
    decreases n,
{
    if n <= 0 {
        None
    } else {
        let best = rightmost(levels, tile_size, n - 1);
        let edge = match best {
            Some(k) => right_edge(levels[k], tile_size),
            None => i32::MIN as int,
        };
        if right_edge(levels[n - 1], tile_size) > edge {
            Some(n - 1)
        } else {
            best
        }
    }
}

/// The edge found by the search among the first `n` levels.
pub open spec fn rightmost_edge(levels: Seq<Level>, tile_size: u32, n: int) -> int {
    match rightmost(levels, tile_size, n) {
        Some(k) => right_edge(levels[k], tile_size),
        None => i32::MIN as int,
    }
}

/// The world y of the level found by the search among the first `n` levels (0 if none).
pub open spec fn rightmost_y(levels: Seq<Level>, tile_size: u32, n: int) -> int {
    match rightmost(levels, tile_size, n) {
        Some(k) => levels[k].world_y as int,
        None => 0,
    }
}

/// The horizontal gap left between levels: the grid width in Grid-vania
/// layout, 32 pixels otherwise.
pub open spec fn layout_padding(p: &Project) -> int {
    match p.world_config.layout {
        WorldLayout::GridVania => as_i32(p.world_config.grid_width),
        _ => 32,
    }
}

/// Whether the world-position arithmetic of `find_empty_position` stays in `i32`.
pub open spec fn empty_position_fits(p: &Project) -> bool {
    let ts = spec_default_tile_size(p);
    &&& forall|i: int|
        0 <= i < p.levels@.len() ==> fits_i32(as_i32(#[trigger] p.levels@[i].width) * as_i32(ts))
            && fits_i32(right_edge(p.levels@[i], ts))
    &&& p.levels@.len() > 0 ==> fits_i32(
        rightmost_edge(p.levels@, ts, p.levels@.len() as int) + layout_padding(p),
    )
}

/// The search finds the largest right edge among the first `n` levels: no
/// level reaches further right, and (when the levels' edges fit in `i32`)
/// some level reaches exactly that far.
proof fn lemma_rightmost_is_max(levels: Seq<Level>, ts: u32, n: int)
    requires
        0 <= n <= levels.len(),
        forall|i: int| 0 <= i < n ==> fits_i32(#[trigger] right_edge(levels[i], ts)),
    ensures
        forall|i: int| 0 <= i < n ==> #[trigger] right_edge(levels[i], ts) <= rightmost_edge(levels, ts, n),
        n > 0 ==> exists|k: int| 0 <= k < n && rightmost_edge(levels, ts, n) == #[trigger] right_edge(levels[k], ts),
    decreases n,
{
    if n > 0 {
        lemma_rightmost_is_max(levels, ts, n - 1);
        lemma_rightmost_bounds(levels, ts, n - 1);
        lemma_rightmost_bounds(levels, ts, n);
        if rightmost(levels, ts, n) is None {
            assert(right_edge(levels[n - 1], ts) <= i32::MIN);
            assert(rightmost_edge(levels, ts, n) == right_edge(levels[n - 1], ts));
        }
    }
}

/// A new level placed by `find_empty_position` clears every existing level
/// horizontally: its x lies at least the layout padding past the right edge
/// (x plus width times tile size, in pixels) of each level, and exactly that
/// far past the right edge of one of them.
pub proof fn law_new_level_right_of_every_level(p: Project)
    requires
        empty_position_fits(&p),
        p.levels@.len() > 0,
    ensures
        ({
            let ts = spec_default_tile_size(&p);
            let x = rightmost_edge(p.levels@, ts, p.levels@.len() as int) + layout_padding(&p);
            &&& forall|i: int|
                0 <= i < p.levels@.len() ==> x >= #[trigger] p.levels@[i].world_x + as_i32(p.levels@[i].width) * as_i32(ts)
                    + layout_padding(&p)
            &&& exists|k: int|
                0 <= k < p.levels@.len() && x == #[trigger] p.levels@[k].world_x + as_i32(p.levels@[k].width)
                    * as_i32(ts) + layout_padding(&p)
        }),
{
    let ts = spec_default_tile_size(&p);
    let n = p.levels@.len() as int;
    assert forall|i: int| 0 <= i < n implies fits_i32(#[trigger] right_edge(p.levels@[i], ts)) by {
        assert(fits_i32(right_edge(p.levels@[i], ts)));
    }
    lemma_rightmost_is_max(p.levels@, ts, n);
    let k = choose|k: int| 0 <= k < n && rightmost_edge(p.levels@, ts, n) == #[trigger] right_edge(p.levels@[k], ts);
    assert(0 <= k < n && rightmost_edge(p.levels@, ts, n) + layout_padding(&p) == p.levels@[k].world_x + as_i32(
        p.levels@[k].width,
    ) * as_i32(ts) + layout_padding(&p));
    assert forall|i: int| 0 <= i < n implies rightmost_edge(p.levels@, ts, n) + layout_padding(&p) >= #[trigger] p.levels@[i].world_x
        + as_i32(p.levels@[i].width) * as_i32(ts) + layout_padding(&p) by {
        assert(right_edge(p.levels@[i], ts) <= rightmost_edge(p.levels@, ts, n));
    }
}

/// Whether level `k` is the first of the levels reaching furthest right: its
/// right edge (x plus width times tile size, in pixels) lies right of
/// `i32::MIN` and of the edges of the levels before it, and no level reaches
/// further.
pub open spec fn first_furthest_right(levels: Seq<Level>, ts: u32, k: int) -> bool {
    let edge = levels[k].world_x + as_i32(levels[k].width) * as_i32(ts);
    &&& edge > i32::MIN
    &&& forall|j: int| 0 <= j < k ==> #[trigger] levels[j].world_x + as_i32(levels[j].width) * as_i32(ts) < edge
    &&& forall|j: int| 0 <= j < levels.len() ==> #[trigger] levels[j].world_x + as_i32(levels[j].width) * as_i32(ts) <= edge
}

proof fn lemma_rightmost_upper(levels: Seq<Level>, ts: u32, n: int)
    requires
        0 <= n <= levels.len(),
    ensures
        forall|i: int| 0 <= i < n ==> #[trigger] right_edge(levels[i], ts) <= rightmost_edge(levels, ts, n),
    decreases n,
{
    if n > 0 {
        lemma_rightmost_upper(levels, ts, n - 1);
        lemma_rightmost_bounds(levels, ts, n - 1);
    }
}

proof fn lemma_rightmost_first(levels: Seq<Level>, ts: u32, n: int)
    requires
        0 <= n <= levels.len(),
    ensures
        rightmost(levels, ts, n) matches Some(k) ==> right_edge(levels[k], ts) > i32::MIN && forall|j: int|
            0 <= j < k ==> #[trigger] right_edge(levels[j], ts) < right_edge(levels[k], ts),
        rightmost(levels, ts, n) is None ==> forall|j: int| 0 <= j < n ==> #[trigger] right_edge(levels[j], ts) <= i32::MIN,
    decreases n,
{
    if n > 0 {
        lemma_rightmost_first(levels, ts, n - 1);
        lemma_rightmost_upper(levels, ts, n - 1);
        lemma_rightmost_bounds(levels, ts, n - 1);
        lemma_rightmost_bounds(levels, ts, n);
    }
}

/// The new level's y is that of the first level reaching furthest right;
/// with no level reaching right of `i32::MIN` it is 0.
pub proof fn law_new_level_beside_first_furthest(p: Project)
    requires
        empty_position_fits(&p),
        p.levels@.len() > 0,
    ensures
        forall|k: int|
            0 <= k < p.levels@.len() && #[trigger] first_furthest_right(p.levels@, spec_default_tile_size(&p), k)
                ==> rightmost_y(p.levels@, spec_default_tile_size(&p), p.levels@.len() as int) == p.levels@[k].world_y,
        (forall|i: int| 0 <= i < p.levels@.len() ==> #[trigger] p.levels@[i].world_x + as_i32(p.levels@[i].width)
            * as_i32(spec_default_tile_size(&p)) <= i32::MIN) ==> rightmost_y(
            p.levels@,
            spec_default_tile_size(&p),
            p.levels@.len() as int,
        ) == 0,
{
    let ts = spec_default_tile_size(&p);
    let n = p.levels@.len() as int;
    let lv = p.levels@;
    lemma_rightmost_first(lv, ts, n);
    lemma_rightmost_upper(lv, ts, n);
    lemma_rightmost_bounds(lv, ts, n);
    assert forall|k: int| 0 <= k < n && #[trigger] first_furthest_right(lv, ts, k) implies rightmost_y(lv, ts, n) == lv[k].world_y by {
        match rightmost(lv, ts, n) {
            Some(m) => {
                assert(right_edge(lv[m], ts) <= right_edge(lv[k], ts));
                assert(right_edge(lv[k], ts) <= right_edge(lv[m], ts));
                if m < k {
                    assert(right_edge(lv[m], ts) < right_edge(lv[k], ts));
                } else if k < m {
                    assert(right_edge(lv[k], ts) < right_edge(lv[m], ts));
                }
            },
            None => {
                assert(right_edge(lv[k], ts) <= i32::MIN);
            },
        }
    }
    if forall|i: int| 0 <= i < n ==> #[trigger] lv[i].world_x + as_i32(lv[i].width) * as_i32(ts) <= i32::MIN {
        if rightmost(lv, ts, n) is Some {
            let m = rightmost(lv, ts, n)->0;
            assert(lv[m].world_x + as_i32(lv[m].width) * as_i32(ts) <= i32::MIN);
        }
    }
}

/// Find an empty position for a new level: right of the level reaching
/// furthest right (the first such level), at its height, after the padding;
/// the origin for a project without levels.
pub fn find_empty_position(project: &Project) -> (r: (i32, i32))
    requires
        empty_position_fits(project),
    ensures
        project.levels@.len() == 0 ==> r == (0i32, 0i32),
        project.levels@.len() > 0 ==> ({
            let ts = spec_default_tile_size(project);
            let n = project.levels@.len() as int;
            r.0 == rightmost_edge(project.levels@, ts, n) + layout_padding(project) && r.1
                == rightmost_y(project.levels@, ts, n)
        }),
        forall|i: int|
            0 <= i < project.levels@.len() ==> r.0 >= #[trigger] project.levels@[i].world_x + as_i32(project.levels@[i].width)
                * as_i32(spec_default_tile_size(project)) + layout_padding(project),
        project.levels@.len() > 0 ==> exists|k: int|
            0 <= k < project.levels@.len() && r.0 == #[trigger] project.levels@[k].world_x + as_i32(project.levels@[k].width)
                * as_i32(spec_default_tile_size(project)) + layout_padding(project),
        forall|k: int|
            0 <= k < project.levels@.len() && #[trigger] first_furthest_right(project.levels@, spec_default_tile_size(project), k)
                ==> r.1 == project.levels@[k].world_y,
        (forall|i: int| 0 <= i < project.levels@.len() ==> #[trigger] project.levels@[i].world_x + as_i32(project.levels@[i].width)
            * as_i32(spec_default_tile_size(project)) <= i32::MIN) ==> r.1 == 0,
{
    proof {
        if project.levels@.len() > 0 {
            law_new_level_right_of_every_level(*project);
            law_new_level_beside_first_furthest(*project);
        }
    }
    let tile_size = u32_as_i32(get_default_tile_size(project));
    if project.levels.len() == 0 {
        return (0, 0);
    }
    let ghost ts = spec_default_tile_size(project);
    let mut max_right: i32 = i32::MIN;
    let mut right_level_y: i32 = 0;
    let mut i: usize = 0;
    while i < project.levels.len()
        invariant
            1 <= project.levels@.len(),
            i <= project.levels@.len(),
            tile_size == as_i32(ts),
            ts == spec_default_tile_size(project),
            empty_position_fits(project),
            max_right == rightmost_edge(project.levels@, ts, i as int),
            right_level_y == rightmost_y(project.levels@, ts, i as int),
        decreases project.levels@.len() - i,
    {
        let level = &project.levels[i];
        assert(fits_i32(as_i32(project.levels@[i as int].width) * as_i32(ts)));
        assert(fits_i32(right_edge(project.levels@[i as int], ts)));
        let w = u32_as_i32(level.width);
        let right = level.world_x + (w * tile_size);
        proof {
            lemma_rightmost_bounds(project.levels@, ts, i as int);
        }
        if right > max_right {
            max_right = right;
            right_level_y = level.world_y;
        }
        i = i + 1;
    }
    let padding: i32 = match project.world_config.layout {
        WorldLayout::GridVania => u32_as_i32(project.world_config.grid_width),
        _ => 32,
    };

    (max_right + padding, right_level_y)
}

/// The space a level takes along the layout axis, including the 32-pixel gap
/// after it.
pub open spec fn linear_extent(l: Level, tile_size: u32, horizontal: bool) -> int {
    (if horizontal { as_i32(l.width) } else { as_i32(l.height) }) * as_i32(tile_size) + 32
}

/// Where level `k` starts along the layout axis: the sum of the extents of
/// the levels before it.
pub open spec fn linear_offset(levels: Seq<Level>, tile_size: u32, horizontal: bool, k: int) -> int
    decreases k,
{
    if k <= 0 {
        0
    } else {
        linear_offset(levels, tile_size, horizontal, k - 1) + linear_extent(levels[k - 1], tile_size, horizontal)
    }
}

/// Whether the arithmetic of a linear layout stays in `i32`.
pub open spec fn linear_layout_fits(levels: Seq<Level>, tile_size: u32, horizontal: bool) -> bool {
    forall|k: int|
        0 <= k < levels.len() ==> {
            &&& fits_i32((if horizontal { as_i32(levels[k].width) } else { as_i32(levels[k].height) }) * as_i32(tile_size))
            &&& fits_i32(
                (if horizontal { as_i32(levels[k].width) } else { as_i32(levels[k].height) }) * as_i32(tile_size) + 32,
            )
            &&& fits_i32(#[trigger] linear_offset(levels, tile_size, horizontal, k + 1))
        }
}

/// A linear layout starts at the origin and puts each level 32 pixels after
/// the end of the one before it, its size along the axis (width or height
/// times the tile size, in pixels) apart: laid-out levels never overlap.
pub proof fn law_linear_layout_spacing(levels: Seq<Level>, tile_size: u32, horizontal: bool)
    requires
        linear_layout_fits(levels, tile_size, horizontal),
    ensures
        linear_offset(levels, tile_size, horizontal, 0) == 0,
        forall|k: int|
            0 <= k < levels.len() ==> fits_i32(#[trigger] linear_offset(levels, tile_size, horizontal, k)),
        forall|k: int|
            0 <= k < levels.len() - 1 ==> #[trigger] linear_offset(levels, tile_size, horizontal, k + 1)
                == linear_offset(levels, tile_size, horizontal, k) + (if horizontal {
                as_i32(levels[k].width)
            } else {
                as_i32(levels[k].height)
            }) * as_i32(tile_size) + 32,
{
    assert forall|k: int| 0 <= k < levels.len() implies fits_i32(#[trigger] linear_offset(levels, tile_size, horizontal, k)) by {
        if k > 0 {
            assert(fits_i32(linear_offset(levels, tile_size, horizontal, (k - 1) + 1)));
        }
    }
}

/// Apply linear horizontal or vertical layout: the levels are placed one after
/// another along the axis, starting at the origin, 32 pixels apart.
pub fn apply_linear_layout(project: &mut Project, horizontal: bool)
    requires
        linear_layout_fits(old(project).levels@, spec_default_tile_size(old(project)), horizontal),
    ensures
        final(project).levels@.len() == old(project).levels@.len(),
        forall|k: int|
            0 <= k < old(project).levels@.len() ==> {
                let before = old(project).levels@[k];
                let after = #[trigger] final(project).levels@[k];
                let off = linear_offset(
                    old(project).levels@,
                    spec_default_tile_size(old(project)),
                    horizontal,
                    k,
                );
                &&& after == (Level {
                    world_x: if horizontal { off as i32 } else { 0 },
                    world_y: if horizontal { 0 } else { off as i32 },
                    ..before
                })
            },
        *final(project) == (Project { levels: final(project).levels, ..*old(project) }),
        old(project).levels@.len() > 0 ==> if horizontal {
            final(project).levels@[0].world_x == 0
        } else {
            final(project).levels@[0].world_y == 0
        },
        forall|k: int|
            0 <= k < old(project).levels@.len() - 1 ==> if horizontal {
                #[trigger] final(project).levels@[k + 1].world_x == final(project).levels@[k].world_x + as_i32(
                    old(project).levels@[k].width,
                ) * as_i32(spec_default_tile_size(old(project))) + 32
            } else {
                final(project).levels@[k + 1].world_y == final(project).levels@[k].world_y + as_i32(
                    old(project).levels@[k].height,
                ) * as_i32(spec_default_tile_size(old(project))) + 32
            },
{
    proof {
        law_linear_layout_spacing(old(project).levels@, spec_default_tile_size(old(project)), horizontal);
    }
    let ts_u = get_default_tile_size(project);
    let tile_size = u32_as_i32(ts_u);
    let ghost levels0 = project.levels@;
    let mut current: i32 = 0;
    let mut i: usize = 0;
    let n = project.levels.len();
    while i < n
        invariant
            n == levels0.len(),
            project.levels@.len() == n,
            i <= n,
            tile_size == as_i32(ts_u),
            linear_layout_fits(levels0, ts_u, horizontal),
            current == linear_offset(levels0, ts_u, horizontal, i as int),
            forall|k: int| i <= k < n ==> #[trigger] project.levels@[k] == levels0[k],
            forall|k: int|
                0 <= k < i ==> #[trigger] project.levels@[k] == (Level {
                    world_x: if horizontal {
                        linear_offset(levels0, ts_u, horizontal, k) as i32
                    } else {
                        0
                    },
                    world_y: if horizontal {
                        0
                    } else {
                        linear_offset(levels0, ts_u, horizontal, k) as i32
                    },
                    ..levels0[k]
                }),
            *project == (Project { levels: project.levels, ..*old(project) }),
        decreases n - i,
    {
        assert(fits_i32(linear_offset(levels0, ts_u, horizontal, i + 1)));
        let level = &mut project.levels[i];
        proof {
            assert(fits_i32(
                (if horizontal { as_i32(levels0[i as int].width) } else { as_i32(levels0[i as int].height) })
                    * as_i32(ts_u) + 32,
            ));
        }
        if horizontal {
            level.world_x = current;
            level.world_y = 0;
            let w = u32_as_i32(level.width);
            current = current + (w * tile_size + 32);
        } else {
            level.world_x = 0;
            level.world_y = current;
            let h = u32_as_i32(level.height);
            current = current + (h * tile_size + 32);
        }
        i = i + 1;
    }
}

/// Whether Grid-vania snapping can run without a zero divisor or an overflow.
pub open spec fn snap_fits(p: &Project) -> bool {
    let gw = as_i32(p.world_config.grid_width);
    let gh = as_i32(p.world_config.grid_height);
    &&& gw != 0
    &&& gh != 0
    &&& forall|k: int|
        0 <= k < p.levels@.len() ==> !(gw == -1 && #[trigger] p.levels@[k].world_x == i32::MIN)
            && !(gh == -1 && p.levels@[k].world_y == i32::MIN)
}

/// `v` rounded toward zero to a multiple of `g`.
pub open spec fn snap(v: int, g: int) -> int {
    trunc_div(v, g) * g
}

/// Whether `x` is `v` rounded toward zero onto a grid of cell size `g`: a
/// multiple of the cell size between zero and `v`, less than a cell from `v`.
pub open spec fn snapped_toward_zero(v: int, x: int, g: int) -> bool {
    &&& x % abs_int(g) == 0
    &&& v >= 0 ==> 0 <= x <= v
    &&& v < 0 ==> v <= x <= 0
    &&& abs_int(v - x) < abs_int(g)
}

/// Snap all levels to the GridVania grid: each world coordinate is rounded
/// toward zero to a multiple of the grid cell size.
pub fn apply_gridvania_snap(project: &mut Project)
    requires
        snap_fits(old(project)),
    ensures
        final(project).levels@.len() == old(project).levels@.len(),
        forall|k: int|
            0 <= k < old(project).levels@.len() ==> {
                let before = old(project).levels@[k];
                let gw = as_i32(old(project).world_config.grid_width);
                let gh = as_i32(old(project).world_config.grid_height);
                #[trigger] final(project).levels@[k] == (Level {
                    world_x: snap(before.world_x as int, gw) as i32,
                    world_y: snap(before.world_y as int, gh) as i32,
                    ..before
                })
            },
        *final(project) == (Project { levels: final(project).levels, ..*old(project) }),
        forall|k: int|
            0 <= k < old(project).levels@.len() ==> snapped_toward_zero(
                old(project).levels@[k].world_x as int,
                #[trigger] final(project).levels@[k].world_x as int,
                as_i32(old(project).world_config.grid_width),
            ) && snapped_toward_zero(
                old(project).levels@[k].world_y as int,
                final(project).levels@[k].world_y as int,
                as_i32(old(project).world_config.grid_height),
            ),
{
    proof {
        assert forall|k: int| 0 <= k < old(project).levels@.len() implies {
            let v = #[trigger] old(project).levels@[k];
            let gw = as_i32(old(project).world_config.grid_width);
            let gh = as_i32(old(project).world_config.grid_height);
            &&& snapped_toward_zero(v.world_x as int, snap(v.world_x as int, gw), gw)
            &&& snapped_toward_zero(v.world_y as int, snap(v.world_y as int, gh), gh)
            &&& fits_i32(snap(v.world_x as int, gw))
            &&& fits_i32(snap(v.world_y as int, gh))
        } by {
            let v = old(project).levels@[k];
            let gw = as_i32(old(project).world_config.grid_width);
            let gh = as_i32(old(project).world_config.grid_height);
            assert(!(gw == -1 && v.world_x == i32::MIN));
            law_snap_toward_zero(v.world_x as int, gw);
            law_snap_toward_zero(v.world_y as int, gh);
            lemma_snap_fits(v.world_x as int, gw);
            lemma_snap_fits(v.world_y as int, gh);
        }
    }
    let grid_w = u32_as_i32(project.world_config.grid_width);
    let grid_h = u32_as_i32(project.world_config.grid_height);
    let ghost levels0 = project.levels@;
    let n = project.levels.len();
    let mut i: usize = 0;
    while i < n
        invariant
            n == levels0.len(),
            project.levels@.len() == n,
            i <= n,
            grid_w == as_i32(old(project).world_config.grid_width),
            grid_h == as_i32(old(project).world_config.grid_height),
            snap_fits(old(project)),
            levels0 == old(project).levels@,
            forall|k: int| i <= k < n ==> #[trigger] project.levels@[k] == levels0[k],
            forall|k: int|
                0 <= k < i ==> #[trigger] project.levels@[k] == (Level {
                    world_x: snap(levels0[k].world_x as int, grid_w as int) as i32,
                    world_y: snap(levels0[k].world_y as int, grid_h as int) as i32,
                    ..levels0[k]
                }),
            *project == (Project { levels: project.levels, ..*old(project) }),
        decreases n - i,
    {
        let level = &mut project.levels[i];
        let x = level.world_x;
        let y = level.world_y;
        assert(!(grid_w == -1 && x == i32::MIN));
        assert(!(grid_h == -1 && y == i32::MIN));
        let qx = div_toward_zero(x, grid_w);
        let qy = div_toward_zero(y, grid_h);
        proof {
            lemma_snap_fits(x as int, grid_w as int);
            lemma_snap_fits(y as int, grid_h as int);
        }
        level.world_x = qx * grid_w;
        level.world_y = qy * grid_h;
        i = i + 1;
    }
}

/// `a / b` for `i32`: the quotient rounded toward zero.
pub fn div_toward_zero(a: i32, b: i32) -> (r: i32)
    requires
        b != 0,
        !(a == i32::MIN && b == -1),
    ensures
        r == trunc_div(a as int, b as int),
{
    if b > 0 {
        a / b
    } else if b == i32::MIN {
        if a == i32::MIN {
            1
        } else {
            proof {
                let na: int = if a >= 0 { a as int } else { -(a as int) };
                assert(na < 0x8000_0000);
                assert(na / 0x8000_0000 == 0) by (nonlinear_arith)
                    requires
                        0 <= na < 0x8000_0000,
                ;
            }
            0
        }
    } else {
        let nb: i32 = -b;
        let q = a / nb;
        proof {
            if a == i32::MIN {
                assert(nb >= 2);
                let qq = 0x8000_0000int / (nb as int);
                assert(qq * 2 <= 0x8000_0000int) by (nonlinear_arith)
                    requires
                        nb >= 2,
                        qq == 0x8000_0000int / (nb as int),
                {
                    assert(0x8000_0000int == qq * nb + 0x8000_0000int % (nb as int));
                }
            }
        }
        -q
    }
}

proof fn lemma_snap_fits(v: int, g: int)
    requires
        g != 0,
        fits_i32(v),
        fits_i32(g),
        !(g == -1 && v == i32::MIN),
    ensures
        fits_i32(trunc_div(v, g)),
        fits_i32(snap(v, g)),
        -v <= snap(v, g) <= v || v <= snap(v, g) <= -v,
{
    let a = if v >= 0 { v } else { -v };
    let b = if g > 0 { g } else { -g };
    let q = a / b;
    let m = q * b;
    assert(0 <= q <= a && 0 <= m <= a) by (nonlinear_arith)
        requires
            a >= 0,
            b >= 1,
            q == a / b,
            m == q * b,
    {
        assert(a == (a / b) * b + a % b);
        assert(0 <= a % b);
    }
    if b == 1 {
        assert(q == a) by (nonlinear_arith)
            requires
                b == 1,
                q == a / b,
        ;
    } else {
        assert(q * 2 <= a) by (nonlinear_arith)
            requires
                b >= 2,
                q >= 0,
                q * b <= a,
        ;
    }
    if v >= 0 {
        if g > 0 {
            assert(trunc_div(v, g) == q);
            assert(snap(v, g) == m);
        } else {
            assert(trunc_div(v, g) == -q);
            assert((-q) * g == m) by (nonlinear_arith)
                requires
                    g == -b,
                    m == q * b,
            ;
        }
    } else {
        if g > 0 {
            assert(trunc_div(v, g) == -q);
            assert((-q) * g == -m) by (nonlinear_arith)
                requires
                    g == b,
                    m == q * b,
            ;
        } else {
            assert(trunc_div(v, g) == q);
            assert(q * g == -m) by (nonlinear_arith)
                requires
                    g == -b,
                    m == q * b,
            ;
        }
    }
}

} // verus!

verus! {

/// `|v|`.
pub open spec fn abs_int(v: int) -> int {
    if v < 0 { -v } else { v }
}

/// Snapping rounds toward zero onto the grid: the result is a multiple of
/// the cell size, lies between zero and the value (same sign), and is less
/// than one cell away from it.
pub proof fn law_snap_toward_zero(v: int, g: int)
    requires
        g != 0,
    ensures
        snap(v, g) % abs_int(g) == 0,
        v >= 0 ==> 0 <= snap(v, g) <= v,
        v < 0 ==> v <= snap(v, g) <= 0,
        abs_int(v - snap(v, g)) < abs_int(g),
{
    let a = abs_int(v);
    let b = abs_int(g);
    let q = a / b;
    assert(a == q * b + a % b && 0 <= a % b < b && q >= 0) by (nonlinear_arith)
        requires
            b > 0,
            a >= 0,
            q == a / b,
    {
        assert(a == (a / b) * b + a % b);
    }
    assert(0 <= q * b) by (nonlinear_arith)
        requires
            q >= 0,
            b > 0,
    ;
    let m = q * b;
    if v >= 0 {
        if g > 0 {
            assert(snap(v, g) == m);
        } else {
            assert(snap(v, g) == (-q) * g);
            assert((-q) * g == m) by (nonlinear_arith)
                requires
                    g == -b,
                    m == q * b,
            ;
        }
    } else {
        if g > 0 {
            assert(snap(v, g) == (-q) * g);
            assert((-q) * g == -m) by (nonlinear_arith)
                requires
                    g == b,
                    m == q * b,
            ;
        } else {
            assert(snap(v, g) == q * g);
            assert(q * g == -m) by (nonlinear_arith)
                requires
                    g == -b,
                    m == q * b,
            ;
        }
    }
    vstd::arithmetic::div_mod::lemma_mod_multiples_basic(q, b);
    assert((-q) * b == -m) by (nonlinear_arith)
        requires
            m == q * b,
    ;
    vstd::arithmetic::div_mod::lemma_mod_multiples_basic(-q, b);
}

} // verus!
