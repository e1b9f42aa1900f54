//! Flood fill on a row-major tile grid: the region of 4-connected cells that
//! share the start cell's tile, and the fill that gives them a new tile.

use std::collections::HashSet;
use vstd::prelude::*;
use vstd::set_lib::{lemma_int_range, lemma_len_subset, set_int_range};
use crate::tools::cell_tile;

verus! {

broadcast use vstd::std_specs::hash::group_hash_axioms;

/// Whether a cell position lies inside a grid of the given size.
pub open spec fn on_grid(width: u32, height: u32, p: (int, int)) -> bool {
    0 <= p.0 < width && 0 <= p.1 < height
}

/// The row-major index of a cell position.
pub open spec fn grid_index(width: u32, p: (int, int)) -> int {
    p.1 * width + p.0
}

/// Whether two cells share a side.
pub open spec fn adjacent(p: (int, int), q: (int, int)) -> bool {
    ||| p.0 == q.0 && (p.1 == q.1 + 1 || q.1 == p.1 + 1)
    ||| p.1 == q.1 && (p.0 == q.0 + 1 || q.0 == p.0 + 1)
}

/// The tile a grid holds at a cell position.
pub open spec fn tile_of(cells: Seq<Option<u32>>, width: u32, p: (int, int)) -> Option<u32> {
    cell_tile(cells, width, p.0, p.1)
}

/// Whether `path` is a walk of side-sharing steps over cells of the grid that
/// all hold `target`.
pub open spec fn is_flood_path(
    cells: Seq<Option<u32>>,
    width: u32,
    height: u32,
    target: Option<u32>,
    path: Seq<(int, int)>,
) -> bool {
    &&& path.len() > 0
    &&& forall|i: int|
        0 <= i < path.len() ==> on_grid(width, height, #[trigger] path[i]) && tile_of(
            cells,
            width,
            path[i],
        ) == target
    &&& forall|i: int| 0 <= i < path.len() - 1 ==> adjacent(#[trigger] path[i], path[i + 1])
}

/// Whether `p` is reached from `start` by such a walk: `p` belongs to the
/// region that a flood fill from `start` covers.
pub open spec fn flood_reachable(
    cells: Seq<Option<u32>>,
    width: u32,
    height: u32,
    target: Option<u32>,
    start: (int, int),
    p: (int, int),
) -> bool {
    exists|path: Seq<(int, int)>|
        #[trigger] is_flood_path(cells, width, height, target, path) && path[0] == start
            && path.last() == p
}

/// Whether cell index `k` is the index of a cell of the flood region.
pub open spec fn flood_covers(
    cells: Seq<Option<u32>>,
    width: u32,
    height: u32,
    target: Option<u32>,
    start: (int, int),
    k: int,
) -> bool {
    exists|p: (int, int)|
        flood_reachable(cells, width, height, target, start, p) && #[trigger] grid_index(width, p)
            == k
}

/// The grid after a flood fill from `start`: every cell of the region of
/// `start` (cells holding `target`, connected through shared sides) holds
/// `Some(tile)`; every other cell is unchanged.
pub open spec fn flooded(
    cells: Seq<Option<u32>>,
    width: u32,
    height: u32,
    start: (int, int),
    target: Option<u32>,
    tile: u32,
) -> Seq<Option<u32>> {
    Seq::new(
        cells.len(),
        |k: int|
            if flood_covers(cells, width, height, target, start, k) {
                Some(tile)
            } else {
                cells[k]
            },
    )
}

/// The position a stack entry stands for.
pub open spec fn pos(e: (u32, u32)) -> (int, int) {
    (e.0 as int, e.1 as int)
}

/// Whether a position waits on the stack.
pub open spec fn on_stack(stack: Seq<(u32, u32)>, p: (int, int)) -> bool {
    exists|i: int| 0 <= i < stack.len() && #[trigger] pos(stack[i]) == p
}

/// Whether cell index `k` is the index of a filled cell.
pub open spec fn covered(filled: Set<(int, int)>, width: u32, k: int) -> bool {
    exists|p: (int, int)| filled.contains(p) && #[trigger] grid_index(width, p) == k
}

/// What holds at the top of each round of the fill loop: `seen` holds the
/// indices of the cells taken off the stack, `filled` those of them that hold
/// the target; they are reachable, they and only they have been overwritten,
/// and every neighbour of a filled cell has been seen or waits on the stack.
#[verifier::opaque]
pub open spec fn flood_inv(
    orig: Seq<Option<u32>>,
    width: u32,
    height: u32,
    target: Option<u32>,
    tile: u32,
    start: (int, int),
    cells: Seq<Option<u32>>,
    stack: Seq<(u32, u32)>,
    visited: Set<u64>,
    seen: Set<int>,
    filled: Set<(int, int)>,
) -> bool {
    &&& cells.len() == orig.len()
    &&& seen.finite()
    &&& seen.subset_of(set_int_range(0, width * height))
    &&& forall|k: u64| #[trigger] visited.contains(k) <==> seen.contains(k as int)
    &&& forall|p: (int, int)|
        #[trigger] filled.contains(p) ==> on_grid(width, height, p) && seen.contains(
            grid_index(width, p),
        ) && tile_of(orig, width, p) == target && flood_reachable(
            orig,
            width,
            height,
            target,
            start,
            p,
        )
    &&& forall|p: (int, int)|
        on_grid(width, height, p) && #[trigger] seen.contains(grid_index(width, p)) && tile_of(
            orig,
            width,
            p,
        ) == target ==> filled.contains(p)
    &&& forall|k: int|
        0 <= k < cells.len() ==> #[trigger] cells[k] == if covered(filled, width, k) {
            Some(tile)
        } else {
            orig[k]
        }
    &&& forall|i: int|
        0 <= i < stack.len() ==> on_grid(width, height, #[trigger] pos(stack[i])) && (pos(stack[i])
            == start || exists|f: (int, int)| filled.contains(f) && adjacent(f, pos(stack[i])))
    &&& forall|f: (int, int), n: (int, int)|
        #![trigger filled.contains(f), adjacent(f, n)]
        filled.contains(f) && on_grid(width, height, n) && adjacent(f, n) ==> seen.contains(
            grid_index(width, n),
        ) || on_stack(stack, n)
    &&& seen.contains(grid_index(width, start)) || on_stack(stack, start)
}

/// A cell inside the grid has an index below the cell count.
proof fn lemma_grid_index_bound(width: u32, height: u32, p: (int, int))
    requires
        on_grid(width, height, p),
    ensures
        0 <= grid_index(width, p) < width * height,
{
    assert(0 <= p.1 * width + p.0 < width * height) by (nonlinear_arith)
        requires
            0 <= p.0 < width,
            0 <= p.1 < height,
    ;
}

/// Distinct cells of a grid have distinct indices.
proof fn lemma_grid_index_injective(width: u32, height: u32, p: (int, int), q: (int, int))
    requires
        on_grid(width, height, p),
        on_grid(width, height, q),
        grid_index(width, p) == grid_index(width, q),
    ensures
        p == q,
{
    assert(p.1 == q.1) by (nonlinear_arith)
        requires
            0 <= p.0 < width,
            0 <= q.0 < width,
            0 <= p.1,
            0 <= q.1,
            p.1 * width + p.0 == q.1 * width + q.0,
    {
        if p.1 < q.1 {
            assert(q.1 * width >= (p.1 + 1) * width);
        } else if p.1 > q.1 {
            assert(p.1 * width >= (q.1 + 1) * width);
        }
    }
}

/// Every cell on a flood path from a filled start is filled when the filled
/// set is closed under stepping to a neighbour that holds the target.
proof fn lemma_path_filled(
    orig: Seq<Option<u32>>,
    width: u32,
    height: u32,
    target: Option<u32>,
    filled: Set<(int, int)>,
    path: Seq<(int, int)>,
    i: int,
)
    requires
        is_flood_path(orig, width, height, target, path),
        filled.contains(path[0]),
        forall|f: (int, int), n: (int, int)|
            #![trigger filled.contains(f), adjacent(f, n)]
            filled.contains(f) && on_grid(width, height, n) && adjacent(f, n) && tile_of(
                orig,
                width,
                n,
            ) == target ==> filled.contains(n),
        0 <= i < path.len(),
    ensures
        filled.contains(path[i]),
    decreases i,
{
    if i > 0 {
        lemma_path_filled(orig, width, height, target, filled, path, i - 1);
        assert(adjacent(path[i - 1], path[i]));
        assert(on_grid(width, height, path[i]));
    }
}

/// The one-cell walk: the start reaches itself when it holds the target.
proof fn lemma_reach_start(
    orig: Seq<Option<u32>>,
    width: u32,
    height: u32,
    target: Option<u32>,
    start: (int, int),
)
    requires
        on_grid(width, height, start),
        tile_of(orig, width, start) == target,
    ensures
        flood_reachable(orig, width, height, target, start, start),
{
    let path = seq![start];
    assert(is_flood_path(orig, width, height, target, path));
}

/// A walk extends by one step onto a neighbour that holds the target.
proof fn lemma_reach_step(
    orig: Seq<Option<u32>>,
    width: u32,
    height: u32,
    target: Option<u32>,
    start: (int, int),
    f: (int, int),
    p: (int, int),
)
    requires
        flood_reachable(orig, width, height, target, start, f),
        adjacent(f, p),
        on_grid(width, height, p),
        tile_of(orig, width, p) == target,
    ensures
        flood_reachable(orig, width, height, target, start, p),
{
    let path = choose|path: Seq<(int, int)>|
        #[trigger] is_flood_path(orig, width, height, target, path) && path[0] == start
            && path.last() == f;
    let longer = path.push(p);
    assert forall|i: int| 0 <= i < longer.len() - 1 implies adjacent(
        #[trigger] longer[i],
        longer[i + 1],
    ) by {
        if i < path.len() - 1 {
            assert(longer[i] == path[i] && longer[i + 1] == path[i + 1]);
        }
    }
    assert forall|i: int| 0 <= i < longer.len() implies on_grid(
        width,
        height,
        #[trigger] longer[i],
    ) && tile_of(orig, width, longer[i]) == target by {
        if i < path.len() {
            assert(longer[i] == path[i]);
        }
    }
    assert(is_flood_path(orig, width, height, target, longer));
    assert(longer[0] == start && longer.last() == p);
}

/// The loop invariant holds before the first round.
proof fn lemma_inv_init(
    orig: Seq<Option<u32>>,
    width: u32,
    height: u32,
    target: Option<u32>,
    tile: u32,
    start: (int, int),
    stack: Seq<(u32, u32)>,
    visited: Set<u64>,
)
    requires
        on_grid(width, height, start),
        stack.len() == 1,
        pos(stack[0]) == start,
        visited == Set::<u64>::empty(),
    ensures
        flood_inv(
            orig,
            width,
            height,
            target,
            tile,
            start,
            orig,
            stack,
            visited,
            Set::empty(),
            Set::empty(),
        ),
{
    reveal(flood_inv);
    lemma_int_range(0, width * height);
    assert(on_stack(stack, start));
    assert forall|k: int| 0 <= k < orig.len() implies #[trigger] orig[k] == if covered(
        Set::<(int, int)>::empty(),
        width,
        k,
    ) {
        Some(tile)
    } else {
        orig[k]
    } by {}
}

/// A popped cell that was seen before: dropping it keeps the invariant.
proof fn lemma_inv_skip(
    orig: Seq<Option<u32>>,
    width: u32,
    height: u32,
    target: Option<u32>,
    tile: u32,
    start: (int, int),
    cells: Seq<Option<u32>>,
    stack: Seq<(u32, u32)>,
    visited: Set<u64>,
    seen: Set<int>,
    filled: Set<(int, int)>,
)
    requires
        flood_inv(orig, width, height, target, tile, start, cells, stack, visited, seen, filled),
        stack.len() > 0,
        seen.contains(grid_index(width, pos(stack.last()))),
    ensures
        flood_inv(
            orig,
            width,
            height,
            target,
            tile,
            start,
            cells,
            stack.drop_last(),
            visited,
            seen,
            filled,
        ),
{
    reveal(flood_inv);
    let rest = stack.drop_last();
    let p = pos(stack.last());
    assert forall|i: int| 0 <= i < rest.len() implies on_grid(
        width,
        height,
        #[trigger] pos(rest[i]),
    ) && (pos(rest[i]) == start || exists|f: (int, int)|
        filled.contains(f) && adjacent(f, pos(rest[i]))) by {
        assert(rest[i] == stack[i]);
        assert(on_grid(width, height, pos(stack[i])));
    }
    assert forall|f: (int, int), n: (int, int)|
        #![trigger filled.contains(f), adjacent(f, n)]
        filled.contains(f) && on_grid(width, height, n) && adjacent(f, n) implies seen.contains(
        grid_index(width, n),
    ) || on_stack(rest, n) by {
        if !seen.contains(grid_index(width, n)) {
            let i = choose|i: int| 0 <= i < stack.len() && #[trigger] pos(stack[i]) == n;
            if i == stack.len() - 1 {
                assert(n == p);
            } else {
                assert(pos(rest[i]) == n);
            }
        }
    }
    if !seen.contains(grid_index(width, start)) {
        let i = choose|i: int| 0 <= i < stack.len() && #[trigger] pos(stack[i]) == start;
        if i < stack.len() - 1 {
            assert(pos(rest[i]) == start);
        }
    }
}

/// A popped cell seen for the first time that does not hold the target: it
/// joins the seen cells and the invariant holds.
proof fn lemma_inv_mismatch(
    orig: Seq<Option<u32>>,
    width: u32,
    height: u32,
    target: Option<u32>,
    tile: u32,
    start: (int, int),
    cells: Seq<Option<u32>>,
    stack: Seq<(u32, u32)>,
    visited: Set<u64>,
    seen: Set<int>,
    filled: Set<(int, int)>,
    key: u64,
)
    requires
        flood_inv(orig, width, height, target, tile, start, cells, stack, visited, seen, filled),
        stack.len() > 0,
        key == grid_index(width, pos(stack.last())),
        !seen.contains(key as int),
        tile_of(orig, width, pos(stack.last())) != target,
    ensures
        flood_inv(
            orig,
            width,
            height,
            target,
            tile,
            start,
            cells,
            stack.drop_last(),
            visited.insert(key),
            seen.insert(key as int),
            filled,
        ),
{
    reveal(flood_inv);
    let p = pos(stack.last());
    let rest = stack.drop_last();
    let seen2 = seen.insert(key as int);
    assert(on_grid(width, height, pos(stack[stack.len() - 1])));
    lemma_grid_index_bound(width, height, p);
    assert forall|q: (int, int)|
        on_grid(width, height, q) && #[trigger] seen2.contains(grid_index(width, q)) && tile_of(
            orig,
            width,
            q,
        ) == target implies filled.contains(q) by {
        if grid_index(width, q) == key {
            lemma_grid_index_injective(width, height, p, q);
        }
    }
    assert forall|i: int| 0 <= i < rest.len() implies on_grid(
        width,
        height,
        #[trigger] pos(rest[i]),
    ) && (pos(rest[i]) == start || exists|f: (int, int)|
        filled.contains(f) && adjacent(f, pos(rest[i]))) by {
        assert(rest[i] == stack[i]);
        assert(on_grid(width, height, pos(stack[i])));
    }
    assert forall|f: (int, int), n: (int, int)|
        #![trigger filled.contains(f), adjacent(f, n)]
        filled.contains(f) && on_grid(width, height, n) && adjacent(f, n) implies seen2.contains(
        grid_index(width, n),
    ) || on_stack(rest, n) by {
        if !seen.contains(grid_index(width, n)) {
            let i = choose|i: int| 0 <= i < stack.len() && #[trigger] pos(stack[i]) == n;
            if i == stack.len() - 1 {
                assert(n == p);
            } else {
                assert(pos(rest[i]) == n);
            }
        }
    }
    if !seen.contains(grid_index(width, start)) {
        let i = choose|i: int| 0 <= i < stack.len() && #[trigger] pos(stack[i]) == start;
        if i < stack.len() - 1 {
            assert(pos(rest[i]) == start);
        }
    }
    assert(seen2.subset_of(set_int_range(0, width * height)));
}

/// What the fill loop reads off the invariant: the grid keeps its length, the
/// top of the stack lies inside the grid, the seen set is a finite set of cell
/// indices, and the visited set holds exactly the seen indices.
proof fn lemma_inv_basics(
    orig: Seq<Option<u32>>,
    width: u32,
    height: u32,
    target: Option<u32>,
    tile: u32,
    start: (int, int),
    cells: Seq<Option<u32>>,
    stack: Seq<(u32, u32)>,
    visited: Set<u64>,
    seen: Set<int>,
    filled: Set<(int, int)>,
    key: u64,
)
    requires
        flood_inv(orig, width, height, target, tile, start, cells, stack, visited, seen, filled),
    ensures
        cells.len() == orig.len(),
        stack.len() > 0 ==> on_grid(width, height, pos(stack.last())),
        seen.finite(),
        seen.len() <= width * height,
        visited.contains(key) <==> seen.contains(key as int),
{
    reveal(flood_inv);
    if stack.len() > 0 {
        assert(on_grid(width, height, pos(stack[stack.len() - 1])));
    }
    lemma_int_range(0, width * height);
    lemma_len_subset(seen, set_int_range(0, width * height));
}

/// A cell that has not been seen still holds its original tile.
proof fn lemma_unseen_original(
    orig: Seq<Option<u32>>,
    width: u32,
    height: u32,
    target: Option<u32>,
    tile: u32,
    start: (int, int),
    cells: Seq<Option<u32>>,
    stack: Seq<(u32, u32)>,
    visited: Set<u64>,
    seen: Set<int>,
    filled: Set<(int, int)>,
    p: (int, int),
)
    requires
        flood_inv(orig, width, height, target, tile, start, cells, stack, visited, seen, filled),
        on_grid(width, height, p),
        !seen.contains(grid_index(width, p)),
    ensures
        tile_of(cells, width, p) == tile_of(orig, width, p),
        !covered(filled, width, grid_index(width, p)),
{
    reveal(flood_inv);
    if covered(filled, width, grid_index(width, p)) {
        let f = choose|f: (int, int)|
            filled.contains(f) && #[trigger] grid_index(width, f) == grid_index(width, p);
        lemma_grid_index_injective(width, height, f, p);
    }
    lemma_grid_index_bound(width, height, p);
    let k = grid_index(width, p);
    if 0 <= k < cells.len() {
        assert(cells[k] == orig[k]);
    }
}

/// A popped cell seen for the first time that holds the target: after it is
/// overwritten, marked seen and filled, and its neighbours inside the grid are
/// pushed, the invariant holds.
proof fn lemma_inv_fill(
    orig: Seq<Option<u32>>,
    width: u32,
    height: u32,
    target: Option<u32>,
    tile: u32,
    start: (int, int),
    cells: Seq<Option<u32>>,
    stack: Seq<(u32, u32)>,
    visited: Set<u64>,
    seen: Set<int>,
    filled: Set<(int, int)>,
    key: u64,
    new_cells: Seq<Option<u32>>,
    new_stack: Seq<(u32, u32)>,
)
    requires
        flood_inv(orig, width, height, target, tile, start, cells, stack, visited, seen, filled),
        stack.len() > 0,
        key == grid_index(width, pos(stack.last())),
        !seen.contains(key as int),
        tile_of(orig, width, pos(stack.last())) == target,
        new_cells == (if key < cells.len() {
            cells.update(key as int, Some(tile))
        } else {
            cells
        }),
        new_stack.len() >= stack.len() - 1,
        forall|i: int| 0 <= i < stack.len() - 1 ==> new_stack[i] == stack[i],
        forall|i: int|
            stack.len() - 1 <= i < new_stack.len() ==> on_grid(
                width,
                height,
                #[trigger] pos(new_stack[i]),
            ) && adjacent(pos(stack.last()), pos(new_stack[i])),
        forall|n: (int, int)|
            on_grid(width, height, n) && #[trigger] adjacent(pos(stack.last()), n) ==> on_stack(
                new_stack,
                n,
            ),
    ensures
        flood_inv(
            orig,
            width,
            height,
            target,
            tile,
            start,
            new_cells,
            new_stack,
            visited.insert(key),
            seen.insert(key as int),
            filled.insert(pos(stack.last())),
        ),
{
    reveal(flood_inv);
    let p = pos(stack.last());
    let seen2 = seen.insert(key as int);
    let filled2 = filled.insert(p);
    assert(on_grid(width, height, pos(stack[stack.len() - 1])));
    lemma_grid_index_bound(width, height, p);
    lemma_unseen_original(
        orig,
        width,
        height,
        target,
        tile,
        start,
        cells,
        stack,
        visited,
        seen,
        filled,
        p,
    );
    // p is reachable: it is the start or a neighbour of a filled cell.
    if p == start {
        lemma_reach_start(orig, width, height, target, start);
    } else {
        let f = choose|f: (int, int)| filled.contains(f) && adjacent(f, pos(stack[stack.len() - 1]));
        lemma_reach_step(orig, width, height, target, start, f, p);
    }
    assert forall|q: (int, int)| #[trigger] filled2.contains(q) implies on_grid(
        width,
        height,
        q,
    ) && seen2.contains(grid_index(width, q)) && tile_of(orig, width, q) == target
        && flood_reachable(orig, width, height, target, start, q) by {
        if q != p {
            assert(filled.contains(q));
        }
    }
    assert forall|q: (int, int)|
        on_grid(width, height, q) && #[trigger] seen2.contains(grid_index(width, q)) && tile_of(
            orig,
            width,
            q,
        ) == target implies filled2.contains(q) by {
        if grid_index(width, q) == key {
            lemma_grid_index_injective(width, height, p, q);
        }
    }
    assert forall|k: int| 0 <= k < new_cells.len() implies #[trigger] new_cells[k] == if covered(
        filled2,
        width,
        k,
    ) {
        Some(tile)
    } else {
        orig[k]
    } by {
        if k == key {
            assert(grid_index(width, p) == k);
        } else {
            assert(new_cells[k] == cells[k]);
            if covered(filled2, width, k) {
                let f = choose|f: (int, int)|
                    filled2.contains(f) && #[trigger] grid_index(width, f) == k;
                assert(f != p);
                assert(covered(filled, width, k));
            }
        }
    }
    assert forall|i: int| 0 <= i < new_stack.len() implies on_grid(
        width,
        height,
        #[trigger] pos(new_stack[i]),
    ) && (pos(new_stack[i]) == start || exists|f: (int, int)|
        filled2.contains(f) && adjacent(f, pos(new_stack[i]))) by {
        if i < stack.len() - 1 {
            assert(new_stack[i] == stack[i]);
            assert(on_grid(width, height, pos(stack[i])));
            if pos(stack[i]) != start {
                let f = choose|f: (int, int)| filled.contains(f) && adjacent(f, pos(stack[i]));
                assert(filled2.contains(f));
            }
        } else {
            assert(filled2.contains(p));
        }
    }
    assert forall|f: (int, int), n: (int, int)|
        #![trigger filled2.contains(f), adjacent(f, n)]
        filled2.contains(f) && on_grid(width, height, n) && adjacent(f, n) implies seen2.contains(
        grid_index(width, n),
    ) || on_stack(new_stack, n) by {
        if f == p {
            assert(on_stack(new_stack, n));
        } else if !seen.contains(grid_index(width, n)) {
            assert(filled.contains(f));
            let i = choose|i: int| 0 <= i < stack.len() && #[trigger] pos(stack[i]) == n;
            if i == stack.len() - 1 {
                assert(n == p);
            } else {
                assert(pos(new_stack[i]) == n);
            }
        }
    }
    if !seen.contains(grid_index(width, start)) {
        let i = choose|i: int| 0 <= i < stack.len() && #[trigger] pos(stack[i]) == start;
        if i < stack.len() - 1 {
            assert(pos(new_stack[i]) == start);
        }
    }
    assert(seen2.subset_of(set_int_range(0, width * height)));
}

/// When the stack runs empty the grid is the flooded one.
proof fn lemma_inv_done(
    orig: Seq<Option<u32>>,
    width: u32,
    height: u32,
    target: Option<u32>,
    tile: u32,
    start: (int, int),
    cells: Seq<Option<u32>>,
    stack: Seq<(u32, u32)>,
    visited: Set<u64>,
    seen: Set<int>,
    filled: Set<(int, int)>,
)
    requires
        flood_inv(orig, width, height, target, tile, start, cells, stack, visited, seen, filled),
        stack.len() == 0,
        on_grid(width, height, start),
        tile_of(orig, width, start) == target,
    ensures
        cells == flooded(orig, width, height, start, target, tile),
{
    reveal(flood_inv);
    assert forall|f: (int, int), n: (int, int)|
        #![trigger filled.contains(f), adjacent(f, n)]
        filled.contains(f) && on_grid(width, height, n) && adjacent(f, n) && tile_of(
            orig,
            width,
            n,
        ) == target implies filled.contains(n) by {
        assert(seen.contains(grid_index(width, n)));
    }
    assert(filled.contains(start));
    assert forall|k: int| 0 <= k < cells.len() implies #[trigger] cells[k] == flooded(
        orig,
        width,
        height,
        start,
        target,
        tile,
    )[k] by {
        if covered(filled, width, k) {
            let f = choose|f: (int, int)| filled.contains(f) && #[trigger] grid_index(width, f) == k;
            assert(flood_covers(orig, width, height, target, start, k));
        }
        if flood_covers(orig, width, height, target, start, k) {
            let p = choose|p: (int, int)|
                flood_reachable(orig, width, height, target, start, p) && #[trigger] grid_index(
                    width,
                    p,
                ) == k;
            let path = choose|path: Seq<(int, int)>|
                #[trigger] is_flood_path(orig, width, height, target, path) && path[0] == start
                    && path.last() == p;
            lemma_path_filled(orig, width, height, target, filled, path, path.len() - 1);
            assert(covered(filled, width, k));
        }
    }
    assert(cells =~= flooded(orig, width, height, start, target, tile));
}

/// Whether two optional tiles are equal.
fn same_tile(a: Option<u32>, b: Option<u32>) -> (r: bool)
    ensures
        r == (a == b),
{
    match (a, b) {
        (Some(x), Some(y)) => x == y,
        (None, None) => true,
        _ => false,
    }
}

/// Flood fill from cell (`start_x`, `start_y`), which holds `target`: every
/// cell connected to it through shared sides over cells holding `target`
/// gets `Some(tile)`. The fill walks the grid with a stack of cells to visit
/// and a set of the cells already visited.
pub fn flood_cells(
    tiles: &mut Vec<Option<u32>>,
    width: u32,
    height: u32,
    start_x: u32,
    start_y: u32,
    target: Option<u32>,
    tile: u32,
)
    requires
        start_x < width,
        start_y < height,
        width * height <= u32::MAX + 1,
        tile_of(old(tiles)@, width, (start_x as int, start_y as int)) == target,
    ensures
        final(tiles)@ == flooded(
            old(tiles)@,
            width,
            height,
            (start_x as int, start_y as int),
            target,
            tile,
        ),
{
    let ghost orig = tiles@;
    let ghost start = (start_x as int, start_y as int);
    let mut stack: Vec<(u32, u32)> = Vec::new();
    stack.push((start_x, start_y));
    let mut visited: HashSet<u64> = HashSet::new();
    let ghost mut seen: Set<int> = Set::empty();
    let ghost mut filled: Set<(int, int)> = Set::empty();
    proof {
        lemma_inv_init(orig, width, height, target, tile, start, stack@, visited@);
    }
    while stack.len() > 0
        invariant
            start_x < width,
            start_y < height,
            width * height <= u32::MAX + 1,
            start == (start_x as int, start_y as int),
            tile_of(orig, width, start) == target,
            flood_inv(
                orig,
                width,
                height,
                target,
                tile,
                start,
                tiles@,
                stack@,
                visited@,
                seen,
                filled,
            ),
        decreases width * height - seen.len(), stack.len(),
    {
        let ghost before = stack@;
        let top = stack.pop();
        let (x, y) = match top {
            Some(e) => e,
            None => (0, 0),
        };
        proof {
            assert(pos(before[before.len() - 1]) == (x as int, y as int));
            lemma_inv_basics(
                orig,
                width,
                height,
                target,
                tile,
                start,
                tiles@,
                before,
                visited@,
                seen,
                filled,
                (y as int * width as int + x as int) as u64,
            );
            lemma_grid_index_bound(width, height, (x as int, y as int));
        }
        let key: u64 = y as u64 * width as u64 + x as u64;
        if visited.contains(&key) {
            proof {
                lemma_inv_skip(
                    orig,
                    width,
                    height,
                    target,
                    tile,
                    start,
                    tiles@,
                    before,
                    visited@,
                    seen,
                    filled,
                );
            }
            continue;
        }
        let idx = key as usize;
        let current = if idx < tiles.len() {
            tiles[idx]
        } else {
            None
        };
        proof {
            lemma_unseen_original(
                orig,
                width,
                height,
                target,
                tile,
                start,
                tiles@,
                before,
                visited@,
                seen,
                filled,
                (x as int, y as int),
            );
        }
        if !same_tile(current, target) {
            proof {
                lemma_inv_mismatch(
                    orig,
                    width,
                    height,
                    target,
                    tile,
                    start,
                    tiles@,
                    before,
                    visited@,
                    seen,
                    filled,
                    key,
                );
            }
            visited.insert(key);
            proof {
                seen = seen.insert(key as int);
                lemma_inv_basics(
                    orig,
                    width,
                    height,
                    target,
                    tile,
                    start,
                    tiles@,
                    stack@,
                    visited@,
                    seen,
                    filled,
                    key,
                );
            }
            continue;
        }
        let ghost old_cells = tiles@;
        let ghost old_visited = visited@;
        visited.insert(key);
        if idx < tiles.len() {
            tiles.set(idx, Some(tile));
        }
        let ghost rest = stack@;
        if x > 0 {
            stack.push((x - 1, y));
        }
        if x < width - 1 {
            stack.push((x + 1, y));
        }
        if y > 0 {
            stack.push((x, y - 1));
        }
        if y < height - 1 {
            stack.push((x, y + 1));
        }
        proof {
            let p = (x as int, y as int);
            let ns = stack@;
            assert forall|i: int| 0 <= i < before.len() - 1 implies ns[i] == before[i] by {
                assert(ns[i] == rest[i]);
            }
            assert forall|n: (int, int)|
                on_grid(width, height, n) && #[trigger] adjacent(pos(before.last()), n) implies on_stack(
                ns,
                n,
            ) by {
                let a: int = if x > 0 { 1 } else { 0 };
                let b: int = if x < width - 1 { 1 } else { 0 };
                let c: int = if y > 0 { 1 } else { 0 };
                if n.0 == p.0 - 1 {
                    assert(pos(ns[rest.len() as int]) == n);
                } else if n.0 == p.0 + 1 {
                    assert(pos(ns[rest.len() + a]) == n);
                } else if n.1 == p.1 - 1 {
                    assert(pos(ns[rest.len() + a + b]) == n);
                } else {
                    assert(pos(ns[rest.len() + a + b + c]) == n);
                }
            }
            lemma_inv_fill(
                orig,
                width,
                height,
                target,
                tile,
                start,
                old_cells,
                before,
                old_visited,
                seen,
                filled,
                key,
                tiles@,
                ns,
            );
            seen = seen.insert(key as int);
            filled = filled.insert(p);
            lemma_inv_basics(
                orig,
                width,
                height,
                target,
                tile,
                start,
                tiles@,
                stack@,
                visited@,
                seen,
                filled,
                key,
            );
        }
    }
    proof {
        lemma_inv_done(orig, width, height, target, tile, start, tiles@, stack@, visited@, seen, filled);
    }
}

/// After a flood fill from a start cell that lies in the grid and in the cell
/// vector, the start cell holds the new tile; a second fill with the same tile
/// from the same cell therefore finds nothing to do.
pub proof fn law_flood_fills_start(
    cells: Seq<Option<u32>>,
    width: u32,
    height: u32,
    start: (int, int),
    target: Option<u32>,
    tile: u32,
)
    requires
        on_grid(width, height, start),
        tile_of(cells, width, start) == target,
        grid_index(width, start) < cells.len(),
    ensures
        tile_of(flooded(cells, width, height, start, target, tile), width, start) == Some(tile),
{
    lemma_reach_start(cells, width, height, target, start);
    lemma_grid_index_bound(width, height, start);
    assert(flood_covers(cells, width, height, target, start, grid_index(width, start)));
}

/// A flood fill only writes cells that held the target: every other cell
/// keeps its tile.
pub proof fn law_flood_keeps_other_tiles(
    cells: Seq<Option<u32>>,
    width: u32,
    height: u32,
    start: (int, int),
    target: Option<u32>,
    tile: u32,
    k: int,
)
    requires
        0 <= k < cells.len(),
        cells[k] != target,
    ensures
        flooded(cells, width, height, start, target, tile)[k] == cells[k],
{
    if flood_covers(cells, width, height, target, start, k) {
        let p = choose|p: (int, int)|
            flood_reachable(cells, width, height, target, start, p) && #[trigger] grid_index(
                width,
                p,
            ) == k;
        let path = choose|path: Seq<(int, int)>|
            #[trigger] is_flood_path(cells, width, height, target, path) && path[0] == start
                && path.last() == p;
        assert(tile_of(cells, width, path[path.len() - 1]) == target);
    }
}

} // verus!
