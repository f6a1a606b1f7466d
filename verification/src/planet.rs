//! Continents of a planet surface: the land/sea grid is split into its
//! 4-connected landmasses by flood fill, and landmasses of fewer than four cells
//! are dropped as specks.

use std::collections::VecDeque;
use vstd::prelude::*;

verus! {

/// Side length of the square land/sea grid a planet surface is sampled on.
pub const GRID_SIZE: i32 = 64;

/// Smallest landmass, in cells, that counts as a continent.
pub const MIN_CONTINENT_CELLS: usize = 4;

/// One landmass: the grid cells `(x, z)` it covers, in discovery order.
#[derive(Debug, Clone)]
pub struct ContinentData {
    pub cells: Vec<(i32, i32)>,
}

/// The continents found on a planet's land grid.
#[derive(Debug)]
pub struct PlanetData {
    pub continents: Vec<ContinentData>,
}

// ── Grid model ───────────────────────────────────────────────────────────────

/// `g` has `n` rows, each holding at least `n` cells (cells past the `n`-th
/// are outside the grid).
pub open spec fn is_square(g: Seq<Vec<bool>>, n: int) -> bool {
    &&& g.len() == n
    &&& forall|i: int| 0 <= i < n ==> (#[trigger] g[i])@.len() >= n
}

pub open spec fn in_grid(n: int, p: (int, int)) -> bool {
    0 <= p.0 < n && 0 <= p.1 < n
}

/// The flag stored for cell `p`.
pub open spec fn at(g: Seq<Vec<bool>>, p: (int, int)) -> bool {
    g[p.0]@[p.1]
}

/// The rows of a grid, each taken by its view.
pub open spec fn rows(g: Seq<Vec<bool>>) -> Seq<Seq<bool>> {
    g.map_values(|r: Vec<bool>| r@)
}

/// Cells sharing an edge (4-neighbourhood).
pub open spec fn adjacent(a: (int, int), b: (int, int)) -> bool {
    ||| a.0 == b.0 && (a.1 == b.1 + 1 || a.1 + 1 == b.1)
    ||| a.1 == b.1 && (a.0 == b.0 + 1 || a.0 + 1 == b.0)
}

/// The neighbour of `p` in direction `d`: 0 = -x, 1 = +x, 2 = -z, 3 = +z.
pub open spec fn neighbour(p: (int, int), d: int) -> (int, int) {
    if d == 0 {
        (p.0 - 1, p.1)
    } else if d == 1 {
        (p.0 + 1, p.1)
    } else if d == 2 {
        (p.0, p.1 - 1)
    } else {
        (p.0, p.1 + 1)
    }
}

/// A land cell of the grid.
pub open spec fn is_land(land: Seq<Vec<bool>>, p: (int, int)) -> bool {
    in_grid(land.len() as int, p) && at(land, p)
}

/// A land cell not marked in `seen`.
pub open spec fn open_cell(land: Seq<Vec<bool>>, seen: Seq<Vec<bool>>, p: (int, int)) -> bool {
    is_land(land, p) && !at(seen, p)
}

/// Cell coordinates as mathematical integers.
pub open spec fn cell_seq(cells: Seq<(i32, i32)>) -> Seq<(int, int)> {
    cells.map_values(|c: (i32, i32)| (c.0 as int, c.1 as int))
}

/// `r` lists distinct cells, each one after the first adjacent to an earlier one,
/// so every cell is joined to `r[0]` by a path inside `r`.
pub open spec fn grown(r: Seq<(int, int)>) -> bool {
    &&& r.len() > 0
    &&& r.no_duplicates()
    &&& forall|i: int|
        #![trigger r[i]]
        0 < i < r.len() ==> exists|j: int| #![trigger r[j]] 0 <= j < i && adjacent(r[i], r[j])
}

/// Every open neighbour of a cell of `r` is itself in `r`.
pub open spec fn closed_in(land: Seq<Vec<bool>>, seen: Seq<Vec<bool>>, r: Seq<(int, int)>) -> bool {
    forall|i: int, q: (int, int)|
        0 <= i < r.len() && #[trigger] adjacent(r[i], q) && open_cell(land, seen, q) ==> r.contains(q)
}

/// `r` is a connected component of the land: connected, all land, and no land
/// cell outside it touches it.
pub open spec fn is_component(land: Seq<Vec<bool>>, r: Seq<(int, int)>) -> bool {
    &&& grown(r)
    &&& forall|i: int| 0 <= i < r.len() ==> is_land(land, #[trigger] r[i])
    &&& forall|i: int, q: (int, int)|
        0 <= i < r.len() && #[trigger] adjacent(r[i], q) && is_land(land, q) ==> r.contains(q)
}

// ── Counting unmarked cells (termination measure) ────────────────────────────

pub open spec fn row_unset(r: Seq<bool>) -> nat
    decreases r.len(),
{
    if r.len() == 0 {
        0
    } else {
        row_unset(r.drop_last()) + (if r.last() { 0nat } else { 1nat })
    }
}

pub open spec fn grid_unset(g: Seq<Seq<bool>>) -> nat
    decreases g.len(),
{
    if g.len() == 0 {
        0
    } else {
        grid_unset(g.drop_last()) + row_unset(g.last())
    }
}

proof fn lemma_row_unset_mark(r: Seq<bool>, z: int)
    requires
        0 <= z < r.len(),
        !r[z],
    ensures
        row_unset(r.update(z, true)) + 1 == row_unset(r),
    decreases r.len(),
{
    let r2 = r.update(z, true);
    if z == r.len() - 1 {
        assert(r2.drop_last() =~= r.drop_last());
    } else {
        lemma_row_unset_mark(r.drop_last(), z);
        assert(r2.drop_last() =~= r.drop_last().update(z, true));
    }
}

proof fn lemma_grid_unset_mark(g: Seq<Seq<bool>>, x: int, z: int)
    requires
        0 <= x < g.len(),
        0 <= z < g[x].len(),
        !g[x][z],
    ensures
        grid_unset(g.update(x, g[x].update(z, true))) + 1 == grid_unset(g),
    decreases g.len(),
{
    let g2 = g.update(x, g[x].update(z, true));
    if x == g.len() - 1 {
        assert(g2.drop_last() =~= g.drop_last());
        lemma_row_unset_mark(g[x], z);
    } else {
        lemma_grid_unset_mark(g.drop_last(), x, z);
        assert(g2.drop_last() =~= g.drop_last().update(x, g[x].update(z, true)));
    }
}

// ── Breadth-first search ─────────────────────────────────────────────────────

/// What a search from `start` has discovered so far, in order: distinct grid
/// cells, each after the first an open cell next to an earlier one, and the
/// marks are the prior marks plus exactly the discovered cells.
#[verifier::opaque]
pub open spec fn search_state(
    land: Seq<Vec<bool>>,
    v0: Seq<Vec<bool>>,
    marks: Seq<Vec<bool>>,
    start: (int, int),
    disc: Seq<(int, int)>,
    n: int,
) -> bool {
    &&& is_square(land, n)
    &&& is_square(v0, n)
    &&& is_square(marks, n)
    &&& in_grid(n, start)
    &&& disc.len() >= 1
    &&& disc[0] == start
    &&& disc.no_duplicates()
    &&& forall|i: int| 0 <= i < disc.len() ==> in_grid(n, #[trigger] disc[i])
    &&& forall|i: int| 0 < i < disc.len() ==> open_cell(land, v0, #[trigger] disc[i])
    &&& forall|i: int|
        #![trigger disc[i]]
        0 < i < disc.len() ==> exists|j: int| #![trigger disc[j]] 0 <= j < i && adjacent(disc[i], disc[j])
    &&& forall|x: int, z: int|
        0 <= x < n && 0 <= z < n ==> #[trigger] at(marks, (x, z)) == (at(v0, (x, z)) || disc.contains(
            (x, z),
        ))
}

/// The queue holds the discovered cells from index `done` on, in order.
pub open spec fn queue_tail(queue: Seq<(usize, usize)>, disc: Seq<(int, int)>, done: int) -> bool {
    &&& disc.len() == done + queue.len()
    &&& forall|i: int|
        0 <= i < queue.len() ==> (#[trigger] queue[i]).0 as int == disc[done + i].0 && queue[i].1 as int
            == disc[done + i].1
}

/// Every open neighbour of the first `k` discovered cells has been discovered.
pub open spec fn closed_upto(land: Seq<Vec<bool>>, v0: Seq<Vec<bool>>, disc: Seq<(int, int)>, k: int) -> bool {
    forall|i: int, q: (int, int)|
        0 <= i < k && #[trigger] adjacent(disc[i], q) && open_cell(land, v0, q) ==> disc.contains(q)
}

/// The direction, as `neighbour` numbers them, in which `q` lies from `p`.
pub open spec fn dir_of(p: (int, int), q: (int, int)) -> int {
    if q == neighbour(p, 0) {
        0
    } else if q == neighbour(p, 1) {
        1
    } else if q == neighbour(p, 2) {
        2
    } else {
        3
    }
}

/// `r[j]` is the first cell of `r` that `r[i]` touches, and it comes before
/// `r[i]`: the cell `r[i]` was reached from.
pub open spec fn parent_at(r: Seq<(int, int)>, i: int, j: int) -> bool {
    &&& 0 <= j < i < r.len()
    &&& adjacent(r[i], r[j])
    &&& forall|m: int| 0 <= m < j ==> !adjacent(r[i], #[trigger] r[m])
}

/// `r` is in breadth-first order: the cells after the first come ordered by the
/// place of their parent and then by their direction from it.
#[verifier::opaque]
pub open spec fn breadth_first(r: Seq<(int, int)>) -> bool {
    forall|i: int, k: int, a: int, b: int|
        1 <= i < k < r.len() && #[trigger] parent_at(r, i, a) && #[trigger] parent_at(r, k, b) ==> a < b
            || (a == b && dir_of(r[a], r[i]) < dir_of(r[b], r[k]))
}

/// A cell after the first in a grown sequence has a parent.
proof fn lemma_parent_exists(r: Seq<(int, int)>, i: int, lo: int)
    requires
        0 <= lo <= i < r.len(),
        forall|m: int| 0 <= m < lo ==> !adjacent(r[i], #[trigger] r[m]),
        exists|j: int| lo <= j < i && adjacent(r[i], #[trigger] r[j]),
    ensures
        exists|j: int| #[trigger] parent_at(r, i, j),
    decreases i - lo,
{
    if adjacent(r[i], r[lo]) {
        assert(parent_at(r, i, lo));
    } else {
        lemma_parent_exists(r, i, lo + 1);
    }
}

/// What breadth-first order says of two cells with known parents.
proof fn lemma_breadth_first_pair(r: Seq<(int, int)>, i: int, k: int, a: int, b: int)
    requires
        breadth_first(r),
        1 <= i < k < r.len(),
        parent_at(r, i, a),
        parent_at(r, k, b),
    ensures
        a < b || (a == b && dir_of(r[a], r[i]) < dir_of(r[b], r[k])),
{
    reveal(breadth_first);
}

/// A cell after the first of a grown sequence has a parent.
proof fn lemma_has_parent(r: Seq<(int, int)>, i: int)
    requires
        grown(r),
        0 < i < r.len(),
    ensures
        exists|j: int| #[trigger] parent_at(r, i, j),
{
    assert(r[i] == r[i]);
    lemma_parent_exists(r, i, 0);
}

/// Two breadth-first orders that agree before place `i` agree at `i` too.
proof fn lemma_breadth_first_step(r1: Seq<(int, int)>, r2: Seq<(int, int)>, i: int)
    requires
        r1.no_duplicates(),
        r2.no_duplicates(),
        breadth_first(r1),
        breadth_first(r2),
        r1.len() == r2.len(),
        r1.to_set() == r2.to_set(),
        0 < i < r1.len(),
        exists|j: int| #[trigger] parent_at(r1, i, j),
        exists|j: int| #[trigger] parent_at(r2, i, j),
        forall|j: int| 0 <= j < i ==> r1[j] == r2[j],
    ensures
        r1[i] == r2[i],
{
    if r1[i] != r2[i] {
        let a = choose|j: int| #[trigger] parent_at(r1, i, j);
        let b = choose|j: int| #[trigger] parent_at(r2, i, j);
        assert(r1.to_set().contains(r2[i]));
        let k = choose|k: int| 0 <= k < r1.len() && r1[k] == r2[i];
        assert(r2.to_set().contains(r1[i]));
        let k2 = choose|k: int| 0 <= k < r2.len() && r2[k] == r1[i];
        if k < i {
            assert(r2[k] == r1[k]);
        }
        if k2 < i {
            assert(r1[k2] == r2[k2]);
        }
        assert(r1[a] == r2[a]);
        assert(r1[b] == r2[b]);
        assert forall|m: int| 0 <= m < b implies !adjacent(r1[k], #[trigger] r1[m]) by {
            assert(r1[m] == r2[m]);
            assert(!adjacent(r2[i], r2[m]));
        }
        assert(parent_at(r1, k, b));
        assert forall|m: int| 0 <= m < a implies !adjacent(r2[k2], #[trigger] r2[m]) by {
            assert(r1[m] == r2[m]);
            assert(!adjacent(r1[i], r1[m]));
        }
        assert(parent_at(r2, k2, a));
        lemma_breadth_first_pair(r1, i, k, a, b);
        lemma_breadth_first_pair(r2, i, k2, b, a);
    }
}

proof fn lemma_breadth_first_agree_upto(r1: Seq<(int, int)>, r2: Seq<(int, int)>, i: int)
    requires
        grown(r1),
        grown(r2),
        breadth_first(r1),
        breadth_first(r2),
        r1.len() == r2.len(),
        r1[0] == r2[0],
        r1.to_set() == r2.to_set(),
        0 <= i <= r1.len(),
    ensures
        forall|j: int| 0 <= j < i ==> r1[j] == r2[j],
    decreases i,
{
    if i > 1 {
        lemma_breadth_first_agree_upto(r1, r2, i - 1);
        lemma_has_parent(r1, i - 1);
        lemma_has_parent(r2, i - 1);
        lemma_breadth_first_step(r1, r2, i - 1);
    }
}

/// A breadth-first order is fixed by its first cell and the cells it covers:
/// two grown, breadth-first sequences with the same first cell and the same
/// cells are the same sequence. So the order in which a flood lists a
/// landmass is determined by where it starts.
pub proof fn lemma_breadth_first_unique(r1: Seq<(int, int)>, r2: Seq<(int, int)>)
    requires
        grown(r1),
        grown(r2),
        breadth_first(r1),
        breadth_first(r2),
        r1[0] == r2[0],
        r1.to_set() == r2.to_set(),
    ensures
        r1 == r2,
{
    r1.unique_seq_to_set();
    r2.unique_seq_to_set();
    lemma_breadth_first_agree_upto(r1, r2, r1.len() as int);
    assert(r1 =~= r2);
}

/// `par` records the parent of every discovered cell after the first, and the
/// cells come in breadth-first order by those parents.
spec fn parents_ok(disc: Seq<(int, int)>, par: Seq<int>) -> bool {
    &&& par.len() == disc.len()
    &&& forall|i: int| 1 <= i < disc.len() ==> parent_at(disc, i, #[trigger] par[i])
    &&& forall|i: int, k: int|
        1 <= i < k < disc.len() ==> #[trigger] par[i] < #[trigger] par[k] || (par[i] == par[k] && dir_of(
            disc[par[i]],
            disc[i],
        ) < dir_of(disc[par[k]], disc[k]))
}

proof fn lemma_parent_unique(r: Seq<(int, int)>, i: int, a: int, b: int)
    requires
        parent_at(r, i, a),
        parent_at(r, i, b),
    ensures
        a == b,
{
    if a < b {
        assert(adjacent(r[i], r[a]));
    } else if b < a {
        assert(adjacent(r[i], r[b]));
    }
}

proof fn lemma_parents_give_order(disc: Seq<(int, int)>, par: Seq<int>)
    requires
        parents_ok(disc, par),
    ensures
        breadth_first(disc),
{
    reveal(breadth_first);
    assert forall|i: int, k: int, a: int, b: int|
        1 <= i < k < disc.len() && #[trigger] parent_at(disc, i, a) && #[trigger] parent_at(disc, k, b)
        implies a < b || (a == b && dir_of(disc[a], disc[i]) < dir_of(disc[b], disc[k])) by {
        assert(parent_at(disc, i, par[i]));
        assert(parent_at(disc, k, par[k]));
        lemma_parent_unique(disc, i, a, par[i]);
        lemma_parent_unique(disc, k, b, par[k]);
    }
}

/// Parents found in a prefix stay parents when the sequence grows.
proof fn lemma_parents_extend(disc: Seq<(int, int)>, par: Seq<int>, q: (int, int), k: int)
    requires
        parents_ok(disc, par),
        0 <= k < disc.len(),
        adjacent(q, disc[k]),
        forall|m: int| 0 <= m < k ==> !adjacent(q, #[trigger] disc[m]),
        forall|i: int| 1 <= i < disc.len() ==> #[trigger] par[i] < k || (par[i] == k && dir_of(disc[k], disc[i]) < dir_of(disc[k], q)),
    ensures
        parents_ok(disc.push(q), par.push(k)),
{
    let d2 = disc.push(q);
    let p2 = par.push(k);
    assert forall|i: int| 1 <= i < d2.len() implies parent_at(d2, i, #[trigger] p2[i]) by {
        if i < disc.len() {
            assert(parent_at(disc, i, par[i]));
            assert forall|m: int| 0 <= m < p2[i] implies !adjacent(d2[i], #[trigger] d2[m]) by {
                assert(d2[m] == disc[m]);
                assert(!adjacent(disc[i], disc[m]));
            }
        } else {
            assert forall|m: int| 0 <= m < p2[i] implies !adjacent(d2[i], #[trigger] d2[m]) by {
                assert(d2[m] == disc[m]);
            }
        }
    }
    assert forall|i: int, j: int|
        1 <= i < j < d2.len() implies #[trigger] p2[i] < #[trigger] p2[j] || (p2[i] == p2[j] && dir_of(
            d2[p2[i]],
            d2[i],
        ) < dir_of(d2[p2[j]], d2[j])) by {
        if j < disc.len() {
            assert(par[i] < par[j] || (par[i] == par[j] && dir_of(disc[par[i]], disc[i]) < dir_of(
                disc[par[j]],
                disc[j],
            )));
        } else {
            assert(par[i] < k || (par[i] == k && dir_of(disc[k], disc[i]) < dir_of(disc[k], q)));
        }
    }
}

/// Marks and enqueues the open neighbours of the discovered cell `disc[k]`.
#[verifier::rlimit(60)]
fn visit_neighbours(
    land: &Vec<Vec<bool>>,
    visited: &mut Vec<Vec<bool>>,
    queue: &mut VecDeque<(usize, usize)>,
    x: usize,
    z: usize,
    size: usize,
    Ghost(v0): Ghost<Seq<Vec<bool>>>,
    Ghost(start): Ghost<(int, int)>,
    Ghost(disc0): Ghost<Seq<(int, int)>>,
    Ghost(par0): Ghost<Seq<int>>,
    Ghost(k): Ghost<int>,
) -> (found: Ghost<(Seq<(int, int)>, Seq<int>)>)
    requires
        size <= i32::MAX,
        search_state(land@, v0, old(visited)@, start, disc0, size as int),
        queue_tail(old(queue)@, disc0, k + 1),
        0 <= k < disc0.len(),
        disc0[k] == (x as int, z as int),
        closed_upto(land@, v0, disc0, k),
        parents_ok(disc0, par0),
        forall|i: int| 1 <= i < disc0.len() ==> #[trigger] par0[i] < k,
    ensures
        search_state(land@, v0, final(visited)@, start, found@.0, size as int),
        queue_tail(final(queue)@, found@.0, k + 1),
        found@.0.len() >= disc0.len(),
        forall|i: int| 0 <= i < disc0.len() ==> found@.0[i] == disc0[i],
        closed_upto(land@, v0, found@.0, k + 1),
        parents_ok(found@.0, found@.1),
        forall|i: int| 1 <= i < found@.0.len() ==> #[trigger] found@.1[i] <= k,
        forall|i: int| 0 <= i < size ==> (#[trigger] final(visited)@[i])@.len() == old(visited)@[i]@.len(),
        2 * grid_unset(rows(final(visited)@)) + final(queue)@.len() <= 2 * grid_unset(rows(old(visited)@))
            + old(queue)@.len(),
{
    reveal(search_state);
    let ghost n = size as int;
    let ghost p = (x as int, z as int);
    let ghost mut disc = disc0;
    let ghost mut par = par0;
    let mut d: usize = 0;
    while d < 4
        invariant
            n == size as int,
            size <= i32::MAX,
            d <= 4,
            0 <= k < disc0.len(),
            p == (x as int, z as int),
            disc0[k] == p,
            search_state(land@, v0, visited@, start, disc, n),
            queue_tail(queue@, disc, k + 1),
            disc.len() >= disc0.len(),
            forall|i: int| 0 <= i < disc0.len() ==> disc[i] == disc0[i],
            closed_upto(land@, v0, disc, k),
            forall|e: int|
                0 <= e < d && open_cell(land@, v0, #[trigger] neighbour(p, e)) ==> disc.contains(
                    neighbour(p, e),
                ),
            2 * grid_unset(rows(visited@)) + queue@.len() <= 2 * grid_unset(rows(old(visited)@))
                + old(queue)@.len(),
            parents_ok(disc, par),
            forall|i: int|
                1 <= i < disc.len() ==> #[trigger] par[i] < k || (par[i] == k && dir_of(p, disc[i]) < d),
            forall|i: int| 0 <= i < size ==> (#[trigger] visited@[i])@.len() == old(visited)@[i]@.len(),
        decreases 4 - d,
    {
        reveal(search_state);
        assert(disc[k] == p);
        let (dx, dz): (i32, i32) = if d == 0 {
            (-1, 0)
        } else if d == 1 {
            (1, 0)
        } else if d == 2 {
            (0, -1)
        } else {
            (0, 1)
        };
        assert(in_grid(n, disc[k]));
        let nx = x as i32 + dx;
        let nz = z as i32 + dz;
        assert((nx as int, nz as int) == neighbour(p, d as int));
        if nx >= 0 && nx < size as i32 && nz >= 0 && nz < size as i32 {
            let (ux, uz) = (nx as usize, nz as usize);
            let ghost q = (ux as int, uz as int);
            assert(land@[ux as int]@.len() >= n);
            assert(visited@[ux as int]@.len() >= n);
            if land[ux][uz] && !visited[ux][uz] {
                let ghost before = visited@;
                assert(at(land@, q) && !at(before, q));
                assert(at(before, q) == (at(v0, q) || disc.contains(q)));
                proof {
                    lemma_grid_unset_mark(rows(before), ux as int, uz as int);
                }
                visited[ux][uz] = true;
                assert(rows(visited@) =~= rows(before).update(
                    ux as int,
                    rows(before)[ux as int].update(uz as int, true),
                ));
                queue.push_back((ux, uz));
                let ghost old_disc = disc;
                proof {
                    assert(open_cell(land@, v0, q));
                    assert(!disc.contains(q));
                    assert(q == neighbour(p, d as int));
                    assert(dir_of(p, q) == d);
                    assert forall|m: int| 0 <= m < k implies !adjacent(q, #[trigger] disc[m]) by {
                        if adjacent(q, disc[m]) {
                            assert(adjacent(disc[m], q));
                        }
                    }
                    lemma_parents_extend(disc, par, q, k);
                    par = par.push(k);
                    disc = disc.push(q);
                    assert forall|i: int| 0 < i < disc.len() implies open_cell(
                        land@,
                        v0,
                        #[trigger] disc[i],
                    ) by {
                        if i < old_disc.len() {
                            assert(disc[i] == old_disc[i]);
                        }
                    }
                    assert forall|i: int| 0 <= i < disc.len() implies in_grid(n, #[trigger] disc[i]) by {
                        if i < old_disc.len() {
                            assert(disc[i] == old_disc[i]);
                        }
                    }
                    assert(adjacent(disc[disc.len() - 1], disc[k]));
                    assert forall|i: int|
                        #![trigger disc[i]]
                        0 < i < disc.len() implies exists|j: int|
                        #![trigger disc[j]]
                        0 <= j < i && adjacent(disc[i], disc[j]) by {
                        if i < old_disc.len() {
                            assert(disc[i] == old_disc[i]);
                            let j = choose|j: int|
                                0 <= j < i && #[trigger] old_disc[j] == old_disc[j] && adjacent(
                                    old_disc[i],
                                    old_disc[j],
                                );
                            assert(disc[j] == old_disc[j]);
                        } else {
                            assert(disc[k] == p);
                        }
                    }
                    assert forall|a: int, b: int|
                        0 <= a < n && 0 <= b < n implies #[trigger] at(visited@, (a, b)) == (at(
                        v0,
                        (a, b),
                    ) || disc.contains((a, b))) by {
                        assert(at(before, (a, b)) == (at(v0, (a, b)) || old_disc.contains((a, b))));
                        if (a, b) == q {
                            assert(disc[disc.len() - 1] == q);
                        } else {
                            assert(visited@[a]@[b] == before[a]@[b]);
                            if old_disc.contains((a, b)) {
                                let w = choose|w: int| 0 <= w < old_disc.len() && old_disc[w] == (a, b);
                                assert(disc[w] == (a, b));
                            }
                            if disc.contains((a, b)) {
                                let w = choose|w: int| 0 <= w < disc.len() && disc[w] == (a, b);
                                assert(old_disc[w] == (a, b));
                            }
                        }
                    }
                    assert forall|i: int, q2: (int, int)|
                        0 <= i < k && #[trigger] adjacent(disc[i], q2) && open_cell(land@, v0, q2)
                        implies disc.contains(q2) by {
                        assert(disc[i] == old_disc[i]);
                        assert(adjacent(old_disc[i], q2));
                        let w = choose|w: int| 0 <= w < old_disc.len() && old_disc[w] == q2;
                        assert(disc[w] == q2);
                    }
                    assert forall|e: int|
                        0 <= e < d + 1 && open_cell(land@, v0, #[trigger] neighbour(p, e)) implies disc.contains(
                        neighbour(p, e),
                    ) by {
                        if e == d {
                            assert(disc[disc.len() - 1] == q);
                        } else {
                            let w = choose|w: int|
                                0 <= w < old_disc.len() && old_disc[w] == neighbour(p, e);
                            assert(disc[w] == neighbour(p, e));
                        }
                    }
                    assert forall|i: int| 0 <= i < disc0.len() implies disc[i] == disc0[i] by {
                        assert(disc[i] == old_disc[i]);
                    }
                }
            } else {
                proof {
                    assert(at(visited@, q) == (at(v0, q) || disc.contains(q)));
                }
            }
        }
        d += 1;
    }
    proof {
        assert forall|i: int, q: (int, int)|
            0 <= i < k + 1 && #[trigger] adjacent(disc[i], q) && open_cell(land@, v0, q) implies disc.contains(
            q,
        ) by {
            if i == k {
                assert(disc[k] == p);
                assert(q == neighbour(p, 0) || q == neighbour(p, 1) || q == neighbour(p, 2) || q
                    == neighbour(p, 3));
            }
        }
    }
    Ghost((disc, par))
}

/// Breadth-first flood from `(sx, sz)` over land cells not yet `visited`,
/// marking each cell it reaches. Returns the reached cells, start first, in
/// the order they were taken off the queue.
pub fn bfs(
    land: &Vec<Vec<bool>>,
    visited: &mut Vec<Vec<bool>>,
    sx: usize,
    sz: usize,
    size: usize,
) -> (cells: Vec<(i32, i32)>)
    requires
        is_square(land@, size as int),
        is_square(old(visited)@, size as int),
        sx < size,
        sz < size,
        size <= i32::MAX,
    ensures
        is_square(final(visited)@, size as int),
        cell_seq(cells@)[0] == (sx as int, sz as int),
        grown(cell_seq(cells@)),
        forall|i: int|
            0 < i < cells@.len() ==> open_cell(land@, old(visited)@, #[trigger] cell_seq(cells@)[i]),
        closed_in(land@, old(visited)@, cell_seq(cells@)),
        breadth_first(cell_seq(cells@)),
        forall|i: int| 0 <= i < size ==> (#[trigger] final(visited)@[i])@.len() == old(visited)@[i]@.len(),
        forall|x: int, z: int|
            0 <= x < size && 0 <= z < size ==> #[trigger] at(final(visited)@, (x, z)) == (at(
                old(visited)@,
                (x, z),
            ) || cell_seq(cells@).contains((x, z))),
{
    let ghost v0 = visited@;
    let ghost n = size as int;
    let ghost start = (sx as int, sz as int);
    let mut queue: VecDeque<(usize, usize)> = VecDeque::new();
    let mut cells: Vec<(i32, i32)> = Vec::new();
    queue.push_back((sx, sz));
    visited[sx][sz] = true;
    let ghost mut disc: Seq<(int, int)> = seq![start];
    let ghost mut par: Seq<int> = seq![0];
    assert forall|x: int, z: int|
        0 <= x < n && 0 <= z < n implies #[trigger] at(visited@, (x, z)) == (at(v0, (x, z))
        || disc.contains((x, z))) by {
        if (x, z) == start {
            assert(disc[0] == (x, z));
        }
    }
    assert(search_state(land@, v0, visited@, start, disc, n)) by {
        reveal(search_state);
    }
    while queue.len() > 0
        invariant
            n == size as int,
            size <= i32::MAX,
            start == (sx as int, sz as int),
            search_state(land@, v0, visited@, start, disc, n),
            queue_tail(queue@, disc, cells@.len() as int),
            cells@.len() <= disc.len(),
            forall|i: int| 0 <= i < cells@.len() ==> #[trigger] cell_seq(cells@)[i] == disc[i],
            closed_upto(land@, v0, disc, cells@.len() as int),
            parents_ok(disc, par),
            forall|i: int| 1 <= i < disc.len() ==> #[trigger] par[i] < cells@.len(),
            forall|i: int| 0 <= i < size ==> (#[trigger] visited@[i])@.len() == old(visited)@[i]@.len(),
        decreases 2 * grid_unset(rows(visited@)) + queue@.len(),
    {
        let ghost queue_before = queue@;
        let (x, z) = queue.pop_front().unwrap();
        assert(queue_before[0] == (x, z));
        assert(in_grid(n, disc[cells@.len() as int])) by {
            reveal(search_state);
        }
        assert(queue_tail(queue@, disc, cells@.len() as int + 1)) by {
            assert forall|i: int| 0 <= i < queue@.len() implies (#[trigger] queue@[i]).0 as int == disc[cells@.len() + 1 + i].0
                && queue@[i].1 as int == disc[cells@.len() + 1 + i].1 by {
                assert(queue@[i] == queue_before[i + 1]);
            }
        }
        let ghost cells_before = cells@;
        cells.push((x as i32, z as i32));
        let ghost k = cells@.len() - 1;
        assert(cell_seq(cells@)[k] == disc[k]);
        assert forall|i: int| 0 <= i < cells@.len() implies #[trigger] cell_seq(cells@)[i] == disc[i] by {
            if i < k {
                assert(cell_seq(cells@)[i] == cell_seq(cells_before)[i]);
            }
        }
        let ghost disc_before = disc;
        let Ghost(found) = visit_neighbours(
            land,
            visited,
            &mut queue,
            x,
            z,
            size,
            Ghost(v0),
            Ghost(start),
            Ghost(disc),
            Ghost(par),
            Ghost(k),
        );
        proof {
            disc = found.0;
            par = found.1;
            assert forall|i: int| 0 <= i < cells@.len() implies #[trigger] cell_seq(cells@)[i] == disc[i] by {
                assert(disc[i] == disc_before[i]);
            }
        }
    }
    proof {
        reveal(search_state);
        assert(cell_seq(cells@) =~= disc);
        lemma_parents_give_order(disc, par);
    }
    cells
}

// ── Flood fill ───────────────────────────────────────────────────────────────

/// The cells of a continent, as mathematical integers.
pub open spec fn continent_cells(c: ContinentData) -> Seq<(int, int)> {
    cell_seq(c.cells@)
}

/// `a` comes before `b` when the grid is scanned row by row.
pub open spec fn scan_before(a: (int, int), b: (int, int)) -> bool {
    a.0 < b.0 || (a.0 == b.0 && a.1 < b.1)
}

/// `r` starts at its first cell in scan order and is in breadth-first order
/// from there.
pub open spec fn flooded_from_first(r: Seq<(int, int)>) -> bool {
    &&& breadth_first(r)
    &&& forall|m: int| 0 < m < r.len() ==> scan_before(r[0], #[trigger] r[m])
}

/// `seen` marks exactly the cells covered by `regions`.
pub open spec fn marks_regions(seen: Seq<Vec<bool>>, n: int, regions: Seq<Seq<(int, int)>>) -> bool {
    forall|a: int, b: int|
        0 <= a < n && 0 <= b < n ==> #[trigger] at(seen, (a, b)) == exists|k: int|
            0 <= k < regions.len() && (#[trigger] regions[k]).contains((a, b))
}

/// A flood started on an unmarked land cell, from marks that cover only whole
/// components, yields a whole component disjoint from those already found.
proof fn lemma_flood_is_component(
    land: Seq<Vec<bool>>,
    seen: Seq<Vec<bool>>,
    regions: Seq<Seq<(int, int)>>,
    r: Seq<(int, int)>,
)
    requires
        is_square(land, land.len() as int),
        is_square(seen, land.len() as int),
        grown(r),
        is_land(land, r[0]),
        !at(seen, r[0]),
        forall|i: int| 0 < i < r.len() ==> open_cell(land, seen, #[trigger] r[i]),
        closed_in(land, seen, r),
        forall|k: int| 0 <= k < regions.len() ==> is_component(land, #[trigger] regions[k]),
        marks_regions(seen, land.len() as int, regions),
    ensures
        is_component(land, r),
        forall|i: int| 0 <= i < r.len() ==> !at(seen, #[trigger] r[i]),
        forall|k: int, i: int|
            0 <= k < regions.len() && 0 <= i < r.len() ==> !(#[trigger] regions[k]).contains(
                #[trigger] r[i],
            ),
{
    let n = land.len() as int;
    assert forall|i: int| 0 <= i < r.len() implies is_land(land, #[trigger] r[i]) && !at(seen, r[i]) by {
        if i > 0 {
            assert(open_cell(land, seen, r[i]));
        }
    }
    assert forall|k: int, i: int|
        0 <= k < regions.len() && 0 <= i < r.len() implies !(#[trigger] regions[k]).contains(
        #[trigger] r[i]) by {
        assert(is_land(land, r[i]) && !at(seen, r[i]));
        let p = r[i];
        if regions[k].contains(p) {
            assert(at(seen, (p.0, p.1)));
        }
    }
    assert forall|i: int, q: (int, int)|
        0 <= i < r.len() && #[trigger] adjacent(r[i], q) && is_land(land, q) implies r.contains(q) by {
        assert(is_land(land, r[i]) && !at(seen, r[i]));
        if at(seen, q) {
            assert(at(seen, (q.0, q.1)));
            let k = choose|k: int| 0 <= k < regions.len() && (#[trigger] regions[k]).contains((q.0, q.1));
            let m = choose|m: int| 0 <= m < regions[k].len() && regions[k][m] == q;
            assert(is_component(land, regions[k]));
            assert(adjacent(regions[k][m], r[i]));
            assert(regions[k].contains(r[i]));
            let p = r[i];
            assert(at(seen, (p.0, p.1)));
        } else {
            assert(open_cell(land, seen, q));
        }
    }
}

/// A row of `n` cleared marks.
fn cleared_row(n: usize) -> (row: Vec<bool>)
    ensures
        row@.len() == n,
        forall|i: int| 0 <= i < n ==> !(#[trigger] row@[i]),
{
    let mut row: Vec<bool> = Vec::new();
    let mut i: usize = 0;
    while i < n
        invariant
            i <= n,
            row@.len() == i,
            forall|j: int| 0 <= j < i ==> !(#[trigger] row@[j]),
        decreases n - i,
    {
        row.push(false);
        i += 1;
    }
    row
}

/// Splits the land grid into its 4-connected landmasses, scanning rows in
/// order, and keeps those of at least `MIN_CONTINENT_CELLS` cells.
#[verifier::rlimit(60)]
pub fn flood_fill_continents(land: &Vec<Vec<bool>>) -> (continents: Vec<ContinentData>)
    requires
        is_square(land@, land@.len() as int),
        land@.len() <= i32::MAX,
    ensures
        forall|i: int|
            0 <= i < continents@.len() ==> is_component(land@, #[trigger] continent_cells(
                continents@[i],
            )) && continent_cells(continents@[i]).len() >= MIN_CONTINENT_CELLS,
        forall|i: int, j: int, p: (int, int)|
            0 <= i < j < continents@.len() ==> !(#[trigger] continent_cells(continents@[i]).contains(p)
                && #[trigger] continent_cells(continents@[j]).contains(p)),
        forall|p: (int, int)|
            #![trigger is_land(land@, p)]
            is_land(land@, p) ==> (exists|i: int|
                0 <= i < continents@.len() && #[trigger] continent_cells(continents@[i]).contains(p))
                || (exists|r: Seq<(int, int)>|
                #[trigger] is_component(land@, r) && r.len() < MIN_CONTINENT_CELLS && r.contains(p)),
        forall|i: int| 0 <= i < continents@.len() ==> flooded_from_first(#[trigger] continent_cells(continents@[i])),
        forall|i: int, j: int|
            0 <= i < j < continents@.len() ==> scan_before(
                #[trigger] continent_cells(continents@[i])[0],
                #[trigger] continent_cells(continents@[j])[0],
            ),
{
    let size = land.len();
    let ghost n = size as int;
    let mut visited: Vec<Vec<bool>> = Vec::new();
    let mut i: usize = 0;
    while i < size
        invariant
            i <= size,
            visited@.len() == i,
            forall|j: int| 0 <= j < i ==> (#[trigger] visited@[j])@.len() == size,
            forall|j: int, b: int| 0 <= j < i && 0 <= b < size ==> !(#[trigger] visited@[j]@[b]),
        decreases size - i,
    {
        visited.push(cleared_row(size));
        i += 1;
    }
    let mut continents: Vec<ContinentData> = Vec::new();
    let ghost mut regions: Seq<Seq<(int, int)>> = Seq::empty();
    let ghost mut src: Seq<int> = Seq::empty();
    assert(marks_regions(visited@, n, regions)) by {
        assert forall|a: int, b: int| 0 <= a < n && 0 <= b < n implies #[trigger] at(visited@, (a, b))
            == exists|k: int| 0 <= k < regions.len() && (#[trigger] regions[k]).contains((a, b)) by {
            assert(!visited@[a]@[b]);
        }
    }

    let mut x: usize = 0;
    while x < size
        invariant
            n == size as int,
            n == land@.len(),
            size <= i32::MAX,
            x <= size,
            is_square(land@, n),
            is_square(visited@, n),
            marks_regions(visited@, n, regions),
            forall|k: int| 0 <= k < regions.len() ==> is_component(land@, #[trigger] regions[k]),
            forall|k: int, l: int, p: (int, int)|
                0 <= k < l < regions.len() ==> !(#[trigger] regions[k].contains(p)
                    && #[trigger] regions[l].contains(p)),
            src.len() == continents@.len(),
            forall|i: int|
                0 <= i < src.len() ==> 0 <= #[trigger] src[i] < regions.len()
                    && continent_cells(continents@[i]) == regions[src[i]],
            forall|i: int, j: int| 0 <= i < j < src.len() ==> #[trigger] src[i] < #[trigger] src[j],
            forall|i: int| 0 <= i < src.len() ==> (#[trigger] regions[src[i]]).len() >= MIN_CONTINENT_CELLS,
            forall|k: int|
                0 <= k < regions.len() && (#[trigger] regions[k]).len() >= MIN_CONTINENT_CELLS
                    ==> exists|i: int| 0 <= i < src.len() && #[trigger] src[i] == k,
            forall|k: int| 0 <= k < regions.len() ==> (#[trigger] regions[k]).len() > 0,
            forall|a: int, b: int| 0 <= a < x && 0 <= b < n && #[trigger] is_land(land@, (a, b)) ==> at(visited@, (a, b)),
            forall|k: int| 0 <= k < regions.len() ==> flooded_from_first(#[trigger] regions[k]),
            forall|k: int| 0 <= k < regions.len() ==> (#[trigger] regions[k])[0].0 < x,
            forall|k: int, l: int| 0 <= k < l < regions.len() ==> scan_before(#[trigger] regions[k][0], #[trigger] regions[l][0]),
        decreases size - x,
    {
        let mut z: usize = 0;
        while z < size
            invariant
                n == size as int,
                n == land@.len(),
                size <= i32::MAX,
                x < size,
                z <= size,
                is_square(land@, n),
                is_square(visited@, n),
                marks_regions(visited@, n, regions),
                forall|k: int| 0 <= k < regions.len() ==> is_component(land@, #[trigger] regions[k]),
                forall|k: int, l: int, p: (int, int)|
                    0 <= k < l < regions.len() ==> !(#[trigger] regions[k].contains(p)
                        && #[trigger] regions[l].contains(p)),
                src.len() == continents@.len(),
                forall|i: int|
                    0 <= i < src.len() ==> 0 <= #[trigger] src[i] < regions.len()
                        && continent_cells(continents@[i]) == regions[src[i]],
                forall|i: int, j: int| 0 <= i < j < src.len() ==> #[trigger] src[i] < #[trigger] src[j],
                forall|i: int| 0 <= i < src.len() ==> (#[trigger] regions[src[i]]).len() >= MIN_CONTINENT_CELLS,
                forall|k: int|
                    0 <= k < regions.len() && (#[trigger] regions[k]).len() >= MIN_CONTINENT_CELLS
                        ==> exists|i: int| 0 <= i < src.len() && #[trigger] src[i] == k,
                forall|k: int| 0 <= k < regions.len() ==> (#[trigger] regions[k]).len() > 0,
                forall|a: int, b: int|
                    (0 <= a < x && 0 <= b < n || a == x && 0 <= b < z) && #[trigger] is_land(land@, (a, b))
                        ==> at(visited@, (a, b)),
                forall|k: int| 0 <= k < regions.len() ==> flooded_from_first(#[trigger] regions[k]),
                forall|k: int| 0 <= k < regions.len() ==> scan_before((#[trigger] regions[k])[0], (x as int, z as int)),
                forall|k: int, l: int| 0 <= k < l < regions.len() ==> scan_before(#[trigger] regions[k][0], #[trigger] regions[l][0]),
            decreases size - z,
        {
            assert(land@[x as int]@.len() >= n);
            assert(visited@[x as int]@.len() >= n);
            if land[x][z] && !visited[x][z] {
                let ghost seen = visited@;
                let cells = bfs(land, &mut visited, x, z, size);
                let ghost r = cell_seq(cells@);
                proof {
                    lemma_flood_is_component(land@, seen, regions, r);
                    assert forall|m: int| 0 < m < r.len() implies scan_before(r[0], #[trigger] r[m]) by {
                        let c = r[m];
                        assert(is_land(land@, c));
                        assert(!at(seen, c));
                        assert(c != r[0]);
                        if !scan_before(r[0], c) {
                            assert(is_land(land@, (c.0, c.1)));
                        }
                    }
                }
                let ghost old_regions = regions;
                let ghost old_src = src;
                proof {
                    regions = regions.push(r);
                    assert forall|a: int, b: int| 0 <= a < n && 0 <= b < n implies #[trigger] at(visited@, (a, b))
                        == exists|k: int| 0 <= k < regions.len() && (#[trigger] regions[k]).contains((a, b)) by {
                        assert(at(visited@, (a, b)) == (at(seen, (a, b)) || r.contains((a, b))));
                        assert(at(seen, (a, b)) == exists|k: int| 0 <= k < old_regions.len() && (#[trigger] old_regions[k]).contains((a, b)));
                        if r.contains((a, b)) {
                            assert(regions[old_regions.len() as int] == r);
                        }
                        if at(seen, (a, b)) {
                            let k = choose|k: int| 0 <= k < old_regions.len() && (#[trigger] old_regions[k]).contains((a, b));
                            assert(regions[k] == old_regions[k]);
                        }
                        if exists|k: int| 0 <= k < regions.len() && (#[trigger] regions[k]).contains((a, b)) {
                            let k = choose|k: int| 0 <= k < regions.len() && (#[trigger] regions[k]).contains((a, b));
                            if k < old_regions.len() {
                                assert(old_regions[k] == regions[k]);
                            }
                        }
                    }
                    assert forall|k: int, l: int, p: (int, int)|
                        0 <= k < l < regions.len() implies !(#[trigger] regions[k].contains(p)
                            && #[trigger] regions[l].contains(p)) by {
                        if l == old_regions.len() && regions[k].contains(p) && regions[l].contains(p) {
                            let m = choose|m: int| 0 <= m < r.len() && r[m] == p;
                            assert(old_regions[k] == regions[k]);
                            assert(!old_regions[k].contains(r[m]));
                        }
                    }
                }
                if cells.len() >= MIN_CONTINENT_CELLS {
                    continents.push(ContinentData { cells });
                    proof {
                        src = src.push(old_regions.len() as int);
                    }
                }
                proof {
                    assert forall|i: int|
                        0 <= i < src.len() implies 0 <= #[trigger] src[i] < regions.len()
                            && continent_cells(continents@[i]) == regions[src[i]] by {
                        if i < src.len() - 1 || r.len() < MIN_CONTINENT_CELLS {
                            assert(regions[src[i]] == old_regions[src[i]]);
                        }
                    }
                    assert forall|k: int|
                        0 <= k < regions.len() && (#[trigger] regions[k]).len() >= MIN_CONTINENT_CELLS
                        implies exists|i: int| 0 <= i < src.len() && #[trigger] src[i] == k by {
                        if k < old_regions.len() {
                            assert(regions[k] == old_regions[k]);
                            let i = choose|i: int| 0 <= i < old_src.len() && #[trigger] old_src[i] == k;
                            assert(src[i] == k);
                        } else {
                            assert(src[src.len() - 1] == k);
                        }
                    }
                    assert forall|a: int, b: int|
                        (0 <= a < x && 0 <= b < n || a == x && 0 <= b < z + 1) && #[trigger] is_land(land@, (a, b))
                        implies at(visited@, (a, b)) by {
                        assert(at(visited@, (a, b)) == (at(seen, (a, b)) || r.contains((a, b))));
                        if a == x && b == z {
                            assert(r[0] == (a, b));
                        }
                    }
                }
            }
            z += 1;
        }
        x += 1;
    }
    proof {
        assert forall|i: int| 0 <= i < continents@.len() implies flooded_from_first(#[trigger] continent_cells(continents@[i])) by {
            assert(flooded_from_first(regions[src[i]]));
        }
        assert forall|i: int, j: int|
            0 <= i < j < continents@.len() implies scan_before(
                #[trigger] continent_cells(continents@[i])[0],
                #[trigger] continent_cells(continents@[j])[0],
            ) by {
            assert(src[i] < src[j]);
            assert(scan_before(regions[src[i]][0], regions[src[j]][0]));
        }
        assert forall|i: int| 0 <= i < continents@.len() implies is_component(land@, #[trigger] continent_cells(
                continents@[i])) && continent_cells(continents@[i]).len() >= MIN_CONTINENT_CELLS by {
            let k = src[i];
            assert(is_component(land@, regions[k]));
            if regions[k].len() < MIN_CONTINENT_CELLS {
            }
        }
        assert forall|i: int, j: int, p: (int, int)|
            0 <= i < j < continents@.len() implies !(#[trigger] continent_cells(continents@[i]).contains(p)
                && #[trigger] continent_cells(continents@[j]).contains(p)) by {
            assert(src[i] < src[j]);
        }
        assert forall|p: (int, int)| #[trigger] is_land(land@, p) implies (exists|i: int|
                0 <= i < continents@.len() && #[trigger] continent_cells(continents@[i]).contains(p))
                || (exists|r: Seq<(int, int)>|
                #[trigger] is_component(land@, r) && r.len() < MIN_CONTINENT_CELLS && r.contains(p)) by {
            assert(is_land(land@, (p.0, p.1)));
            assert(at(visited@, (p.0, p.1)));
            let k = choose|k: int| 0 <= k < regions.len() && (#[trigger] regions[k]).contains((p.0, p.1));
            if regions[k].len() >= MIN_CONTINENT_CELLS {
                let i = choose|i: int| 0 <= i < src.len() && #[trigger] src[i] == k;
                assert(continent_cells(continents@[i]).contains(p));
            } else {
                assert(is_component(land@, regions[k]));
            }
        }
    }
    continents
}


// ── Components are determined by any one of their cells ─────────────────────

/// Walking back along the growth order from a shared cell reaches the first cell
/// of `r1`, every step staying inside the closed component `r2`.
proof fn lemma_first_cell_within(land: Seq<Vec<bool>>, r1: Seq<(int, int)>, r2: Seq<(int, int)>, m: int)
    requires
        is_component(land, r1),
        is_component(land, r2),
        0 <= m < r1.len(),
        r2.contains(r1[m]),
    ensures
        r2.contains(r1[0]),
    decreases m,
{
    if m > 0 {
        assert(r1[m] == r1[m]);
        let j = choose|j: int| 0 <= j < m && #[trigger] r1[j] == r1[j] && adjacent(r1[m], r1[j]);
        let w = choose|w: int| 0 <= w < r2.len() && r2[w] == r1[m];
        assert(adjacent(r2[w], r1[j]));
        assert(is_land(land, r1[j]));
        lemma_first_cell_within(land, r1, r2, j);
    }
}

/// Every cell of `r1` lies in `r2`, given that its first cell does.
proof fn lemma_cells_within(land: Seq<Vec<bool>>, r1: Seq<(int, int)>, r2: Seq<(int, int)>, i: int)
    requires
        is_component(land, r1),
        is_component(land, r2),
        r2.contains(r1[0]),
        0 <= i < r1.len(),
    ensures
        r2.contains(r1[i]),
    decreases i,
{
    if i > 0 {
        assert(r1[i] == r1[i]);
        let j = choose|j: int| 0 <= j < i && #[trigger] r1[j] == r1[j] && adjacent(r1[i], r1[j]);
        lemma_cells_within(land, r1, r2, j);
        let w = choose|w: int| 0 <= w < r2.len() && r2[w] == r1[j];
        assert(adjacent(r2[w], r1[i]));
        assert(is_land(land, r1[i]));
    }
}

/// Two connected land components that share a cell cover exactly the same
/// cells: a landmass is determined by any one of its cells, so the continents
/// that flood fill reports are the connected components of the land.
pub proof fn lemma_components_sharing_a_cell_coincide(
    land: Seq<Vec<bool>>,
    r1: Seq<(int, int)>,
    r2: Seq<(int, int)>,
    p: (int, int),
)
    requires
        is_component(land, r1),
        is_component(land, r2),
        r1.contains(p),
        r2.contains(p),
    ensures
        r1.to_set() == r2.to_set(),
{
    let m1 = choose|m: int| 0 <= m < r1.len() && r1[m] == p;
    let m2 = choose|m: int| 0 <= m < r2.len() && r2[m] == p;
    lemma_first_cell_within(land, r1, r2, m1);
    lemma_first_cell_within(land, r2, r1, m2);
    assert forall|q: (int, int)| r1.to_set().contains(q) <==> r2.to_set().contains(q) by {
        if r1.contains(q) {
            let i = choose|i: int| 0 <= i < r1.len() && r1[i] == q;
            lemma_cells_within(land, r1, r2, i);
        }
        if r2.contains(q) {
            let i = choose|i: int| 0 <= i < r2.len() && r2[i] == q;
            lemma_cells_within(land, r2, r1, i);
        }
    }
    assert(r1.to_set() =~= r2.to_set());
}

} // verus!
