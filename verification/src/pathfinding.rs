use vstd::prelude::*;
use crate::map::{GridMap, MAX_SIDE};
use crate::types::Pos;

verus! {

/// The cell reached from `p` by the `k`-th of the four moves, tried in the
/// order right, left, down, up; `None` where the move would leave the
/// non-negative quadrant.
pub open spec fn step_pos(p: Pos, k: int) -> Option<Pos> {
    if k == 0 {
        Some(((p.0 + 1) as usize, p.1))
    } else if k == 1 {
        if p.0 == 0 { None } else { Some(((p.0 - 1) as usize, p.1)) }
    } else if k == 2 {
        Some((p.0, (p.1 + 1) as usize))
    } else {
        if p.1 == 0 { None } else { Some((p.0, (p.1 - 1) as usize)) }
    }
}

/// `p` and `q` are orthogonal neighbours.
pub open spec fn adjacent(p: Pos, q: Pos) -> bool {
    ||| (q.0 == p.0 + 1 && q.1 == p.1)
    ||| (q.0 + 1 == p.0 && q.1 == p.1)
    ||| (q.0 == p.0 && q.1 == p.1 + 1)
    ||| (q.0 == p.0 && q.1 + 1 == p.1)
}

/// `p` lies on the map and is not a wall.
pub open spec fn passable_at(map: GridMap, p: Pos) -> bool {
    map.spec_passable(p.0 as int, p.1 as int)
}

/// `path` leads from `start` (excluded) to `goal` (included) by orthogonal
/// steps, every cell before `goal` being passable.
pub open spec fn is_route(map: GridMap, start: Pos, goal: Pos, path: Seq<Pos>) -> bool {
    &&& path.len() >= 1
    &&& path.last() == goal
    &&& adjacent(start, path[0])
    &&& forall|i: int| 1 <= i < path.len() ==> #[trigger] adjacent(path[i - 1], path[i])
    &&& forall|i: int| 0 <= i < path.len() - 1 ==> #[trigger] passable_at(map, path[i])
}

/// `goal` can be reached from `start`.
pub open spec fn reachable(map: GridMap, start: Pos, goal: Pos) -> bool {
    exists|path: Seq<Pos>| is_route(map, start, goal, path)
}

/// `path` is a route and no route is shorter.
pub open spec fn is_shortest_route(map: GridMap, start: Pos, goal: Pos, path: Seq<Pos>) -> bool {
    &&& is_route(map, start, goal, path)
    &&& forall|other: Seq<Pos>| #[trigger] is_route(map, start, goal, other) ==> path.len() <= other.len()
}

/// A walk from `start` over passable cells: `w[0] == start`, each later cell
/// passable and next to the one before.
pub open spec fn is_walk(map: GridMap, start: Pos, w: Seq<Pos>) -> bool {
    &&& w.len() >= 1
    &&& w[0] == start
    &&& forall|i: int| 1 <= i < w.len() ==> #[trigger] adjacent(w[i - 1], w[i]) && passable_at(map, w[i])
}

/// The cells a coordinate bound allows: neighbour arithmetic cannot overflow.
pub open spec fn small_pos(p: Pos) -> bool {
    p.0 <= MAX_SIDE && p.1 <= MAX_SIDE
}

fn neighbor(p: Pos, k: usize) -> (r: Option<Pos>)
    requires
        small_pos(p),
        k < 4,
    ensures
        r == step_pos(p, k as int),
{
    if k == 0 {
        Some((p.0 + 1, p.1))
    } else if k == 1 {
        if p.0 == 0 { None } else { Some((p.0 - 1, p.1)) }
    } else if k == 2 {
        Some((p.0, p.1 + 1))
    } else {
        if p.1 == 0 { None } else { Some((p.0, p.1 - 1)) }
    }
}

proof fn lemma_adjacent_is_step(p: Pos, q: Pos)
    requires
        small_pos(p),
        adjacent(p, q),
    ensures
        exists|k: int| 0 <= k < 4 && #[trigger] step_pos(p, k) == Some(q),
{
    if q.0 == p.0 + 1 && q.1 == p.1 {
        assert(step_pos(p, 0) == Some(q));
    } else if q.0 + 1 == p.0 && q.1 == p.1 {
        assert(step_pos(p, 1) == Some(q));
    } else if q.0 == p.0 && q.1 == p.1 + 1 {
        assert(step_pos(p, 2) == Some(q));
    } else {
        assert(step_pos(p, 3) == Some(q));
    }
}

/// The passable orthogonal neighbours of `pos`, in the order right, left, down, up.
pub fn passable_neighbors(map: &GridMap, pos: Pos) -> (r: Vec<Pos>)
    requires
        map.wf(),
        small_pos(pos),
    ensures
        r@ == neighbors_spec(*map, pos),
{
    let mut result: Vec<Pos> = Vec::new();
    let mut k: usize = 0;
    while k < 4
        invariant
            map.wf(),
            small_pos(pos),
            k <= 4,
            result@ == neighbors_upto(*map, pos, k as int),
        decreases 4 - k,
    {
        match neighbor(pos, k) {
            Some(next) => {
                if map.is_passable(next.0, next.1) {
                    result.push(next);
                }
            }
            None => {}
        }
        k = k + 1;
    }
    result
}

/// The passable cells among the first `k` moves from `pos`, in move order.
pub open spec fn neighbors_upto(map: GridMap, pos: Pos, k: int) -> Seq<Pos>
    decreases k,
{
    if k <= 0 {
        Seq::empty()
    } else {
        let before = neighbors_upto(map, pos, k - 1);
        match step_pos(pos, k - 1) {
            Some(q) => if passable_at(map, q) { before.push(q) } else { before },
            None => before,
        }
    }
}

/// The passable neighbours of `pos`, in move order.
pub open spec fn neighbors_spec(map: GridMap, pos: Pos) -> Seq<Pos> {
    neighbors_upto(map, pos, 4)
}


/// The cells listed by `neighbors_upto` are passable neighbours of `pos`,
/// each listed once.
proof fn lemma_neighbors_upto(map: GridMap, pos: Pos, k: int)
    requires
        map.wf(),
        small_pos(pos),
        0 <= k <= 4,
    ensures
        forall|i: int| 0 <= i < neighbors_upto(map, pos, k).len() ==> {
            &&& passable_at(map, #[trigger] neighbors_upto(map, pos, k)[i])
            &&& adjacent(pos, neighbors_upto(map, pos, k)[i])
            &&& small_pos(neighbors_upto(map, pos, k)[i])
        },
        forall|kk: int, q: Pos| #![trigger step_pos(pos, kk), neighbors_upto(map, pos, k).contains(q)]
            0 <= kk < k && step_pos(pos, kk) == Some(q) && passable_at(map, q)
            ==> neighbors_upto(map, pos, k).contains(q),
        neighbors_upto(map, pos, k).no_duplicates(),
        forall|q: Pos| #[trigger] neighbors_upto(map, pos, k).contains(q)
            ==> exists|kk: int| 0 <= kk < k && step_pos(pos, kk) == Some(q),
    decreases k,
{
    if k > 0 {
        lemma_neighbors_upto(map, pos, k - 1);
        let before = neighbors_upto(map, pos, k - 1);
        let now = neighbors_upto(map, pos, k);
        match step_pos(pos, k - 1) {
            Some(q) => {
                if passable_at(map, q) {
                    assert(now == before.push(q));
                    assert forall|i: int| 0 <= i < now.len() implies {
                        &&& passable_at(map, #[trigger] now[i])
                        &&& adjacent(pos, now[i])
                        &&& small_pos(now[i])
                    } by {
                        if i < before.len() {
                            assert(now[i] == before[i]);
                        }
                    }
                    assert forall|kk: int, q2: Pos| #![trigger step_pos(pos, kk), now.contains(q2)]
                        0 <= kk < k && step_pos(pos, kk) == Some(q2) && passable_at(map, q2)
                        implies now.contains(q2) by {
                        if kk < k - 1 {
                            assert(before.contains(q2));
                            let j = choose|j: int| 0 <= j < before.len() && before[j] == q2;
                            assert(now[j] == q2);
                        } else {
                            assert(now[now.len() - 1] == q2);
                        }
                    }
                    assert(!before.contains(q)) by {
                        if before.contains(q) {
                            let kk = choose|kk: int| 0 <= kk < k - 1 && step_pos(pos, kk) == Some(q);
                        }
                    }
                    assert forall|a: int, b: int| 0 <= a < now.len() && 0 <= b < now.len() && a != b
                        implies now[a] != now[b] by {
                        if a < before.len() && b < before.len() {
                        } else if a < before.len() {
                            assert(before.contains(now[a]));
                        } else {
                            assert(before.contains(now[b]));
                        }
                    }
                    assert forall|q2: Pos| #[trigger] now.contains(q2)
                        implies exists|kk: int| 0 <= kk < k && step_pos(pos, kk) == Some(q2) by {
                        let j = choose|j: int| 0 <= j < now.len() && now[j] == q2;
                        if j < before.len() {
                            assert(before.contains(q2));
                        }
                    }
                } else {
                    assert(now == before);
                }
            }
            None => {
                assert(now == before);
            }
        }
    }
}

/// The passable neighbours are exactly the passable orthogonal neighbours.
pub proof fn lemma_neighbors_spec(map: GridMap, pos: Pos)
    requires
        map.wf(),
        small_pos(pos),
    ensures
        forall|q: Pos| #[trigger] neighbors_spec(map, pos).contains(q)
            <==> adjacent(pos, q) && passable_at(map, q),
        forall|q: Pos| #[trigger] neighbors_spec(map, pos).contains(q) ==> small_pos(q),
        neighbors_spec(map, pos).no_duplicates(),
{
    lemma_neighbors_upto(map, pos, 4);
    assert forall|q: Pos| #[trigger] neighbors_spec(map, pos).contains(q)
        implies adjacent(pos, q) && passable_at(map, q) && small_pos(q) by {
        let j = choose|j: int| 0 <= j < neighbors_spec(map, pos).len() && neighbors_spec(map, pos)[j] == q;
    }
    assert forall|q: Pos| adjacent(pos, q) && passable_at(map, q)
        implies #[trigger] neighbors_spec(map, pos).contains(q) by {
        lemma_adjacent_is_step(pos, q);
        let kk = choose|kk: int| 0 <= kk < 4 && #[trigger] step_pos(pos, kk) == Some(q);
        assert(step_pos(pos, kk) == Some(q));
    }
}

/// Number of unvisited cells in one row of the search grid.
spec fn row_unseen(r: Seq<Option<Pos>>) -> nat
    decreases r.len(),
{
    if r.len() == 0 {
        0
    } else {
        row_unseen(r.drop_last()) + if r.last() is None { 1nat } else { 0nat }
    }
}

/// Number of unvisited cells in the search grid.
spec fn grid_unseen(g: Seq<Vec<Option<Pos>>>) -> nat
    decreases g.len(),
{
    if g.len() == 0 {
        0
    } else {
        grid_unseen(g.drop_last()) + row_unseen(g.last()@)
    }
}

proof fn lemma_row_unseen_mark(r: Seq<Option<Pos>>, i: int, v: Pos)
    requires
        0 <= i < r.len(),
        r[i] is None,
    ensures
        row_unseen(r.update(i, Some(v))) + 1 == row_unseen(r),
    decreases r.len(),
{
    let r2 = r.update(i, Some(v));
    if i == r.len() - 1 {
        assert(r2.drop_last() =~= r.drop_last());
    } else {
        lemma_row_unseen_mark(r.drop_last(), i, v);
        assert(r2.drop_last() =~= r.drop_last().update(i, Some(v)));
    }
}

proof fn lemma_grid_unseen_replace(g: Seq<Vec<Option<Pos>>>, y: int, row: Vec<Option<Pos>>)
    requires
        0 <= y < g.len(),
        row_unseen(row@) + 1 == row_unseen(g[y]@),
    ensures
        grid_unseen(g.update(y, row)) + 1 == grid_unseen(g),
    decreases g.len(),
{
    let g2 = g.update(y, row);
    if y == g.len() - 1 {
        assert(g2.drop_last() =~= g.drop_last());
    } else {
        lemma_grid_unseen_replace(g.drop_last(), y, row);
        assert(g2.drop_last() =~= g.drop_last().update(y, row));
    }
}

/// The state of the breadth-first search: `queue[..head]` has been expanded,
/// `dist` and `par` record, for every cell met so far, its distance from
/// `start` and the cell it was reached from.
spec fn search_ok(
    map: GridMap,
    start: Pos,
    goal: Pos,
    queue: Seq<Pos>,
    head: int,
    dist: Map<Pos, int>,
    par: Map<Pos, Pos>,
) -> bool {
    &&& 1 <= queue.len()
    &&& 0 <= head <= queue.len()
    &&& queue[0] == start
    &&& start != goal
    &&& small_pos(start)
    &&& dist.contains_key(start)
    &&& dist[start] == 0
    &&& forall|i: int, j: int|
        0 <= i < queue.len() && 0 <= j < queue.len() && i != j ==> #[trigger] queue[i] != #[trigger] queue[j]
    &&& forall|i: int| 0 <= i < queue.len() ==> #[trigger] dist.contains_key(queue[i])
    &&& forall|v: Pos| #[trigger] dist.contains_key(v) ==> exists|i: int| 0 <= i < queue.len() && queue[i] == v
    &&& forall|i: int, j: int|
        0 <= i <= j < queue.len() ==> dist[#[trigger] queue[i]] <= dist[#[trigger] queue[j]]
    &&& head < queue.len() ==> dist[queue[queue.len() - 1]] <= dist[queue[head]] + 1
    &&& forall|i: int, n: Pos|
        0 <= i < head && #[trigger] adjacent(queue[i], n) && passable_at(map, n)
            ==> dist.contains_key(n) && dist[n] <= dist[queue[i]] + 1
    &&& forall|i: int| 0 <= i < head ==> !adjacent(#[trigger] queue[i], goal)
    &&& forall|v: Pos| #[trigger] dist.contains_key(v) ==> dist[v] >= 0 && small_pos(v)
    &&& forall|v: Pos| #[trigger] dist.contains_key(v) && v != start ==> {
        &&& par.contains_key(v)
        &&& dist.contains_key(par[v])
        &&& adjacent(par[v], v)
        &&& dist[v] == dist[par[v]] + 1
        &&& passable_at(map, v)
        &&& v != goal
    }
}

/// The visited-cells grid mirrors `dist` and `par` on the map.
spec fn grid_ok(map: GridMap, start: Pos, grid: Seq<Vec<Option<Pos>>>, dist: Map<Pos, int>, par: Map<Pos, Pos>) -> bool {
    &&& grid.len() == map.height
    &&& forall|y: int| 0 <= y < map.height ==> #[trigger] grid[y]@.len() == map.width
    &&& forall|p: Pos| map.in_bounds(p.0 as int, p.1 as int) ==> {
        &&& (#[trigger] grid[p.1 as int]@[p.0 as int] is Some <==> dist.contains_key(p))
        &&& (dist.contains_key(p) && p != start ==> grid[p.1 as int]@[p.0 as int] == Some(par[p]))
    }
}

/// Every cell on a short enough walk from `start` has already been expanded.
proof fn lemma_walk_expanded(
    map: GridMap,
    start: Pos,
    goal: Pos,
    queue: Seq<Pos>,
    head: int,
    dist: Map<Pos, int>,
    par: Map<Pos, Pos>,
    w: Seq<Pos>,
)
    requires
        search_ok(map, start, goal, queue, head, dist, par),
        is_walk(map, start, w),
        head == queue.len() || w.len() - 1 < dist[queue[head]],
    ensures
        exists|i: int| 0 <= i < head && queue[i] == w.last() && dist[w.last()] <= w.len() - 1,
    decreases w.len(),
{
    if w.len() == 1 {
        if head < queue.len() {
            assert(queue[head] != queue[0]);
        }
        assert(queue[0] == w.last());
    } else {
        let w2 = w.drop_last();
        assert forall|i: int| 1 <= i < w2.len() implies #[trigger] adjacent(w2[i - 1], w2[i]) && passable_at(map, w2[i]) by {
            assert(adjacent(w[i - 1], w[i]));
        }
        lemma_walk_expanded(map, start, goal, queue, head, dist, par, w2);
        let i = choose|i: int| 0 <= i < head && queue[i] == w2.last() && dist[w2.last()] <= w2.len() - 1;
        let u = w.last();
        assert(adjacent(w[w.len() - 2], w[w.len() - 1]));
        assert(adjacent(queue[i], u));
        assert(dist.contains_key(u));
        let j = choose|j: int| 0 <= j < queue.len() && queue[j] == u;
        if head < queue.len() && j >= head {
            assert(dist[queue[head]] <= dist[queue[j]]);
        }
    }
}

/// A route gives a walk to the cell from which `goal` is entered.
proof fn lemma_route_walk(map: GridMap, start: Pos, goal: Pos, p: Seq<Pos>) -> (w: Seq<Pos>)
    requires
        is_route(map, start, goal, p),
    ensures
        is_walk(map, start, w),
        w.len() == p.len(),
        adjacent(w.last(), goal),
{
    let w = seq![start] + p.subrange(0, p.len() - 1);
    assert forall|i: int| 1 <= i < w.len() implies #[trigger] adjacent(w[i - 1], w[i]) && passable_at(map, w[i]) by {
        assert(w[i] == p[i - 1]);
        if i >= 2 {
            assert(w[i - 1] == p[i - 2]);
            assert(adjacent(p[i - 2], p[i - 1]));
        }
        assert(passable_at(map, p[i - 1]));
    }
    if p.len() >= 2 {
        assert(w.last() == p[p.len() - 2]);
        assert(adjacent(p[p.len() - 2], p[p.len() - 1]));
    }
    w
}

/// Once `goal` is entered from the expanded cell `queue[head]`, no route is
/// shorter than `dist` of that cell plus one; once everything is expanded
/// without meeting `goal`, there is no route.
proof fn lemma_no_shorter_route(
    map: GridMap,
    start: Pos,
    goal: Pos,
    queue: Seq<Pos>,
    head: int,
    dist: Map<Pos, int>,
    par: Map<Pos, Pos>,
    p: Seq<Pos>,
)
    requires
        search_ok(map, start, goal, queue, head, dist, par),
        is_route(map, start, goal, p),
    ensures
        head < queue.len(),
        p.len() >= dist[queue[head]] + 1,
{
    let w = lemma_route_walk(map, start, goal, p);
    if head == queue.len() || w.len() - 1 < dist[queue[head]] {
        lemma_walk_expanded(map, start, goal, queue, head, dist, par, w);
        let i = choose|i: int| 0 <= i < head && queue[i] == w.last() && dist[w.last()] <= w.len() - 1;
        assert(adjacent(queue[i], goal));
    }
}

/// Adding `n`, met from the cell under expansion, keeps the search state valid.
proof fn lemma_search_push(
    map: GridMap,
    start: Pos,
    goal: Pos,
    queue: Seq<Pos>,
    head: int,
    dist: Map<Pos, int>,
    par: Map<Pos, Pos>,
    n: Pos,
)
    requires
        search_ok(map, start, goal, queue, head, dist, par),
        head < queue.len(),
        !dist.contains_key(n),
        passable_at(map, n),
        adjacent(queue[head], n),
        n != goal,
        small_pos(n),
    ensures
        search_ok(
            map,
            start,
            goal,
            queue.push(n),
            head,
            dist.insert(n, dist[queue[head]] + 1),
            par.insert(n, queue[head]),
        ),
{
    let cur = queue[head];
    let q2 = queue.push(n);
    let d2 = dist.insert(n, dist[cur] + 1);
    let p2 = par.insert(n, cur);
    assert(n != start);
    assert forall|i: int, j: int| 0 <= i < q2.len() && 0 <= j < q2.len() && i != j
        implies #[trigger] q2[i] != #[trigger] q2[j] by {
        if i < queue.len() && j < queue.len() {
            assert(queue[i] != queue[j]);
        } else if i < queue.len() {
            assert(dist.contains_key(queue[i]));
        } else {
            assert(dist.contains_key(queue[j]));
        }
    }
    assert forall|i: int| 0 <= i < q2.len() implies #[trigger] d2.contains_key(q2[i]) by {
        if i < queue.len() {
            assert(dist.contains_key(queue[i]));
        }
    }
    assert forall|v: Pos| #[trigger] d2.contains_key(v) implies exists|i: int| 0 <= i < q2.len() && q2[i] == v by {
        if v == n {
            assert(q2[queue.len() as int] == v);
        } else {
            let i = choose|i: int| 0 <= i < queue.len() && queue[i] == v;
            assert(q2[i] == v);
        }
    }
    assert(dist[queue[queue.len() - 1]] <= dist[cur] + 1);
    assert forall|i: int, j: int| 0 <= i <= j < q2.len() implies d2[#[trigger] q2[i]] <= d2[#[trigger] q2[j]] by {
        assert(dist.contains_key(queue[i]) || i == queue.len());
        if j < queue.len() {
            assert(dist[queue[i]] <= dist[queue[j]]);
            assert(queue[i] != n);
            assert(queue[j] != n);
        } else if i < queue.len() {
            assert(dist[queue[i]] <= dist[queue[queue.len() - 1]]);
            assert(queue[i] != n);
        }
    }
    assert forall|i: int, m: Pos| 0 <= i < head && #[trigger] adjacent(q2[i], m) && passable_at(map, m)
        implies d2.contains_key(m) && d2[m] <= d2[q2[i]] + 1 by {
        assert(q2[i] == queue[i]);
        assert(adjacent(queue[i], m));
        assert(dist.contains_key(queue[i]));
        assert(queue[i] != n);
    }
    assert forall|i: int| 0 <= i < head implies !adjacent(#[trigger] q2[i], goal) by {
        assert(q2[i] == queue[i]);
        assert(!adjacent(queue[i], goal));
    }
    assert forall|v: Pos| #[trigger] d2.contains_key(v) && v != start implies {
        &&& p2.contains_key(v)
        &&& d2.contains_key(p2[v])
        &&& adjacent(p2[v], v)
        &&& d2[v] == d2[p2[v]] + 1
        &&& passable_at(map, v)
        &&& v != goal
    } by {
        if v != n {
            assert(dist.contains_key(v));
            assert(dist.contains_key(par[v]));
        }
    }
    assert(search_ok(map, start, goal, q2, head, d2, p2));
}

/// The rank of the step from `p` to the neighbouring cell `q` in the order the
/// search tries neighbours: right, left, down, up.
pub open spec fn dir_index(p: Pos, q: Pos) -> int {
    if q.0 == p.0 + 1 && q.1 == p.1 {
        0
    } else if q.0 + 1 == p.0 && q.1 == p.1 {
        1
    } else if q.0 == p.0 && q.1 == p.1 + 1 {
        2
    } else {
        3
    }
}

/// `a` and `b` agree on their first `i` cells, and at cell `i` `a` takes a
/// step that comes earlier in the search order than `b`'s.
pub open spec fn diverge_at(a: Seq<Pos>, b: Seq<Pos>, i: int) -> bool {
    &&& forall|j: int| 0 <= j < i ==> a[j] == b[j]
    &&& dir_index(a[i - 1], a[i]) < dir_index(b[i - 1], b[i])
}

/// Walk `a` comes before walk `b` of the same length in the search order: at
/// the first step where they part, `a` turns first.
pub open spec fn walk_before(a: Seq<Pos>, b: Seq<Pos>) -> bool {
    &&& a.len() == b.len()
    &&& exists|i: int| 1 <= i < a.len() && #[trigger] diverge_at(a, b, i)
}

/// Route `a` comes before route `b` from `start` in the search order.
pub open spec fn route_before(start: Pos, a: Seq<Pos>, b: Seq<Pos>) -> bool {
    walk_before(seq![start] + a, seq![start] + b)
}

proof fn lemma_step_dir(p: Pos, k: int, q: Pos)
    requires
        small_pos(p),
        0 <= k < 4,
        step_pos(p, k) == Some(q),
    ensures
        dir_index(p, q) == k,
{
}

proof fn lemma_before_trans(a: Seq<Pos>, b: Seq<Pos>, c: Seq<Pos>)
    requires
        walk_before(a, b),
        walk_before(b, c),
    ensures
        walk_before(a, c),
{
    let i = choose|i: int| 1 <= i < a.len() && #[trigger] diverge_at(a, b, i);
    let j = choose|j: int| 1 <= j < b.len() && #[trigger] diverge_at(b, c, j);
    if i < j {
        assert(b[i - 1] == c[i - 1] && b[i] == c[i]);
        assert(diverge_at(a, c, i));
    } else if j < i {
        assert(a[j - 1] == b[j - 1] && a[j] == b[j]);
        assert(diverge_at(a, c, j));
    } else {
        assert(diverge_at(a, c, i));
    }
}

proof fn lemma_before_extend(a: Seq<Pos>, b: Seq<Pos>, x: Pos, y: Pos)
    requires
        walk_before(a, b),
    ensures
        walk_before(a.push(x), b.push(y)),
{
    let i = choose|i: int| 1 <= i < a.len() && #[trigger] diverge_at(a, b, i);
    assert(a.push(x)[i] == a[i] && a.push(x)[i - 1] == a[i - 1]);
    assert(b.push(y)[i] == b[i] && b.push(y)[i - 1] == b[i - 1]);
    assert(diverge_at(a.push(x), b.push(y), i));
}

proof fn lemma_before_last(a: Seq<Pos>, x: Pos, y: Pos)
    requires
        a.len() >= 1,
        dir_index(a.last(), x) < dir_index(a.last(), y),
    ensures
        walk_before(a.push(x), a.push(y)),
{
    let i = a.len() as int;
    assert(a.push(x)[i - 1] == a.last());
    assert(a.push(y)[i - 1] == a.last());
    assert(diverge_at(a.push(x), a.push(y), i));
}

/// The cells from `start` to `v` along recorded predecessors, `n` steps back.
spec fn chain_n(par: Map<Pos, Pos>, v: Pos, n: nat) -> Seq<Pos>
    decreases n,
{
    if n == 0 {
        seq![v]
    } else {
        chain_n(par, par[v], (n - 1) as nat).push(v)
    }
}

/// The walk by which the search reached `v`.
spec fn chain(dist: Map<Pos, int>, par: Map<Pos, Pos>, v: Pos) -> Seq<Pos> {
    chain_n(par, v, dist[v] as nat)
}

/// The walk by which the search reached `v` ends with the one to its
/// predecessor; it is a walk of `dist[v] + 1` cells whose `i`-th cell lies at
/// distance `i`.
#[verifier::spinoff_prover]
#[verifier::rlimit(40)]
proof fn lemma_chain(
    map: GridMap,
    start: Pos,
    goal: Pos,
    queue: Seq<Pos>,
    head: int,
    dist: Map<Pos, int>,
    par: Map<Pos, Pos>,
    v: Pos,
)
    requires
        search_ok(map, start, goal, queue, head, dist, par),
        dist.contains_key(v),
    ensures
        v == start ==> chain(dist, par, v) == seq![start],
        v != start ==> chain(dist, par, v) == chain(dist, par, par[v]).push(v),
        chain(dist, par, v).len() == dist[v] + 1,
        chain(dist, par, v)[0] == start,
        chain(dist, par, v).last() == v,
        is_walk(map, start, chain(dist, par, v)),
        forall|i: int| 0 <= i < chain(dist, par, v).len() ==>
            dist.contains_key(#[trigger] chain(dist, par, v)[i]) && dist[chain(dist, par, v)[i]] == i,
    decreases dist[v],
{
    if v == start {
    } else {
        let p = par[v];
        assert(dist[v] >= 1);
        lemma_chain(map, start, goal, queue, head, dist, par, p);
        let cp = chain(dist, par, p);
        assert(chain(dist, par, v) == chain_n(par, p, (dist[v] - 1) as nat).push(v));
        let c = cp.push(v);
        if dist[p] == 0 {
            assert(p == start);
        } else {
            assert(p != start);
        }
        assert forall|i: int| 1 <= i < c.len() implies #[trigger] adjacent(c[i - 1], c[i]) && passable_at(map, c[i]) by {
            if i < c.len() - 1 {
                assert(adjacent(cp[i - 1], cp[i]) && passable_at(map, cp[i]));
            }
        }
        assert forall|i: int| 0 <= i < c.len() implies dist.contains_key(#[trigger] c[i]) && dist[c[i]] == i by {
            if i < c.len() - 1 {
                assert(c[i] == cp[i]);
            }
        }
    }
}

/// Recording a new cell leaves the walks to the cells met before unchanged.
#[verifier::spinoff_prover]
#[verifier::rlimit(40)]
proof fn lemma_chain_stable(
    map: GridMap,
    start: Pos,
    goal: Pos,
    queue: Seq<Pos>,
    head: int,
    dist: Map<Pos, int>,
    par: Map<Pos, Pos>,
    n: Pos,
    d: int,
    x: Pos,
    v: Pos,
)
    requires
        search_ok(map, start, goal, queue, head, dist, par),
        !dist.contains_key(n),
        dist.contains_key(v),
    ensures
        chain(dist.insert(n, d), par.insert(n, x), v) == chain(dist, par, v),
    decreases dist[v],
{
    let par2 = par.insert(n, x);
    let dist2 = dist.insert(n, d);
    if v == start {
    } else {
        let p = par[v];
        lemma_chain_stable(map, start, goal, queue, head, dist, par, n, d, x, p);
        assert(chain_n(par2, v, dist[v] as nat) == chain_n(par2, p, (dist[v] - 1) as nat).push(v));
        assert(chain_n(par, v, dist[v] as nat) == chain_n(par, p, (dist[v] - 1) as nat).push(v));
    }
}

/// `path` is a shortest route from `start` to `goal`, and comes first in the
/// search order among them.
pub open spec fn first_shortest_route(map: GridMap, start: Pos, goal: Pos, path: Seq<Pos>) -> bool {
    &&& is_shortest_route(map, start, goal, path)
    &&& forall|other: Seq<Pos>| #[trigger] is_shortest_route(map, start, goal, other)
        ==> other == path || route_before(start, path, other)
}

/// One step of a walk.
proof fn lemma_walk_step(map: GridMap, start: Pos, w: Seq<Pos>, i: int)
    requires
        is_walk(map, start, w),
        1 <= i < w.len(),
    ensures
        adjacent(w[i - 1], w[i]),
        passable_at(map, w[i]),
{
    assert(adjacent(w[i - 1], w[i]) && passable_at(map, w[i]));
}

/// A walk without its last cell is still a walk.
proof fn lemma_walk_drop_last(map: GridMap, start: Pos, w: Seq<Pos>)
    requires
        is_walk(map, start, w),
        w.len() >= 2,
    ensures
        is_walk(map, start, w.drop_last()),
        adjacent(w[w.len() - 2], w.last()),
        w.drop_last().last() == w[w.len() - 2],
{
    let w1 = w.drop_last();
    assert forall|i: int| 1 <= i < w1.len() implies #[trigger] adjacent(w1[i - 1], w1[i]) && passable_at(map, w1[i]) by {
        lemma_walk_step(map, start, w, i);
    }
    lemma_walk_step(map, start, w, w.len() - 1);
}

/// The search order: cells at equal distance are queued in the order of the
/// walks that reached them, and the walk that reached a cell comes first among
/// all walks to it of that length.
spec fn order_ok(map: GridMap, start: Pos, queue: Seq<Pos>, dist: Map<Pos, int>, par: Map<Pos, Pos>) -> bool {
    &&& forall|i: int, j: int| 0 <= i < j < queue.len() && dist[queue[i]] == dist[queue[j]]
        ==> walk_before(chain(dist, par, #[trigger] queue[i]), chain(dist, par, #[trigger] queue[j]))
    &&& forall|w: Seq<Pos>| #[trigger] is_walk(map, start, w) && dist.contains_key(w.last()) && w.len() == dist[w.last()] + 1
        ==> w == chain(dist, par, w.last()) || walk_before(chain(dist, par, w.last()), w)
}

/// Every recorded predecessor was queued before position `bound`.
spec fn parents_before(start: Pos, queue: Seq<Pos>, bound: int, dist: Map<Pos, int>, par: Map<Pos, Pos>) -> bool {
    forall|v: Pos| #[trigger] dist.contains_key(v) && v != start
        ==> exists|i: int| 0 <= i < bound && i < queue.len() && queue[i] == par[v]
}

/// The cells met from `cur` so far were met through its first `k` neighbours.
spec fn children_before(start: Pos, cur: Pos, k: int, dist: Map<Pos, int>, par: Map<Pos, Pos>) -> bool {
    forall|v: Pos| #[trigger] dist.contains_key(v) && v != start && par[v] == cur ==> dir_index(cur, v) < k
}

/// A walk of `dist[cur] + 1` cells whose last cell is next to a cell `x`
/// that no expanded cell touches does not come before the walk that reached
/// `cur`.
#[verifier::spinoff_prover]
#[verifier::rlimit(40)]
proof fn lemma_not_before_cur(
    map: GridMap,
    start: Pos,
    goal: Pos,
    queue: Seq<Pos>,
    head: int,
    dist: Map<Pos, int>,
    par: Map<Pos, Pos>,
    w: Seq<Pos>,
    x: Pos,
)
    requires
        search_ok(map, start, goal, queue, head, dist, par),
        order_ok(map, start, queue, dist, par),
        head < queue.len(),
        is_walk(map, start, w),
        w.len() == dist[queue[head]] + 1,
        adjacent(w.last(), x),
        forall|i: int| 0 <= i < head ==> !adjacent(#[trigger] queue[i], x),
    ensures
        w == chain(dist, par, queue[head]) || walk_before(chain(dist, par, queue[head]), w),
{
    let cur = queue[head];
    let u = w.last();
    assert(dist.contains_key(cur));
    if w.len() == 1 {
        assert(u == start);
        if head > 0 {
            assert(queue[0] == start);
            assert(!adjacent(queue[0], x));
        }
        assert(head == 0);
    } else {
        let w2 = w.drop_last();
        lemma_walk_drop_last(map, start, w);
        lemma_walk_expanded(map, start, goal, queue, head, dist, par, w2);
        let i = choose|i: int| 0 <= i < head && queue[i] == w2.last() && dist[w2.last()] <= w2.len() - 1;
        let k = (w.len() - 1) as int;
        lemma_walk_step(map, start, w, k);
        assert(adjacent(queue[i], u));
        assert(dist.contains_key(u) && dist[u] <= dist[cur]);
        let j = choose|j: int| 0 <= j < queue.len() && queue[j] == u;
        if j < head {
            assert(!adjacent(queue[j], x));
        }
        assert(dist[queue[head]] <= dist[queue[j]]);
        assert(dist[u] == dist[cur]);
        assert(w == chain(dist, par, u) || walk_before(chain(dist, par, u), w));
        if j > head {
            assert(walk_before(chain(dist, par, queue[head]), chain(dist, par, queue[j])));
            if w != chain(dist, par, u) {
                lemma_before_trans(chain(dist, par, cur), chain(dist, par, u), w);
            }
        }
    }
}

/// Recording `n` keeps cells of equal distance queued in the order of their walks.
#[verifier::spinoff_prover]
#[verifier::rlimit(40)]
proof fn lemma_order_push_queue(
    map: GridMap,
    start: Pos,
    goal: Pos,
    queue: Seq<Pos>,
    head: int,
    dist: Map<Pos, int>,
    par: Map<Pos, Pos>,
    n: Pos,
    k: int,
)
    requires
        search_ok(map, start, goal, queue, head, dist, par),
        order_ok(map, start, queue, dist, par),
        head < queue.len(),
        !dist.contains_key(n),
        passable_at(map, n),
        adjacent(queue[head], n),
        n != goal,
        small_pos(n),
        parents_before(start, queue, head + 1, dist, par),
        children_before(start, queue[head], k, dist, par),
        dir_index(queue[head], n) == k,
    ensures
        forall|i: int, j: int| 0 <= i < j < queue.push(n).len()
            && dist.insert(n, dist[queue[head]] + 1)[queue.push(n)[i]] == dist.insert(n, dist[queue[head]] + 1)[queue.push(n)[j]]
            ==> walk_before(
                chain(dist.insert(n, dist[queue[head]] + 1), par.insert(n, queue[head]), #[trigger] queue.push(n)[i]),
                chain(dist.insert(n, dist[queue[head]] + 1), par.insert(n, queue[head]), #[trigger] queue.push(n)[j]),
            ),
{
    let cur = queue[head];
    let q2 = queue.push(n);
    let d2 = dist.insert(n, dist[cur] + 1);
    let p2 = par.insert(n, cur);
    lemma_search_push(map, start, goal, queue, head, dist, par, n);
    assert(dist.contains_key(cur));
    lemma_chain_stable(map, start, goal, queue, head, dist, par, n, dist[cur] + 1, cur, cur);
    assert(n != start);
    lemma_chain(map, start, goal, q2, head, d2, p2, n);
    assert(chain(d2, p2, n) == chain(dist, par, cur).push(n));
    assert forall|i: int, j: int| 0 <= i < j < q2.len() && d2[q2[i]] == d2[q2[j]]
        implies walk_before(chain(d2, p2, #[trigger] q2[i]), chain(d2, p2, #[trigger] q2[j])) by {
        assert(q2[i] == queue[i]);
        assert(dist.contains_key(queue[i]));
        assert(queue[i] != n);
        lemma_chain_stable(map, start, goal, queue, head, dist, par, n, dist[cur] + 1, cur, queue[i]);
        if j < queue.len() {
            assert(q2[j] == queue[j]);
            assert(dist.contains_key(queue[j]));
            assert(queue[j] != n);
            lemma_chain_stable(map, start, goal, queue, head, dist, par, n, dist[cur] + 1, cur, queue[j]);
            assert(walk_before(chain(dist, par, queue[i]), chain(dist, par, queue[j])));
        } else {
            let m = queue[i];
            assert(dist[m] == dist[cur] + 1);
            assert(m != start);
            let p = par[m];
            lemma_chain(map, start, goal, queue, head, dist, par, m);
            lemma_chain(map, start, goal, queue, head, dist, par, cur);
            let ip = choose|ip: int| 0 <= ip < head + 1 && ip < queue.len() && queue[ip] == par[m];
            if p == cur {
                assert(dir_index(cur, m) < k);
                lemma_before_last(chain(dist, par, cur), m, n);
            } else {
                assert(ip != head);
                assert(dist[p] == dist[cur]);
                assert(dist[queue[ip]] == dist[queue[head]]);
                assert(walk_before(chain(dist, par, queue[ip]), chain(dist, par, queue[head])));
                lemma_before_extend(chain(dist, par, p), chain(dist, par, cur), m, n);
            }
        }
    }
}

/// A walk to the newly recorded cell `n` comes no earlier than the walk that
/// reached it.
#[verifier::spinoff_prover]
#[verifier::rlimit(40)]
proof fn lemma_push_walk_new(
    map: GridMap,
    start: Pos,
    goal: Pos,
    queue: Seq<Pos>,
    head: int,
    dist: Map<Pos, int>,
    par: Map<Pos, Pos>,
    n: Pos,
    k: int,
    w: Seq<Pos>,
)
    requires
        search_ok(map, start, goal, queue, head, dist, par),
        order_ok(map, start, queue, dist, par),
        head < queue.len(),
        !dist.contains_key(n),
        passable_at(map, n),
        adjacent(queue[head], n),
        n != goal,
        small_pos(n),
        parents_before(start, queue, head + 1, dist, par),
        children_before(start, queue[head], k, dist, par),
        dir_index(queue[head], n) == k,
        is_walk(map, start, w),
        w.last() == n,
        w.len() == dist[queue[head]] + 2,
    ensures
        w == chain(dist, par, queue[head]).push(n) || walk_before(chain(dist, par, queue[head]).push(n), w),
{
    let cur = queue[head];
    let w1 = w.drop_last();
    lemma_walk_drop_last(map, start, w);
    assert forall|i: int| 0 <= i < head implies !adjacent(#[trigger] queue[i], n) by {
        if adjacent(queue[i], n) {
            assert(dist.contains_key(n));
        }
    }
    lemma_not_before_cur(map, start, goal, queue, head, dist, par, w1, n);
    assert(w =~= w1.push(n));
    if w1 != chain(dist, par, cur) {
        lemma_before_extend(chain(dist, par, cur), w1, n, n);
    }
}

/// Recording `n` keeps the walk `w` no earlier than the recorded walk to its
/// last cell.
#[verifier::spinoff_prover]
#[verifier::rlimit(40)]
proof fn lemma_push_walk(
    map: GridMap,
    start: Pos,
    goal: Pos,
    queue: Seq<Pos>,
    head: int,
    dist: Map<Pos, int>,
    par: Map<Pos, Pos>,
    n: Pos,
    k: int,
    w: Seq<Pos>,
)
    requires
        search_ok(map, start, goal, queue, head, dist, par),
        order_ok(map, start, queue, dist, par),
        head < queue.len(),
        !dist.contains_key(n),
        passable_at(map, n),
        adjacent(queue[head], n),
        n != goal,
        small_pos(n),
        parents_before(start, queue, head + 1, dist, par),
        children_before(start, queue[head], k, dist, par),
        dir_index(queue[head], n) == k,
        is_walk(map, start, w),
        dist.insert(n, dist[queue[head]] + 1).contains_key(w.last()),
        w.len() == dist.insert(n, dist[queue[head]] + 1)[w.last()] + 1,
    ensures
        w == chain(dist.insert(n, dist[queue[head]] + 1), par.insert(n, queue[head]), w.last())
            || walk_before(chain(dist.insert(n, dist[queue[head]] + 1), par.insert(n, queue[head]), w.last()), w),
{
    let cur = queue[head];
    let d2 = dist.insert(n, dist[cur] + 1);
    let p2 = par.insert(n, cur);
    assert(dist.contains_key(cur));
    let v = w.last();
    if v != n {
        lemma_chain_stable(map, start, goal, queue, head, dist, par, n, dist[cur] + 1, cur, v);
    } else {
        lemma_chain_stable(map, start, goal, queue, head, dist, par, n, dist[cur] + 1, cur, cur);
        assert(dist[cur] >= 0);
        assert(chain_n(p2, n, d2[n] as nat) == chain_n(p2, cur, dist[cur] as nat).push(n));
        lemma_push_walk_new(map, start, goal, queue, head, dist, par, n, k, w);
    }
}

/// Recording `n` keeps every recorded walk first among the walks of its length.
#[verifier::spinoff_prover]
#[verifier::rlimit(40)]
proof fn lemma_order_push_walks(
    map: GridMap,
    start: Pos,
    goal: Pos,
    queue: Seq<Pos>,
    head: int,
    dist: Map<Pos, int>,
    par: Map<Pos, Pos>,
    n: Pos,
    k: int,
)
    requires
        search_ok(map, start, goal, queue, head, dist, par),
        order_ok(map, start, queue, dist, par),
        head < queue.len(),
        !dist.contains_key(n),
        passable_at(map, n),
        adjacent(queue[head], n),
        n != goal,
        small_pos(n),
        parents_before(start, queue, head + 1, dist, par),
        children_before(start, queue[head], k, dist, par),
        dir_index(queue[head], n) == k,
    ensures
        forall|w: Seq<Pos>| #[trigger] is_walk(map, start, w)
            && dist.insert(n, dist[queue[head]] + 1).contains_key(w.last())
            && w.len() == dist.insert(n, dist[queue[head]] + 1)[w.last()] + 1
            ==> w == chain(dist.insert(n, dist[queue[head]] + 1), par.insert(n, queue[head]), w.last())
                || walk_before(chain(dist.insert(n, dist[queue[head]] + 1), par.insert(n, queue[head]), w.last()), w),
{
    assert forall|w: Seq<Pos>| #[trigger] is_walk(map, start, w)
        && dist.insert(n, dist[queue[head]] + 1).contains_key(w.last())
        && w.len() == dist.insert(n, dist[queue[head]] + 1)[w.last()] + 1
        implies w == chain(dist.insert(n, dist[queue[head]] + 1), par.insert(n, queue[head]), w.last())
            || walk_before(chain(dist.insert(n, dist[queue[head]] + 1), par.insert(n, queue[head]), w.last()), w) by {
        lemma_push_walk(map, start, goal, queue, head, dist, par, n, k, w);
    }
}

/// Recording `n`, met through the `k`-th neighbour of the cell under
/// expansion, keeps the search order.
#[verifier::spinoff_prover]
#[verifier::rlimit(40)]
proof fn lemma_order_push(
    map: GridMap,
    start: Pos,
    goal: Pos,
    queue: Seq<Pos>,
    head: int,
    dist: Map<Pos, int>,
    par: Map<Pos, Pos>,
    n: Pos,
    k: int,
)
    requires
        search_ok(map, start, goal, queue, head, dist, par),
        order_ok(map, start, queue, dist, par),
        head < queue.len(),
        !dist.contains_key(n),
        passable_at(map, n),
        adjacent(queue[head], n),
        n != goal,
        small_pos(n),
        parents_before(start, queue, head + 1, dist, par),
        children_before(start, queue[head], k, dist, par),
        dir_index(queue[head], n) == k,
    ensures
        order_ok(map, start, queue.push(n), dist.insert(n, dist[queue[head]] + 1), par.insert(n, queue[head])),
        parents_before(start, queue.push(n), head + 1, dist.insert(n, dist[queue[head]] + 1), par.insert(n, queue[head])),
        children_before(start, queue[head], k + 1, dist.insert(n, dist[queue[head]] + 1), par.insert(n, queue[head])),
{
    let cur = queue[head];
    let q2 = queue.push(n);
    let d2 = dist.insert(n, dist[cur] + 1);
    let p2 = par.insert(n, cur);
    lemma_order_push_queue(map, start, goal, queue, head, dist, par, n, k);
    lemma_order_push_walks(map, start, goal, queue, head, dist, par, n, k);
    assert forall|v: Pos| #[trigger] d2.contains_key(v) && v != start
        implies exists|i: int| 0 <= i < head + 1 && i < q2.len() && q2[i] == p2[v] by {
        if v == n {
            assert(q2[head] == p2[v]);
        } else {
            let i = choose|i: int| 0 <= i < head + 1 && i < queue.len() && queue[i] == par[v];
            assert(q2[i] == p2[v]);
        }
    }
}

/// The route found through `queue[head]` comes first, in the search order,
/// among the shortest routes.
#[verifier::spinoff_prover]
#[verifier::rlimit(40)]
proof fn lemma_found_first(
    map: GridMap,
    start: Pos,
    goal: Pos,
    queue: Seq<Pos>,
    head: int,
    dist: Map<Pos, int>,
    par: Map<Pos, Pos>,
    path: Seq<Pos>,
    other: Seq<Pos>,
)
    requires
        search_ok(map, start, goal, queue, head, dist, par),
        order_ok(map, start, queue, dist, par),
        head < queue.len(),
        is_route(map, start, goal, path),
        seq![start] + path == chain(dist, par, queue[head]).push(goal),
        path.len() == dist[queue[head]] + 1,
        is_shortest_route(map, start, goal, other),
    ensures
        other == path || route_before(start, path, other),
{
    lemma_no_shorter_route(map, start, goal, queue, head, dist, par, other);
    assert(other.len() == path.len());
    let w = seq![start] + other;
    let w1 = w.drop_last();
    assert forall|i: int| 1 <= i < w1.len() implies #[trigger] adjacent(w1[i - 1], w1[i]) && passable_at(map, w1[i]) by {
        assert(w1[i] == other[i - 1]);
        assert(passable_at(map, other[i - 1]));
        if i >= 2 {
            assert(w1[i - 1] == other[i - 2]);
            assert(adjacent(other[i - 2], other[i - 1]));
        }
    }
    if other.len() >= 2 {
        let l = (other.len() - 1) as int;
        assert(w1.last() == other[l - 1]);
        assert(adjacent(other[l - 1], other[l]));
    }
    assert(w1.last() == w[w.len() - 2]);
    lemma_not_before_cur(map, start, goal, queue, head, dist, par, w1, goal);
    assert(w =~= w1.push(goal));
    if w1 == chain(dist, par, queue[head]) {
        assert(w == seq![start] + path);
        assert(other =~= (seq![start] + other).drop_first());
        assert(path =~= (seq![start] + path).drop_first());
    } else {
        lemma_before_extend(chain(dist, par, queue[head]), w1, goal, goal);
    }
}

/// Follows the recorded predecessors from `cur` back to `start`; the result,
/// extended by `goal`, is a route of `dist[cur] + 1` cells.
#[verifier::rlimit(40)]
fn trace_back(
    map: &GridMap,
    seen: &Vec<Vec<Option<Pos>>>,
    start: Pos,
    goal: Pos,
    cur: Pos,
    Ghost(queue): Ghost<Seq<Pos>>,
    Ghost(head): Ghost<int>,
    Ghost(dist): Ghost<Map<Pos, int>>,
    Ghost(par): Ghost<Map<Pos, Pos>>,
) -> (r: Vec<Pos>)
    requires
        map.wf(),
        search_ok(*map, start, goal, queue, head, dist, par),
        grid_ok(*map, start, seen@, dist, par),
        dist.contains_key(cur),
        adjacent(cur, goal),
    ensures
        is_route(*map, start, goal, r@),
        r@.len() == dist[cur] + 1,
        seq![start] + r@ == chain(dist, par, cur).push(goal),
{
    let ghost c = chain(dist, par, cur);
    proof {
        lemma_chain(*map, start, goal, queue, head, dist, par, cur);
    }
    let mut rev: Vec<Pos> = Vec::new();
    rev.push(goal);
    let mut node: Pos = cur;
    while !(node.0 == start.0 && node.1 == start.1)
        invariant
            c == chain(dist, par, cur),
            c.len() == dist[cur] + 1,
            c[0] == start,
            chain(dist, par, node) == c.subrange(0, dist[node] + 1),
            forall|i: int| 1 <= i < rev@.len() ==> #[trigger] rev@[i] == c[dist[cur] - i + 1],
            map.wf(),
            search_ok(*map, start, goal, queue, head, dist, par),
            grid_ok(*map, start, seen@, dist, par),
            dist.contains_key(node),
            dist.contains_key(cur),
            rev@.len() >= 1,
            rev@[0] == goal,
            rev@.len() + dist[node] == dist[cur] + 1,
            adjacent(node, rev@.last()),
            forall|i: int| 1 <= i < rev@.len() ==> #[trigger] adjacent(rev@[i], rev@[i - 1]),
            forall|i: int| 1 <= i < rev@.len() ==> #[trigger] passable_at(*map, rev@[i]),
        decreases dist[node],
    {
        assert(node != start);
        assert(passable_at(*map, node));
        proof {
            lemma_chain(*map, start, goal, queue, head, dist, par, node);
            assert(chain(dist, par, par[node]) =~= c.subrange(0, dist[node]));
            assert(node == c[dist[node] as int]);
        }
        let back: Option<Pos> = seen[node.1][node.0];
        rev.push(node);
        match back {
            Some(prev) => {
                node = prev;
            }
            None => {
                assert(false);
            }
        }
    }
    let n: usize = rev.len();
    let mut out: Vec<Pos> = Vec::new();
    let mut i: usize = 0;
    while i < n
        invariant
            n == rev@.len(),
            i <= n,
            out@.len() == i,
            forall|j: int| 0 <= j < i ==> #[trigger] out@[j] == rev@[n - 1 - j],
        decreases n - i,
    {
        out.push(rev[n - 1 - i]);
        i = i + 1;
    }
    assert forall|j: int| 1 <= j < out@.len() implies #[trigger] adjacent(out@[j - 1], out@[j]) by {
        assert(adjacent(rev@[n - j], rev@[n - j - 1]));
    }
    assert forall|j: int| 0 <= j < out@.len() - 1 implies #[trigger] passable_at(*map, out@[j]) by {
        assert(passable_at(*map, rev@[n - 1 - j]));
    }
    assert(seq![start] + out@ =~= c.push(goal)) by {
        assert forall|j: int| 0 <= j < out@.len() - 1 implies out@[j] == c[j + 1] by {
            assert(out@[j] == rev@[n - 1 - j]);
        }
    }
    out
}

/// Shortest route from `start` to `goal` by breadth-first search over passable
/// cells; `goal` itself may be impassable. `Some(empty)` when `start == goal`,
/// `None` when `goal` cannot be reached. Of several shortest routes it returns
/// the first in the order the search tries neighbours (right, left, down, up).
#[verifier::spinoff_prover]
#[verifier::rlimit(80)]
pub fn bfs(map: &GridMap, start: Pos, goal: Pos) -> (r: Option<Vec<Pos>>)
    requires
        map.wf(),
        small_pos(start),
    ensures
        start == goal ==> (r matches Some(p) && p@.len() == 0),
        start != goal ==> (r is Some <==> reachable(*map, start, goal)),
        start != goal ==> (r matches Some(p) ==> first_shortest_route(*map, start, goal, p@)),
{
    if start.0 == goal.0 && start.1 == goal.1 {
        return Some(Vec::new());
    }
    // visited grid: for each cell met, the cell it was reached from
    let mut seen: Vec<Vec<Option<Pos>>> = Vec::new();
    let mut y: usize = 0;
    while y < map.height
        invariant
            map.wf(),
            y <= map.height,
            seen@.len() == y,
            forall|yy: int| 0 <= yy < y ==> #[trigger] seen@[yy]@.len() == map.width,
            forall|yy: int, xx: int| 0 <= yy < y && 0 <= xx < map.width ==> #[trigger] seen@[yy]@[xx] is None,
        decreases map.height - y,
    {
        let mut row: Vec<Option<Pos>> = Vec::new();
        let mut x: usize = 0;
        while x < map.width
            invariant
                map.wf(),
                x <= map.width,
                row@.len() == x,
                forall|xx: int| 0 <= xx < x ==> #[trigger] row@[xx] is None,
            decreases map.width - x,
        {
            row.push(None);
            x = x + 1;
        }
        seen.push(row);
        y = y + 1;
    }
    let ghost mut dist: Map<Pos, int> = Map::empty().insert(start, 0int);
    let ghost mut par: Map<Pos, Pos> = Map::empty();
    if start.0 < map.width && start.1 < map.height {
        let mut row: Vec<Option<Pos>> = Vec::new();
        seen.set_and_swap(start.1, &mut row);
        row.set(start.0, Some(start));
        seen.set_and_swap(start.1, &mut row);
    }
    let mut queue: Vec<Pos> = Vec::new();
    queue.push(start);
    let mut head: usize = 0;
    assert(grid_ok(*map, start, seen@, dist, par));
    assert(search_ok(*map, start, goal, queue@, head as int, dist, par));
    proof {
        assert forall|w: Seq<Pos>| #[trigger] is_walk(*map, start, w) && dist.contains_key(w.last()) && w.len() == dist[w.last()] + 1
            implies w == chain(dist, par, w.last()) || walk_before(chain(dist, par, w.last()), w) by {
            assert(w =~= seq![start]);
        }
    }
    while head < queue.len()
        invariant
            map.wf(),
            search_ok(*map, start, goal, queue@, head as int, dist, par),
            grid_ok(*map, start, seen@, dist, par),
            order_ok(*map, start, queue@, dist, par),
            parents_before(start, queue@, head as int, dist, par),
        decreases 2 * grid_unseen(seen@) + queue@.len() - head,
    {
        let cur: Pos = queue[head];
        assert(dist.contains_key(cur));
        let ghost measure: int = 2 * grid_unseen(seen@) + queue@.len() as int;
        proof {
            assert forall|v: Pos| #[trigger] dist.contains_key(v) && v != start && par[v] == cur
                implies dir_index(cur, v) < 0 by {
                let i = choose|i: int| 0 <= i < head && i < queue@.len() && queue@[i] == par[v];
                assert(queue@[i] != queue@[head as int]);
            }
        }
        let mut k: usize = 0;
        while k < 4
            invariant
                order_ok(*map, start, queue@, dist, par),
                parents_before(start, queue@, head + 1, dist, par),
                children_before(start, cur, k as int, dist, par),
                map.wf(),
                k <= 4,
                head < queue@.len(),
                cur == queue@[head as int],
                search_ok(*map, start, goal, queue@, head as int, dist, par),
                grid_ok(*map, start, seen@, dist, par),
                forall|kk: int| 0 <= kk < k ==> match #[trigger] step_pos(cur, kk) {
                    Some(n) => passable_at(*map, n) ==> dist.contains_key(n) && dist[n] <= dist[cur] + 1,
                    None => true,
                },
                forall|kk: int| 0 <= kk < k ==> #[trigger] step_pos(cur, kk) != Some(goal),
                2 * grid_unseen(seen@) + queue@.len() <= measure,
            decreases 4 - k,
        {
            assert(dist.contains_key(queue@[head as int]));
            assert(small_pos(cur));
            match neighbor(cur, k) {
                Some(n) => {
                    if n.0 == goal.0 && n.1 == goal.1 {
                        let path: Vec<Pos> = trace_back(
                            map,
                            &seen,
                            start,
                            goal,
                            cur,
                            Ghost(queue@),
                            Ghost(head as int),
                            Ghost(dist),
                            Ghost(par),
                        );
                        proof {
                            assert forall|other: Seq<Pos>| #[trigger] is_route(*map, start, goal, other)
                                implies path@.len() <= other.len() by {
                                lemma_no_shorter_route(*map, start, goal, queue@, head as int, dist, par, other);
                            }
                            assert forall|other: Seq<Pos>| #[trigger] is_shortest_route(*map, start, goal, other)
                                implies other == path@ || route_before(start, path@, other) by {
                                lemma_found_first(*map, start, goal, queue@, head as int, dist, par, path@, other);
                            }
                        }
                        return Some(path);
                    }
                    if map.is_passable(n.0, n.1) {
                        let cell: Option<Pos> = seen[n.1][n.0];
                        match cell {
                            Some(_) => {
                                proof {
                                    let j = choose|j: int| 0 <= j < queue@.len() && queue@[j] == n;
                                    assert(dist[queue@[j]] <= dist[queue@[queue@.len() - 1]]);
                                }
                            }
                            None => {
                                proof {
                                    lemma_search_push(*map, start, goal, queue@, head as int, dist, par, n);
                                    lemma_step_dir(cur, k as int, n);
                                    lemma_order_push(*map, start, goal, queue@, head as int, dist, par, n, k as int);
                                }
                                let ghost old_seen = seen@;
                                let mut row: Vec<Option<Pos>> = Vec::new();
                                seen.set_and_swap(n.1, &mut row);
                                let ghost old_row = row@;
                                row.set(n.0, Some(cur));
                                seen.set_and_swap(n.1, &mut row);
                                proof {
                                    lemma_row_unseen_mark(old_row, n.0 as int, cur);
                                    lemma_grid_unseen_replace(old_seen, n.1 as int, seen@[n.1 as int]);
                                    assert(seen@ =~= old_seen.update(n.1 as int, seen@[n.1 as int]));
                                    dist = dist.insert(n, dist[cur] + 1);
                                    par = par.insert(n, cur);
                                }
                                queue.push(n);
                            }
                        }
                    }
                }
                None => {}
            }
            k = k + 1;
        }
        proof {
            assert forall|n: Pos| #[trigger] adjacent(cur, n) && passable_at(*map, n)
                implies dist.contains_key(n) && dist[n] <= dist[cur] + 1 by {
                lemma_adjacent_is_step(cur, n);
                let kk = choose|kk: int| 0 <= kk < 4 && #[trigger] step_pos(cur, kk) == Some(n);
                assert(step_pos(cur, kk) == Some(n));
            }
            if adjacent(cur, goal) {
                lemma_adjacent_is_step(cur, goal);
            }
        }
        head = head + 1;
    }
    proof {
        if reachable(*map, start, goal) {
            let p = choose|p: Seq<Pos>| is_route(*map, start, goal, p);
            lemma_no_shorter_route(*map, start, goal, queue@, head as int, dist, par, p);
        }
    }
    None
}

} // verus!
