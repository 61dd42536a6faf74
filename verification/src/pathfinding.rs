use vstd::prelude::*;

use crate::grid::{
    aligned, get_neighbours, in_grid, is_initial_cost_map, is_standard_path_map, lemma_aligned_same_tile,
    lemma_corner_tile, lemma_neighbour_corners, lemma_point_tile, lemma_tile_index_injective,
    manhattan, manhattan_distance, neighbour_corners, point_index, tile_corner, tile_x, tile_y,
    tiles_adjacent, Point, GRID_HEIGHT, GRID_WIDTH, NUM_TILES, TILE_SIZE,
};
use crate::search_costs::{
    count_below, cost_table_inv, lemma_cost_bound, lemma_potential_nonneg, lemma_relax_cost,
    potential,
};

verus! {

/// The pathfinding data of an NPC: the table of tile corners and the table of tile costs.
pub struct Maps {
    pub path_map: Vec<Vec<Point>>,
    pub cost_map: Vec<Vec<i32>>,
}

impl Maps {
    /// Appends the table of tile corners to `path_map`: row `i` holds the corners of the
    /// tiles of column `i`, from the bottom of the arena to its top.
    pub fn load_map_path(&mut self)
        ensures
            final(self).cost_map@ == old(self).cost_map@,
            final(self).path_map@.len() == old(self).path_map@.len() + GRID_WIDTH,
            forall|a: int|
                0 <= a < old(self).path_map@.len() ==> #[trigger] final(self).path_map@[a]
                    == old(self).path_map@[a],
            is_standard_path_map(
                final(self).path_map@.subrange(
                    old(self).path_map@.len() as int,
                    final(self).path_map@.len() as int,
                ),
            ),
            old(self).path_map@.len() == 0 ==> is_standard_path_map(final(self).path_map@),
    {
        let ghost n0 = self.path_map@.len();
        let ghost before = self.path_map@;
        let mut i: usize = 0;
        while i < GRID_WIDTH
            invariant
                i <= GRID_WIDTH,
                self.cost_map@ == old(self).cost_map@,
                before == old(self).path_map@,
                n0 == before.len(),
                self.path_map@.len() == n0 + i,
                forall|a: int| 0 <= a < n0 ==> #[trigger] self.path_map@[a] == before[a],
                forall|a: int| 0 <= a < i ==> #[trigger] self.path_map@[n0 + a]@.len() == GRID_HEIGHT,
                forall|a: int, b: int|
                    0 <= a < i && 0 <= b < GRID_HEIGHT ==> #[trigger] self.path_map@[n0 + a]@[b]
                        == tile_corner(a, b),
            decreases GRID_WIDTH - i,
        {
            let mut row: Vec<Point> = Vec::new();
            let mut j: usize = 0;
            while j < GRID_HEIGHT
                invariant
                    i < GRID_WIDTH,
                    j <= GRID_HEIGHT,
                    row@.len() == j,
                    forall|b: int| 0 <= b < j ==> #[trigger] row@[b] == tile_corner(i as int, b),
                decreases GRID_HEIGHT - j,
            {
                let cx: i32 = (i * 4) as i32;
                let cy: i32 = (j * 4) as i32;
                row.push(Point { x: cx, y: cy });
                j = j + 1;
            }
            self.path_map.push(row);
            i = i + 1;
        }
        proof {
            let t = self.path_map@.subrange(n0 as int, self.path_map@.len() as int);
            assert forall|a: int| 0 <= a < GRID_WIDTH implies #[trigger] t[a]@.len() == GRID_HEIGHT by {
                assert(t[a] == self.path_map@[n0 + a]);
            }
            assert forall|a: int, b: int|
                0 <= a < GRID_WIDTH && 0 <= b < GRID_HEIGHT implies #[trigger] t[a]@[b]
                    == tile_corner(a, b) by {
                assert(t[a] == self.path_map@[n0 + a]);
            }
            if n0 == 0 {
                assert(t =~= self.path_map@);
            }
        }
    }

    /// Appends the initial cost table of the pathfinding arena to `cost_map`.
    pub fn load_map_cost(&mut self)
        ensures
            final(self).path_map@ == old(self).path_map@,
            final(self).cost_map@.len() == old(self).cost_map@.len() + GRID_WIDTH,
            forall|a: int|
                0 <= a < old(self).cost_map@.len() ==> #[trigger] final(self).cost_map@[a]
                    == old(self).cost_map@[a],
            is_initial_cost_map(
                final(self).cost_map@.subrange(
                    old(self).cost_map@.len() as int,
                    final(self).cost_map@.len() as int,
                ),
            ),
            old(self).cost_map@.len() == 0 ==> is_initial_cost_map(final(self).cost_map@),
    {
        let ghost n0 = self.cost_map@.len();
        let ghost before = self.cost_map@;
        let mut i: usize = 0;
        while i < GRID_WIDTH
            invariant
                i <= GRID_WIDTH,
                self.path_map@ == old(self).path_map@,
                before == old(self).cost_map@,
                n0 == before.len(),
                self.cost_map@.len() == n0 + i,
                forall|a: int| 0 <= a < n0 ==> #[trigger] self.cost_map@[a] == before[a],
                forall|a: int| 0 <= a < i ==> #[trigger] self.cost_map@[n0 + a]@.len() == 2 * GRID_HEIGHT,
                forall|a: int, b: int|
                    0 <= a < i && 0 <= b < 2 * GRID_HEIGHT ==> #[trigger] self.cost_map@[n0 + a]@[b]
                        == (if b % 2 == 0 {
                        i32::MAX
                    } else {
                        -1i32
                    }),
            decreases GRID_WIDTH - i,
        {
            let mut row: Vec<i32> = Vec::new();
            let mut j: usize = 0;
            while j < GRID_HEIGHT
                invariant
                    j <= GRID_HEIGHT,
                    row@.len() == 2 * j,
                    forall|b: int|
                        0 <= b < 2 * j ==> #[trigger] row@[b] == (if b % 2 == 0 {
                            i32::MAX
                        } else {
                            -1i32
                        }),
                decreases GRID_HEIGHT - j,
            {
                row.push(i32::MAX);
                row.push(-1);
                j = j + 1;
            }
            self.cost_map.push(row);
            i = i + 1;
        }
        proof {
            let t = self.cost_map@.subrange(n0 as int, self.cost_map@.len() as int);
            assert forall|a: int| 0 <= a < GRID_WIDTH implies #[trigger] t[a]@.len() == 2 * GRID_HEIGHT by {
                assert(t[a] == self.cost_map@[n0 + a]);
            }
            assert forall|a: int, b: int|
                0 <= a < GRID_WIDTH && 0 <= b < 2 * GRID_HEIGHT implies #[trigger] t[a]@[b] == (if b
                    % 2 == 0 {
                    i32::MAX
                } else {
                    -1i32
                }) by {
                assert(t[a] == self.cost_map@[n0 + a]);
            }
            if n0 == 0 {
                assert(t =~= self.cost_map@);
            }
        }
    }
}

/// An entry of the search's work list: a point to expand and its priority (the steps taken
/// to reach it plus its Manhattan distance to the goal); the smallest priority leaves first.
#[derive(Clone, Copy)]
struct Vertex {
    point: Point,
    cost: i64,
}

/// A point reached by the search or the start itself.
pub open spec fn cost_at(costs: Seq<i32>, p: Point) -> i32 {
    costs[point_index(p)]
}

/// The predecessor that the search recorded for `p`.
pub open spec fn parent_at(parents: Seq<Point>, p: Point) -> Point {
    parents[point_index(p)]
}

/// The recorded predecessor of `p` is the start (in a tile next to `p`'s), or the corner
/// of a tile next to `p`'s with a smaller known cost.
pub open spec fn parent_ok(costs: Seq<i32>, parents: Seq<Point>, start: Point, p: Point) -> bool {
    let q = parent_at(parents, p);
    ||| q == start && tiles_adjacent(start, p)
    ||| in_grid(q) && aligned(q) && 0 <= cost_at(costs, q) < cost_at(costs, p) && tiles_adjacent(q, p)
}

/// Every corner the search reached has a sound recorded predecessor.
pub open spec fn parents_inv(costs: Seq<i32>, parents: Seq<Point>, start: Point) -> bool {
    &&& parents.len() == NUM_TILES
    &&& forall|p: Point|
        in_grid(p) && aligned(p) && cost_at(costs, p) >= 0 ==> #[trigger] parent_ok(
            costs,
            parents,
            start,
            p,
        )
}

/// Every entry of the work list is the start or the corner of a tile with a known cost.
spec fn queue_inv(queue: Seq<Vertex>, costs: Seq<i32>, start: Point) -> bool {
    forall|i: int|
        0 <= i < queue.len() ==> {
            let p = #[trigger] queue[i].point;
            p == start || (in_grid(p) && aligned(p) && cost_at(costs, p) >= 0)
        }
}

spec fn queue_points(queue: Seq<Vertex>) -> Set<Point> {
    Set::new(|p: Point| exists|i: int| 0 <= i < queue.len() && queue[i].point == p)
}

/// What the search keeps of the points it has expanded: each one differs from the goal,
/// every tile next to one has a known cost, and every corner with a known cost (and the
/// start) is waiting in the work list or has been expanded.
spec fn closed_inv(
    queue: Seq<Vertex>,
    costs: Seq<i32>,
    start: Point,
    goal: Point,
    closed: Set<Point>,
) -> bool {
    &&& forall|x: Point| #[trigger] closed.contains(x) ==> x != goal && in_grid(x)
    &&& forall|x: Point, k: int|
        closed.contains(x) && 0 <= k < neighbour_corners(x).len() ==> cost_at(
            costs,
            #[trigger] neighbour_corners(x)[k],
        ) >= 0
    &&& forall|p: Point|
        in_grid(p) && aligned(p) && #[trigger] cost_at(costs, p) >= 0 ==> queue_points(
            queue,
        ).contains(p) || closed.contains(p)
    &&& queue_points(queue).contains(start) || closed.contains(start)
}

/// A route of the NPC from `start` to `goal`: it begins at the start, ends at the goal,
/// continues over tile corners of the arena, and each step enters a tile next to the last.
pub open spec fn is_tile_path(path: Seq<Point>, start: Point, goal: Point) -> bool {
    &&& path.len() >= 1
    &&& path[0] == start
    &&& path.last() == goal
    &&& forall|i: int| 1 <= i < path.len() ==> in_grid(#[trigger] path[i]) && aligned(path[i])
    &&& forall|i: int| 0 <= i < path.len() - 1 ==> tiles_adjacent(#[trigger] path[i], path[i + 1])
}

/// The search can end at `goal`: it is the start, or the corner of a tile of the arena.
pub open spec fn goal_reachable(start: Point, goal: Point) -> bool {
    goal == start || (in_grid(goal) && aligned(goal))
}

/// Index of an entry of the work list with the smallest priority.
fn min_index(queue: &Vec<Vertex>) -> (m: usize)
    requires
        queue.len() > 0,
    ensures
        m < queue.len(),
        forall|i: int| 0 <= i < queue.len() ==> queue@[m as int].cost <= #[trigger] queue@[i].cost,
{
    let mut m: usize = 0;
    let mut i: usize = 1;
    while i < queue.len()
        invariant
            0 < i <= queue.len(),
            m < i,
            forall|j: int| 0 <= j < i ==> queue@[m as int].cost <= #[trigger] queue@[j].cost,
        decreases queue.len() - i,
    {
        if queue[i].cost < queue[m].cost {
            m = i;
        }
        i = i + 1;
    }
    m
}

fn tile_of(p: Point) -> (t: usize)
    requires
        in_grid(p),
    ensures
        t == point_index(p),
        t < NUM_TILES,
{
    proof {
        lemma_point_tile(p);
    }
    (p.x / TILE_SIZE) as usize * GRID_HEIGHT + (p.y / TILE_SIZE) as usize
}

proof fn lemma_queue_points_push(queue: Seq<Vertex>, v: Vertex)
    ensures
        queue_points(queue.push(v)) == queue_points(queue).insert(v.point),
{
    let q2 = queue.push(v);
    assert forall|p: Point| queue_points(q2).contains(p) implies queue_points(queue).insert(
        v.point,
    ).contains(p) by {
        let i = choose|i: int| 0 <= i < q2.len() && q2[i].point == p;
        if i < queue.len() {
            assert(queue[i].point == p);
        }
    }
    assert forall|p: Point| queue_points(queue).insert(v.point).contains(p) implies queue_points(
        q2,
    ).contains(p) by {
        if p == v.point {
            assert(q2[queue.len() as int].point == p);
        } else {
            let i = choose|i: int| 0 <= i < queue.len() && queue[i].point == p;
            assert(q2[i].point == p);
        }
    }
    assert(queue_points(q2) =~= queue_points(queue).insert(v.point));
}

/// Taking entry `m` out of the work list keeps every other point that it held.
proof fn lemma_queue_points_remove(queue: Seq<Vertex>, m: int, p: Point)
    requires
        0 <= m < queue.len(),
        queue_points(queue).contains(p),
        p != queue[m].point,
    ensures
        queue_points(queue.update(m, queue.last()).drop_last()).contains(p),
{
    let q2 = queue.update(m, queue.last()).drop_last();
    let i = choose|i: int| 0 <= i < queue.len() && queue[i].point == p;
    if i == queue.len() - 1 {
        assert(q2[m].point == p);
    } else {
        assert(q2[i].point == p);
    }
}

/// Sets the cost and predecessor of `neighbour`, a tile next to the expanded point
/// `current`, when `current` reaches it with fewer steps, and queues its corner.
fn relax(
    costs: &mut Vec<i32>,
    parents: &mut Vec<Point>,
    queue: &mut Vec<Vertex>,
    current: Point,
    neighbour: Point,
    start: Point,
    goal: Point,
)
    requires
        cost_table_inv(old(costs)@),
        parents_inv(old(costs)@, old(parents)@, start),
        queue_inv(old(queue)@, old(costs)@, start),
        in_grid(start),
        in_grid(current),
        current == start || (aligned(current) && cost_at(old(costs)@, current) >= 0),
        in_grid(neighbour),
        aligned(neighbour),
        tiles_adjacent(current, neighbour),
    ensures
        cost_table_inv(final(costs)@),
        parents_inv(final(costs)@, final(parents)@, start),
        queue_inv(final(queue)@, final(costs)@, start),
        cost_at(final(costs)@, neighbour) >= 0,
        cost_at(final(costs)@, current) == cost_at(old(costs)@, current),
        forall|t: int|
            0 <= t < NUM_TILES && t != point_index(neighbour) ==> #[trigger] final(costs)@[t]
                == old(costs)@[t],
        forall|t: int|
            0 <= t < NUM_TILES && #[trigger] old(costs)@[t] >= 0 ==> final(costs)@[t] >= 0,
        final(queue)@ == old(queue)@ || (final(queue)@ == old(queue)@.push(
            final(queue)@.last(),
        ) && final(queue)@.last().point == neighbour),
        final(queue)@ == old(queue)@ ==> final(costs)@ == old(costs)@,
        final(queue)@ != old(queue)@ ==> potential(final(costs)@) < potential(old(costs)@),
        cost_at(final(costs)@, neighbour) <= cost_at(old(costs)@, current) + 1,
        cost_at(old(costs)@, neighbour) >= 0 ==> cost_at(final(costs)@, neighbour) <= cost_at(
            old(costs)@,
            neighbour,
        ),
        final(queue)@ != old(queue)@ ==> final(queue)@.last().cost == cost_at(final(costs)@, neighbour)
            + manhattan(goal, neighbour) && cost_at(final(costs)@, neighbour) == cost_at(
            old(costs)@,
            current,
        ) + 1,
{
    let ghost s = costs@;
    let ghost ps = parents@;
    let cur_t = tile_of(current);
    let n_t = tile_of(neighbour);
    proof {
        lemma_cost_bound(s, cur_t as int);
        lemma_point_tile(current);
        lemma_point_tile(neighbour);
        assert(cur_t != n_t) by {
            if cur_t == n_t {
                lemma_tile_index_injective(
                    tile_x(current),
                    tile_y(current),
                    tile_x(neighbour),
                    tile_y(neighbour),
                );
            }
        }
    }
    let cur_cost = costs[cur_t];
    let new_cost: i32 = cur_cost + 1;
    let old_cost = costs[n_t];
    if old_cost == -1 || new_cost < old_cost {
        proof {
            lemma_relax_cost(s, n_t as int, cur_t as int, cur_cost as int);
        }
        costs.set(n_t, new_cost);
        parents.set(n_t, current);
        let d = manhattan_distance(goal, neighbour);
        queue.push(Vertex { point: neighbour, cost: new_cost as i64 + d });
        let ghost u = costs@;
        let ghost pu = parents@;
        proof {
            assert(queue@.len() == old(queue)@.len() + 1);
            assert(queue@ != old(queue)@);
            assert(cost_at(u, neighbour) == new_cost);
            assert(cost_at(s, current) == cur_cost);
            assert forall|p: Point| in_grid(p) && aligned(p) && cost_at(u, p) >= 0 implies #[trigger] parent_ok(
                u,
                pu,
                start,
                p,
            ) by {
                lemma_point_tile(p);
                if point_index(p) == n_t {
                    lemma_aligned_same_tile(p, neighbour);
                    if current != start {
                        assert(cost_at(u, current) == cost_at(s, current));
                    }
                } else {
                    assert(parent_at(pu, p) == parent_at(ps, p));
                    assert(cost_at(s, p) >= 0);
                    assert(parent_ok(s, ps, start, p));
                    let q = parent_at(ps, p);
                    if q != start || !tiles_adjacent(start, p) {
                        lemma_point_tile(q);
                        if point_index(q) == n_t {
                            lemma_aligned_same_tile(q, neighbour);
                        }
                    }
                }
            }
            assert forall|i: int| 0 <= i < queue@.len() implies {
                let p = #[trigger] queue@[i].point;
                p == start || (in_grid(p) && aligned(p) && cost_at(u, p) >= 0)
            } by {
                if i < queue@.len() - 1 {
                    let p = queue@[i].point;
                    if p != start {
                        lemma_point_tile(p);
                    }
                }
            }
            assert forall|t: int| 0 <= t < NUM_TILES && #[trigger] s[t] >= 0 implies u[t] >= 0 by {
            }
        }
    }
}

/// A* search over the tiles of the arena from `start` to `goal`.
///
/// When `goal` is the start or the corner of a tile of the arena, the result is a route
/// from the start to the goal over corners of neighbouring tiles; otherwise the search
/// finds nothing and the result holds the single point (0, 0). On the open arena the route
/// is a shortest one: from any start to a tile corner outside the start's own tile, it takes
/// one point per tile step, plus one, so it never enters a tile twice.
#[verifier::rlimit(80)]
pub fn a_star(start: Point, goal: Point, maps: &Maps) -> (path: Vec<Point>)
    requires
        in_grid(start),
        is_standard_path_map(maps.path_map@),
    ensures
        goal_reachable(start, goal) ==> is_tile_path(path@, start, goal),
        !goal_reachable(start, goal) ==> path@ == seq![Point { x: 0, y: 0 }],
        aligned(start) && in_grid(goal) && aligned(goal) ==> path@.len() == manhattan(start, goal)
            / 4 + 1,
        in_grid(goal) && aligned(goal) && tile_dist(start, goal) > 0 ==> path@.len() == tile_dist(
            start,
            goal,
        ) + 1,
        in_grid(goal) && aligned(goal) && tile_dist(start, goal) > 0 ==> forall|i: int, j: int|
            0 <= i < j < path@.len() ==> tile_dist(#[trigger] path@[i], #[trigger] path@[j]) > 0,
{
    let ghost opt: bool = in_grid(goal) && aligned(goal) && tile_dist(start, goal) > 0;
    let mut queue: Vec<Vertex> = Vec::new();
    queue.push(Vertex { point: start, cost: 0 });
    let mut costs: Vec<i32> = Vec::new();
    let mut parents: Vec<Point> = Vec::new();
    let mut t: usize = 0;
    while t < NUM_TILES
        invariant
            t <= NUM_TILES,
            costs@.len() == t,
            parents@.len() == t,
            forall|i: int| 0 <= i < t ==> #[trigger] costs@[i] == -1,
        decreases NUM_TILES - t,
    {
        costs.push(-1);
        parents.push(Point { x: -1, y: -1 });
        t = t + 1;
    }
    proof {
        assert forall|i: int| 0 <= i < costs@.len() && costs@[i] >= 0 implies #[trigger] costs@[i]
            <= count_below(costs@, costs@[i] as int) by {
        }
        assert forall|p: Point| in_grid(p) && aligned(p) && cost_at(costs@, p) >= 0 implies #[trigger] parent_ok(
            costs@,
            parents@,
            start,
            p,
        ) by {
            lemma_point_tile(p);
        }
        assert(queue@[0].point == start);
        assert(queue_points(queue@).contains(start));
        assert forall|p: Point| in_grid(p) && aligned(p) && #[trigger] cost_at(costs@, p) >= 0 implies queue_points(
            queue@,
        ).contains(p) || Set::<Point>::empty().contains(p) by {
            lemma_point_tile(p);
        }
    }
    let ghost mut closed: Set<Point> = Set::empty();
    let ghost mut first: bool = true;
    assert(queue@ =~= seq![Vertex { point: start, cost: 0 }]);
    let mut current = start;
    let mut found = false;
    while queue.len() > 0
        invariant_except_break
            cost_table_inv(costs@),
            parents_inv(costs@, parents@, start),
            queue_inv(queue@, costs@, start),
            closed_inv(queue@, costs@, start, goal, closed),
            in_grid(start),
            is_standard_path_map(maps.path_map@),
            !found,
            opt == (in_grid(goal) && aligned(goal) && tile_dist(start, goal) > 0),
            first ==> queue@ == seq![Vertex { point: start, cost: 0 }] && closed == Set::<
                Point,
            >::empty() && (forall|t: int| 0 <= t < costs@.len() ==> #[trigger] costs@[t] == -1),
            opt && !first ==> order_inv(queue@, costs@, closed, start, goal),
        ensures
            cost_table_inv(costs@),
            parents_inv(costs@, parents@, start),
            found && opt ==> cost_at(costs@, goal) == tile_dist(start, goal) - 1,
            found ==> current == goal && (current == start || (in_grid(current) && aligned(current)
                && cost_at(costs@, current) >= 0)),
            !found ==> queue@.len() == 0 && closed_inv(queue@, costs@, start, goal, closed),
        decreases potential(costs@), queue@.len(),
    {
        let m = min_index(&queue);
        let ghost q0 = queue@;
        let v = queue.swap_remove(m);
        current = v.point;
        assert(q0[m as int].point == current);
        proof {
            if opt && !first {
                lemma_pop_best(q0, costs@, closed, start, goal, m as int);
            }
        }
        if current == goal {
            found = true;
            break;
        }
        proof {
            if current != start {
                lemma_point_tile(current);
            }
        }
        let neighbours = get_neighbours(&maps.path_map, current);
        proof {
            lemma_neighbour_corners(current);
        }
        let ghost c0 = costs@;
        let ghost q1 = queue@;
        proof {
            if opt {
                lemma_point_tile(start);
                assert(tile_dist(start, start) == 0);
                if !first && tile_dist(current, goal) == 0 {
                    lemma_zero_dist(current, goal);
                }
                assert(popped_best(q0, m as int, q1, c0, closed, start, goal, current, first));
                lemma_expand_start(q0, m as int, q1, c0, closed, start, goal, current, first);
            }
        }
        let mut k: usize = 0;
        while k < neighbours.len()
            invariant
                k <= neighbours@.len(),
                neighbours@ == neighbour_corners(current),
                cost_table_inv(costs@),
                parents_inv(costs@, parents@, start),
                queue_inv(queue@, costs@, start),
                in_grid(start),
                in_grid(current),
                current != goal,
                current == start || (aligned(current) && cost_at(costs@, current) >= 0),
                is_standard_path_map(maps.path_map@),
                forall|j: int| 0 <= j < k ==> cost_at(costs@, #[trigger] neighbours@[j]) >= 0,
                forall|t: int| 0 <= t < NUM_TILES && #[trigger] c0[t] >= 0 ==> costs@[t] >= 0,
                forall|p: Point| #[trigger] queue_points(q1).contains(p) ==> queue_points(queue@).contains(p),
                forall|p: Point|
                    in_grid(p) && aligned(p) && #[trigger] cost_at(costs@, p) >= 0 && cost_at(c0, p) < 0
                        ==> queue_points(queue@).contains(p),
                potential(costs@) <= potential(c0),
                queue@.len() > q1.len() ==> potential(costs@) < potential(c0),
                queue@.len() == q1.len() ==> costs@ == c0,
                queue@.len() >= q1.len(),
                q1.len() + 1 == q0.len(),
                opt ==> popped_best(q0, m as int, q1, c0, closed, start, goal, current, first),
                opt ==> expand_inv(q1, queue@, c0, costs@, start, goal, current, first, k as int),
            decreases neighbours@.len() - k,
        {
            let n = neighbours[k];
            let ghost cb = costs@;
            let ghost qb = queue@;
            relax(&mut costs, &mut parents, &mut queue, current, n, start, goal);
            proof {
                if opt {
                    lemma_relax_step(q1, qb, queue@, c0, cb, costs@, start, goal, current, first, k as int);
                }
                if queue@ != qb {
                    lemma_queue_points_push(qb, queue@.last());
                }
                assert forall|j: int| 0 <= j < k + 1 implies cost_at(costs@, #[trigger] neighbours@[j]) >= 0 by {
                    if j < k {
                        lemma_point_tile(neighbours@[j]);
                        assert(cb[point_index(neighbours@[j])] >= 0);
                    }
                }
                assert forall|t: int| 0 <= t < NUM_TILES && #[trigger] c0[t] >= 0 implies costs@[t] >= 0 by {
                    assert(cb[t] >= 0);
                }
                assert forall|p: Point|
                    in_grid(p) && aligned(p) && #[trigger] cost_at(costs@, p) >= 0 && cost_at(c0, p) < 0
                        implies queue_points(queue@).contains(p) by {
                    lemma_point_tile(p);
                    if cost_at(cb, p) >= 0 {
                        assert(queue_points(qb).contains(p));
                    } else {
                        lemma_point_tile(n);
                        lemma_aligned_same_tile(p, n);
                    }
                }
            }
            k = k + 1;
        }
        proof {
            let new_closed = closed.insert(current);
            assert forall|p: Point|
                in_grid(p) && aligned(p) && #[trigger] cost_at(costs@, p) >= 0 implies queue_points(
                    queue@,
                ).contains(p) || new_closed.contains(p) by {
                lemma_point_tile(p);
                if cost_at(c0, p) >= 0 {
                    if p != current && !closed.contains(p) {
                        assert(queue_points(q0).contains(p));
                        lemma_queue_points_remove(q0, m as int, p);
                    }
                }
            }
            if start != current && !closed.contains(start) {
                lemma_queue_points_remove(q0, m as int, start);
            }
            lemma_potential_nonneg(costs@);
            lemma_potential_nonneg(c0);
            assert forall|x: Point, j: int|
                new_closed.contains(x) && 0 <= j < neighbour_corners(x).len() implies cost_at(
                    costs@,
                    #[trigger] neighbour_corners(x)[j],
                ) >= 0 by {
                if x != current {
                    lemma_neighbour_corners(x);
                    lemma_point_tile(neighbour_corners(x)[j]);
                    assert(cost_at(c0, neighbour_corners(x)[j]) >= 0);
                }
            }
            if opt {
                lemma_expand_keeps_order(q0, m as int, q1, queue@, c0, costs@, closed, start, goal, current, first);
            }
            closed = new_closed;
            first = false;
        }
    }
    if !found {
        proof {
            lemma_search_exhausted(queue@, costs@, start, goal, closed);
        }
        let mut failed: Vec<Point> = Vec::new();
        failed.push(Point { x: 0, y: 0 });
        return failed;
    }
    // Walk back from the goal along the recorded predecessors.

    let mut reversed: Vec<Point> = Vec::new();
    while current != start
        invariant
            parents_inv(costs@, parents@, start),
            cost_table_inv(costs@),
            in_grid(start),
            current == start || (in_grid(current) && aligned(current) && cost_at(costs@, current)
                >= 0),
            reversed@.len() == 0 ==> current == goal,
            reversed@.len() > 0 ==> reversed@[0] == goal && tiles_adjacent(reversed@.last(), current),
            forall|i: int| 0 <= i < reversed@.len() ==> in_grid(#[trigger] reversed@[i]) && aligned(
                reversed@[i],
            ),
            forall|i: int|
                0 <= i < reversed@.len() - 1 ==> tiles_adjacent(#[trigger] reversed@[i], reversed@[i + 1]),
            opt == (in_grid(goal) && aligned(goal) && tile_dist(start, goal) > 0),
            opt && current != start ==> reversed@.len() + cost_at(costs@, current) <= tile_dist(
                start,
                goal,
            ) - 1,
            opt && current == start ==> reversed@.len() <= tile_dist(start, goal),
            start == goal ==> reversed@.len() == 0,
        decreases (if current == start {
            0int
        } else {
            cost_at(costs@, current) + 1
        }),
    {
        reversed.push(current);
        let t = tile_of(current);
        proof {
            assert(parent_ok(costs@, parents@, start, current));
        }
        current = parents[t];
        proof {
            if current != start {
                lemma_point_tile(current);
            }
            lemma_tiles_adjacent_symmetric(reversed@.last(), current);
        }
    }
    reversed.push(start);
    let mut path: Vec<Point> = Vec::new();
    let n = reversed.len();
    let mut i: usize = 0;
    while i < n
        invariant
            n == reversed@.len(),
            n >= 1,
            i <= n,
            path@.len() == i,
            forall|j: int| 0 <= j < i ==> #[trigger] path@[j] == reversed@[n - 1 - j],
        decreases n - i,
    {
        path.push(reversed[n - 1 - i]);
        i = i + 1;
    }
    proof {
        assert forall|j: int| 0 <= j < path@.len() - 1 implies tiles_adjacent(
            #[trigger] path@[j],
            path@[j + 1],
        ) by {
            let a = n - 1 - j;
            assert(path@[j] == reversed@[a]);
            assert(path@[j + 1] == reversed@[a - 1]);
            lemma_tiles_adjacent_symmetric(reversed@[a - 1], reversed@[a]);
        }
        assert forall|j: int| 1 <= j < path@.len() implies in_grid(#[trigger] path@[j]) && aligned(
            path@[j],
        ) by {
            assert(path@[j] == reversed@[n - 1 - j]);
        }
        if in_grid(goal) && aligned(goal) && tile_dist(start, goal) > 0 {
            assert(path@[0] == reversed@[n - 1]);
            assert(path@.last() == reversed@[0]);
            lemma_route_length(path@, goal);
            law_shortest_route_enters_each_tile_once(path@, goal);
        }
        if aligned(start) && in_grid(goal) && aligned(goal) {
            lemma_manhattan_corners(start, goal);
            if start != goal {
                lemma_zero_dist_ne(start, goal);
                assert(path@[0] == reversed@[n - 1]);
                assert(path@.last() == reversed@[0]);
                lemma_route_length(path@, goal);
            }
        }
    }
    path
}

/// Two tiles share a side whichever is named first.
pub proof fn lemma_tiles_adjacent_symmetric(a: Point, b: Point)
    ensures
        tiles_adjacent(a, b) == tiles_adjacent(b, a),
{
}

/// The expanded corners once the work list is empty: the corner of any tile next to an
/// expanded corner has been expanded too.
spec fn closed_spreads(closed: Set<Point>, costs: Seq<i32>) -> bool {
    &&& forall|x: Point, k: int|
        closed.contains(x) && 0 <= k < neighbour_corners(x).len() ==> cost_at(
            costs,
            #[trigger] neighbour_corners(x)[k],
        ) >= 0
    &&& forall|p: Point| in_grid(p) && aligned(p) && #[trigger] cost_at(costs, p) >= 0 ==> closed.contains(p)
}

proof fn lemma_closed_step(closed: Set<Point>, costs: Seq<i32>, tx: int, ty: int, ux: int, uy: int)
    requires
        closed_spreads(closed, costs),
        0 <= tx < GRID_WIDTH,
        0 <= ty < GRID_HEIGHT,
        0 <= ux < GRID_WIDTH,
        0 <= uy < GRID_HEIGHT,
        vstd::math::abs(tx - ux) + vstd::math::abs(ty - uy) == 1,
        closed.contains(tile_corner(tx, ty)),
    ensures
        closed.contains(tile_corner(ux, uy)),
{
    let c = tile_corner(tx, ty);
    lemma_corner_tile(tx, ty);
    lemma_corner_tile(ux, uy);
    let ns = neighbour_corners(c);
    let l: int = if tx > 0 { 1 } else { 0 };
    let u: int = if ty < GRID_HEIGHT - 1 { 1 } else { 0 };
    let r: int = if tx < GRID_WIDTH - 1 { 1 } else { 0 };
    let k: int = if ux == tx - 1 {
        0
    } else if uy == ty + 1 {
        l
    } else if ux == tx + 1 {
        l + u
    } else {
        l + u + r
    };
    assert(ns[k] == tile_corner(ux, uy));
    assert(cost_at(costs, ns[k]) >= 0);
}

proof fn lemma_walk_row(closed: Set<Point>, costs: Seq<i32>, y: int, a: int, b: int)
    requires
        closed_spreads(closed, costs),
        0 <= y < GRID_HEIGHT,
        0 <= a < GRID_WIDTH,
        0 <= b < GRID_WIDTH,
        closed.contains(tile_corner(a, y)),
    ensures
        closed.contains(tile_corner(b, y)),
    decreases vstd::math::abs(b - a),
{
    if a < b {
        lemma_closed_step(closed, costs, a, y, a + 1, y);
        lemma_walk_row(closed, costs, y, a + 1, b);
    } else if a > b {
        lemma_closed_step(closed, costs, a, y, a - 1, y);
        lemma_walk_row(closed, costs, y, a - 1, b);
    }
}

proof fn lemma_walk_column(closed: Set<Point>, costs: Seq<i32>, x: int, a: int, b: int)
    requires
        closed_spreads(closed, costs),
        0 <= x < GRID_WIDTH,
        0 <= a < GRID_HEIGHT,
        0 <= b < GRID_HEIGHT,
        closed.contains(tile_corner(x, a)),
    ensures
        closed.contains(tile_corner(x, b)),
    decreases vstd::math::abs(b - a),
{
    if a < b {
        lemma_closed_step(closed, costs, x, a, x, a + 1);
        lemma_walk_column(closed, costs, x, a + 1, b);
    } else if a > b {
        lemma_closed_step(closed, costs, x, a, x, a - 1);
        lemma_walk_column(closed, costs, x, a - 1, b);
    }
}

/// When the work list runs empty, the goal is not the corner of any tile of the arena and
/// not the start.
proof fn lemma_search_exhausted(
    queue: Seq<Vertex>,
    costs: Seq<i32>,
    start: Point,
    goal: Point,
    closed: Set<Point>,
)
    requires
        queue.len() == 0,
        closed_inv(queue, costs, start, goal, closed),
        in_grid(start),
        cost_table_inv(costs),
    ensures
        !goal_reachable(start, goal),
{
    assert(!queue_points(queue).contains(start));
    assert(closed.contains(start));
    assert forall|p: Point| in_grid(p) && aligned(p) && #[trigger] cost_at(costs, p) >= 0 implies closed.contains(p) by {
        assert(!queue_points(queue).contains(p));
    }
    if goal_reachable(start, goal) {
        assert(goal != start);
        lemma_point_tile(start);
        lemma_neighbour_corners(start);
        // a tile next to the start's has been expanded
        let sx = tile_x(start);
        let sy = tile_y(start);
        let ns = neighbour_corners(start);
        assert(ns.len() > 0) by {
            if sx > 0 {
                assert(ns[0] == tile_corner(sx - 1, sy));
            } else {
                assert(sx < GRID_WIDTH - 1);
            }
        }
        let n0 = ns[0];
        assert(cost_at(costs, n0) >= 0);
        assert(closed.contains(n0));
        lemma_point_tile(n0);
        lemma_point_tile(goal);
        let ax = tile_x(n0);
        let ay = tile_y(n0);
        let gx = tile_x(goal);
        let gy = tile_y(goal);
        assert(tile_corner(ax, ay) == n0);
        lemma_walk_row(closed, costs, ay, ax, gx);
        lemma_walk_column(closed, costs, gx, ay, gy);
        assert(tile_corner(gx, gy) == goal);
    }
}

/// Number of tile steps between the tiles of two points.
pub open spec fn tile_dist(a: Point, b: Point) -> int {
    (vstd::math::abs(tile_x(a) - tile_x(b)) + vstd::math::abs(tile_y(a) - tile_y(b))) as int
}

/// The point's tile lies on some shortest tile route from the start's tile to the goal's.
spec fn in_box(p: Point, start: Point, goal: Point) -> bool {
    tile_dist(start, p) + tile_dist(p, goal) == tile_dist(start, goal)
}

/// A work list entry for a point on a shortest route, queued with its fewest steps.
spec fn opt_entry(e: Vertex, start: Point, goal: Point) -> bool {
    &&& in_grid(e.point)
    &&& aligned(e.point)
    &&& in_box(e.point, start, goal)
    &&& e.cost == tile_dist(start, e.point) - 1 + 4 * tile_dist(e.point, goal)
}

/// A work list entry queued after the first expansion: its priority is at least the known
/// cost of its point, and at least the fewest steps to it, plus four times its tile steps to
/// the goal.
spec fn entry_ok(e: Vertex, costs: Seq<i32>, start: Point, goal: Point) -> bool {
    &&& in_grid(e.point)
    &&& aligned(e.point)
    &&& 0 <= cost_at(costs, e.point)
    &&& cost_at(costs, e.point) + 4 * tile_dist(e.point, goal) <= e.cost
    &&& tile_dist(start, e.point) - 1 + 4 * tile_dist(e.point, goal) <= e.cost
}

/// Known costs are never below the fewest steps less one (the start's own tile counts -1).
spec fn costs_lower_bound(costs: Seq<i32>, start: Point) -> bool {
    forall|p: Point|
        in_grid(p) && aligned(p) && #[trigger] cost_at(costs, p) >= 0 ==> cost_at(costs, p)
            >= tile_dist(start, p) - 1
}

/// What makes the search expand points on shortest routes only, when start and goal are
/// tile corners: expanded points lie on shortest routes, the tiles they lead toward the goal
/// have their fewest steps, and every such point not yet expanded waits with its best entry.
spec fn order_core(
    queue: Seq<Vertex>,
    costs: Seq<i32>,
    closed: Set<Point>,
    start: Point,
    goal: Point,
) -> bool {
    &&& costs_lower_bound(costs, start)
    &&& forall|i: int| 0 <= i < queue.len() ==> entry_ok(#[trigger] queue[i], costs, start, goal)
    &&& forall|p: Point|
        in_grid(p) && aligned(p) && tile_dist(start, p) > 0 && in_box(p, start, goal)
            && #[trigger] cost_at(costs, p) == tile_dist(start, p) - 1 && !closed.contains(p)
            ==> exists|i: int|
            0 <= i < queue.len() && #[trigger] queue[i].point == p && opt_entry(queue[i], start, goal)
    &&& forall|x: Point| #[trigger] closed.contains(x) ==> in_box(x, start, goal) && in_grid(x)
        && tile_dist(x, goal) > 0
    &&& forall|x: Point, k: int|
        closed.contains(x) && 0 <= k < neighbour_corners(x).len() && tile_dist(
            #[trigger] neighbour_corners(x)[k],
            goal,
        ) == tile_dist(x, goal) - 1 ==> cost_at(costs, neighbour_corners(x)[k]) == tile_dist(
            start,
            neighbour_corners(x)[k],
        ) - 1
}

/// Entry `i` is a best entry that every entry not of its kind exceeds.
spec fn undercuts(queue: Seq<Vertex>, i: int, start: Point, goal: Point) -> bool {
    &&& 0 <= i < queue.len()
    &&& opt_entry(queue[i], start, goal)
    &&& forall|j: int|
        0 <= j < queue.len() && !opt_entry(#[trigger] queue[j], start, goal) ==> queue[j].cost
            > queue[i].cost
}

/// The search order's invariant, with a best entry that undercuts all others.
spec fn order_inv(
    queue: Seq<Vertex>,
    costs: Seq<i32>,
    closed: Set<Point>,
    start: Point,
    goal: Point,
) -> bool {
    &&& order_core(queue, costs, closed, start, goal)
    &&& exists|i: int| #[trigger] undercuts(queue, i, start, goal)
}

/// The pixel distance between tile corners is four times their tile steps.
proof fn lemma_manhattan_corners(a: Point, b: Point)
    requires
        aligned(a),
        aligned(b),
    ensures
        manhattan(a, b) == 4 * tile_dist(a, b),
        manhattan(b, a) == 4 * tile_dist(a, b),
{
    assert(a.x == 4 * tile_x(a));
    assert(a.y == 4 * tile_y(a));
    assert(b.x == 4 * tile_x(b));
    assert(b.y == 4 * tile_y(b));
}

/// A point on a shortest route that is not the goal has a neighbouring corner one step
/// closer to the goal.
proof fn lemma_toward_neighbour(x: Point, start: Point, goal: Point) -> (k: int)
    requires
        in_grid(x),
        in_grid(goal),
        tile_dist(x, goal) > 0,
    ensures
        0 <= k < neighbour_corners(x).len(),
        tile_dist(neighbour_corners(x)[k], goal) == tile_dist(x, goal) - 1,
{
    lemma_point_tile(x);
    lemma_point_tile(goal);
    lemma_neighbour_corners(x);
    let tx = tile_x(x);
    let ty = tile_y(x);
    let gx = tile_x(goal);
    let gy = tile_y(goal);
    let ns = neighbour_corners(x);
    let left = if tx > 0 { seq![tile_corner(tx - 1, ty)] } else { Seq::<Point>::empty() };
    let up = if ty < GRID_HEIGHT - 1 { seq![tile_corner(tx, ty + 1)] } else { Seq::<Point>::empty() };
    let right = if tx < GRID_WIDTH - 1 { seq![tile_corner(tx + 1, ty)] } else { Seq::<Point>::empty() };
    let down = if ty > 0 { seq![tile_corner(tx, ty - 1)] } else { Seq::<Point>::empty() };
    assert(ns == left + up + right + down);
    if gx < tx {
        lemma_corner_tile(tx - 1, ty);
        assert(ns[0] == tile_corner(tx - 1, ty));
        0
    } else if gy > ty {
        lemma_corner_tile(tx, ty + 1);
        assert(ns[left.len() as int] == tile_corner(tx, ty + 1));
        left.len() as int
    } else if gx > tx {
        lemma_corner_tile(tx + 1, ty);
        assert(ns[(left.len() + up.len()) as int] == tile_corner(tx + 1, ty));
        (left.len() + up.len()) as int
    } else {
        lemma_corner_tile(tx, ty - 1);
        assert(ns[(left.len() + up.len() + right.len()) as int] == tile_corner(tx, ty - 1));
        (left.len() + up.len() + right.len()) as int
    }
}

/// An expanded point leaves a best entry in the work list at most three below its own
/// best priority (its route toward the goal waits there, one or more steps further on).
proof fn lemma_frontier(
    queue: Seq<Vertex>,
    costs: Seq<i32>,
    closed: Set<Point>,
    start: Point,
    goal: Point,
    x: Point,
) -> (i: int)
    requires
        order_core(queue, costs, closed, start, goal),
        closed.contains(x),
        in_grid(goal),
        aligned(goal),
        in_grid(start),
    ensures
        0 <= i < queue.len(),
        opt_entry(queue[i], start, goal),
        queue[i].cost <= tile_dist(start, goal) - 1 + 3 * (tile_dist(x, goal) - 1),
    decreases tile_dist(x, goal),
{
    assert(in_box(x, start, goal) && in_grid(x) && tile_dist(x, goal) > 0);
    let k = lemma_toward_neighbour(x, start, goal);
    lemma_neighbour_corners(x);
    let n = neighbour_corners(x)[k];
    assert(in_grid(n) && aligned(n) && tiles_adjacent(x, n));
    assert(cost_at(costs, n) == tile_dist(start, n) - 1);
    assert(in_box(n, start, goal));
    assert(tile_dist(start, n) > 0);
    if closed.contains(n) {
        lemma_frontier(queue, costs, closed, start, goal, n)
    } else {
        let i = choose|i: int| 0 <= i < queue.len() && #[trigger] queue[i].point == n && opt_entry(
            queue[i],
            start,
            goal,
        );
        i
    }
}

/// A tile route from the start to the goal has at least one point per tile step, plus one.
proof fn lemma_route_length(path: Seq<Point>, goal: Point)
    requires
        path.len() >= 1,
        path.last() == goal,
        forall|i: int| 0 <= i < path.len() - 1 ==> tiles_adjacent(#[trigger] path[i], path[i + 1]),
    ensures
        path.len() >= tile_dist(path[0], goal) + 1,
    decreases path.len(),
{
    if path.len() > 1 {
        let rest = path.subrange(1, path.len() as int);
        assert forall|i: int| 0 <= i < rest.len() - 1 implies tiles_adjacent(
            #[trigger] rest[i],
            rest[i + 1],
        ) by {
            assert(rest[i] == path[i + 1]);
            assert(rest[i + 1] == path[i + 2]);
        }
        lemma_route_length(rest, goal);
        assert(tiles_adjacent(path[0], path[1]));
    }
}

/// Tile steps obey the triangle inequality.
proof fn lemma_tile_triangle(a: Point, b: Point, c: Point)
    ensures
        tile_dist(a, c) <= tile_dist(a, b) + tile_dist(b, c),
        tile_dist(a, b) == tile_dist(b, a),
{
}

/// Tile steps change by one across neighbouring tiles.
proof fn lemma_adjacent_dist(a: Point, b: Point, c: Point)
    requires
        tiles_adjacent(a, b),
    ensures
        tile_dist(b, c) == tile_dist(a, c) + 1 || tile_dist(b, c) == tile_dist(a, c) - 1,
{
}

/// A tile route reaches no further than one tile step per step taken.
proof fn lemma_steps_bound(path: Seq<Point>, i: int)
    requires
        0 <= i < path.len(),
        forall|j: int| 0 <= j < path.len() - 1 ==> tiles_adjacent(#[trigger] path[j], path[j + 1]),
    ensures
        tile_dist(path[0], path[i]) <= i,
    decreases i,
{
    if i > 0 {
        lemma_steps_bound(path, i - 1);
        assert(tiles_adjacent(path[i - 1], path[i]));
        lemma_tile_triangle(path[0], path[i - 1], path[i]);
    } else {
        lemma_tile_triangle(path[0], path[0], path[0]);
    }
}

/// A tile route to `goal` with one point per tile step between its ends, plus one, gets one
/// step nearer to the goal at every step, so it never enters a tile twice.
pub proof fn law_shortest_route_enters_each_tile_once(path: Seq<Point>, goal: Point)
    requires
        path.len() >= 1,
        path.last() == goal,
        forall|j: int| 0 <= j < path.len() - 1 ==> tiles_adjacent(#[trigger] path[j], path[j + 1]),
        path.len() == tile_dist(path[0], goal) + 1,
    ensures
        forall|i: int| 0 <= i < path.len() ==> #[trigger] tile_dist(path[i], goal) == path.len() - 1 - i,
        forall|i: int, j: int| 0 <= i < j < path.len() ==> tile_dist(#[trigger] path[i], #[trigger] path[j]) > 0,
{
    assert forall|i: int| 0 <= i < path.len() implies #[trigger] tile_dist(path[i], goal) == path.len() - 1 - i by {
        let rest = path.subrange(i, path.len() as int);
        assert forall|j: int| 0 <= j < rest.len() - 1 implies tiles_adjacent(
            #[trigger] rest[j],
            rest[j + 1],
        ) by {
            assert(rest[j] == path[i + j]);
            assert(rest[j + 1] == path[i + j + 1]);
        }
        assert(rest[0] == path[i]);
        assert(rest.last() == goal);
        lemma_route_length(rest, goal);
        lemma_steps_bound(path, i);
        lemma_tile_triangle(path[0], path[i], goal);
    }
    assert forall|i: int, j: int| 0 <= i < j < path.len() implies tile_dist(#[trigger] path[i], #[trigger] path[j]) > 0 by {
        assert(tile_dist(path[i], goal) == path.len() - 1 - i);
        assert(tile_dist(path[j], goal) == path.len() - 1 - j);
    }
}

/// Two different tile corners are at least one tile step apart.
proof fn lemma_zero_dist_ne(a: Point, b: Point)
    requires
        in_grid(a),
        in_grid(b),
        aligned(a),
        aligned(b),
        a != b,
    ensures
        tile_dist(a, b) > 0,
{
    if tile_dist(a, b) == 0 {
        lemma_zero_dist(a, b);
    }
}

/// Two tile corners with no tile step between them are the same point.
proof fn lemma_zero_dist(a: Point, b: Point)
    requires
        in_grid(a),
        in_grid(b),
        aligned(a),
        aligned(b),
        tile_dist(a, b) == 0,
    ensures
        a == b,
{
    lemma_point_tile(a);
    lemma_point_tile(b);
}

/// Expanding the best entry keeps the search order's invariant.
proof fn lemma_expand_keeps_order(
    q0: Seq<Vertex>,
    m: int,
    q1: Seq<Vertex>,
    qf: Seq<Vertex>,
    c0: Seq<i32>,
    cf: Seq<i32>,
    closed: Set<Point>,
    start: Point,
    goal: Point,
    current: Point,
    first: bool,
)
    requires
        in_grid(start),
        in_grid(goal),
        aligned(goal),
        tile_dist(start, goal) > 0,
        0 <= m < q0.len(),
        q1 == q0.update(m, q0.last()).drop_last(),
        q0[m].point == current,
        forall|i: int| 0 <= i < q0.len() ==> q0[m].cost <= #[trigger] q0[i].cost,
        tile_dist(current, goal) > 0,
        in_grid(current),
        in_box(current, start, goal),
        first ==> q0 == seq![Vertex { point: start, cost: 0 }] && closed == Set::<Point>::empty()
            && current == start && (forall|t: int| 0 <= t < c0.len() ==> #[trigger] c0[t] == -1),
        !first ==> order_inv(q0, c0, closed, start, goal) && opt_entry(q0[m], start, goal),
        c0.len() == NUM_TILES,
        cf.len() == NUM_TILES,
        costs_lower_bound(cf, start),
        forall|p: Point|
            in_grid(p) && aligned(p) && #[trigger] cost_at(c0, p) >= 0 ==> cost_at(cf, p) <= cost_at(
                c0,
                p,
            ),
        qf.len() >= q1.len(),
        qf.subrange(0, q1.len() as int) == q1,
        forall|j: int|
            q1.len() <= j < qf.len() ==> opt_entry(#[trigger] qf[j], start, goal) || qf[j].cost
                == tile_dist(start, current) + 4 * (tile_dist(current, goal) + 1),
        forall|j: int|
            0 <= j < qf.len() && (j >= q1.len() || !first) ==> entry_ok(
                #[trigger] qf[j],
                cf,
                start,
                goal,
            ),
        forall|p: Point|
            in_grid(p) && aligned(p) && #[trigger] cost_at(cf, p) != cost_at(c0, p) ==> exists|j: int|
                q1.len() <= j < qf.len() && #[trigger] qf[j].point == p && qf[j].cost == cost_at(
                    cf,
                    p,
                ) + 4 * tile_dist(p, goal),
        forall|k: int|
            0 <= k < neighbour_corners(current).len() ==> 0 <= cost_at(
                cf,
                #[trigger] neighbour_corners(current)[k],
            ) <= tile_dist(start, current),
    ensures
        order_inv(qf, cf, closed.insert(current), start, goal),
{
    let closed2 = closed.insert(current);
    let len1 = q1.len();
    assert forall|j: int| 0 <= j < len1 implies #[trigger] qf[j] == q1[j] by {
        assert(qf.subrange(0, len1 as int)[j] == qf[j]);
    }
    lemma_neighbour_corners(current);
    // entries
    assert forall|i: int| 0 <= i < qf.len() implies entry_ok(#[trigger] qf[i], cf, start, goal) by {
        if first {
            assert(q1.len() == 0);
        }
    }
    // points with their fewest steps wait with a best entry
    assert forall|p: Point|
        in_grid(p) && aligned(p) && tile_dist(start, p) > 0 && in_box(p, start, goal)
            && #[trigger] cost_at(cf, p) == tile_dist(start, p) - 1 && !closed2.contains(p) implies exists|i: int|
        0 <= i < qf.len() && #[trigger] qf[i].point == p && opt_entry(qf[i], start, goal) by {
        if cost_at(cf, p) != cost_at(c0, p) {
            let j = choose|j: int|
                q1.len() <= j < qf.len() && #[trigger] qf[j].point == p && qf[j].cost == cost_at(
                    cf,
                    p,
                ) + 4 * tile_dist(p, goal);
            assert(opt_entry(qf[j], start, goal));
        } else if first {
            lemma_point_tile(p);
            assert(c0[point_index(p)] == -1);
        } else {
            let i = choose|i: int|
                0 <= i < q0.len() && #[trigger] q0[i].point == p && opt_entry(q0[i], start, goal);
            assert(i != m);
            let last = q0.len() - 1;
            if i == last {
                assert(q1[m] == q0[i]);
                assert(qf[m] == q1[m]);
            } else {
                assert(q1[i] == q0[i]);
                assert(qf[i] == q1[i]);
            }
        }
    }
    // expanded points
    assert forall|x: Point| #[trigger] closed2.contains(x) implies in_box(x, start, goal) && in_grid(x)
        && tile_dist(x, goal) > 0 by {
        if x != current {
            assert(closed.contains(x));
        }
    }
    // the tiles toward the goal have their fewest steps
    assert forall|x: Point, k: int|
        closed2.contains(x) && 0 <= k < neighbour_corners(x).len() && tile_dist(
            #[trigger] neighbour_corners(x)[k],
            goal,
        ) == tile_dist(x, goal) - 1 implies cost_at(cf, neighbour_corners(x)[k]) == tile_dist(
        start,
        neighbour_corners(x)[k],
    ) - 1 by {
        lemma_neighbour_corners(x);
        let n = neighbour_corners(x)[k];
        lemma_tile_triangle(start, n, goal);
        lemma_tile_triangle(start, x, n);
        lemma_tile_triangle(x, n, n);
        assert(tiles_adjacent(x, n));
        if x == current {
            assert(0 <= cost_at(cf, n));
        } else {
            assert(closed.contains(x));
            assert(cost_at(c0, n) == tile_dist(start, n) - 1);
        }
    }
    assert(order_core(qf, cf, closed2, start, goal));
    // a best entry undercuts the rest
    let b = lemma_frontier(qf, cf, closed2, start, goal, current);
    assert forall|j: int| 0 <= j < qf.len() && !opt_entry(#[trigger] qf[j], start, goal) implies qf[j].cost
        > qf[b].cost by {
        if j < len1 {
            assert(!first);
            let ib = choose|ib: int| #[trigger] undercuts(q0, ib, start, goal);
            let last = q0.len() - 1;
            if j == m {
                assert(q1[j] == q0[last]);
                assert(!opt_entry(q0[last], start, goal));
                assert(q0[last].cost > q0[ib].cost);
            } else {
                assert(q1[j] == q0[j]);
                assert(!opt_entry(q0[j], start, goal));
                assert(q0[j].cost > q0[ib].cost);
            }
        }
    }
    assert(undercuts(qf, b, start, goal));
}

/// What the expansion of `current` keeps while it relaxes the first `k` neighbouring
/// corners: the entries queued so far are best entries or lead away from the goal, and every
/// cost it changed has an entry with that cost.
spec fn expand_inv(
    q1: Seq<Vertex>,
    q: Seq<Vertex>,
    c0: Seq<i32>,
    c: Seq<i32>,
    start: Point,
    goal: Point,
    current: Point,
    first: bool,
    k: int,
) -> bool {
    &&& c.len() == NUM_TILES
    &&& costs_lower_bound(c, start)
    &&& forall|p: Point|
        in_grid(p) && aligned(p) && #[trigger] cost_at(c0, p) >= 0 ==> 0 <= cost_at(c, p) <= cost_at(
            c0,
            p,
        )
    &&& q.len() >= q1.len()
    &&& q.subrange(0, q1.len() as int) == q1
    &&& forall|j: int|
        q1.len() <= j < q.len() ==> opt_entry(#[trigger] q[j], start, goal) || q[j].cost
            == tile_dist(start, current) + 4 * (tile_dist(current, goal) + 1)
    &&& forall|j: int|
        0 <= j < q.len() && (j >= q1.len() || !first) ==> entry_ok(#[trigger] q[j], c, start, goal)
    &&& forall|p: Point|
        in_grid(p) && aligned(p) && #[trigger] cost_at(c, p) != cost_at(c0, p) ==> exists|j: int|
            q1.len() <= j < q.len() && #[trigger] q[j].point == p && q[j].cost == cost_at(c, p) + 4
                * tile_dist(p, goal)
    &&& forall|j: int|
        0 <= j < k ==> 0 <= cost_at(c, #[trigger] neighbour_corners(current)[j]) <= tile_dist(
            start,
            current,
        )
    &&& cost_at(c, current) == tile_dist(start, current) - 1
}

/// Relaxing one more neighbouring corner keeps the expansion's invariant.
proof fn lemma_relax_step(
    q1: Seq<Vertex>,
    qb: Seq<Vertex>,
    qa: Seq<Vertex>,
    c0: Seq<i32>,
    cb: Seq<i32>,
    ca: Seq<i32>,
    start: Point,
    goal: Point,
    current: Point,
    first: bool,
    k: int,
)
    requires
        expand_inv(q1, qb, c0, cb, start, goal, current, first, k),
        0 <= k < neighbour_corners(current).len(),
        in_grid(current),
        in_box(current, start, goal),
        aligned(goal),
        ca.len() == NUM_TILES,
        ({
            let n = neighbour_corners(current)[k];
            &&& in_grid(n)
            &&& aligned(n)
            &&& tiles_adjacent(current, n)
            &&& cost_at(ca, n) >= 0
            &&& cost_at(ca, current) == cost_at(cb, current)
            &&& forall|t: int|
                0 <= t < NUM_TILES && t != point_index(n) ==> #[trigger] ca[t] == cb[t]
            &&& cost_at(ca, n) <= cost_at(cb, current) + 1
            &&& cost_at(cb, n) >= 0 ==> cost_at(ca, n) <= cost_at(cb, n)
            &&& qa == qb || (qa == qb.push(qa.last()) && qa.last().point == n)
            &&& qa == qb ==> ca == cb
            &&& qa != qb ==> qa.last().cost == cost_at(ca, n) + manhattan(goal, n) && cost_at(ca, n)
                == cost_at(cb, current) + 1
        }),
    ensures
        expand_inv(q1, qa, c0, ca, start, goal, current, first, k + 1),
{
    let n = neighbour_corners(current)[k];
    lemma_point_tile(n);
    lemma_point_tile(current);
    lemma_manhattan_corners(n, goal);
    lemma_tile_triangle(start, current, n);
    lemma_tile_triangle(start, n, current);
    lemma_tile_triangle(current, n, goal);
    lemma_tile_triangle(n, current, goal);
    lemma_tile_triangle(start, n, goal);
    lemma_adjacent_dist(current, n, goal);
    lemma_adjacent_dist(current, n, start);
    lemma_tile_triangle(n, start, start);
    lemma_tile_triangle(current, start, start);
    // costs differ from `cb` at `n`'s tile only
    assert forall|p: Point| in_grid(p) && aligned(p) && point_index(p) != point_index(n) implies #[trigger] cost_at(
        ca,
        p,
    ) == cost_at(cb, p) by {
        lemma_point_tile(p);
    }
    assert forall|p: Point| in_grid(p) && aligned(p) && point_index(p) == point_index(n) implies p == n by {
        lemma_point_tile(p);
        lemma_aligned_same_tile(p, n);
    }
    assert(costs_lower_bound(ca, start)) by {
        assert forall|p: Point| in_grid(p) && aligned(p) && #[trigger] cost_at(ca, p) >= 0 implies cost_at(
            ca,
            p,
        ) >= tile_dist(start, p) - 1 by {
            lemma_point_tile(p);
            if point_index(p) == point_index(n) {
                assert(p == n);
                if qa != qb {
                } else {
                    assert(cost_at(cb, p) >= 0);
                }
            } else {
                assert(cost_at(cb, p) >= 0);
            }
        }
    }
    assert forall|p: Point| in_grid(p) && aligned(p) && #[trigger] cost_at(c0, p) >= 0 implies 0 <= cost_at(
        ca,
        p,
    ) <= cost_at(c0, p) by {
        lemma_point_tile(p);
        if point_index(p) == point_index(n) {
            assert(p == n);
        }
    }
    assert(qa.subrange(0, q1.len() as int) == q1) by {
        if qa != qb {
            assert(qa.subrange(0, q1.len() as int) =~= qb.subrange(0, q1.len() as int));
        }
    }
    assert forall|j: int| q1.len() <= j < qa.len() implies opt_entry(#[trigger] qa[j], start, goal)
        || qa[j].cost == tile_dist(start, current) + 4 * (tile_dist(current, goal) + 1) by {
        if qa != qb && j == qa.len() - 1 {
            if tile_dist(n, goal) == tile_dist(current, goal) - 1 {
                assert(opt_entry(qa[j], start, goal));
            }
        } else {
            assert(qa[j] == qb[j]);
        }
    }
    assert forall|j: int| 0 <= j < qa.len() && (j >= q1.len() || !first) implies entry_ok(
        #[trigger] qa[j],
        ca,
        start,
        goal,
    ) by {
        if qa != qb && j == qa.len() - 1 {
        } else {
            assert(qa[j] == qb[j]);
            let p = qb[j].point;
            assert(entry_ok(qb[j], cb, start, goal));
            lemma_point_tile(p);
            if point_index(p) == point_index(n) {
                assert(p == n);
            }
        }
    }
    assert forall|p: Point| in_grid(p) && aligned(p) && #[trigger] cost_at(ca, p) != cost_at(c0, p) implies exists|j: int|
        q1.len() <= j < qa.len() && #[trigger] qa[j].point == p && qa[j].cost == cost_at(ca, p) + 4
            * tile_dist(p, goal) by {
        lemma_point_tile(p);
        if point_index(p) == point_index(n) && qa != qb {
            assert(p == n);
            let j = qa.len() - 1;
            assert(qa[j].point == p);
        } else {
            assert(cost_at(ca, p) == cost_at(cb, p));
            let j = choose|j: int|
                q1.len() <= j < qb.len() && #[trigger] qb[j].point == p && qb[j].cost == cost_at(
                    cb,
                    p,
                ) + 4 * tile_dist(p, goal);
            assert(qa[j] == qb[j]);
        }
    }
    assert forall|j: int| 0 <= j < k + 1 implies 0 <= cost_at(
        ca,
        #[trigger] neighbour_corners(current)[j],
    ) <= tile_dist(start, current) by {
        if j < k {
            let p = neighbour_corners(current)[j];
            lemma_neighbour_corners(current);
            lemma_point_tile(p);
            if point_index(p) == point_index(n) {
                assert(p == n);
            }
        }
    }
}


/// The state right after the search took its best entry, when start and goal are distinct
/// tile corners: the taken entry was a cheapest one, its point lies on a shortest route and is
/// not the goal, and either it was the start's first entry or the search order held before.
spec fn popped_best(
    q0: Seq<Vertex>,
    m: int,
    q1: Seq<Vertex>,
    c0: Seq<i32>,
    closed: Set<Point>,
    start: Point,
    goal: Point,
    current: Point,
    first: bool,
) -> bool {
    &&& in_grid(start)
    &&& in_grid(goal)
    &&& aligned(goal)
    &&& tile_dist(start, goal) > 0
    &&& 0 <= m < q0.len()
    &&& q1 == q0.update(m, q0.last()).drop_last()
    &&& q0[m].point == current
    &&& forall|i: int| 0 <= i < q0.len() ==> q0[m].cost <= #[trigger] q0[i].cost
    &&& tile_dist(current, goal) > 0
    &&& in_grid(current)
    &&& in_box(current, start, goal)
    &&& first ==> q0 == seq![Vertex { point: start, cost: 0 }] && closed == Set::<Point>::empty()
        && current == start && (forall|t: int| 0 <= t < c0.len() ==> #[trigger] c0[t] == -1)
    &&& !first ==> order_inv(q0, c0, closed, start, goal) && opt_entry(q0[m], start, goal)
    &&& c0.len() == NUM_TILES
}

/// A cheapest entry of a work list in search order is a best entry, for a point other than
/// the start that already has its fewest steps.
proof fn lemma_pop_best(
    q0: Seq<Vertex>,
    c0: Seq<i32>,
    closed: Set<Point>,
    start: Point,
    goal: Point,
    m: int,
)
    requires
        order_inv(q0, c0, closed, start, goal),
        0 <= m < q0.len(),
        forall|i: int| 0 <= i < q0.len() ==> q0[m].cost <= #[trigger] q0[i].cost,
    ensures
        opt_entry(q0[m], start, goal),
        tile_dist(start, q0[m].point) > 0,
        cost_at(c0, q0[m].point) == tile_dist(start, q0[m].point) - 1,
{
    let ib = choose|ib: int| #[trigger] undercuts(q0, ib, start, goal);
    if !opt_entry(q0[m], start, goal) {
        assert(q0[m].cost > q0[ib].cost);
        assert(q0[m].cost <= q0[ib].cost);
    }
    assert(entry_ok(q0[m], c0, start, goal));
    let p = q0[m].point;
    assert(tile_dist(start, start) == 0);
}

/// Before the first neighbouring corner is relaxed, the expansion's invariant holds.
proof fn lemma_expand_start(
    q0: Seq<Vertex>,
    m: int,
    q1: Seq<Vertex>,
    c0: Seq<i32>,
    closed: Set<Point>,
    start: Point,
    goal: Point,
    current: Point,
    first: bool,
)
    requires
        popped_best(q0, m, q1, c0, closed, start, goal, current, first),
        !first ==> cost_at(c0, current) == tile_dist(start, current) - 1,
    ensures
        expand_inv(q1, q1, c0, c0, start, goal, current, first, 0),
{
    assert(q1.subrange(0, q1.len() as int) =~= q1);
    lemma_point_tile(start);
    if first {
        assert forall|p: Point| in_grid(p) && aligned(p) && #[trigger] cost_at(c0, p) >= 0 implies cost_at(
            c0,
            p,
        ) >= tile_dist(start, p) - 1 by {
            lemma_point_tile(p);
        }
        assert(cost_at(c0, current) == -1);
        assert(tile_dist(start, start) == 0);
    } else {
        assert forall|j: int| 0 <= j < q1.len() implies entry_ok(#[trigger] q1[j], c0, start, goal) by {
            let last = q0.len() - 1;
            if j == m {
                assert(q1[j] == q0[last]);
            } else {
                assert(q1[j] == q0[j]);
            }
        }
    }
}

} // verus!
