use vstd::prelude::*;

verus! {

/// Number of pathfinding tiles along the x axis of the 1280 pixel wide arena.
pub const GRID_WIDTH: usize = 320;

/// Number of pathfinding tiles along the y axis of the 720 pixel high arena.
pub const GRID_HEIGHT: usize = 180;

/// Side of a square pathfinding tile, in pixels.
pub const TILE_SIZE: i32 = 4;

/// Number of tiles in the arena.
pub const NUM_TILES: usize = 57600;

/// A point of the arena in pixel coordinates, with the origin in a corner.
#[derive(Clone, Copy, PartialEq, Eq, Debug, Structural)]
pub struct Point {
    pub x: i32,
    pub y: i32,
}

/// The point lies inside the arena, so it belongs to a tile.
pub open spec fn in_grid(p: Point) -> bool {
    0 <= p.x < 1280 && 0 <= p.y < 720
}

/// The point is the corner of a tile (both coordinates are multiples of the tile size).
pub open spec fn aligned(p: Point) -> bool {
    p.x % 4 == 0 && p.y % 4 == 0
}

/// Column of the tile that holds the point.
pub open spec fn tile_x(p: Point) -> int {
    p.x / 4
}

/// Row of the tile that holds the point.
pub open spec fn tile_y(p: Point) -> int {
    p.y / 4
}

/// Index of the tile at column `tx` and row `ty` in a row-major table of all tiles.
pub open spec fn tile_index(tx: int, ty: int) -> int {
    tx * 180 + ty
}

/// Index of the tile that holds the point.
pub open spec fn point_index(p: Point) -> int {
    tile_index(tile_x(p), tile_y(p))
}

/// The corner point of the tile at column `tx` and row `ty`.
pub open spec fn tile_corner(tx: int, ty: int) -> Point {
    Point { x: (tx * 4) as i32, y: (ty * 4) as i32 }
}

/// The two points lie in tiles that share a side.
pub open spec fn tiles_adjacent(a: Point, b: Point) -> bool {
    vstd::math::abs(tile_x(a) - tile_x(b)) + vstd::math::abs(tile_y(a) - tile_y(b)) == 1
}

/// The table of tile corners that the pathfinding reads: entry `[i][j]` is the corner of
/// the tile at column `i` and row `j`.
pub open spec fn is_standard_path_map(m: Seq<Vec<Point>>) -> bool {
    &&& m.len() == GRID_WIDTH
    &&& forall|i: int| 0 <= i < GRID_WIDTH ==> #[trigger] m[i]@.len() == GRID_HEIGHT
    &&& forall|i: int, j: int|
        0 <= i < GRID_WIDTH && 0 <= j < GRID_HEIGHT ==> #[trigger] m[i]@[j] == tile_corner(i, j)
}

/// The neighbouring tile corners of the tile that holds `p`, in the order left, up, right,
/// down (up being the larger y), leaving out those beyond the arena.
pub open spec fn neighbour_corners(p: Point) -> Seq<Point> {
    let x = tile_x(p);
    let y = tile_y(p);
    let left = if x > 0 { seq![tile_corner(x - 1, y)] } else { Seq::empty() };
    let up = if y < GRID_HEIGHT - 1 { seq![tile_corner(x, y + 1)] } else { Seq::empty() };
    let right = if x < GRID_WIDTH - 1 { seq![tile_corner(x + 1, y)] } else { Seq::empty() };
    let down = if y > 0 { seq![tile_corner(x, y - 1)] } else { Seq::empty() };
    left + up + right + down
}

/// Facts about the tile of a point inside the arena.
pub proof fn lemma_point_tile(p: Point)
    requires
        in_grid(p),
    ensures
        0 <= tile_x(p) < GRID_WIDTH,
        0 <= tile_y(p) < GRID_HEIGHT,
        0 <= point_index(p) < NUM_TILES,
        in_grid(tile_corner(tile_x(p), tile_y(p))),
        aligned(tile_corner(tile_x(p), tile_y(p))),
        tile_x(tile_corner(tile_x(p), tile_y(p))) == tile_x(p),
        tile_y(tile_corner(tile_x(p), tile_y(p))) == tile_y(p),
        aligned(p) ==> tile_corner(tile_x(p), tile_y(p)) == p,
{
}

/// The corner of a tile inside the arena is an aligned point of that same tile.
pub proof fn lemma_corner_tile(tx: int, ty: int)
    requires
        0 <= tx < GRID_WIDTH,
        0 <= ty < GRID_HEIGHT,
    ensures
        in_grid(tile_corner(tx, ty)),
        aligned(tile_corner(tx, ty)),
        tile_x(tile_corner(tx, ty)) == tx,
        tile_y(tile_corner(tx, ty)) == ty,
        point_index(tile_corner(tx, ty)) == tile_index(tx, ty),
        0 <= tile_index(tx, ty) < NUM_TILES,
{
}

/// Distinct tiles have distinct indices.
pub proof fn lemma_tile_index_injective(ax: int, ay: int, bx: int, by: int)
    requires
        0 <= ax < GRID_WIDTH,
        0 <= ay < GRID_HEIGHT,
        0 <= bx < GRID_WIDTH,
        0 <= by < GRID_HEIGHT,
        tile_index(ax, ay) == tile_index(bx, by),
    ensures
        ax == bx,
        ay == by,
{
}

/// Two aligned points of the arena in the same tile are equal.
pub proof fn lemma_aligned_same_tile(a: Point, b: Point)
    requires
        in_grid(a),
        in_grid(b),
        aligned(a),
        aligned(b),
        point_index(a) == point_index(b),
    ensures
        a == b,
{
    lemma_point_tile(a);
    lemma_point_tile(b);
    lemma_tile_index_injective(tile_x(a), tile_y(a), tile_x(b), tile_y(b));
}

/// Every neighbour corner is an aligned point of the arena in an adjacent tile.
pub proof fn lemma_neighbour_corners(p: Point)
    requires
        in_grid(p),
    ensures
        neighbour_corners(p).len() <= 4,
        forall|k: int|
            0 <= k < neighbour_corners(p).len() ==> {
                let q = #[trigger] neighbour_corners(p)[k];
                &&& in_grid(q)
                &&& aligned(q)
                &&& tiles_adjacent(p, q)
            },
{
    let x = tile_x(p);
    let y = tile_y(p);
    lemma_point_tile(p);
    if x > 0 {
        lemma_corner_tile(x - 1, y);
    }
    if y < GRID_HEIGHT - 1 {
        lemma_corner_tile(x, y + 1);
    }
    if x < GRID_WIDTH - 1 {
        lemma_corner_tile(x + 1, y);
    }
    if y > 0 {
        lemma_corner_tile(x, y - 1);
    }
}

/// The initial cost table: one row per tile column, holding for every tile of the column
/// the pair `i32::MAX`, `-1`.
pub open spec fn is_initial_cost_map(m: Seq<Vec<i32>>) -> bool {
    &&& m.len() == GRID_WIDTH
    &&& forall|i: int| 0 <= i < GRID_WIDTH ==> #[trigger] m[i]@.len() == 2 * GRID_HEIGHT
    &&& forall|i: int, j: int|
        0 <= i < GRID_WIDTH && 0 <= j < 2 * GRID_HEIGHT ==> #[trigger] m[i]@[j] == (if j % 2
            == 0 {
            i32::MAX
        } else {
            -1i32
        })
}

/// The corners of the tiles next to the tile that holds `coords`, read from the table of
/// tile corners: left, up, right, down, leaving out those beyond the arena.
pub fn get_neighbours(map: &Vec<Vec<Point>>, coords: Point) -> (ret: Vec<Point>)
    requires
        is_standard_path_map(map@),
        in_grid(coords),
    ensures
        ret@ == neighbour_corners(coords),
{
    proof {
        lemma_point_tile(coords);
    }
    let x: usize = (coords.x / TILE_SIZE) as usize;
    let y: usize = (coords.y / TILE_SIZE) as usize;
    let mut ret: Vec<Point> = Vec::new();
    if x > 0 {
        ret.push(map[x - 1][y]);
    }
    if y < GRID_HEIGHT - 1 {
        ret.push(map[x][y + 1]);
    }
    if x < GRID_WIDTH - 1 {
        ret.push(map[x + 1][y]);
    }
    if y > 0 {
        ret.push(map[x][y - 1]);
    }
    assert(ret@ =~= neighbour_corners(coords));
    ret
}

/// Distance between two points when moving along the axes only.
pub open spec fn manhattan(a: Point, b: Point) -> int {
    (vstd::math::abs(a.x - b.x) + vstd::math::abs(a.y - b.y)) as int
}

/// The Manhattan distance between two points, in pixels.
pub fn manhattan_distance(a: Point, b: Point) -> (d: i64)
    ensures
        d == manhattan(a, b),
{
    let dx: i64 = if a.x >= b.x {
        a.x as i64 - b.x as i64
    } else {
        b.x as i64 - a.x as i64
    };
    let dy: i64 = if a.y >= b.y {
        a.y as i64 - b.y as i64
    } else {
        b.y as i64 - a.y as i64
    };
    dx + dy
}

} // verus!
