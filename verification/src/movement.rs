use vstd::prelude::*;

use crate::npc::Sign;

verus! {

/// On which side one box touches another, as the arena's box collision test reports it.
#[derive(Clone, Copy, PartialEq, Eq, Debug, Structural)]
pub enum Collision {
    Left,
    Right,
    Top,
    Bottom,
    Inside,
}

/// The movement keys held down in a frame.
#[derive(Clone, Copy, PartialEq, Eq, Debug, Structural)]
pub struct MoveKeys {
    pub left: bool,
    pub right: bool,
    pub up: bool,
    pub down: bool,
}

/// The change of velocity the keys ask for: 1000 pixels per second to the left, right, up or
/// down for each key held (opposite keys cancel); a confused player moves the other way.
pub open spec fn input_direction_spec(keys: MoveKeys, confused: bool) -> (int, int) {
    let dx: int = (if keys.right { 1000int } else { 0 }) - (if keys.left { 1000int } else { 0 });
    let dy: int = (if keys.up { 1000int } else { 0 }) - (if keys.down { 1000int } else { 0 });
    if confused {
        (-dx, -dy)
    } else {
        (dx, dy)
    }
}

/// The change of velocity of the player for the keys held down.
pub fn input_direction(keys: MoveKeys, confused: bool) -> (d: (i32, i32))
    ensures
        (d.0 as int, d.1 as int) == input_direction_spec(keys, confused),
{
    let mut dx: i32 = 0;
    let mut dy: i32 = 0;
    if keys.left {
        dx = dx - 1000;
    }
    if keys.right {
        dx = dx + 1000;
    }
    if keys.up {
        dy = dy + 1000;
    }
    if keys.down {
        dy = dy - 1000;
    }
    if confused {
        dx = -dx;
        dy = -dy;
    }
    (dx, dy)
}

/// What pushes a mover back when it runs into it; each bounces it back at its own speed.
#[derive(Clone, Copy, PartialEq, Eq, Debug, Structural)]
pub enum Obstacle {
    /// Bounces back at 0.8 pixels per frame.
    Recliner,
    /// Bounces back at 0.9 pixels per frame.
    TvStand,
    /// Bounces back at 0.85 pixels per frame.
    SideTable,
    /// Bounces back at 0.9 pixels per frame.
    Coral,
    /// Another player; bounces back at 0.85 pixels per frame.
    Player,
}

/// A velocity component forced by an obstacle: toward `positive` or negative values, at the
/// obstacle's bounce speed.
#[derive(Clone, Copy, PartialEq, Eq, Debug, Structural)]
pub struct AxisPush {
    pub positive: bool,
    pub by: Obstacle,
}

/// The velocity components that collisions force; a component left `None` keeps the mover's
/// own velocity.
#[derive(Clone, Copy, PartialEq, Eq, Debug, Structural)]
pub struct CollisionResponse {
    pub x: Option<AxisPush>,
    pub y: Option<AxisPush>,
}

/// What one collision with `by` forces: a hit on the left or right side pushes along x away
/// from the obstacle, one on the top or bottom along y; a mover inside another player is
/// pushed toward negative x and y; inside furniture, nothing is forced.
pub open spec fn push_of(by: Obstacle, hit: Option<Collision>) -> CollisionResponse {
    match hit {
        Some(Collision::Left) => CollisionResponse {
            x: Some(AxisPush { positive: true, by }),
            y: None,
        },
        Some(Collision::Right) => CollisionResponse {
            x: Some(AxisPush { positive: false, by }),
            y: None,
        },
        Some(Collision::Top) => CollisionResponse {
            x: None,
            y: Some(AxisPush { positive: false, by }),
        },
        Some(Collision::Bottom) => CollisionResponse {
            x: None,
            y: Some(AxisPush { positive: true, by }),
        },
        Some(Collision::Inside) => if by == Obstacle::Player {
            CollisionResponse {
                x: Some(AxisPush { positive: false, by }),
                y: Some(AxisPush { positive: false, by }),
            }
        } else {
            CollisionResponse { x: None, y: None }
        },
        None => CollisionResponse { x: None, y: None },
    }
}

/// Later pushes win over earlier ones, axis by axis.
pub open spec fn overlay(base: CollisionResponse, top: CollisionResponse) -> CollisionResponse {
    CollisionResponse {
        x: if top.x is Some {
            top.x
        } else {
            base.x
        },
        y: if top.y is Some {
            top.y
        } else {
            base.y
        },
    }
}

/// The response to collisions checked in order: each one that forces a component overrides
/// what the earlier ones forced for it.
pub open spec fn response_spec(hits: Seq<(Obstacle, Option<Collision>)>) -> CollisionResponse
    decreases hits.len(),
{
    if hits.len() == 0 {
        CollisionResponse { x: None, y: None }
    } else {
        overlay(response_spec(hits.drop_last()), push_of(hits.last().0, hits.last().1))
    }
}

fn push(by: Obstacle, hit: Option<Collision>) -> (r: CollisionResponse)
    ensures
        r == push_of(by, hit),
{
    match hit {
        Some(Collision::Left) => CollisionResponse {
            x: Some(AxisPush { positive: true, by }),
            y: None,
        },
        Some(Collision::Right) => CollisionResponse {
            x: Some(AxisPush { positive: false, by }),
            y: None,
        },
        Some(Collision::Top) => CollisionResponse {
            x: None,
            y: Some(AxisPush { positive: false, by }),
        },
        Some(Collision::Bottom) => CollisionResponse {
            x: None,
            y: Some(AxisPush { positive: true, by }),
        },
        Some(Collision::Inside) => {
            if by == Obstacle::Player {
                CollisionResponse {
                    x: Some(AxisPush { positive: false, by }),
                    y: Some(AxisPush { positive: false, by }),
                }
            } else {
                CollisionResponse { x: None, y: None }
            }
        },
        None => CollisionResponse { x: None, y: None },
    }
}

/// The velocity components forced by the collisions of a mover, checked in order.
pub fn collision_response(hits: &Vec<(Obstacle, Option<Collision>)>) -> (r: CollisionResponse)
    ensures
        r == response_spec(hits@),
{
    let mut r = CollisionResponse { x: None, y: None };
    let mut i: usize = 0;
    while i < hits.len()
        invariant
            i <= hits@.len(),
            r == response_spec(hits@.subrange(0, i as int)),
        decreases hits@.len() - i,
    {
        let (by, hit) = hits[i];
        let p = push(by, hit);
        if p.x.is_some() {
            r.x = p.x;
        }
        if p.y.is_some() {
            r.y = p.y;
        }
        assert(hits@.subrange(0, i + 1).drop_last() =~= hits@.subrange(0, i as int));
        i = i + 1;
    }
    assert(hits@.subrange(0, hits@.len() as int) =~= hits@);
    r
}

/// A component forced by a collision is forced by the last collision in the order that
/// forces that component; a component that no collision forces is left free.
pub proof fn law_last_push_wins(hits: Seq<(Obstacle, Option<Collision>)>)
    ensures
        (response_spec(hits).x is None) <==> (forall|i: int|
            0 <= i < hits.len() ==> push_of(#[trigger] hits[i].0, hits[i].1).x is None),
        (response_spec(hits).y is None) <==> (forall|i: int|
            0 <= i < hits.len() ==> push_of(#[trigger] hits[i].0, hits[i].1).y is None),
    decreases hits.len(),
{
    if hits.len() > 0 {
        let rest = hits.drop_last();
        law_last_push_wins(rest);
        assert forall|i: int| 0 <= i < rest.len() implies rest[i] == hits[i] by {}
        if response_spec(hits).x is None {
            assert forall|i: int| 0 <= i < hits.len() implies push_of(
                #[trigger] hits[i].0,
                hits[i].1,
            ).x is None by {
                if i < rest.len() {
                    assert(rest[i] == hits[i]);
                }
            }
        }
        if response_spec(hits).y is None {
            assert forall|i: int| 0 <= i < hits.len() implies push_of(
                #[trigger] hits[i].0,
                hits[i].1,
            ).y is None by {
                if i < rest.len() {
                    assert(rest[i] == hits[i]);
                }
            }
        }
    }
}

/// The collision response in the living-room arena: the recliner, the TV stand, the side
/// table, then the player.
pub fn collision_check_map1(
    recliner: Option<Collision>,
    tv_stand: Option<Collision>,
    side_table: Option<Collision>,
    player: Option<Collision>,
) -> (r: CollisionResponse)
    ensures
        r == response_spec(
            seq![
                (Obstacle::Recliner, recliner),
                (Obstacle::TvStand, tv_stand),
                (Obstacle::SideTable, side_table),
                (Obstacle::Player, player),
            ],
        ),
{
    let mut hits: Vec<(Obstacle, Option<Collision>)> = Vec::new();
    hits.push((Obstacle::Recliner, recliner));
    hits.push((Obstacle::TvStand, tv_stand));
    hits.push((Obstacle::SideTable, side_table));
    hits.push((Obstacle::Player, player));
    let r = collision_response(&hits);
    assert(hits@ =~= seq![
        (Obstacle::Recliner, recliner),
        (Obstacle::TvStand, tv_stand),
        (Obstacle::SideTable, side_table),
        (Obstacle::Player, player),
    ]);
    r
}

/// The collision response in the reef arena: the six corals in order, then the player.
pub fn collision_check_map4(corals: [Option<Collision>; 6], player: Option<Collision>) -> (r:
    CollisionResponse)
    ensures
        r == response_spec(
            seq![
                (Obstacle::Coral, corals@[0]),
                (Obstacle::Coral, corals@[1]),
                (Obstacle::Coral, corals@[2]),
                (Obstacle::Coral, corals@[3]),
                (Obstacle::Coral, corals@[4]),
                (Obstacle::Coral, corals@[5]),
                (Obstacle::Player, player),
            ],
        ),
{
    let mut hits: Vec<(Obstacle, Option<Collision>)> = Vec::new();
    let mut i: usize = 0;
    while i < 6
        invariant
            i <= 6,
            hits@.len() == i,
            forall|j: int| 0 <= j < i ==> #[trigger] hits@[j] == (Obstacle::Coral, corals@[j]),
        decreases 6 - i,
    {
        hits.push((Obstacle::Coral, corals[i]));
        i = i + 1;
    }
    hits.push((Obstacle::Player, player));
    let r = collision_response(&hits);
    assert(hits@ =~= seq![
        (Obstacle::Coral, corals@[0]),
        (Obstacle::Coral, corals@[1]),
        (Obstacle::Coral, corals@[2]),
        (Obstacle::Coral, corals@[3]),
        (Obstacle::Coral, corals@[4]),
        (Obstacle::Coral, corals@[5]),
        (Obstacle::Player, player),
    ]);
    r
}

/// The collision response in the arenas without furniture: the player only.
pub fn collision_check_no_objects(player: Option<Collision>) -> (r: CollisionResponse)
    ensures
        r == push_of(Obstacle::Player, player),
{
    push(Obstacle::Player, player)
}

/// How far, in pixels, two touching characters are pushed apart.
pub const SEPARATION: i32 = 5;

/// The moves that push a player and an NPC apart, from the side of the NPC's box that the
/// player's touches: each moves 5 pixels away from the other along the touching axis.
pub open spec fn separation_spec(hit: Option<Collision>) -> ((int, int), (int, int)) {
    match hit {
        Some(Collision::Right) => ((-5, 0), (5, 0)),
        Some(Collision::Left) => ((5, 0), (-5, 0)),
        Some(Collision::Top) => ((0, -5), (0, 5)),
        Some(Collision::Bottom) => ((0, 5), (0, -5)),
        _ => ((0, 0), (0, 0)),
    }
}

/// The moves of the player and the NPC, in that order, that push them apart.
pub fn player_npc_collisions(hit: Option<Collision>) -> (moves: ((i32, i32), (i32, i32)))
    ensures
        ((moves.0.0 as int, moves.0.1 as int), (moves.1.0 as int, moves.1.1 as int))
            == separation_spec(hit),
        moves.0.0 == -moves.1.0 && moves.0.1 == -moves.1.1,
{
    match hit {
        Some(Collision::Right) => ((-SEPARATION, 0), (SEPARATION, 0)),
        Some(Collision::Left) => ((SEPARATION, 0), (-SEPARATION, 0)),
        Some(Collision::Top) => ((0, -SEPARATION), (0, SEPARATION)),
        Some(Collision::Bottom) => ((0, SEPARATION), (0, -SEPARATION)),
        _ => ((0, 0), (0, 0)),
    }
}

/// Which axes an NPC may not move along.
#[derive(Clone, Copy, PartialEq, Eq, Debug, Structural)]
pub struct AxisLocks {
    pub x: bool,
    pub y: bool,
}

/// The axis locks of an NPC from its collisions with the objects, checked in order: the first
/// side hit locks the axis it blocks and frees the other; with no side hit, both are free;
/// with no object at all, the locks stay as they are (`None`).
pub open spec fn axis_locks_spec(hits: Seq<Option<Collision>>) -> Option<AxisLocks>
    decreases hits.len(),
{
    if hits.len() == 0 {
        None
    } else {
        match hits[0] {
            Some(Collision::Left) | Some(Collision::Right) => Some(AxisLocks { x: true, y: false }),
            Some(Collision::Top) | Some(Collision::Bottom) => Some(AxisLocks { x: false, y: true }),
            _ => Some(
                match axis_locks_spec(hits.subrange(1, hits.len() as int)) {
                    Some(l) => l,
                    None => AxisLocks { x: false, y: false },
                },
            ),
        }
    }
}

/// The axis locks of an NPC after checking its collisions with the objects.
pub fn avoid_collision(hits: &Vec<Option<Collision>>) -> (locks: Option<AxisLocks>)
    ensures
        locks == axis_locks_spec(hits@),
        hits@.len() == 0 ==> locks is None,
        forall|i: int|
            0 <= i < hits@.len() && #[trigger] hits@[i] is Some && hits@[i] != Some(
                Collision::Inside,
            ) && (forall|j: int|
                0 <= j < i ==> hits@[j] is None || hits@[j] == Some(Collision::Inside))
                ==> locks == Some(
                AxisLocks {
                    x: hits@[i] == Some(Collision::Left) || hits@[i] == Some(Collision::Right),
                    y: hits@[i] == Some(Collision::Top) || hits@[i] == Some(Collision::Bottom),
                },
            ),
        hits@.len() > 0 && (forall|j: int|
            0 <= j < hits@.len() ==> #[trigger] hits@[j] is None || hits@[j] == Some(
                Collision::Inside,
            )) ==> locks == Some(AxisLocks { x: false, y: false }),
{
    let mut i: usize = 0;
    while i < hits.len()
        invariant
            i <= hits@.len(),
            forall|j: int|
                0 <= j < i ==> !(#[trigger] hits@[j] matches Some(Collision::Left) || hits@[j] matches Some(
                    Collision::Right,
                ) || hits@[j] matches Some(Collision::Top) || hits@[j] matches Some(
                    Collision::Bottom,
                )),
        decreases hits@.len() - i,
    {
        match hits[i] {
            Some(Collision::Left) | Some(Collision::Right) => {
                proof {
                    lemma_locks_skip(hits@, i as int);
                }
                return Some(AxisLocks { x: true, y: false });
            },
            Some(Collision::Top) | Some(Collision::Bottom) => {
                proof {
                    lemma_locks_skip(hits@, i as int);
                }
                return Some(AxisLocks { x: false, y: true });
            },
            _ => {},
        }
        i = i + 1;
    }
    proof {
        lemma_locks_skip(hits@, i as int);
    }
    if hits.len() == 0 {
        None
    } else {
        Some(AxisLocks { x: false, y: false })
    }
}

proof fn lemma_locks_skip(hits: Seq<Option<Collision>>, i: int)
    requires
        0 <= i <= hits.len(),
        forall|j: int|
            0 <= j < i ==> !(#[trigger] hits[j] matches Some(Collision::Left) || hits[j] matches Some(
                Collision::Right,
            ) || hits[j] matches Some(Collision::Top) || hits[j] matches Some(Collision::Bottom)),
    ensures
        i < hits.len() ==> axis_locks_spec(hits) == match axis_locks_spec(
            hits.subrange(i, hits.len() as int),
        ) {
            Some(l) => Some(l),
            None => Some(AxisLocks { x: false, y: false }),
        },
        i == hits.len() && hits.len() > 0 ==> axis_locks_spec(hits) == Some(
            AxisLocks { x: false, y: false },
        ),
        i > 0 && i < hits.len() ==> axis_locks_spec(hits.subrange(i, hits.len() as int)) is Some,
    decreases i,
{
    if i > 0 {
        let rest = hits.subrange(1, hits.len() as int);
        assert forall|j: int| 0 <= j < i - 1 implies !(#[trigger] rest[j] matches Some(
            Collision::Left,
        ) || rest[j] matches Some(Collision::Right) || rest[j] matches Some(Collision::Top)
            || rest[j] matches Some(Collision::Bottom)) by {
            assert(rest[j] == hits[j + 1]);
        }
        lemma_locks_skip(rest, i - 1);
        assert(rest.subrange(i - 1, rest.len() as int) =~= hits.subrange(i, hits.len() as int));
        assert(!(hits[0] matches Some(Collision::Left) || hits[0] matches Some(Collision::Right)
            || hits[0] matches Some(Collision::Top) || hits[0] matches Some(Collision::Bottom)));
    } else {
        assert(hits.subrange(0, hits.len() as int) =~= hits);
    }
}

/// The first object that an NPC touches on a side decides its locks: a hit on its left or
/// right side locks the x axis and frees y, a hit on its top or bottom locks y and frees x.
pub proof fn law_first_side_hit_locks_its_axis(hits: Seq<Option<Collision>>, i: int)
    requires
        0 <= i < hits.len(),
        hits[i] is Some,
        hits[i] != Some(Collision::Inside),
        forall|j: int| 0 <= j < i ==> #[trigger] hits[j] is None || hits[j] == Some(Collision::Inside),
    ensures
        axis_locks_spec(hits) == Some(
            AxisLocks {
                x: hits[i] == Some(Collision::Left) || hits[i] == Some(Collision::Right),
                y: hits[i] == Some(Collision::Top) || hits[i] == Some(Collision::Bottom),
            },
        ),
{
    assert forall|j: int|
        0 <= j < i implies !(#[trigger] hits[j] matches Some(Collision::Left) || hits[j] matches Some(
            Collision::Right,
        ) || hits[j] matches Some(Collision::Top) || hits[j] matches Some(Collision::Bottom)) by {
        assert(hits[j] is None || hits[j] == Some(Collision::Inside));
    }
    lemma_locks_skip(hits, i);
    let rest = hits.subrange(i, hits.len() as int);
    assert(rest[0] == hits[i]);
}

/// With objects about but none touching a side, the NPC may move along both axes.
pub proof fn law_no_side_hit_frees_both_axes(hits: Seq<Option<Collision>>)
    requires
        hits.len() > 0,
        forall|j: int| 0 <= j < hits.len() ==> #[trigger] hits[j] is None || hits[j] == Some(
            Collision::Inside,
        ),
    ensures
        axis_locks_spec(hits) == Some(AxisLocks { x: false, y: false }),
{
    assert forall|j: int|
        0 <= j < hits.len() implies !(#[trigger] hits[j] matches Some(Collision::Left) || hits[j] matches Some(
            Collision::Right,
        ) || hits[j] matches Some(Collision::Top) || hits[j] matches Some(Collision::Bottom)) by {
        assert(hits[j] is None || hits[j] == Some(Collision::Inside));
    }
    lemma_locks_skip(hits, hits.len() as int);
}

/// Speed, in pixels per second, of a ball that an NPC bats.
pub const HIT_POWER: i32 = 500;

/// The velocity an NPC's bat gives the ball, from the signs of the NPC's velocity: the ball
/// leaves along each axis the way the NPC moves, and stays still along an axis it does not
/// move on.
pub fn bat_swing(npc_x: Sign, npc_y: Sign) -> (v: (i32, i32))
    ensures
        v.0 as int == (match npc_x {
            Sign::Positive => 500int,
            Sign::Negative => -500int,
            Sign::Zero => 0int,
        }),
        v.1 as int == (match npc_y {
            Sign::Positive => 500int,
            Sign::Negative => -500int,
            Sign::Zero => 0int,
        }),
{
    let mut vx: i32 = 0;
    let mut vy: i32 = 0;
    if npc_y == Sign::Positive {
        vy = HIT_POWER;
    }
    if npc_y == Sign::Negative {
        vy = -HIT_POWER;
    }
    if npc_x == Sign::Negative {
        vx = -HIT_POWER;
    }
    if npc_x == Sign::Positive {
        vx = HIT_POWER;
    }
    (vx, vy)
}

} // verus!
