use vstd::prelude::*;

use rand::Rng;

verus! {

/// The movement state that an NPC is in; each one selects a kind of movement.
#[derive(Clone, Copy, PartialEq, Eq, Debug, Structural)]
pub enum States {
    Default,
    Aggression,
    Evade,
    Idle,
    Danger,
}

impl States {
    /// Whether the NPC is sidestepping a ball.
    pub fn is_danger(&self) -> (res: bool)
        ensures
            res == (*self == States::Danger),
    {
        match *self {
            States::Danger => true,
            _ => false,
        }
    }

    /// Whether the NPC is chasing its goal to hit it.
    pub fn is_aggression(&self) -> (res: bool)
        ensures
            res == (*self == States::Aggression),
    {
        match *self {
            States::Aggression => true,
            _ => false,
        }
    }

    /// Whether the NPC is hiding behind an object.
    pub fn is_evade(&self) -> (res: bool)
        ensures
            res == (*self == States::Evade),
    {
        match *self {
            States::Evade => true,
            _ => false,
        }
    }
}

/// Which way a quantity points: below zero, zero, or above zero.
#[derive(Clone, Copy, PartialEq, Eq, Debug, Structural)]
pub enum Sign {
    Negative,
    Zero,
    Positive,
}

/// Speed change, in pixels per second, that one movement input asks for.
pub const NPC_PUSH: i32 = 1000;

/// The change of velocity an NPC asks for to sidestep a ball that moves with the given
/// signs: it moves across the ball's path; a confused NPC moves the other way.
pub open spec fn sidestep_spec(bx: Sign, by: Sign, confused: bool) -> (int, int) {
    let d: (int, int) = if bx == Sign::Negative && by == Sign::Negative {
        (-1000, 1000)
    } else if bx == Sign::Negative && by == Sign::Positive {
        (1000, 1000)
    } else if bx == Sign::Positive && by == Sign::Negative {
        (-1000, -1000)
    } else if bx == Sign::Positive && by == Sign::Positive {
        (1000, -1000)
    } else if bx == Sign::Negative {
        (0, 1000)
    } else if bx == Sign::Positive {
        (0, -1000)
    } else if by == Sign::Negative {
        (-1000, 0)
    } else if by == Sign::Positive {
        (1000, 0)
    } else {
        (0, 0)
    };
    if confused {
        (-d.0, -d.1)
    } else {
        d
    }
}

/// The number a sign stands for: -1, 0 or 1.
pub open spec fn sign_value(s: Sign) -> int {
    match s {
        Sign::Negative => -1,
        Sign::Zero => 0,
        Sign::Positive => 1,
    }
}

/// The sidestep of an NPC is a push of 1000 across the ball's motion: turned a quarter
/// clockwise from the ball's direction `(sx, sy)`, to `(1000 * sy, -1000 * sx)`, and the other
/// way round for a confused NPC. It is square to the ball's motion, and it is a push whenever
/// the ball moves.
pub proof fn law_sidestep_crosses_ball_path(ball_x: Sign, ball_y: Sign, confused: bool)
    ensures
        ({
            let d = sidestep_spec(ball_x, ball_y, confused);
            let sx = sign_value(ball_x);
            let sy = sign_value(ball_y);
            &&& d == if confused { (-1000 * sy, 1000 * sx) } else { (1000 * sy, -1000 * sx) }
            &&& d.0 * sx + d.1 * sy == 0
            &&& (sx != 0 || sy != 0) ==> d != (0int, 0int)
        }),
{
    match ball_x {
        Sign::Negative => match ball_y {
            Sign::Negative => {},
            Sign::Zero => {},
            Sign::Positive => {},
        },
        Sign::Zero => match ball_y {
            Sign::Negative => {},
            Sign::Zero => {},
            Sign::Positive => {},
        },
        Sign::Positive => match ball_y {
            Sign::Negative => {},
            Sign::Zero => {},
            Sign::Positive => {},
        },
    }
}

/// The change of velocity of an NPC in danger, from the signs of the velocity of the ball it
/// sidesteps: a push of 1000 across the ball's motion, turned a quarter clockwise from it, or
/// counterclockwise for a confused NPC.
pub fn sidestep_direction(ball_x: Sign, ball_y: Sign, confused: bool) -> (d: (i32, i32))
    ensures
        (d.0 as int, d.1 as int) == sidestep_spec(ball_x, ball_y, confused),
        !confused ==> d.0 == 1000 * sign_value(ball_y) && d.1 == -1000 * sign_value(ball_x),
        confused ==> d.0 == -1000 * sign_value(ball_y) && d.1 == 1000 * sign_value(ball_x),
        d.0 * sign_value(ball_x) + d.1 * sign_value(ball_y) == 0,
{
    let mut dx: i32 = 0;
    let mut dy: i32 = 0;
    if ball_x == Sign::Negative && ball_y == Sign::Negative {
        dx = dx - NPC_PUSH;
        dy = dy + NPC_PUSH;
    } else if ball_x == Sign::Negative && ball_y == Sign::Positive {
        dx = dx + NPC_PUSH;
        dy = dy + NPC_PUSH;
    } else if ball_x == Sign::Positive && ball_y == Sign::Negative {
        dx = dx - NPC_PUSH;
        dy = dy - NPC_PUSH;
    } else if ball_x == Sign::Positive && ball_y == Sign::Positive {
        dx = dx + NPC_PUSH;
        dy = dy - NPC_PUSH;
    } else if ball_x == Sign::Negative {
        dy = dy + NPC_PUSH;
    } else if ball_x == Sign::Positive {
        dy = dy - NPC_PUSH;
    } else if ball_y == Sign::Negative {
        dx = dx - NPC_PUSH;
    } else if ball_y == Sign::Positive {
        dx = dx + NPC_PUSH;
    }
    if confused {
        dx = -dx;
        dy = -dy;
    }
    proof {
        law_sidestep_crosses_ball_path(ball_x, ball_y, confused);
    }
    (dx, dy)
}

/// The change of velocity along one axis toward a target that lies on the given side.
pub open spec fn toward_spec(side: Sign, magnitude: int) -> int {
    match side {
        Sign::Positive => magnitude,
        Sign::Negative => -magnitude,
        Sign::Zero => 0,
    }
}

/// The change of velocity of an NPC walking toward the next point of its path, where
/// `side_x` and `side_y` tell on which side of the NPC the point lies; a confused NPC walks
/// the other way.
pub fn approach_direction(side_x: Sign, side_y: Sign, confused: bool) -> (d: (i32, i32))
    ensures
        !confused ==> (d.0 as int, d.1 as int) == (toward_spec(side_x, 1000), toward_spec(side_y, 1000)),
        confused ==> (d.0 as int, d.1 as int) == (-toward_spec(side_x, 1000), -toward_spec(side_y, 1000)),
{
    let mut dx: i32 = 0;
    let mut dy: i32 = 0;
    if side_x == Sign::Positive {
        dx = dx + NPC_PUSH;
    }
    if side_x == Sign::Negative {
        dx = dx - NPC_PUSH;
    }
    if side_y == Sign::Positive {
        dy = dy + NPC_PUSH;
    }
    if side_y == Sign::Negative {
        dy = dy - NPC_PUSH;
    }
    if confused {
        dx = -dx;
        dy = -dy;
    }
    (dx, dy)
}

/// Whether an NPC of the given difficulty (in percent) passes a check against a roll drawn
/// from 0 to 99: the higher the difficulty, the likelier.
pub fn difficulty_check(difficulty: i32, roll: i32) -> (pass: bool)
    ensures
        pass == (difficulty > roll),
{
    difficulty > roll
}

/// How far an NPC's aim at the player is off, as a change of the aim vector: the error is
/// `100 - difficulty`, along y when the player's offset along y exceeds its offset along x,
/// else along x; `lower` says whether it is taken off or added.
pub open spec fn hit_deviation_spec(y_exceeds_x: bool, lower: bool, difficulty: int) -> (int, int) {
    let e = if lower {
        -(100 - difficulty)
    } else {
        100 - difficulty
    };
    if y_exceeds_x {
        (0, e)
    } else {
        (e, 0)
    }
}

/// The error an NPC of the given difficulty puts into its aim at the player.
pub fn hit_deviation(y_exceeds_x: bool, lower: bool, difficulty: i32) -> (d: (i32, i32))
    requires
        100 - difficulty <= i32::MAX,
    ensures
        (d.0 as int, d.1 as int) == hit_deviation_spec(y_exceeds_x, lower, difficulty as int),
{
    let error = 100 - difficulty;
    let e = if lower {
        -error
    } else {
        error
    };
    if y_exceeds_x {
        (0, e)
    } else {
        (e, 0)
    }
}

/// Where the NPC heads next.
#[derive(Clone, Copy, PartialEq, Eq, Debug, Structural)]
pub enum GoalChoice {
    /// Keep the current goal.
    Keep,
    /// The closest ball.
    ClosestBall,
    /// The player.
    Player,
    /// A spot behind the closest object.
    BehindClosestObject,
}

/// What the NPC's action selector decides in a tick: the state, the new goal, and whether
/// to plan a path to it.
#[derive(Clone, Copy, PartialEq, Eq, Debug, Structural)]
pub struct Selection {
    pub state: States,
    pub goal: GoalChoice,
    pub plan_path: bool,
}

/// What the selector sees in a tick.
#[derive(Clone, Copy, PartialEq, Eq, Debug, Structural)]
pub struct SelectionFacts {
    /// A ball is about to hit the NPC.
    pub danger: bool,
    /// The NPC has no goal.
    pub tag_is_null: bool,
    /// The player is close to the NPC.
    pub player_close: bool,
    /// There is a ball to head for.
    pub ball_exists: bool,
}

/// Chasing `goal` along a freshly planned path.
pub open spec fn aggression(goal: GoalChoice) -> Selection {
    Selection { state: States::Aggression, goal, plan_path: true }
}

/// The selector's decision; its difficulty checks use `rolls[0]`, `rolls[1]`, ... in the
/// order it makes them:
/// in danger, it heads for the closest ball when a check passes (and there is a ball), else
/// it sidesteps; otherwise it heads for the player when it has no goal, the player is close
/// and a check passes; then for the closest ball when a check passes; then hides behind the
/// closest object when a check passes; else it idles.
pub open spec fn selection_spec(f: SelectionFacts, difficulty: i32, rolls: Seq<i32>) -> Selection {
    if f.danger {
        if difficulty > rolls[0] && f.ball_exists {
            aggression(GoalChoice::ClosestBall)
        } else {
            Selection { state: States::Danger, goal: GoalChoice::Keep, plan_path: false }
        }
    } else {
        let used: int = if f.tag_is_null && f.player_close {
            1
        } else {
            0
        };
        if used == 1 && difficulty > rolls[0] {
            aggression(GoalChoice::Player)
        } else if difficulty > rolls[used] && f.ball_exists {
            aggression(GoalChoice::ClosestBall)
        } else if difficulty > rolls[used + 1] {
            Selection { state: States::Evade, goal: GoalChoice::BehindClosestObject, plan_path: true }
        } else {
            Selection { state: States::Idle, goal: GoalChoice::Keep, plan_path: false }
        }
    }
}

/// The NPC's action selector for one tick.
pub fn selection(facts: SelectionFacts, difficulty: i32, rolls: [i32; 3]) -> (s: Selection)
    ensures
        s == selection_spec(facts, difficulty, rolls@),
{
    let mut next: usize = 0;
    if facts.danger {
        if difficulty_check(difficulty, rolls[0]) {
            if facts.ball_exists {
                return Selection { state: States::Aggression, goal: GoalChoice::ClosestBall, plan_path: true };
            }
        }
        return Selection { state: States::Danger, goal: GoalChoice::Keep, plan_path: false };
    }
    if facts.tag_is_null && facts.player_close {
        next = 1;
        if difficulty_check(difficulty, rolls[0]) {
            return Selection { state: States::Aggression, goal: GoalChoice::Player, plan_path: true };
        }
    }
    if difficulty_check(difficulty, rolls[next]) {
        if facts.ball_exists {
            return Selection { state: States::Aggression, goal: GoalChoice::ClosestBall, plan_path: true };
        }
    }
    if difficulty_check(difficulty, rolls[next + 1]) {
        return Selection { state: States::Evade, goal: GoalChoice::BehindClosestObject, plan_path: true };
    }
    Selection { state: States::Idle, goal: GoalChoice::Keep, plan_path: false }
}

/// The pieces of furniture of the living-room arena that an NPC hides behind.
#[derive(Clone, Copy, PartialEq, Eq, Debug, Structural)]
pub enum Furniture {
    Recliner,
    TvStand,
    SideTable,
}

/// Where a piece of furniture stands, in arena coordinates (origin at the centre).
pub open spec fn furniture_spot(f: Furniture) -> (int, int) {
    match f {
        Furniture::Recliner => (-60, 210),
        Furniture::TvStand => (0, -250),
        Furniture::SideTable => (120, 170),
    }
}

/// The piece closest to the NPC, from how the distances to the recliner, the side table and
/// the TV stand compare (ties go to the later piece).
pub open spec fn closest_furniture_spec(
    recliner_closer_than_table: bool,
    recliner_closer_than_tv: bool,
    table_closer_than_tv: bool,
) -> Furniture {
    if recliner_closer_than_table {
        if recliner_closer_than_tv {
            Furniture::Recliner
        } else {
            Furniture::TvStand
        }
    } else if table_closer_than_tv {
        Furniture::SideTable
    } else {
        Furniture::TvStand
    }
}

/// The distance of a piece, among the distances `dr`, `dt` and `dv` of the recliner, the side
/// table and the TV stand.
pub open spec fn furniture_distance(f: Furniture, dr: int, dt: int, dv: int) -> int {
    match f {
        Furniture::Recliner => dr,
        Furniture::SideTable => dt,
        Furniture::TvStand => dv,
    }
}

/// `f` is the piece to hide behind for the distances `dr`, `dt` and `dv` of the recliner, the
/// side table and the TV stand: none is nearer than it; a TV stand that is as near as any
/// piece is taken, and a side table as near as the recliner and nearer than the TV stand.
pub open spec fn nearest_piece(f: Furniture, dr: int, dt: int, dv: int) -> bool {
    &&& furniture_distance(f, dr, dt, dv) <= dr
    &&& furniture_distance(f, dr, dt, dv) <= dt
    &&& furniture_distance(f, dr, dt, dv) <= dv
    &&& dv <= dr && dv <= dt ==> f == Furniture::TvStand
    &&& dt <= dr && dt < dv ==> f == Furniture::SideTable
}

/// Whatever the three distances, the piece chosen from their comparisons is a nearest one
/// (the TV stand on a tie with it, else the side table on a tie with the recliner).
pub proof fn law_closest_furniture_is_nearest(dr: int, dt: int, dv: int)
    ensures
        nearest_piece(closest_furniture_spec(dr < dt, dr < dv, dt < dv), dr, dt, dv),
{
}

/// The piece closest to the NPC, from how the distances to the recliner, the side table and
/// the TV stand compare (ties go to the later piece).
pub fn closest_furniture(
    recliner_closer_than_table: bool,
    recliner_closer_than_tv: bool,
    table_closer_than_tv: bool,
) -> (f: Furniture)
    ensures
        f == closest_furniture_spec(
            recliner_closer_than_table,
            recliner_closer_than_tv,
            table_closer_than_tv,
        ),
        forall|dr: int, dt: int, dv: int|
            recliner_closer_than_table == (dr < dt) && recliner_closer_than_tv == (dr < dv)
                && table_closer_than_tv == (dt < dv) ==> #[trigger] nearest_piece(f, dr, dt, dv),
{
    if recliner_closer_than_table {
        if recliner_closer_than_tv {
            Furniture::Recliner
        } else {
            Furniture::TvStand
        }
    } else {
        if table_closer_than_tv {
            Furniture::SideTable
        } else {
            Furniture::TvStand
        }
    }
}

/// The spot behind a piece of furniture that an NPC hides at: above it, left of it, below it
/// or right of it, for `choice` 0, 1, 2 or 3.
pub open spec fn hiding_spot_spec(f: Furniture, choice: u32) -> (int, int) {
    let (x, y) = furniture_spot(f);
    if choice == 0 {
        (x, y + 192)
    } else if choice == 1 {
        (x - 168, y)
    } else if choice == 2 {
        (x, y - 192)
    } else {
        (x + 168, y)
    }
}

/// The goal of an NPC that hides behind `f`.
pub fn hiding_spot(f: Furniture, choice: u32) -> (spot: (i32, i32))
    requires
        choice < 4,
    ensures
        (spot.0 as int, spot.1 as int) == hiding_spot_spec(f, choice),
{
    let (x, y): (i32, i32) = match f {
        Furniture::Recliner => (-60, 210),
        Furniture::TvStand => (0, -250),
        Furniture::SideTable => (120, 170),
    };
    if choice == 0 {
        (x, y + 192)
    } else if choice == 1 {
        (x - 168, y)
    } else if choice == 2 {
        (x, y - 192)
    } else {
        (x + 168, y)
    }
}

/// Draws which side of the furniture to hide at: `rand::thread_rng().gen_range(0..4)`.
/// Trusted: rand documents that `gen_range` returns a number of the range.
#[verifier::external_body]
fn random_side() -> (choice: u32)
    ensures
        choice < 4,
{
    rand::thread_rng().gen_range(0..4)
}

/// The goal of an NPC that hides behind the closest piece of furniture, on a side drawn at
/// random.
pub fn set_tag_to_closest_object(
    recliner_closer_than_table: bool,
    recliner_closer_than_tv: bool,
    table_closer_than_tv: bool,
) -> (spot: (i32, i32))
    ensures
        exists|choice: u32|
            choice < 4 && (spot.0 as int, spot.1 as int) == #[trigger] hiding_spot_spec(
                closest_furniture_spec(
                    recliner_closer_than_table,
                    recliner_closer_than_tv,
                    table_closer_than_tv,
                ),
                choice,
            ),
{
    let f = closest_furniture(recliner_closer_than_table, recliner_closer_than_tv, table_closer_than_tv);
    let choice = random_side();
    let spot = hiding_spot(f, choice);
    assert(hiding_spot_spec(f, choice) == (spot.0 as int, spot.1 as int));
    spot
}

} // verus!
