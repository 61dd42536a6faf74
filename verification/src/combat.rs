use vstd::prelude::*;

use crate::movement::Collision;

verus! {

/// An axis of the arena.
#[derive(Clone, Copy, PartialEq, Eq, Debug, Structural)]
pub enum Axis {
    X,
    Y,
}

/// How far, in pixels, a ball that hits a character is moved back out of it.
pub const BALL_NUDGE: i32 = 10;

/// What a ball's hit on a character (a player or an NPC) does.
#[derive(Clone, Copy, PartialEq, Eq, Debug, Structural)]
pub struct BallHit {
    /// The velocity component of the ball that turns around (the other one is only damped).
    pub reflect: Option<Axis>,
    /// How far the ball is moved back out of the character along x.
    pub nudge_x: i32,
    /// How far the ball is moved back out of the character along y.
    pub nudge_y: i32,
    /// Whether the character loses a life.
    pub damaged: bool,
    /// The character's lives after the hit.
    pub health: i32,
    /// The health bar that is hidden: the one that showed the lives before the hit.
    pub hide_bar: Option<i32>,
}

/// A hit on a side of a character that still has lives bounces the ball back along the
/// axis of that side and moves the ball 10 pixels out; the character then loses a life
/// unless it is swinging its bat or still recovering from its last hit. Anything else leaves
/// the ball and the character alone.
pub open spec fn ball_hit_spec(hit: Option<Collision>, health: i32, swinging: bool, recovering: bool) -> BallHit {
    let side_hit = hit matches Some(Collision::Left) || hit matches Some(Collision::Right) || hit matches Some(
        Collision::Top,
    ) || hit matches Some(Collision::Bottom);
    if side_hit && health > 0 {
        let damaged = !swinging && !recovering;
        BallHit {
            reflect: if hit matches Some(Collision::Left) || hit matches Some(Collision::Right) {
                Some(Axis::X)
            } else {
                Some(Axis::Y)
            },
            nudge_x: match hit {
                Some(Collision::Right) => -10i32,
                Some(Collision::Left) => 10i32,
                _ => 0i32,
            },
            nudge_y: match hit {
                Some(Collision::Top) => -10i32,
                Some(Collision::Bottom) => 10i32,
                _ => 0i32,
            },
            damaged,
            health: if damaged {
                (health - 1) as i32
            } else {
                health
            },
            hide_bar: if damaged {
                Some(health)
            } else {
                None
            },
        }
    } else {
        BallHit { reflect: None, nudge_x: 0, nudge_y: 0, damaged: false, health, hide_bar: None }
    }
}

/// What a ball does to a character it collides with, from the side of the character's box
/// that the ball touches, the character's lives, whether it is swinging its bat, and
/// whether it is still recovering from its last hit.
pub fn ball_hit(hit: Option<Collision>, health: i32, swinging: bool, recovering: bool) -> (h: BallHit)
    ensures
        h == ball_hit_spec(hit, health, swinging, recovering),
{
    if health <= 0 {
        return BallHit { reflect: None, nudge_x: 0, nudge_y: 0, damaged: false, health, hide_bar: None };
    }
    let (reflect, nudge) = match hit {
        Some(Collision::Right) => (Axis::X, (-BALL_NUDGE, 0)),
        Some(Collision::Left) => (Axis::X, (BALL_NUDGE, 0)),
        Some(Collision::Top) => (Axis::Y, (0, -BALL_NUDGE)),
        Some(Collision::Bottom) => (Axis::Y, (0, BALL_NUDGE)),
        _ => {
            return BallHit { reflect: None, nudge_x: 0, nudge_y: 0, damaged: false, health, hide_bar: None };
        },
    };
    if !swinging && !recovering {
        BallHit {
            reflect: Some(reflect),
            nudge_x: nudge.0,
            nudge_y: nudge.1,
            damaged: true,
            health: health - 1,
            hide_bar: Some(health),
        }
    } else {
        BallHit {
            reflect: Some(reflect),
            nudge_x: nudge.0,
            nudge_y: nudge.1,
            damaged: false,
            health,
            hide_bar: None,
        }
    }
}

/// A hit takes at most one life, never from a character without lives, and never while it
/// swings or recovers.
pub proof fn law_hit_takes_at_most_one_life(
    hit: Option<Collision>,
    health: i32,
    swinging: bool,
    recovering: bool,
)
    ensures
        ({
            let h = ball_hit_spec(hit, health, swinging, recovering);
            &&& health - 1 <= h.health <= health
            &&& health >= 0 ==> h.health >= 0
            &&& (swinging || recovering) ==> h.health == health
            &&& h.damaged <==> h.health == health - 1
        }),
{
}

} // verus!
