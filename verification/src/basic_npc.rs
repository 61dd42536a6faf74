use vstd::prelude::*;

use crate::npc::{toward_spec, Sign};

verus! {

/// The states of the single-NPC arena: chasing, running away, or standing still.
#[derive(Clone, Copy, PartialEq, Eq, Debug, Structural)]
pub enum States {
    Aggression,
    Evade,
    Idle,
}

impl States {
    /// Wakes an idle NPC up: an idle NPC starts running away, any other keeps its state.
    pub fn to_aggression(&mut self)
        ensures
            *final(self) == (if *old(self) == States::Idle {
                States::Evade
            } else {
                *old(self)
            }),
    {
        if *self == States::Idle {
            *self = States::Evade;
        }
    }
}

/// Speed change, in pixels per second, of a basic NPC's step.
pub const BASIC_PUSH: i32 = 10;

fn step_toward(side: Sign) -> (d: i32)
    ensures
        d as int == toward_spec(side, 10),
{
    match side {
        Sign::Positive => BASIC_PUSH,
        Sign::Negative => -BASIC_PUSH,
        Sign::Zero => 0,
    }
}

/// The change of velocity of an NPC walking straight to the player, where `side_x` and
/// `side_y` tell on which side of the NPC the player is.
pub fn approach_player(side_x: Sign, side_y: Sign) -> (d: (i32, i32))
    ensures
        (d.0 as int, d.1 as int) == (toward_spec(side_x, 10), toward_spec(side_y, 10)),
{
    (step_toward(side_x), step_toward(side_y))
}

/// The change of velocity of an NPC walking straight to the ball, where `side_x` and
/// `side_y` tell on which side of the NPC the ball is.
pub fn approach_ball(side_x: Sign, side_y: Sign) -> (d: (i32, i32))
    ensures
        (d.0 as int, d.1 as int) == (toward_spec(side_x, 10), toward_spec(side_y, 10)),
{
    (step_toward(side_x), step_toward(side_y))
}

/// The change of velocity of an NPC running straight away from the ball, where `side_x`
/// and `side_y` tell on which side of the NPC the ball is.
pub fn evade_ball(side_x: Sign, side_y: Sign) -> (d: (i32, i32))
    ensures
        (d.0 as int, d.1 as int) == (-toward_spec(side_x, 10), -toward_spec(side_y, 10)),
{
    (-step_toward(side_x), -step_toward(side_y))
}

} // verus!
