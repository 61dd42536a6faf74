use vstd::prelude::*;

verus! {

/// What the player's bat remembers of the mouse button between frames.
#[derive(Clone, Copy, PartialEq, Eq, Debug, Structural)]
pub struct SwingState {
    /// The button is held down (the bat is drawn back).
    pub pressed: bool,
    /// The button was let go and the bat has not been put back yet.
    pub transformed: bool,
    /// The button was let go and the swing has not struck yet.
    pub just_released: bool,
}

/// A state the bat can be in: a swing that has not struck has its button let go and is
/// still shown swinging.
pub open spec fn swing_state_wf(s: SwingState) -> bool {
    s.just_released ==> !s.pressed && s.transformed
}

/// The bat at rest, before any press.
pub fn swing_at_rest() -> (s: SwingState)
    ensures
        s == (SwingState { pressed: false, transformed: false, just_released: false }),
        swing_state_wf(s),
{
    SwingState { pressed: false, transformed: false, just_released: false }
}

/// How the bat is drawn in a frame.
#[derive(Clone, Copy, PartialEq, Eq, Debug, Structural)]
pub enum BatPose {
    /// Held back, level with the ground.
    Horizontal,
    /// Upright again after a swing.
    Upright,
    /// As it was.
    Unchanged,
}

/// One frame of the bat: the state it keeps, how it is drawn, and whether it strikes the
/// balls it touches in this frame.
#[derive(Clone, Copy, PartialEq, Eq, Debug, Structural)]
pub struct SwingStep {
    pub state: SwingState,
    pub pose: BatPose,
    pub strike: bool,
}

/// The state after the mouse events of a frame: a press draws the bat back; a release of a
/// held button lets it swing.
pub open spec fn after_events(s: SwingState, just_pressed: bool, just_released: bool) -> SwingState {
    if just_pressed {
        SwingState { pressed: true, transformed: false, just_released: false }
    } else if just_released && s.pressed {
        SwingState { pressed: false, transformed: true, just_released: true }
    } else {
        s
    }
}

/// One frame of the bat: the button is read, the pose follows the state, and a swing whose
/// button was let go strikes once while the cursor is in the window, which ends the swing.
pub open spec fn swing_step_spec(
    s: SwingState,
    just_pressed: bool,
    just_released: bool,
    cursor_inside: bool,
) -> SwingStep {
    let t = after_events(s, just_pressed, just_released);
    let pose = if t.pressed {
        BatPose::Horizontal
    } else if t.transformed {
        BatPose::Upright
    } else {
        BatPose::Unchanged
    };
    let strike = cursor_inside && t.just_released;
    SwingStep {
        state: if cursor_inside && t.just_released {
            SwingState { pressed: t.pressed, transformed: false, just_released: false }
        } else {
            t
        },
        pose,
        strike,
    }
}

/// Runs one frame of the player's bat.
pub fn swing_step(s: SwingState, just_pressed: bool, just_released: bool, cursor_inside: bool) -> (step:
    SwingStep)
    ensures
        step == swing_step_spec(s, just_pressed, just_released, cursor_inside),
        swing_state_wf(s) ==> swing_state_wf(step.state),
{
    let mut t = s;
    if just_pressed {
        t = SwingState { pressed: true, transformed: false, just_released: false };
    } else if just_released && t.pressed {
        t = SwingState { pressed: false, transformed: true, just_released: true };
    }
    let pose = if t.pressed {
        BatPose::Horizontal
    } else if t.transformed {
        BatPose::Upright
    } else {
        BatPose::Unchanged
    };
    let strike = cursor_inside && t.just_released;
    if strike {
        t.just_released = false;
        t.transformed = false;
    }
    SwingStep { state: t, pose, strike }
}

/// A swing strikes at most once: after a strike, no frame strikes again until the button is
/// pressed anew.
pub proof fn law_one_strike_per_swing(
    s: SwingState,
    just_pressed: bool,
    just_released: bool,
    cursor_inside: bool,
    later_released: bool,
    later_inside: bool,
)
    requires
        swing_state_wf(s),
        swing_step_spec(s, just_pressed, just_released, cursor_inside).strike,
    ensures
        !swing_step_spec(
            swing_step_spec(s, just_pressed, just_released, cursor_inside).state,
            false,
            later_released,
            later_inside,
        ).strike,
{
}

/// A strike needs a release of a held button: the frame that strikes either saw the release
/// or follows one whose swing has not struck yet.
pub proof fn law_strike_needs_release(
    s: SwingState,
    just_pressed: bool,
    just_released: bool,
    cursor_inside: bool,
)
    requires
        swing_step_spec(s, just_pressed, just_released, cursor_inside).strike,
    ensures
        !just_pressed,
        s.just_released || (just_released && s.pressed),
        cursor_inside,
{
}

/// The speed, in pixels per second, at which the bat sends a ball: 500, halved with backspin
/// (Q held), one and a half times with topspin (E held).
pub open spec fn hit_speed_spec(backspin: bool, topspin: bool) -> int {
    500 * (if backspin {
        1int
    } else {
        2int
    }) * (if topspin {
        3int
    } else {
        2int
    }) / 4
}

/// The speed at which the player's bat sends a ball, by the spin keys held.
pub fn hit_speed(backspin: bool, topspin: bool) -> (speed: u32)
    ensures
        speed == hit_speed_spec(backspin, topspin),
        !backspin && !topspin ==> speed == 500,
        backspin && !topspin ==> speed == 250,
        !backspin && topspin ==> speed == 750,
        backspin && topspin ==> speed == 375,
{
    let half: u32 = if backspin {
        1
    } else {
        2
    };
    let boost: u32 = if topspin {
        3
    } else {
        2
    };
    500 * half * boost / 4
}

} // verus!
