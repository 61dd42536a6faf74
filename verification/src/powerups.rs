use vstd::prelude::*;

use crate::movement::Collision;

verus! {

/// The power-ups lying in the arena.
#[derive(Clone, Copy, PartialEq, Eq, Debug, Structural)]
pub enum PowerUpKind {
    /// A bigger bat and hitbox.
    BigBat,
    /// NPCs move the wrong way.
    Confusion,
    /// The player and the bat cannot be seen.
    Invisibility,
}

/// A power-up in the arena: what it gives and whether it can still be picked up.
#[derive(Clone, Copy, PartialEq, Eq, Debug, Structural)]
pub struct PowerUp {
    pub kind: PowerUpKind,
    pub active: bool,
}

/// The name a power-up goes by.
pub fn power_up_name(kind: PowerUpKind) -> (name: &'static str)
    ensures
        kind == PowerUpKind::BigBat ==> name@ == "bigbat"@,
        kind == PowerUpKind::Confusion ==> name@ == "confusion"@,
        kind == PowerUpKind::Invisibility ==> name@ == "invisibility"@,
{
    match kind {
        PowerUpKind::BigBat => "bigbat",
        PowerUpKind::Confusion => "confusion",
        PowerUpKind::Invisibility => "invisibility",
    }
}

/// A power-up placed in the arena at the start of a game: what it gives, where it lies
/// (arena coordinates, origin at the centre), and its colour as red, green and blue bytes.
#[derive(Clone, Copy, PartialEq, Eq, Debug, Structural)]
pub struct PowerUpSpawn {
    pub kind: PowerUpKind,
    pub x: i32,
    pub y: i32,
    pub red: u8,
    pub green: u8,
    pub blue: u8,
}

/// The power-ups of a new game: a big bat at (80, -80), confusion at (220, 130) and
/// invisibility at (-200, -230).
pub fn spawn_powerups() -> (spawns: Vec<PowerUpSpawn>)
    ensures
        spawns@ == seq![
            PowerUpSpawn { kind: PowerUpKind::BigBat, x: 80, y: -80i32, red: 240, green: 140, blue: 100 },
            PowerUpSpawn { kind: PowerUpKind::Confusion, x: 220, y: 130, red: 100, green: 240, blue: 100 },
            PowerUpSpawn {
                kind: PowerUpKind::Invisibility,
                x: -200i32,
                y: -230i32,
                red: 100,
                green: 100,
                blue: 240,
            },
        ],
{
    let mut spawns: Vec<PowerUpSpawn> = Vec::new();
    spawns.push(
        PowerUpSpawn { kind: PowerUpKind::BigBat, x: 80, y: -80, red: 240, green: 140, blue: 100 },
    );
    spawns.push(
        PowerUpSpawn { kind: PowerUpKind::Confusion, x: 220, y: 130, red: 100, green: 240, blue: 100 },
    );
    spawns.push(
        PowerUpSpawn {
            kind: PowerUpKind::Invisibility,
            x: -200,
            y: -230,
            red: 100,
            green: 100,
            blue: 240,
        },
    );
    assert(spawns@ =~= seq![
        PowerUpSpawn { kind: PowerUpKind::BigBat, x: 80, y: -80i32, red: 240, green: 140, blue: 100 },
        PowerUpSpawn { kind: PowerUpKind::Confusion, x: 220, y: 130, red: 100, green: 240, blue: 100 },
        PowerUpSpawn {
            kind: PowerUpKind::Invisibility,
            x: -200i32,
            y: -230i32,
            red: 100,
            green: 100,
            blue: 240,
        },
    ]);
    spawns
}

/// The player picks up a power-up when an NPC is in the arena, the power-up is still there,
/// the player's box touches a side of it, and the player holds no power-up.
pub open spec fn picks_up(
    holding: Option<PowerUpKind>,
    powerup: PowerUp,
    hit: Option<Collision>,
    npc_present: bool,
) -> bool {
    &&& npc_present
    &&& powerup.active
    &&& (hit matches Some(Collision::Left) || hit matches Some(Collision::Right) || hit matches Some(
        Collision::Top,
    ) || hit matches Some(Collision::Bottom))
    &&& holding is None
}

/// Lets the player pick up a power-up it runs into: the player then holds it and it leaves
/// the arena. Tells whether it was picked up.
pub fn player_powerups(
    holding: &mut Option<PowerUpKind>,
    powerup: &mut PowerUp,
    hit: Option<Collision>,
    npc_present: bool,
) -> (picked: bool)
    ensures
        picked == picks_up(*old(holding), *old(powerup), hit, npc_present),
        picked == (npc_present && old(powerup).active && *old(holding) == None::<PowerUpKind> && (
        hit matches Some(c) && c != Collision::Inside)),
        picked ==> *final(holding) == Some(old(powerup).kind) && *final(powerup) == (PowerUp {
            kind: old(powerup).kind,
            active: false,
        }),
        !picked ==> *final(holding) == *old(holding) && *final(powerup) == *old(powerup),
{
    if !npc_present || !powerup.active || holding.is_some() {
        return false;
    }
    match hit {
        Some(Collision::Left) | Some(Collision::Right) | Some(Collision::Top) | Some(
            Collision::Bottom,
        ) => {
            *holding = Some(powerup.kind);
            powerup.active = false;
            true
        },
        _ => false,
    }
}

/// A player holding nothing picks up an active power-up, with an NPC in the arena, when it
/// touches any of the power-up's four sides, and not when it touches nothing or lies inside.
pub proof fn law_any_side_picks_up(powerup: PowerUp, hit: Option<Collision>)
    requires
        powerup.active,
    ensures
        picks_up(None, powerup, hit, true) == (hit matches Some(c) && c != Collision::Inside),
        !picks_up(None, powerup, hit, false),
        !picks_up(None, PowerUp { active: false, ..powerup }, hit, true),
{
}

/// A power-up is picked up at most once: once picked, it is no longer there to pick.
pub proof fn law_picked_once(
    holding: Option<PowerUpKind>,
    powerup: PowerUp,
    hit: Option<Collision>,
    npc_present: bool,
    later_holding: Option<PowerUpKind>,
    later_hit: Option<Collision>,
    later_npc: bool,
)
    requires
        picks_up(holding, powerup, hit, npc_present),
    ensures
        !picks_up(later_holding, (PowerUp { kind: powerup.kind, active: false }), later_hit, later_npc),
{
}

} // verus!
