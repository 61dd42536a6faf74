use vstd::prelude::*;

use crate::decimal::{parse_i32, parse_integer};
use vstd::utf8::encode_utf8;

verus! {

/// A character of the Unicode `White_Space` property.
pub open spec fn is_white_space(c: char) -> bool {
    let u = c as u32;
    ||| 0x09 <= u <= 0x0d
    ||| u == 0x20
    ||| u == 0x85
    ||| u == 0xa0
    ||| u == 0x1680
    ||| 0x2000 <= u <= 0x200a
    ||| u == 0x2028
    ||| u == 0x2029
    ||| u == 0x202f
    ||| u == 0x205f
    ||| u == 0x3000
}

/// The text without the whitespace at its start.
pub open spec fn trimmed_start(s: Seq<char>) -> Seq<char>
    decreases s.len(),
{
    if s.len() > 0 && is_white_space(s[0]) {
        trimmed_start(s.drop_first())
    } else {
        s
    }
}

/// The text without the whitespace at its end.
pub open spec fn trimmed_end(s: Seq<char>) -> Seq<char>
    decreases s.len(),
{
    if s.len() > 0 && is_white_space(s.last()) {
        trimmed_end(s.drop_last())
    } else {
        s
    }
}

/// The text without the whitespace at either end.
pub open spec fn trimmed(s: Seq<char>) -> Seq<char> {
    trimmed_end(trimmed_start(s))
}

/// `str::trim`: the text without the whitespace (Unicode `White_Space`) at either end.
#[verifier::external_body]
fn trim_text<'a>(s: &'a str) -> (t: &'a str)
    ensures
        t@ == trimmed(s@),
{
    s.trim()
}

/// The number that a text states, as `str::parse::<i32>` reads its UTF-8 bytes.
pub open spec fn stated_number(text: Seq<char>) -> Option<int> {
    parse_integer(encode_utf8(text), true, i32::MIN as int, i32::MAX as int)
}

/// The map that a typed line picks: its number once the whitespace round it is gone, when that
/// number is 1 to 4.
pub open spec fn picked_map(line: Seq<char>) -> Option<i32> {
    match stated_number(trimmed(line)) {
        Some(i) => if 1 <= i <= 4 {
            Some(i as i32)
        } else {
            None
        },
        None => None,
    }
}

/// Reads the map number from a typed line: `Some` of it when the line, without the whitespace
/// round it, is a number from 1 to 4; `None` when the player has to try again.
pub fn pick_map(line: &str) -> (map: Option<i32>)
    ensures
        map == picked_map(line@),
        map matches Some(i) ==> 1 <= i <= 4,
{
    let t = trim_text(line);
    match parse_i32(t.as_bytes()) {
        Some(i) => {
            if i > 0 && i <= 4 {
                Some(i)
            } else {
                None
            }
        },
        None => None,
    }
}

/// The single-player settings that the difficulty prompt sets.
pub struct GameSettings {
    /// The chance, in percent, that a computer player's checks pass.
    pub difficulty: i32,
    /// Every computer player hunts the player.
    pub bully_mode: bool,
}

/// What the difficulty prompt does with a text: a level from 1 to 5 sets the difficulty to 20
/// times the level; any other number sets it to 100 and turns on bully mode; a text that is no
/// number changes nothing. The result says whether the text was a number.
pub fn process_difficulty_input(input_text: &str, settings: &mut GameSettings) -> (accepted: bool)
    ensures
        accepted == (stated_number(input_text@) is Some),
        match stated_number(input_text@) {
            Some(i) => if 1 <= i <= 5 {
                final(settings).difficulty == i * 20 && final(settings).bully_mode == old(
                    settings,
                ).bully_mode
            } else {
                final(settings).difficulty == 100 && final(settings).bully_mode
            },
            None => *final(settings) == *old(settings),
        },
        accepted ==> 20 <= final(settings).difficulty <= 100 && final(settings).difficulty % 20 == 0,
{
    match parse_i32(input_text.as_bytes()) {
        Some(i) => {
            if i > 0 && i <= 5 {
                settings.difficulty = i * 20;
            } else {
                settings.difficulty = 100;
                settings.bully_mode = true;
            }
            true
        },
        None => false,
    }
}

} // verus!
