//! Game logic of Slugout: pathfinding, NPC decisions, collision responses,
//! power-ups, the lobby handshake protocol and its AES framing.

pub mod aes_framing;
pub mod basic_npc;
pub mod behavior_tree;
pub mod combat;
pub mod decimal;
pub mod game_messages;
pub mod grid;
pub mod handshake;
pub mod lobby;
pub mod menu;
pub mod movement;
pub mod npc;
pub mod pathfinding;
pub mod powerups;
pub mod rsa_keys;
pub mod search_costs;
pub mod swing;
pub mod text;
