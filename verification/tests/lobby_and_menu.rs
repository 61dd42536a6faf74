use slugout::game_messages::{read_update, update_body, update_message, UpdateKind};
use slugout::decimal::{parse_i32, parse_u64, write_decimal};
use slugout::lobby::{
    check_end_game, determine_start_pos, join_client_list, player_number, split_client_list,
    username, LobbyPlayer,
};
use slugout::menu::{pick_map, process_difficulty_input, GameSettings};
use slugout::text::bytes_equal;

#[test]
fn client_list_round_trip() {
    let entries = vec![b"user1".to_vec(), Vec::new(), b"{\"x\":1}".to_vec()];
    let joined = join_client_list(&entries);
    assert_eq!(joined, b"user1$${\"x\":1}$".to_vec());
    assert_eq!(split_client_list(&joined), entries);
    assert_eq!(join_client_list(&Vec::new()), Vec::<u8>::new());
    assert_eq!(split_client_list(b""), Vec::<Vec<u8>>::new());
}

#[test]
fn split_drops_the_piece_after_the_last_end() {
    assert_eq!(split_client_list(b"a$bc$tail"), vec![b"a".to_vec(), b"bc".to_vec()]);
    assert_eq!(split_client_list(b"no end"), Vec::<Vec<u8>>::new());
}

#[test]
fn usernames_carry_their_number() {
    assert_eq!(username(1), b"user1".to_vec());
    assert_eq!(username(0), b"user0".to_vec());
    assert_eq!(username(1234), b"user1234".to_vec());
    for n in [0u64, 1, 4, 10, 99, 12345, u64::MAX] {
        assert_eq!(player_number(&username(n)), Some(n));
    }
    assert_eq!(username(u64::MAX), b"user18446744073709551615".to_vec());
}

#[test]
fn player_number_of_other_names() {
    assert_eq!(player_number(b"user7"), Some(7));
    assert_eq!(player_number(b"abcd42"), Some(42));
    assert_eq!(player_number(b"usr"), None);
    assert_eq!(player_number(b"user"), None);
    assert_eq!(player_number(b"userx"), None);
    assert_eq!(player_number(b"user-1"), None);
    assert_eq!(player_number(b"user+8"), Some(8));
    assert_eq!(player_number(b"user18446744073709551616"), None);
}

#[test]
fn start_positions() {
    assert_eq!(determine_start_pos(0), (0, 0));
    assert_eq!(determine_start_pos(1), (-225, 225));
    assert_eq!(determine_start_pos(2), (225, 225));
    assert_eq!(determine_start_pos(3), (-225, -225));
    assert_eq!(determine_start_pos(4), (225, -225));
}

fn player(address: &str, health: i32) -> LobbyPlayer {
    LobbyPlayer { address: address.as_bytes().to_vec(), health }
}

fn addresses(players: &[LobbyPlayer]) -> Vec<String> {
    players.iter().map(|p| String::from_utf8(p.address.clone()).unwrap()).collect()
}

#[test]
fn dead_players_leave_and_game_goes_on() {
    let mut players = vec![player("a", 3), player("b", 0), player("c", 1), player("b", 2)];
    let over = check_end_game(&mut players);
    assert!(!over);
    assert_eq!(addresses(&players), vec!["a".to_string(), "c".to_string()]);
    assert_eq!(players[0].health, 3);
    assert_eq!(players[1].health, 1);
}

#[test]
fn game_is_over_when_nobody_is_left() {
    let mut players = vec![player("a", 0), player("b", 0)];
    assert!(check_end_game(&mut players));
    assert!(players.is_empty());
    let mut nobody: Vec<LobbyPlayer> = Vec::new();
    assert!(check_end_game(&mut nobody));
    let mut alive = vec![player("a", 2)];
    assert!(!check_end_game(&mut alive));
    assert_eq!(alive.len(), 1);
}

#[test]
fn decimal_text() {
    assert_eq!(write_decimal(0), b"0".to_vec());
    assert_eq!(write_decimal(907), b"907".to_vec());
    assert_eq!(parse_u64(b"907"), Some(907));
    assert_eq!(parse_u64(b"+5"), Some(5));
    assert_eq!(parse_u64(b"-5"), None);
    assert_eq!(parse_u64(b""), None);
    assert_eq!(parse_u64(b"+"), None);
    assert_eq!(parse_u64(b"18446744073709551615"), Some(u64::MAX));
    assert_eq!(parse_u64(b"18446744073709551616"), None);
    assert_eq!(parse_i32(b"-2147483648"), Some(i32::MIN));
    assert_eq!(parse_i32(b"2147483647"), Some(i32::MAX));
    assert_eq!(parse_i32(b"2147483648"), None);
    assert_eq!(parse_i32(b"-2147483649"), None);
    assert_eq!(parse_i32(b"-0"), Some(0));
    assert_eq!(parse_i32(b"-"), None);
    assert_eq!(parse_i32(b" 3"), None);
    assert_eq!(parse_i32(b"007"), Some(7));
    for text in ["12", "-7", "+3", "x", "", "99999999999", "1 ", "٣"] {
        assert_eq!(parse_i32(text.as_bytes()), text.parse::<i32>().ok());
        assert_eq!(parse_u64(text.as_bytes()), text.parse::<u64>().ok());
    }
}

#[test]
fn map_number_from_typed_line() {
    assert_eq!(pick_map("3\n"), Some(3));
    assert_eq!(pick_map("  1 \r\n"), Some(1));
    assert_eq!(pick_map("\u{3000}4\u{a0}"), Some(4));
    assert_eq!(pick_map("4"), Some(4));
    assert_eq!(pick_map("0"), None);
    assert_eq!(pick_map("5"), None);
    assert_eq!(pick_map("-1"), None);
    assert_eq!(pick_map("two"), None);
    assert_eq!(pick_map(""), None);
    assert_eq!(pick_map("1 2"), None);
}

#[test]
fn difficulty_levels() {
    let mut s = GameSettings { difficulty: 50, bully_mode: false };
    assert!(process_difficulty_input("3", &mut s));
    assert_eq!((s.difficulty, s.bully_mode), (60, false));
    assert!(process_difficulty_input("5", &mut s));
    assert_eq!((s.difficulty, s.bully_mode), (100, false));
    assert!(process_difficulty_input("1", &mut s));
    assert_eq!((s.difficulty, s.bully_mode), (20, false));
}

#[test]
fn other_numbers_turn_on_bully_mode() {
    let mut s = GameSettings { difficulty: 40, bully_mode: false };
    assert!(process_difficulty_input("9", &mut s));
    assert_eq!((s.difficulty, s.bully_mode), (100, true));
    let mut t = GameSettings { difficulty: 40, bully_mode: false };
    assert!(process_difficulty_input("0", &mut t));
    assert_eq!((t.difficulty, t.bully_mode), (100, true));
    assert!(process_difficulty_input("2", &mut t));
    assert_eq!((t.difficulty, t.bully_mode), (40, true));
}

#[test]
fn text_difficulty_changes_nothing() {
    let mut s = GameSettings { difficulty: 40, bully_mode: false };
    assert!(!process_difficulty_input("hard", &mut s));
    assert!(!process_difficulty_input(" 3", &mut s));
    assert!(!process_difficulty_input("", &mut s));
    assert_eq!((s.difficulty, s.bully_mode), (40, false));
}

#[test]
fn byte_strings_compare() {
    assert!(bytes_equal(b"abc", b"abc"));
    assert!(!bytes_equal(b"abc", b"abd"));
    assert!(!bytes_equal(b"ab", b"abc"));
    assert!(bytes_equal(b"", b""));
}

#[test]
fn game_updates_carry_their_kind() {
    let m = update_message(UpdateKind::PlayerMoved, true, b"{\"health\":3}");
    assert_eq!(m, b"PLAFC{\"health\":3}".to_vec());
    assert_eq!(read_update(&m, true), Some(UpdateKind::PlayerMoved));
    assert_eq!(read_update(&m, false), None);
    assert_eq!(update_body(&m), b"{\"health\":3}".to_vec());
    assert_eq!(update_message(UpdateKind::BallMoved, false, b"[]"), b"BALFS[]".to_vec());
    assert_eq!(update_message(UpdateKind::BatMoved, false, b""), b"BATFS".to_vec());
    assert_eq!(update_message(UpdateKind::PlayerHit, false, b"x"), b"PHIFCx".to_vec());
    assert_eq!(read_update(b"PHIFC", false), Some(UpdateKind::PlayerHit));
    assert_eq!(read_update(b"PHIFC", true), Some(UpdateKind::PlayerHit));
    assert_eq!(read_update(b"BATFC", true), Some(UpdateKind::BatMoved));
    assert_eq!(read_update(b"BALFC1", true), Some(UpdateKind::BallMoved));
    assert_eq!(read_update(b"PLAF", true), None);
    assert_eq!(read_update(b"", false), None);
    assert_eq!(read_update(b"XXXXX", false), None);
}
