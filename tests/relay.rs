use chess_engine::relay::{JoinOutcome, Rooms};

#[test]
fn first_player_opens_a_room_with_its_rules() {
    let mut rooms = Rooms::new();
    assert_eq!(rooms.get_room_rules("r1"), None);
    assert_eq!(rooms.join_room("r1", "alice", "standard"), JoinOutcome::Joined);
    assert_eq!(rooms.get_room_rules("r1"), Some("standard".to_string()));
    assert_eq!(rooms.clients_count, 1);
}

#[test]
fn second_player_keeps_the_rules_and_third_is_refused() {
    let mut rooms = Rooms::new();
    rooms.join_room("r1", "alice", "standard");
    assert_eq!(rooms.join_room("r1", "bob", "other"), JoinOutcome::Joined);
    assert_eq!(rooms.get_room_rules("r1"), Some("standard".to_string()));
    assert_eq!(rooms.join_room("r1", "carol", "standard"), JoinOutcome::Full);
    assert_eq!(rooms.clients_count, 2);
    assert_eq!(rooms.rooms[0].players, vec!["alice".to_string(), "bob".to_string()]);
}

#[test]
fn room_is_removed_when_both_players_leave() {
    let mut rooms = Rooms::new();
    rooms.join_room("r1", "alice", "standard");
    rooms.join_room("r1", "bob", "standard");
    rooms.join_room("r2", "dave", "blitz");
    assert!(!rooms.leave_room("r1", "alice"));
    assert_eq!(rooms.get_room_rules("r1"), Some("standard".to_string()));
    assert!(rooms.leave_room("r1", "bob"));
    assert_eq!(rooms.get_room_rules("r1"), None);
    assert_eq!(rooms.get_room_rules("r2"), Some("blitz".to_string()));
    assert_eq!(rooms.clients_count, 1);
}

#[test]
fn leaving_an_unknown_room_changes_nothing() {
    let mut rooms = Rooms::new();
    rooms.join_room("r1", "alice", "standard");
    assert!(!rooms.leave_room("nope", "alice"));
    assert_eq!(rooms.clients_count, 1);
    assert_eq!(rooms.get_room_rules("r1"), Some("standard".to_string()));
}
