use chess_engine::error::ChessError;
use chess_engine::game::Game;
use chess_engine::piece::{Piece, PieceType, Team};
use chess_engine::square::Square;

fn sq(label: &str) -> Square {
    Square::from(label).unwrap()
}

fn labels(game: &Game, from: &str) -> Vec<String> {
    let mut v = game.get_legal_moves(from).unwrap();
    v.sort();
    v
}

fn all_legal(game: &Game) -> Vec<(String, String)> {
    let mut out = Vec::new();
    for rank in 0..8 {
        for file in 0..8 {
            let from = Square::new(rank, file);
            for to in game.legal_moves(from).unwrap() {
                out.push((from.coords(), to.coords()));
            }
        }
    }
    out.sort();
    out
}

fn play(game: &mut Game, moves: &[(&str, &str)]) {
    for (from, to) in moves {
        game.move_piece(from, to).unwrap();
    }
}

/// Board text of an otherwise empty board, with the given pieces.
fn position(pieces: &[(&str, char)], flags: &str, ep: &str, turn: char) -> Game {
    let mut cells = vec!['.'; 64];
    for (label, c) in pieces {
        let s = sq(label);
        cells[s.rank() * 8 + s.file()] = *c;
    }
    let mut text: String = cells.into_iter().collect();
    text.push_str(flags);
    text.push_str(ep);
    text.push(turn);
    text.push('0');
    let mut game = Game::init();
    game.from_dump(text).unwrap();
    game
}

#[test]
fn opening_position_has_twenty_legal_moves() {
    let game = Game::init();
    let moves = all_legal(&game);
    assert_eq!(moves.len(), 20);
    let pawn_moves = moves.iter().filter(|(f, _)| f.ends_with('2')).count();
    let knight_moves = moves.iter().filter(|(f, _)| f == "b1" || f == "g1").count();
    assert_eq!(pawn_moves, 16);
    assert_eq!(knight_moves, 4);
    for file in ["a", "b", "c", "d", "e", "f", "g", "h"] {
        assert!(game.get_legal_moves(&format!("{}7", file)).unwrap().is_empty());
        assert!(game.get_legal_moves(&format!("{}8", file)).unwrap().is_empty());
    }
}

#[test]
fn opening_knight_and_pawn_targets() {
    let game = Game::init();
    assert_eq!(labels(&game, "g1"), vec!["f3", "h3"]);
    assert_eq!(labels(&game, "e2"), vec!["e3", "e4"]);
    assert!(game.get_legal_moves("e1").unwrap().is_empty());
    assert!(game.get_legal_moves("e4").unwrap().is_empty());
}

#[test]
fn legal_moves_never_hold_a_friendly_piece() {
    let mut game = Game::init();
    play(&mut game, &[("e2", "e4"), ("e7", "e5"), ("g1", "f3"), ("b8", "c6"), ("f1", "c4")]);
    for (_, to) in all_legal(&game) {
        let target = game.get_piece(sq(&to));
        assert!(!matches!(target, Some(p) if p.team() == game.turn()));
    }
}

#[test]
fn fools_mate_is_checkmate() {
    let mut game = Game::init();
    play(&mut game, &[("f2", "f3"), ("e7", "e5"), ("g2", "g4"), ("d8", "h4")]);
    assert_eq!(game.in_check("White"), Ok(true));
    assert_eq!(game.in_checkmate("White"), Ok(true));
    assert_eq!(game.in_checkmate("Black"), Ok(false));
    assert_eq!(game.move_num(), 4);
    let pairs = game.get_check_coords().unwrap();
    assert_eq!(pairs, vec![(sq("e1"), sq("h4"))]);
}

#[test]
fn opening_is_not_checkmate() {
    let game = Game::init();
    assert_eq!(game.in_checkmate("White"), Ok(false));
    assert_eq!(game.in_check("Black"), Ok(false));
    assert!(game.get_check_coords().unwrap().is_empty());
}

#[test]
fn double_advance_sets_en_passant_target_and_other_moves_clear_it() {
    let mut game = Game::init();
    game.move_piece("e2", "e4").unwrap();
    assert_eq!(game.en_passant_pawn, Some(sq("e4")));
    game.move_piece("g8", "f6").unwrap();
    assert_eq!(game.en_passant_pawn, None);
    game.move_piece("d2", "d3").unwrap();
    assert_eq!(game.en_passant_pawn, None);
}

#[test]
fn en_passant_only_on_the_next_ply() {
    let mut game = Game::init();
    play(&mut game, &[("e2", "e4"), ("a7", "a6"), ("e4", "e5"), ("d7", "d5")]);
    assert!(labels(&game, "e5").contains(&"d6".to_string()));
    let pairs = game.move_piece("e5", "d6").unwrap();
    assert_eq!(pairs, vec![(sq("e5"), sq("d6"))]);
    assert_eq!(game.get_piece(sq("d5")), None);
    assert_eq!(game.get_piece(sq("d6")), Some(Piece::new(PieceType::Pawn, Team::White)));

    let mut later = Game::init();
    play(&mut later, &[("e2", "e4"), ("a7", "a6"), ("e4", "e5"), ("d7", "d5"), ("h2", "h3"), ("h7", "h6")]);
    assert!(!labels(&later, "e5").contains(&"d6".to_string()));
    assert_eq!(later.move_piece("e5", "d6"), Err(ChessError::InvalidMove));
}

#[test]
fn white_castles_kingside_when_rights_and_path_allow() {
    let mut game = Game::init();
    assert!(!labels(&game, "e1").contains(&"g1".to_string()));
    play(&mut game, &[("e2", "e4"), ("e7", "e5"), ("g1", "f3"), ("b8", "c6"), ("f1", "c4"), ("g8", "f6")]);
    assert!(labels(&game, "e1").contains(&"g1".to_string()));
    let pairs = game.move_piece("e1", "g1").unwrap();
    assert_eq!(pairs, vec![(sq("e1"), sq("g1")), (sq("h1"), sq("f1"))]);
    assert_eq!(game.get_piece(sq("g1")), Some(Piece::new(PieceType::King, Team::White)));
    assert_eq!(game.get_piece(sq("f1")), Some(Piece::new(PieceType::Rook, Team::White)));
    assert_eq!(game.get_piece(sq("h1")), None);
    assert!(game.white_king_moved);
}

#[test]
fn castling_rights_stay_revoked_after_king_returns() {
    let mut game = Game::init();
    play(&mut game, &[("e2", "e4"), ("e7", "e5"), ("g1", "f3"), ("b8", "c6"), ("f1", "c4"), ("g8", "f6")]);
    play(&mut game, &[("e1", "f1"), ("a7", "a6"), ("f1", "e1"), ("a6", "a5")]);
    assert!(game.white_king_moved);
    assert!(!labels(&game, "e1").contains(&"g1".to_string()));
    assert_eq!(game.move_piece("e1", "g1"), Err(ChessError::InvalidMove));
}

#[test]
fn queenside_castling_needs_b1_empty() {
    let game = position(&[("e1", 'K'), ("a1", 'R'), ("b1", 'N'), ("e8", 'k')], "000000", "--", 'w');
    assert!(!labels(&game, "e1").contains(&"c1".to_string()));
    let game = position(&[("e1", 'K'), ("a1", 'R'), ("e8", 'k')], "000000", "--", 'w');
    assert!(labels(&game, "e1").contains(&"c1".to_string()));
    let mut played = game;
    let pairs = played.move_piece("e1", "c1").unwrap();
    assert_eq!(pairs, vec![(sq("e1"), sq("c1")), (sq("a1"), sq("d1"))]);
}

#[test]
fn cannot_castle_out_of_or_through_check() {
    let through = position(&[("e1", 'K'), ("h1", 'R'), ("e8", 'k'), ("f8", 'r')], "000000", "--", 'w');
    assert!(!labels(&through, "e1").contains(&"g1".to_string()));
    let out_of = position(&[("e1", 'K'), ("h1", 'R'), ("e8", 'k'), ("e7", 'r')], "000000", "--", 'w');
    assert!(!labels(&out_of, "e1").contains(&"g1".to_string()));
    let free = position(&[("e1", 'K'), ("h1", 'R'), ("e8", 'k'), ("a8", 'r')], "000000", "--", 'w');
    assert!(labels(&free, "e1").contains(&"g1".to_string()));
}

#[test]
fn pinned_piece_cannot_expose_its_king() {
    let game = position(&[("e1", 'K'), ("e2", 'B'), ("e8", 'k'), ("e7", 'r')], "111111", "--", 'w');
    assert!(game.get_legal_moves("e2").unwrap().is_empty());
    let king = labels(&game, "e1");
    assert_eq!(king, vec!["d1", "d2", "f1", "f2"]);
}

#[test]
fn snapshot_round_trip_keeps_legal_moves() {
    let mut game = Game::init();
    play(&mut game, &[("e2", "e4"), ("d7", "d5"), ("e4", "e5"), ("f7", "f5")]);
    let text = game.dump();
    let mut restored = Game::init();
    restored.from_dump(text.clone()).unwrap();
    assert_eq!(restored.dump(), text);
    assert_eq!(all_legal(&restored), all_legal(&game));
    assert_eq!(restored.move_num(), 4);
    assert!(labels(&restored, "e5").contains(&"f6".to_string()));
}

#[test]
fn opening_snapshot_text() {
    let game = Game::init();
    assert_eq!(
        game.dump(),
        "RNBQKBNRPPPPPPPP................................pppppppprnbqkbnr000000--w0"
    );
}

#[test]
fn snapshot_counter_is_decimal() {
    let mut game = Game::init();
    play(&mut game, &[("e2", "e4"), ("e7", "e5"), ("g1", "f3"), ("b8", "c6"), ("f1", "c4"), ("g8", "f6"), ("b1", "c3"), ("f8", "c5"), ("d2", "d3"), ("d7", "d6"), ("c1", "g5"), ("c8", "g4")]);
    assert!(game.dump().ends_with("w12"));
}

#[test]
fn malformed_snapshot_is_refused() {
    let mut game = Game::init();
    play(&mut game, &[("e2", "e4")]);
    let before = game.dump();
    assert_eq!(game.from_dump("garbage".to_string()), Err(ChessError::InvalidSnapshot));
    let mut bad = Game::init().dump();
    bad.replace_range(0..1, "x");
    assert_eq!(game.from_dump(bad), Err(ChessError::InvalidSnapshot));
    let mut too_big = Game::init().dump();
    too_big.pop();
    too_big.push_str("4294967296");
    assert_eq!(game.from_dump(too_big), Err(ChessError::InvalidSnapshot));
    let mut max = Game::init().dump();
    max.pop();
    max.push_str("4294967295");
    assert_eq!(game.dump(), before);
    game.from_dump(max).unwrap();
    assert_eq!(game.move_num(), u32::MAX);
}

#[test]
fn move_counter_stops_at_its_maximum() {
    let mut text = Game::init().dump();
    text.pop();
    text.push_str("4294967295");
    let mut game = Game::init();
    game.from_dump(text).unwrap();
    game.move_piece("e2", "e4").unwrap();
    assert_eq!(game.move_num(), u32::MAX);
}

#[test]
fn invalid_move_leaves_game_unchanged() {
    let mut game = Game::init();
    let before = game.dump();
    assert_eq!(game.move_piece("e2", "e5"), Err(ChessError::InvalidMove));
    assert_eq!(game.move_piece("e7", "e5"), Err(ChessError::InvalidMove));
    assert_eq!(game.move_piece("e3", "e4"), Err(ChessError::InvalidMove));
    assert_eq!(game.move_piece("z9", "e4"), Err(ChessError::InvalidCoordinate));
    assert_eq!(game.move_piece("e2", "e44"), Err(ChessError::InvalidCoordinate));
    assert_eq!(game.dump(), before);
    assert!(game.is_white_turn());
}

#[test]
fn turn_alternates_and_counter_advances() {
    let mut game = Game::init();
    assert!(game.is_white_turn());
    game.move_piece("e2", "e4").unwrap();
    assert!(game.is_black_turn());
    assert_eq!(game.move_num(), 1);
    game.move_piece("e7", "e5").unwrap();
    assert!(game.is_white_turn());
    assert_eq!(game.move_num(), 2);
}

#[test]
fn reset_returns_to_opening() {
    let mut game = Game::init();
    play(&mut game, &[("e2", "e4"), ("e7", "e5")]);
    game.reset();
    assert_eq!(game.dump(), Game::init().dump());
}

#[test]
fn missing_king_is_reported() {
    let game = position(&[("e1", 'K'), ("a2", 'P')], "111111", "--", 'w');
    assert_eq!(game.in_check("Black"), Err(ChessError::MissingKing));
    assert_eq!(game.in_checkmate("Black"), Err(ChessError::MissingKing));
    assert_eq!(game.get_check_coords(), Err(ChessError::MissingKing));
    let no_white = position(&[("e8", 'k'), ("a2", 'P')], "111111", "--", 'w');
    assert_eq!(no_white.get_legal_moves("a2"), Err(ChessError::MissingKing));
    let mut g = no_white;
    assert_eq!(g.move_piece("a2", "a3"), Err(ChessError::MissingKing));
}

#[test]
fn stalemate_is_reported_as_no_moves() {
    let game = position(&[("a8", 'k'), ("b6", 'Q'), ("h1", 'K')], "111111", "--", 'b');
    assert_eq!(game.in_check("Black"), Ok(false));
    assert_eq!(game.in_checkmate("Black"), Ok(true));
}

#[test]
fn invalid_team_name_is_refused() {
    let game = Game::init();
    assert_eq!(game.in_check("white"), Err(ChessError::InvalidTeamName));
    assert_eq!(game.in_checkmate("Red"), Err(ChessError::InvalidTeamName));
    assert_eq!(Team::from("Black"), Ok(Team::Black));
    assert_eq!(Team::White.name(), "White");
}

#[test]
fn promotion_replaces_pawn_on_last_rank() {
    let mut game = position(&[("e1", 'K'), ("e8", 'k'), ("a7", 'P')], "111111", "--", 'w');
    assert!(!game.has_last_rank_pawn());
    assert_eq!(game.replace_last_rank_pawn("Queen"), Err(ChessError::NoPromotablePawn));
    game.move_piece("a7", "a8").unwrap();
    assert!(game.has_last_rank_pawn());
    assert_eq!(game.replace_last_rank_pawn("Dragon"), Err(ChessError::InvalidPieceKindName));
    game.replace_last_rank_pawn("Queen").unwrap();
    assert_eq!(game.get_piece(sq("a8")), Some(Piece::new(PieceType::Queen, Team::White)));
    assert!(!game.has_last_rank_pawn());
}

#[test]
fn black_pawn_promotes_on_first_rank() {
    let mut game = position(&[("e1", 'K'), ("e8", 'k'), ("h2", 'p')], "111111", "--", 'b');
    game.move_piece("h2", "h1").unwrap();
    assert_eq!(game.find_last_rank_pawn(), Some(sq("h1")));
    game.replace_last_rank_pawn("Knight").unwrap();
    assert_eq!(game.get_piece(sq("h1")), Some(Piece::new(PieceType::Knight, Team::Black)));
}

#[test]
fn piece_kind_names() {
    assert_eq!(PieceType::from("Rook"), Ok(PieceType::Rook));
    assert_eq!(PieceType::from("Bishop"), Ok(PieceType::Bishop));
    assert_eq!(PieceType::from("rook"), Err(ChessError::InvalidPieceKindName));
}

#[test]
fn square_labels_round_trip() {
    let e4 = sq("e4");
    assert_eq!((e4.rank(), e4.file()), (3, 4));
    assert_eq!(e4.coords(), "e4");
    assert_eq!(Square::new(0, 0).coords(), "a1");
    assert_eq!(Square::new(7, 7).coords(), "h8");
    assert_eq!(Square::from("i1"), Err(ChessError::InvalidCoordinate));
    assert_eq!(Square::from("a9"), Err(ChessError::InvalidCoordinate));
    assert_eq!(Square::from("a"), Err(ChessError::InvalidCoordinate));
    assert_eq!(Square::from_usize(8, 0), Err(ChessError::InvalidCoordinate));
    assert_eq!(Square::from_i32(-1, 3), Err(ChessError::InvalidCoordinate));
    assert_eq!(Square::from_i32(2, 3), Ok(Square::new(2, 3)));
    assert_eq!(sq("a1").rank_diff(sq("c4")), 3);
    assert_eq!(sq("h1").file_diff(sq("c4")), 5);
}

#[test]
fn sliding_pieces_stop_at_first_piece() {
    let game = position(&[("d4", 'Q'), ("d6", 'p'), ("f4", 'P'), ("e1", 'K'), ("h8", 'k')], "111111", "--", 'w');
    let moves = game.get_possible_moves(sq("d4"));
    assert!(moves.contains(&sq("d6")));
    assert!(!moves.contains(&sq("d7")));
    assert!(!moves.contains(&sq("f4")));
    assert!(moves.contains(&sq("e4")));
    assert!(moves.contains(&sq("a7")));
    assert!(moves.contains(&sq("h8")));
    assert_eq!(game.get_legal_moves("d4").unwrap().len(), moves.len());
}

#[test]
fn en_passant_cannot_uncover_a_check_on_the_rank() {
    let game = position(&[("a5", 'K'), ("b5", 'P'), ("c5", 'p'), ("h5", 'r'), ("h8", 'k')], "111111", "c5", 'w');
    assert!(!labels(&game, "b5").contains(&"c6".to_string()));
    assert_eq!(labels(&game, "b5"), vec!["b6"]);
    let mut g = game;
    assert_eq!(g.move_piece("b5", "c6"), Err(ChessError::InvalidMove));
    let open = position(&[("a4", 'K'), ("b5", 'P'), ("c5", 'p'), ("h5", 'r'), ("h8", 'k')], "111111", "c5", 'w');
    assert_eq!(labels(&open, "b5"), vec!["b6", "c6"]);
}

#[test]
fn pawn_list_is_exact_after_the_en_passant_chance() {
    let mut game = Game::init();
    play(&mut game, &[("e2", "e4"), ("a7", "a6"), ("e4", "e5"), ("d7", "d5"), ("a2", "a3"), ("h7", "h6")]);
    assert_eq!(game.get_legal_moves("e5").unwrap(), vec!["e6"]);
}

#[test]
fn only_blocking_moves_while_in_check() {
    let mut game = Game::init();
    play(&mut game, &[("d2", "d4"), ("e7", "e6"), ("h2", "h3"), ("f8", "b4")]);
    assert_eq!(game.get_legal_moves("c2").unwrap(), vec!["c3"]);
    assert!(game.get_legal_moves("g1").unwrap().is_empty());
    assert!(game.get_legal_moves("a2").unwrap().is_empty());
}

#[test]
fn king_list_is_exact_when_queenside_is_blocked() {
    let mut game = Game::init();
    play(&mut game, &[("d2", "d4"), ("a7", "a6"), ("c1", "f4"), ("a6", "a5"), ("d1", "d2"), ("a5", "a4")]);
    let mut kings = game.get_king_moves(sq("e1"));
    kings.sort_by_key(|s| (s.rank(), s.file()));
    let want: Vec<Square> = ["d1", "f1", "d2", "e2", "f2"].iter().map(|l| sq(l)).collect();
    assert_eq!(kings, want);
    assert_eq!(game.get_legal_moves("e1").unwrap(), vec!["d1"]);
}

#[test]
fn generators_list_each_cell_once() {
    let game = Game::init();
    let knight = game.get_knight_moves(sq("g1"));
    assert_eq!(knight.len(), 3);
    assert_eq!(game.get_knight_moves(sq("d4")).len(), 8);
    assert_eq!(game.get_diagonal_moves(sq("c1")).len(), 2);
    assert_eq!(game.get_straight_moves(sq("a1")).len(), 2);
    assert_eq!(game.get_queen_moves(sq("d1")).len(), 5);
    // A loaded position whose en-passant pawn has a piece behind it.
    let odd = position(&[("e5", 'P'), ("d5", 'p'), ("d6", 'n'), ("e1", 'K'), ("h8", 'k')], "111111", "d5", 'w');
    assert_eq!(labels(&odd, "e5"), vec!["d6", "e6"]);
}
