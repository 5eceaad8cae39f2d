//! Check detection, the legality filter, checkmate and the check highlight.

use vstd::prelude::*;

use crate::error::ChessError;
use crate::game::Game;
use crate::movegen::{all_wf, file_delta, lemma_push_no_duplicates, line_dist, rank_delta, sign, step};
use crate::piece::{opponent, parse_team, Piece, PieceType, Team};
use crate::square::{lemma_label_round_trip, parse_label, Square};

verus! {

broadcast use vstd::seq_lib::lemma_seq_contains_after_push;

/// `s` comes before rank `rank`, file `file` in rank-then-file order.
pub open spec fn scanned(s: Square, rank: int, file: int) -> bool {
    s.rank < rank || (s.rank == rank && s.file < file)
}

/// The cell midway between a castling king's origin and target: the cell
/// that it passes over.
pub open spec fn castle_mid(s: Square, t: Square) -> Square {
    Square { rank: s.rank, file: ((s.file + t.file) / 2) as usize }
}

/// Some string of `v` reads `l`.
pub open spec fn lists_label(v: Seq<String>, l: Seq<char>) -> bool {
    exists|i: int| 0 <= i < v.len() && #[trigger] v[i]@ == l
}

impl Game {
    /// `l` is the label of a legal target of the piece on `s`.
    pub open spec fn is_legal_label(self, s: Square, l: Seq<char>) -> bool {
        exists|t: Square| t.wf() && self.is_legal_move(s, t) && #[trigger] t.label() == l
    }

    /// The piece on `a` can move onto a cell that holds `team`'s king.
    pub open spec fn attacks_king(self, a: Square, team: Team) -> bool {
        exists|k: Square| k.wf() && #[trigger] self.king_at(k, team) && self.possible_move(a, k)
    }

    /// Some piece of `team`'s opponent attacks a king of `team`.
    pub open spec fn team_in_check(self, team: Team) -> bool {
        exists|a: Square|
            a.wf() && #[trigger] self.owned_by(a, opponent(team)) && self.attacks_king(a, team)
    }

    /// A king moving more than one file: a castling move.
    pub open spec fn castling_attempt(self, s: Square, t: Square) -> bool {
        self.at(s) matches Some(p) && p.piece_type == PieceType::King && s.file_dist(t) > 1
    }

    /// `t` is a legal target of the piece on `s`: the piece belongs to the side
    /// to move, `t` is a possible move, the scratch position after the move
    /// leaves the mover's king unattacked, and a castling king is not in check
    /// and does not pass over an attacked cell.
    pub open spec fn is_legal_move(self, s: Square, t: Square) -> bool {
        &&& self.owned_by(s, self.turn)
        &&& self.possible_move(s, t)
        &&& !self.move_test(s, t).team_in_check(self.turn)
        &&& self.castling_attempt(s, t) ==> {
            &&& !self.team_in_check(self.turn)
            &&& !self.move_test(s, castle_mid(s, t)).team_in_check(self.turn)
        }
    }

    /// The side to move has no legal move at all.
    pub open spec fn no_legal_moves(self) -> bool {
        forall|s: Square, t: Square| s.wf() && t.wf() ==> !#[trigger] self.is_legal_move(s, t)
    }

    /// The king on `k` is attacked by the piece on `a` of the other side.
    pub open spec fn checks(self, k: Square, a: Square) -> bool {
        &&& ((self.king_at(k, Team::White) && self.owned_by(a, Team::Black)) || (self.king_at(
            k,
            Team::Black,
        ) && self.owned_by(a, Team::White)))
        &&& self.possible_move(a, k)
    }
}

impl Game {
    /// Whether the piece on `a` attacks a king of `team`.
    fn attacks_king_exec(&self, a: Square, team: Team) -> (r: bool)
        requires
            a.wf(),
        ensures
            r == self.attacks_king(a, team),
    {
        let moves = self.get_possible_moves(a);
        let king = Some(Piece::new(PieceType::King, team));
        let mut i: usize = 0;
        while i < moves.len()
            invariant
                a.wf(),
                king == Some(Piece { piece_type: PieceType::King, team }),
                all_wf(moves@),
                forall|t: Square| t.wf() ==> (moves@.contains(t) <==> self.possible_move(a, t)),
                i <= moves.len(),
                forall|j: int| 0 <= j < i ==> !self.king_at(#[trigger] moves@[j], team),
            decreases moves.len() - i,
        {
            let m = moves[i];
            if self.board[m.rank][m.file] == king {
                assert(self.king_at(moves@[i as int], team));
                return true;
            }
            i += 1;
        }
        proof {
            assert forall|k: Square| k.wf() && self.king_at(k, team) implies !self.possible_move(
                a,
                k,
            ) by {
                if self.possible_move(a, k) {
                    let j = choose|j: int| 0 <= j < moves@.len() && moves@[j] == k;
                }
            }
        }
        false
    }

    /// Whether a king of `team` is attacked by a piece of the other side.
    pub fn is_team_in_check(&self, team: Team) -> (r: bool)
        ensures
            r == self.team_in_check(team),
    {
        let enemy = team.opponent();
        let mut rank: usize = 0;
        while rank < 8
            invariant
                enemy == opponent(team),
                rank <= 8,
                forall|a: Square|
                    a.wf() && a.rank < rank && #[trigger] self.owned_by(a, enemy) ==> !self.attacks_king(a, team),
            decreases 8 - rank,
        {
            let mut file: usize = 0;
            while file < 8
                invariant
                    enemy == opponent(team),
                    rank < 8,
                    file <= 8,
                    forall|a: Square|
                        a.wf() && scanned(a, rank as int, file as int) && #[trigger] self.owned_by(a, enemy)
                            ==> !self.attacks_king(a, team),
                decreases 8 - file,
            {
                let a = Square::new(rank, file);
                match self.board[rank][file] {
                    Some(p) => {
                        if p.team == enemy && self.attacks_king_exec(a, team) {
                            assert(self.owned_by(a, enemy));
                            return true;
                        }
                    },
                    None => {},
                }
                file += 1;
            }
            rank += 1;
        }
        false
    }
}

impl Game {
    /// Whether `loser_team_str` names a side whose king is attacked.
    pub fn in_check(&self, loser_team_str: &str) -> (r: Result<bool, ChessError>)
        ensures
            parse_team(loser_team_str@) is Err ==> r == Err::<bool, ChessError>(
                ChessError::InvalidTeamName,
            ),
            parse_team(loser_team_str@) matches Ok(team) ==> {
                &&& !self.has_king(team) ==> r == Err::<bool, ChessError>(ChessError::MissingKing)
                &&& self.has_king(team) ==> r == Ok::<bool, ChessError>(self.team_in_check(team))
            },
    {
        let loser_team = match Team::from(loser_team_str) {
            Ok(t) => t,
            Err(e) => {
                return Err(e);
            },
        };
        if self.find_king(loser_team).is_none() {
            return Err(ChessError::MissingKing);
        }
        Ok(self.is_team_in_check(loser_team))
    }

    /// The legal targets of the piece on `start_sq`: none when the cell is
    /// empty or holds a piece of the side not to move, and `MissingKing` when
    /// the side to move has no king.
    pub fn legal_moves(&self, start_sq: Square) -> (r: Result<Vec<Square>, ChessError>)
        requires
            start_sq.wf(),
        ensures
            r is Err <==> (self.owned_by(start_sq, self.turn) && !self.has_king(self.turn)),
            r is Err ==> r == Err::<Vec<Square>, ChessError>(ChessError::MissingKing),
            r matches Ok(v) ==> {
                &&& all_wf(v@)
                &&& v@.no_duplicates()
                &&& forall|t: Square| t.wf() ==> (v@.contains(t) <==> self.is_legal_move(start_sq, t))
                &&& !self.owned_by(start_sq, self.turn) ==> v@.len() == 0
            },
    {
        let team = self.turn;
        let piece = match self.board[start_sq.rank][start_sq.file] {
            Some(p) => p,
            None => {
                return Ok(Vec::new());
            },
        };
        if piece.team != team {
            return Ok(Vec::new());
        }
        if self.find_king(team).is_none() {
            return Err(ChessError::MissingKing);
        }
        let candidates = self.get_possible_moves(start_sq);
        let mut legal: Vec<Square> = Vec::new();
        let mut i: usize = 0;
        while i < candidates.len()
            invariant
                start_sq.wf(),
                team == self.turn,
                self.at(start_sq) == Some(piece),
                piece.team == team,
                all_wf(candidates@),
                candidates@.no_duplicates(),
                forall|t: Square|
                    t.wf() ==> (candidates@.contains(t) <==> self.possible_move(start_sq, t)),
                i <= candidates.len(),
                all_wf(legal@),
                legal@.no_duplicates(),
                forall|t: Square|
                    t.wf() ==> (legal@.contains(t) <==> (candidates@.subrange(0, i as int).contains(
                        t,
                    ) && self.is_legal_move(start_sq, t))),
            decreases candidates.len() - i,
        {
            let t = candidates[i];
            proof {
                assert(candidates@.contains(t));
                assert(candidates@.subrange(0, i + 1) =~= candidates@.subrange(0, i as int).push(t));
            }
            let test_game = self.move_piece_test(start_sq, t);
            let mut ok = !test_game.is_team_in_check(team);
            if ok && piece.is_king() && start_sq.file_diff(t) > 1 {
                if self.is_team_in_check(team) {
                    ok = false;
                } else {
                    let middle_sq = Square::new(start_sq.rank, (start_sq.file + t.file) / 2);
                    let castle_test_game = self.move_piece_test(start_sq, middle_sq);
                    if castle_test_game.is_team_in_check(team) {
                        ok = false;
                    }
                }
            }
            assert(ok == self.is_legal_move(start_sq, t));
            if ok {
                proof {
                    if candidates@.subrange(0, i as int).contains(t) {
                        let j = choose|j: int|
                            0 <= j < i && #[trigger] candidates@.subrange(0, i as int)[j] == t;
                        assert(candidates@[j] == candidates@[i as int]);
                    }
                    lemma_push_no_duplicates(legal@, t);
                }
                legal.push(t);
            }
            i += 1;
        }
        proof {
            assert(candidates@.subrange(0, i as int) =~= candidates@);
        }
        Ok(legal)
    }

    /// The labels of the legal targets of the cell labelled `start_sq_str`.
    pub fn get_legal_moves(&self, start_sq_str: &str) -> (r: Result<Vec<String>, ChessError>)
        ensures
            parse_label(start_sq_str@) is Err ==> r == Err::<Vec<String>, ChessError>(
                ChessError::InvalidCoordinate,
            ),
            parse_label(start_sq_str@) matches Ok(s) ==> {
                &&& r is Err <==> (self.owned_by(s, self.turn) && !self.has_king(self.turn))
                &&& r is Err ==> r == Err::<Vec<String>, ChessError>(ChessError::MissingKing)
                &&& r matches Ok(v) ==> {
                    &&& forall|i: int|
                        0 <= i < v.len() ==> self.is_legal_label(s, #[trigger] v@[i]@)
                    &&& forall|i: int, j: int|
                        0 <= i < v.len() && 0 <= j < v.len() && i != j ==> #[trigger] v@[i]@
                            != #[trigger] v@[j]@
                    &&& forall|t: Square|
                        t.wf() && #[trigger] self.is_legal_move(s, t) ==> lists_label(v@, t.label())
                }
            },
    {
        let start_sq = match Square::from(start_sq_str) {
            Ok(sq) => sq,
            Err(e) => {
                return Err(e);
            },
        };
        let moves = match self.legal_moves(start_sq) {
            Ok(v) => v,
            Err(e) => {
                return Err(e);
            },
        };
        let mut labels: Vec<String> = Vec::new();
        let mut i: usize = 0;
        while i < moves.len()
            invariant
                start_sq.wf(),
                all_wf(moves@),
                forall|t: Square| t.wf() ==> (moves@.contains(t) <==> self.is_legal_move(start_sq, t)),
                i <= moves.len(),
                labels.len() == i,
                forall|j: int| 0 <= j < i ==> (#[trigger] labels@[j])@ == moves@[j].label(),
            decreases moves.len() - i,
        {
            let t = moves[i];
            labels.push(t.coords());
            i += 1;
        }
        proof {
            assert forall|j: int| 0 <= j < labels.len() implies self.is_legal_label(
                start_sq,
                #[trigger] labels@[j]@,
            ) by {
                assert(moves@.contains(moves@[j]));
            }
            assert forall|i: int, j: int|
                0 <= i < labels.len() && 0 <= j < labels.len() && i != j implies #[trigger] labels@[i]@
                != #[trigger] labels@[j]@ by {
                lemma_label_round_trip(moves@[i]);
                lemma_label_round_trip(moves@[j]);
            }
            assert forall|t: Square| t.wf() && #[trigger] self.is_legal_move(start_sq, t) implies lists_label(
                labels@,
                t.label(),
            ) by {
                let j = choose|j: int| 0 <= j < moves@.len() && moves@[j] == t;
                assert(labels@[j]@ == t.label());
            }
        }
        Ok(labels)
    }

    /// Whether the side named by `loser_team_str`, put to move, has no legal
    /// move. This holds in checkmate, and equally in stalemate.
    pub fn in_checkmate(&self, loser_team_str: &str) -> (r: Result<bool, ChessError>)
        ensures
            parse_team(loser_team_str@) is Err ==> r == Err::<bool, ChessError>(
                ChessError::InvalidTeamName,
            ),
            parse_team(loser_team_str@) matches Ok(team) ==> {
                &&& !self.has_king(team) ==> r == Err::<bool, ChessError>(ChessError::MissingKing)
                &&& self.has_king(team) ==> r == Ok::<bool, ChessError>(
                    self.with_turn(team).no_legal_moves(),
                )
            },
    {
        let loser_team = match Team::from(loser_team_str) {
            Ok(t) => t,
            Err(e) => {
                return Err(e);
            },
        };
        let king = match self.find_king(loser_team) {
            Some(k) => k,
            None => {
                return Err(ChessError::MissingKing);
            },
        };
        let mut test_game = *self;
        test_game.turn = loser_team;
        assert(test_game == self.with_turn(loser_team));
        assert(test_game.king_at(king, loser_team));
        assert(self.has_king(loser_team));
        let loser_piece_squares = self.find_team_pieces(loser_team);
        let mut i: usize = 0;
        while i < loser_piece_squares.len()
            invariant
                parse_team(loser_team_str@) == Ok::<Team, ChessError>(loser_team),
                test_game == self.with_turn(loser_team),
                test_game.has_king(loser_team),
                self.has_king(loser_team),
                all_wf(loser_piece_squares@),
                forall|s: Square|
                    s.wf() ==> (loser_piece_squares@.contains(s) <==> self.owned_by(s, loser_team)),
                i <= loser_piece_squares.len(),
                forall|j: int, t: Square|
                    0 <= j < i && t.wf() ==> !#[trigger] test_game.is_legal_move(
                        loser_piece_squares@[j],
                        t,
                    ),
            decreases loser_piece_squares.len() - i,
        {
            let sq = loser_piece_squares[i];
            match test_game.legal_moves(sq) {
                Ok(v) => {
                    if v.len() > 0 {
                        proof {
                            assert(v@.contains(v@[0]));
                            assert(test_game.is_legal_move(sq, v@[0]));
                            assert(sq.wf() && v@[0].wf());
                            assert(!self.with_turn(loser_team).no_legal_moves());
                        }
                        return Ok(false);
                    }
                    proof {
                        assert forall|t: Square| t.wf() implies !test_game.is_legal_move(sq, t) by {
                            if test_game.is_legal_move(sq, t) {
                                assert(v@.contains(t));
                            }
                        }
                    }
                },
                Err(_) => {
                    // `loser_team` has a king, so no error can come back.
                    assert(test_game.turn == loser_team);
                    assert(false);
                    return Ok(false);
                },
            }
            i += 1;
        }
        proof {
            assert forall|s: Square, t: Square| s.wf() && t.wf() implies !#[trigger] test_game.is_legal_move(s, t) by {
                if test_game.is_legal_move(s, t) {
                    assert(loser_piece_squares@.contains(s));
                    let j = choose|j: int| 0 <= j < loser_piece_squares@.len() && loser_piece_squares@[j] == s;
                }
            }
        }
        Ok(true)
    }
}

/// Every pair of `v` holds two cells of the board.
pub open spec fn all_pairs_wf(v: Seq<(Square, Square)>) -> bool {
    forall|i: int| 0 <= i < v.len() ==> (#[trigger] v[i]).0.wf() && v[i].1.wf()
}

impl Game {
    /// Every king in check paired with each piece that attacks it, as
    /// (king cell, attacker cell); `MissingKing` when a side has no king.
    pub fn get_check_coords(&self) -> (r: Result<Vec<(Square, Square)>, ChessError>)
        ensures
            r is Err <==> !(self.has_king(Team::White) && self.has_king(Team::Black)),
            r is Err ==> r == Err::<Vec<(Square, Square)>, ChessError>(ChessError::MissingKing),
            r matches Ok(v) ==> {
                &&& all_pairs_wf(v@)
                &&& v@.no_duplicates()
                &&& forall|k: Square, a: Square|
                    k.wf() && a.wf() ==> (v@.contains((k, a)) <==> #[trigger] self.checks(k, a))
            },
    {
        if self.find_king(Team::White).is_none() || self.find_king(Team::Black).is_none() {
            return Err(ChessError::MissingKing);
        }
        let mut pairs: Vec<(Square, Square)> = Vec::new();
        let mut rank: usize = 0;
        while rank < 8
            invariant
                rank <= 8,
                all_pairs_wf(pairs@),
                pairs@.no_duplicates(),
                forall|k: Square, a: Square|
                    #![trigger pairs@.contains((k, a))]
                    #![trigger self.checks(k, a)]
                    k.wf() && a.wf() ==> (pairs@.contains((k, a)) <==> (a.rank < rank
                        && self.checks(k, a))),
            decreases 8 - rank,
        {
            let mut file: usize = 0;
            while file < 8
                invariant
                    rank < 8,
                    file <= 8,
                    all_pairs_wf(pairs@),
                    pairs@.no_duplicates(),
                pairs@.no_duplicates(),
                    forall|k: Square, a: Square|
                        #![trigger pairs@.contains((k, a))]
                        #![trigger self.checks(k, a)]
                        k.wf() && a.wf() ==> (pairs@.contains((k, a)) <==> (scanned(
                            a,
                            rank as int,
                            file as int,
                        ) && self.checks(k, a))),
                decreases 8 - file,
            {
                let a = Square::new(rank, file);
                match self.board[rank][file] {
                    Some(p) => {
                        let enemy_king = Some(Piece::new(PieceType::King, p.team.opponent()));
                        let moves = self.get_possible_moves(a);
                        let mut j: usize = 0;
                        while j < moves.len()
                            invariant
                                rank < 8,
                                file < 8,
                                a == (Square { rank, file }),
                                self.at(a) == Some(p),
                                enemy_king == Some(
                                    Piece { piece_type: PieceType::King, team: opponent(p.team) },
                                ),
                                all_wf(moves@),
                                forall|t: Square|
                                    t.wf() ==> (moves@.contains(t) <==> self.possible_move(a, t)),
                                j <= moves.len(),
                                all_pairs_wf(pairs@),
                                pairs@.no_duplicates(),
                                moves@.no_duplicates(),
                    pairs@.no_duplicates(),
                pairs@.no_duplicates(),
                                forall|k: Square, a2: Square|
                                    #![trigger pairs@.contains((k, a2))]
                                    #![trigger self.checks(k, a2)]
                                    k.wf() && a2.wf() ==> (pairs@.contains((k, a2)) <==> ((scanned(
                                        a2,
                                        rank as int,
                                        file as int,
                                    ) && self.checks(k, a2)) || (a2 == a
                                        && moves@.subrange(0, j as int).contains(k) && self.at(k)
                                        == enemy_king))),
                            decreases moves.len() - j,
                        {
                            let m = moves[j];
                            proof {
                                assert(moves@.subrange(0, j + 1) =~= moves@.subrange(
                                    0,
                                    j as int,
                                ).push(m));
                            }
                            if self.board[m.rank][m.file] == enemy_king {
                                proof {
                                    if moves@.subrange(0, j as int).contains(m) {
                                        let j2 = choose|j2: int|
                                            0 <= j2 < j && #[trigger] moves@.subrange(0, j as int)[j2]
                                                == m;
                                        assert(moves@[j2] == moves@[j as int]);
                                    }
                                    assert(!pairs@.contains((m, a)));
                                    lemma_push_no_duplicates(pairs@, (m, a));
                                }
                                pairs.push((m, a));
                            }
                            j += 1;
                        }
                        proof {
                            assert(moves@.subrange(0, j as int) =~= moves@);
                            assert forall|k: Square, a2: Square|
                                #![trigger pairs@.contains((k, a2))]
                                #![trigger self.checks(k, a2)]
                                k.wf() && a2.wf() implies (pairs@.contains((k, a2)) <==> (scanned(
                                a2,
                                rank as int,
                                file as int + 1,
                            ) && self.checks(k, a2))) by {
                                if a2 == a {
                                    if self.checks(k, a2) {
                                        assert(moves@.contains(k));
                                    }
                                }
                            }
                        }
                    },
                    None => {},
                }
                file += 1;
            }
            rank += 1;
        }
        Ok(pairs)
    }
}

/// A legal move never lands on a cell held by a piece of the mover's side.
pub proof fn lemma_legal_target_not_friendly(g: Game, s: Square, t: Square)
    requires
        s.wf(),
        t.wf(),
        g.is_legal_move(s, t),
    ensures
        !g.owned_by(t, g.turn),
{
}

/// A move after which, in the scratch position that tests it, the mover's
/// king is attacked is not legal; nor is castling out of check.
pub proof fn lemma_no_move_into_check(g: Game, s: Square, t: Square)
    requires
        s.wf(),
        t.wf(),
    ensures
        g.move_test(s, t).team_in_check(g.turn) ==> !g.is_legal_move(s, t),
        g.castling_attempt(s, t) && g.team_in_check(g.turn) ==> !g.is_legal_move(s, t),
{
}

/// Whether a piece can move onto an occupied cell depends on the board
/// alone, not on the castling flags or the en-passant target.
proof fn lemma_capture_board_only(h1: Game, h2: Game, a: Square, k: Square)
    requires
        h1.board == h2.board,
        a.wf(),
        k.wf(),
        h1.at(k) is Some,
    ensures
        h1.possible_move(a, k) == h2.possible_move(a, k),
{
    assert forall|x: int, y: int| #[trigger] h1.empty(x, y) == h2.empty(x, y) by {
        assert(h1.cell(x, y) == h2.cell(x, y));
    }
    let dr = sign(rank_delta(a, k));
    let df = sign(file_delta(a, k));
    let n = line_dist(a, k);
    if h1.path_clear(a, k) {
        assert forall|j: int| 1 <= j < n implies #[trigger] h2.empty(
            step(a.rank as int, dr, j),
            step(a.file as int, df, j),
        ) by {
            assert(h1.empty(step(a.rank as int, dr, j), step(a.file as int, df, j)));
        }
    }
    if h2.path_clear(a, k) {
        assert forall|j: int| 1 <= j < n implies #[trigger] h1.empty(
            step(a.rank as int, dr, j),
            step(a.file as int, df, j),
        ) by {
            assert(h2.empty(step(a.rank as int, dr, j), step(a.file as int, df, j)));
        }
    }
}

/// Whether a side is in check depends on the board alone.
pub proof fn lemma_check_depends_on_board(h1: Game, h2: Game, team: Team)
    requires
        h1.board == h2.board,
    ensures
        h1.team_in_check(team) == h2.team_in_check(team),
{
    assert forall|a: Square| a.wf() implies #[trigger] h1.attacks_king(a, team) == h2.attacks_king(
        a,
        team,
    ) by {
        if h1.attacks_king(a, team) {
            let k = choose|k: Square| k.wf() && #[trigger] h1.king_at(k, team) && h1.possible_move(a, k);
            lemma_capture_board_only(h1, h2, a, k);
            assert(h2.king_at(k, team));
        }
        if h2.attacks_king(a, team) {
            let k = choose|k: Square| k.wf() && #[trigger] h2.king_at(k, team) && h2.possible_move(a, k);
            assert(h1.cell(k.rank as int, k.file as int) == h2.cell(k.rank as int, k.file as int));
            lemma_capture_board_only(h1, h2, a, k);
            assert(h1.king_at(k, team));
        }
    }
    assert forall|a: Square| a.wf() implies #[trigger] h1.owned_by(a, opponent(team)) == h2.owned_by(
        a,
        opponent(team),
    ) by {
        assert(h1.cell(a.rank as int, a.file as int) == h2.cell(a.rank as int, a.file as int));
    }
    if h1.team_in_check(team) {
        let a = choose|a: Square| a.wf() && #[trigger] h1.owned_by(a, opponent(team)) && h1.attacks_king(a, team);
        assert(h2.owned_by(a, opponent(team)) && h2.attacks_king(a, team));
    }
    if h2.team_in_check(team) {
        let a = choose|a: Square| a.wf() && #[trigger] h2.owned_by(a, opponent(team)) && h2.attacks_king(a, team);
        assert(h1.owned_by(a, opponent(team)) && h1.attacks_king(a, team));
    }
}

} // verus!
