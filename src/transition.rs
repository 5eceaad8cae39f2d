//! Applying a move, and promotion.

use vstd::prelude::*;

use crate::error::ChessError;
use crate::game::Game;
use crate::legality::lemma_check_depends_on_board;
use crate::movegen::{king_step, pawn_last_rank};
use crate::piece::{opponent, parse_kind, Piece, PieceType, Team};
use crate::square::{parse_label, Square};

verus! {

broadcast use vstd::seq_lib::lemma_seq_contains_after_push;

/// The rook's origin and destination files when the king castles to `t`.
pub open spec fn castle_rook_files(t: Square) -> (int, int) {
    if t.file == 6 {
        (7, 5)
    } else {
        (0, 3)
    }
}

/// `s` is the cell at rank `r`, file `f`.
pub open spec fn is_cell(s: Square, r: int, f: int) -> bool {
    s.rank == r && s.file == f
}

/// The order in which promotable pawns are found: rank 8 by file, then
/// rank 1 by file.
pub open spec fn promotion_order(q: Square) -> int {
    if q.rank == 7 {
        q.file as int
    } else {
        8 + q.file
    }
}

impl Game {
    /// A pawn advancing two ranks.
    pub open spec fn double_advance(self, s: Square, t: Square) -> bool {
        &&& self.at(s) matches Some(p) && p.piece_type == PieceType::Pawn
        &&& s.rank_dist(t) == 2
    }

    /// The game after the piece on `s` has moved to `t`: the castling rook
    /// relocated, the pawn taken en passant removed, the piece moved, the
    /// rights of any home square left revoked, the en-passant target set by
    /// a two-rank pawn advance and cleared otherwise, the turn passed and the
    /// counter advanced (it stops at `u32::MAX`).
    pub open spec fn after_move(self, s: Square, t: Square) -> Game {
        self.record_move(s, t, self.board_after_move(s, t))
    }

    /// The board after the castling rook's relocation, if the move castles.
    pub open spec fn rook_relocated(self, s: Square, t: Square) -> Game {
        let (rook_from, rook_to) = castle_rook_files(t);
        if self.castling_attempt(s, t) {
            self.with_cell(t.rank as int, rook_from, None).with_cell(
                t.rank as int,
                rook_to,
                self.cell(t.rank as int, rook_from),
            )
        } else {
            self
        }
    }

    /// The board after the move from `s` to `t`.
    pub open spec fn board_after_move(self, s: Square, t: Square) -> [[Option<Piece>; 8]; 8] {
        let b1 = self.rook_relocated(s, t);
        let b2 = if self.en_passant_capture(s, t) {
            b1.with_cell(s.rank as int, t.file as int, None)
        } else {
            b1
        };
        b2.with_cell(s.rank as int, s.file as int, None).with_cell(
            t.rank as int,
            t.file as int,
            self.at(s),
        ).board
    }

    /// The game with board `board` and the flags, en-passant target, turn and
    /// counter as the move from `s` to `t` leaves them.
    pub open spec fn record_move(self, s: Square, t: Square, board: [[Option<Piece>; 8]; 8]) -> Game {
        Game {
            board,
            white_king_moved: self.white_king_moved || is_cell(s, 0, 4),
            white_rook_a_moved: self.white_rook_a_moved || is_cell(s, 0, 0),
            white_rook_h_moved: self.white_rook_h_moved || is_cell(s, 0, 7),
            black_king_moved: self.black_king_moved || is_cell(s, 7, 4),
            black_rook_a_moved: self.black_rook_a_moved || is_cell(s, 7, 0),
            black_rook_h_moved: self.black_rook_h_moved || is_cell(s, 7, 7),
            en_passant_pawn: if self.double_advance(s, t) {
                Some(t)
            } else {
                None
            },
            turn: opponent(self.turn),
            move_num: if self.move_num < u32::MAX {
                (self.move_num + 1) as u32
            } else {
                self.move_num
            },
        }
    }

    /// The (from, to) pairs of the pieces that the move from `s` to `t`
    /// moves: the piece itself, then the rook when castling.
    pub open spec fn moved_pairs(self, s: Square, t: Square) -> Seq<(Square, Square)> {
        let (rook_from, rook_to) = castle_rook_files(t);
        if self.castling_attempt(s, t) {
            seq![
                (s, t),
                (
                    Square { rank: t.rank, file: rook_from as usize },
                    Square { rank: t.rank, file: rook_to as usize },
                ),
            ]
        } else {
            seq![(s, t)]
        }
    }

    /// A pawn of `q`'s side stands on its last rank at `q`.
    pub open spec fn promotable(self, q: Square) -> bool {
        self.at(q) matches Some(p) && p.piece_type == PieceType::Pawn && q.rank == pawn_last_rank(
            p.team,
        )
    }

    /// Some pawn stands on its last rank.
    pub open spec fn has_promotable(self) -> bool {
        exists|q: Square| q.wf() && #[trigger] self.promotable(q)
    }

    /// `q` is the promotable pawn found first.
    pub open spec fn first_promotable(self, q: Square) -> bool {
        &&& q.wf()
        &&& self.promotable(q)
        &&& forall|q2: Square|
            q2.wf() && #[trigger] self.promotable(q2) ==> promotion_order(q) <= promotion_order(q2)
    }
}

impl Game {
    /// Brings the flags, en-passant target, turn and counter up to date for
    /// the move of `piece` from `start_sq` to `target_sq`; the board is
    /// left alone.
    fn record_origin(&mut self, start_sq: Square, target_sq: Square, piece: Piece)
        ensures
            final(self).board == old(self).board,
            final(self).white_king_moved == (old(self).white_king_moved || is_cell(start_sq, 0, 4)),
            final(self).white_rook_a_moved == (old(self).white_rook_a_moved || is_cell(
                start_sq,
                0,
                0,
            )),
            final(self).white_rook_h_moved == (old(self).white_rook_h_moved || is_cell(
                start_sq,
                0,
                7,
            )),
            final(self).black_king_moved == (old(self).black_king_moved || is_cell(start_sq, 7, 4)),
            final(self).black_rook_a_moved == (old(self).black_rook_a_moved || is_cell(
                start_sq,
                7,
                0,
            )),
            final(self).black_rook_h_moved == (old(self).black_rook_h_moved || is_cell(
                start_sq,
                7,
                7,
            )),
            final(self).en_passant_pawn == if piece.piece_type == PieceType::Pawn
                && start_sq.rank_dist(target_sq) == 2 {
                Some(target_sq)
            } else {
                None
            },
            final(self).turn == opponent(old(self).turn),
            final(self).move_num == if old(self).move_num < u32::MAX {
                (old(self).move_num + 1) as u32
            } else {
                old(self).move_num
            },
    {
        if start_sq.rank == 0 && start_sq.file == 4 {
            self.white_king_moved = true;
        }
        if start_sq.rank == 0 && start_sq.file == 0 {
            self.white_rook_a_moved = true;
        }
        if start_sq.rank == 0 && start_sq.file == 7 {
            self.white_rook_h_moved = true;
        }
        if start_sq.rank == 7 && start_sq.file == 4 {
            self.black_king_moved = true;
        }
        if start_sq.rank == 7 && start_sq.file == 0 {
            self.black_rook_a_moved = true;
        }
        if start_sq.rank == 7 && start_sq.file == 7 {
            self.black_rook_h_moved = true;
        }
        if piece.is_pawn() && start_sq.rank_diff(target_sq) == 2 {
            self.en_passant_pawn = Some(target_sq);
        } else {
            self.en_passant_pawn = None;
        }
        self.turn = self.turn.opponent();
        self.move_num = self.move_num.saturating_add(1);
    }

    /// Moves the pieces on the board for the move from `start_sq` to
    /// `target_sq`, and returns the (from, to) pairs of the pieces moved.
    fn move_on_board(&mut self, start_sq: Square, target_sq: Square) -> (r: Vec<(Square, Square)>)
        requires
            start_sq.wf(),
            target_sq.wf(),
            old(self).at(start_sq) is Some,
        ensures
            *final(self) == (Game { board: old(self).board_after_move(start_sq, target_sq), ..*old(self) }),
            r@ == old(self).moved_pairs(start_sq, target_sq),
    {
        let ghost g0 = *self;
        let piece = match self.board[start_sq.rank][start_sq.file] {
            Some(p) => p,
            None => Piece::new(PieceType::Pawn, Team::White),
        };
        let target_empty = self.board[target_sq.rank][target_sq.file].is_none();
        let mut last_moved: Vec<(Square, Square)> = Vec::new();
        last_moved.push((start_sq, target_sq));
        if piece.is_king() && start_sq.file_diff(target_sq) > 1 {
            let (rook_start_file, rook_end_file): (usize, usize) = if target_sq.file == 6 {
                (7, 5)
            } else {
                (0, 3)
            };
            last_moved.push(
                (
                    Square::new(target_sq.rank, rook_start_file),
                    Square::new(target_sq.rank, rook_end_file),
                ),
            );
            let rook = self.board[target_sq.rank][rook_start_file];
            self.set_cell(target_sq.rank, rook_start_file, None);
            self.set_cell(target_sq.rank, rook_end_file, rook);
        }
        assert(*self == g0.rook_relocated(start_sq, target_sq));
        if piece.is_pawn() && target_empty && start_sq.file != target_sq.file {
            self.set_cell(start_sq.rank, target_sq.file, None);
        }
        self.set_cell(start_sq.rank, start_sq.file, None);
        self.set_cell(target_sq.rank, target_sq.file, Some(piece));
        proof {
            assert(last_moved@ =~= g0.moved_pairs(start_sq, target_sq));
        }
        last_moved
    }

    /// Applies the move from `start_sq` to `target_sq`, already known to be
    /// legal, and returns the (from, to) pairs of the pieces moved.
    fn apply_move(&mut self, start_sq: Square, target_sq: Square) -> (r: Vec<(Square, Square)>)
        requires
            start_sq.wf(),
            target_sq.wf(),
            old(self).at(start_sq) is Some,
        ensures
            *final(self) == old(self).after_move(start_sq, target_sq),
            r@ == old(self).moved_pairs(start_sq, target_sq),
    {
        let piece = match self.board[start_sq.rank][start_sq.file] {
            Some(p) => p,
            None => Piece::new(PieceType::Pawn, Team::White),
        };
        let last_moved = self.move_on_board(start_sq, target_sq);
        self.record_origin(start_sq, target_sq, piece);
        last_moved
    }

    /// Plays the move from `start_sq` to `target_sq` when it is legal, and
    /// returns the (from, to) pairs of the pieces moved; otherwise the game
    /// is left as it was.
    pub fn make_move(&mut self, start_sq: Square, target_sq: Square) -> (r: Result<
        Vec<(Square, Square)>,
        ChessError,
    >)
        requires
            start_sq.wf(),
            target_sq.wf(),
        ensures
            old(self).owned_by(start_sq, old(self).turn) && !old(self).has_king(old(self).turn) ==> {
                &&& r == Err::<Vec<(Square, Square)>, ChessError>(ChessError::MissingKing)
                &&& *final(self) == *old(self)
            },
            !(old(self).owned_by(start_sq, old(self).turn) && !old(self).has_king(old(self).turn))
                ==> {
                &&& !old(self).is_legal_move(start_sq, target_sq) ==> {
                    &&& r == Err::<Vec<(Square, Square)>, ChessError>(ChessError::InvalidMove)
                    &&& *final(self) == *old(self)
                }
                &&& old(self).is_legal_move(start_sq, target_sq) ==> {
                    &&& r matches Ok(v) && v@ == old(self).moved_pairs(start_sq, target_sq)
                    &&& *final(self) == old(self).after_move(start_sq, target_sq)
                }
            },
            old(self).wf() ==> final(self).wf(),
    {
        let legal = match self.legal_moves(start_sq) {
            Ok(v) => v,
            Err(e) => {
                return Err(e);
            },
        };
        let mut found = false;
        let mut i: usize = 0;
        while i < legal.len()
            invariant
                i <= legal.len(),
                found == legal@.subrange(0, i as int).contains(target_sq),
            decreases legal.len() - i,
        {
            proof {
                assert(legal@.subrange(0, i + 1) =~= legal@.subrange(0, i as int).push(legal@[i as int]));
            }
            if legal[i] == target_sq {
                found = true;
            }
            i += 1;
        }
        proof {
            assert(legal@.subrange(0, i as int) =~= legal@);
        }
        if !found {
            return Err(ChessError::InvalidMove);
        }
        Ok(self.apply_move(start_sq, target_sq))
    }

    /// Plays the move between two labelled cells, as `make_move` does;
    /// `InvalidCoordinate` when a label is malformed.
    pub fn move_piece(&mut self, start_sq_str: &str, target_sq_str: &str) -> (r: Result<
        Vec<(Square, Square)>,
        ChessError,
    >)
        ensures
            (parse_label(start_sq_str@) is Err || parse_label(target_sq_str@) is Err) ==> {
                &&& r == Err::<Vec<(Square, Square)>, ChessError>(ChessError::InvalidCoordinate)
                &&& *final(self) == *old(self)
            },
            parse_label(start_sq_str@) matches Ok(s) ==> parse_label(target_sq_str@) matches Ok(t)
                ==> {
                &&& old(self).owned_by(s, old(self).turn) && !old(self).has_king(old(self).turn)
                    ==> {
                    &&& r == Err::<Vec<(Square, Square)>, ChessError>(ChessError::MissingKing)
                    &&& *final(self) == *old(self)
                }
                &&& !(old(self).owned_by(s, old(self).turn) && !old(self).has_king(old(self).turn))
                    ==> {
                    &&& !old(self).is_legal_move(s, t) ==> {
                        &&& r == Err::<Vec<(Square, Square)>, ChessError>(ChessError::InvalidMove)
                        &&& *final(self) == *old(self)
                    }
                    &&& old(self).is_legal_move(s, t) ==> {
                        &&& r matches Ok(v) && v@ == old(self).moved_pairs(s, t)
                        &&& *final(self) == old(self).after_move(s, t)
                    }
                }
            },
            old(self).wf() ==> final(self).wf(),
    {
        let start_sq = match Square::from(start_sq_str) {
            Ok(sq) => sq,
            Err(e) => {
                return Err(e);
            },
        };
        let target_sq = match Square::from(target_sq_str) {
            Ok(sq) => sq,
            Err(e) => {
                return Err(e);
            },
        };
        self.make_move(start_sq, target_sq)
    }
}

impl Game {
    /// The first pawn found on its last rank: White's on rank 8 by file, then
    /// Black's on rank 1 by file.
    pub fn find_last_rank_pawn(&self) -> (r: Option<Square>)
        ensures
            r matches Some(q) ==> self.first_promotable(q),
            r is None ==> !self.has_promotable(),
    {
        let mut file: usize = 0;
        while file < 8
            invariant
                file <= 8,
                forall|q: Square|
                    q.wf() && q.rank == 7 && q.file < file ==> !#[trigger] self.promotable(q),
            decreases 8 - file,
        {
            if self.board[7][file] == Some(Piece::new(PieceType::Pawn, Team::White)) {
                let q = Square::new(7, file);
                return Some(q);
            }
            file += 1;
        }
        let mut file: usize = 0;
        while file < 8
            invariant
                file <= 8,
                forall|q: Square| q.wf() && q.rank == 7 ==> !#[trigger] self.promotable(q),
                forall|q: Square|
                    q.wf() && q.rank == 0 && q.file < file ==> !#[trigger] self.promotable(q),
            decreases 8 - file,
        {
            if self.board[0][file] == Some(Piece::new(PieceType::Pawn, Team::Black)) {
                let q = Square::new(0, file);
                return Some(q);
            }
            file += 1;
        }
        None
    }

    /// Whether some pawn stands on its last rank, waiting to be promoted.
    pub fn has_last_rank_pawn(&self) -> (r: bool)
        ensures
            r == self.has_promotable(),
    {
        self.find_last_rank_pawn().is_some()
    }

    /// Replaces the first pawn found on its last rank by a piece of the kind
    /// named, of the pawn's side.
    pub fn replace_last_rank_pawn(&mut self, piece_type_str: &str) -> (r: Result<(), ChessError>)
        ensures
            parse_kind(piece_type_str@) is Err ==> {
                &&& r == Err::<(), ChessError>(ChessError::InvalidPieceKindName)
                &&& *final(self) == *old(self)
            },
            parse_kind(piece_type_str@) matches Ok(kind) ==> {
                &&& !old(self).has_promotable() ==> {
                    &&& r == Err::<(), ChessError>(ChessError::NoPromotablePawn)
                    &&& *final(self) == *old(self)
                }
                &&& old(self).has_promotable() ==> {
                    &&& r is Ok
                    &&& exists|q: Square|
                        #[trigger] old(self).first_promotable(q) && *final(self) == old(
                            self,
                        ).with_cell(
                            q.rank as int,
                            q.file as int,
                            Some(Piece { piece_type: kind, team: old(self).at(q).unwrap().team }),
                        )
                }
            },
            old(self).wf() ==> final(self).wf(),
    {
        let replacement = match PieceType::from(piece_type_str) {
            Ok(k) => k,
            Err(e) => {
                return Err(e);
            },
        };
        let q = match self.find_last_rank_pawn() {
            Some(q) => q,
            None => {
                return Err(ChessError::NoPromotablePawn);
            },
        };
        let team = match self.board[q.rank][q.file] {
            Some(p) => p.team,
            None => Team::White,
        };
        self.set_cell(q.rank, q.file, Some(Piece::new(replacement, team)));
        Ok(())
    }
}

/// White may castle kingside (king from e1 to g1) only while the king and
/// the h-rook have never moved and f1 and g1 are empty.
pub proof fn lemma_white_kingside_castle_needs_rights(g: Game)
    requires
        g.at(Square { rank: 0, file: 4 }) == Some(
            Piece { piece_type: PieceType::King, team: Team::White },
        ),
        g.is_legal_move(Square { rank: 0, file: 4 }, Square { rank: 0, file: 6 }),
    ensures
        !g.white_king_moved,
        !g.white_rook_h_moved,
        g.empty(0, 5),
        g.empty(0, 6),
{
}

/// Castling rights are only ever revoked: every flag set before a move is
/// still set after it, and a move from a home square sets that square's flag.
pub proof fn lemma_castling_rights_one_way(g: Game, s: Square, t: Square)
    ensures
        g.white_king_moved ==> g.after_move(s, t).white_king_moved,
        g.white_rook_a_moved ==> g.after_move(s, t).white_rook_a_moved,
        g.white_rook_h_moved ==> g.after_move(s, t).white_rook_h_moved,
        g.black_king_moved ==> g.after_move(s, t).black_king_moved,
        g.black_rook_a_moved ==> g.after_move(s, t).black_rook_a_moved,
        g.black_rook_h_moved ==> g.after_move(s, t).black_rook_h_moved,
        is_cell(s, 0, 4) ==> g.after_move(s, t).white_king_moved,
        is_cell(s, 7, 4) ==> g.after_move(s, t).black_king_moved,
{
}

/// Once a move has left e1, White can never castle again: after any further
/// move, no cell is a White castling target.
pub proof fn lemma_castling_rights_stay_revoked(
    g: Game,
    s1: Square,
    t1: Square,
    s2: Square,
    t2: Square,
    k: Square,
    t: Square,
)
    requires
        is_cell(s1, 0, 4),
    ensures
        g.after_move(s1, t1).after_move(s2, t2).white_king_moved,
        !g.after_move(s1, t1).after_move(s2, t2).castle_target(k, t, Team::White),
{
}

/// A king whose side has lost the king's castling right moves only to the
/// cells around it.
pub proof fn lemma_moved_king_cannot_castle(g: Game, s: Square, t: Square)
    requires
        g.at(s) matches Some(p) && p.piece_type == PieceType::King && g.king_moved(p.team),
        g.possible_move(s, t),
    ensures
        king_step(s, t),
{
}

/// A two-rank pawn advance makes its destination the en-passant target;
/// every other move clears the target.
pub proof fn lemma_en_passant_target_after_move(g: Game, s: Square, t: Square)
    ensures
        g.double_advance(s, t) ==> g.after_move(s, t).en_passant_pawn == Some(t),
        !g.double_advance(s, t) ==> g.after_move(s, t).en_passant_pawn is None,
{
}

/// An en-passant capture is legal only while the en-passant target is the
/// pawn beside the capturer, on the capture's file; so after a move, an
/// en-passant capture is legal only if that move was a two-rank pawn advance
/// onto the cell beside the capturer. One ply later the chance is gone: an
/// en-passant capture legal after two moves takes the pawn that the second
/// move advanced two ranks, never one that advanced before it.
pub proof fn lemma_en_passant_window(
    g: Game,
    s: Square,
    t: Square,
    s3: Square,
    t3: Square,
    s2: Square,
    t2: Square,
)
    requires
        s.wf(),
        t.wf(),
        s2.wf(),
        t2.wf(),
    ensures
        g.after_move(s, t).after_move(s3, t3).is_legal_move(s2, t2) && g.after_move(
            s,
            t,
        ).after_move(s3, t3).en_passant_capture(s2, t2) ==> g.after_move(s, t).double_advance(s3, t3)
            && t3 == (Square { rank: s2.rank, file: t2.file }),
        g.is_legal_move(s, t) && g.en_passant_capture(s, t) ==> g.en_passant_pawn == Some(
            Square { rank: s.rank, file: t.file },
        ),
        g.after_move(s, t).is_legal_move(s2, t2) && g.after_move(s, t).en_passant_capture(s2, t2)
            ==> g.double_advance(s, t) && t == (Square { rank: s2.rank, file: t2.file }),
{
    if g.is_legal_move(s, t) && g.en_passant_capture(s, t) {
        let e = g.en_passant_pawn.unwrap();
        assert(e.rank == s.rank && e.file == t.file);
    }
    let h = g.after_move(s, t);
    if h.is_legal_move(s2, t2) && h.en_passant_capture(s2, t2) {
        let e = h.en_passant_pawn.unwrap();
        assert(e.rank == s2.rank && e.file == t2.file);
    }
    let h2 = h.after_move(s3, t3);
    if h2.is_legal_move(s2, t2) && h2.en_passant_capture(s2, t2) {
        let e = h2.en_passant_pawn.unwrap();
        assert(e.rank == s2.rank && e.file == t2.file);
    }
}

/// A legal move other than castling, en passant included, does not leave
/// the mover's king attacked in the position that it produces.
pub proof fn lemma_legal_move_keeps_king_safe(g: Game, s: Square, t: Square)
    requires
        s.wf(),
        t.wf(),
        g.is_legal_move(s, t),
        !g.castling_attempt(s, t),
    ensures
        !g.after_move(s, t).team_in_check(g.turn),
{
    assert(g.after_move(s, t).board == g.move_test(s, t).board);
    lemma_check_depends_on_board(g.after_move(s, t), g.move_test(s, t), g.turn);
}

} // verus!
