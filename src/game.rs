//! The game state, the opening position, and reading and writing cells.

use vstd::array::spec_array_update;
use vstd::prelude::*;

use crate::piece::{opponent, Piece, PieceType, Team};
use crate::square::{in_bounds, Square};

verus! {

/// The complete state of a game: the board, the six castling-right flags,
/// the en-passant target, the side to move and the number of moves played.
#[derive(Clone, Copy, Debug)]
pub struct Game {
    pub board: [[Option<Piece>; 8]; 8],
    pub white_king_moved: bool,
    pub white_rook_a_moved: bool,
    pub white_rook_h_moved: bool,
    pub black_king_moved: bool,
    pub black_rook_a_moved: bool,
    pub black_rook_h_moved: bool,
    pub en_passant_pawn: Option<Square>,
    pub turn: Team,
    pub move_num: u32,
}

impl Game {
    /// The en-passant target, when there is one, lies on the board.
    pub open spec fn wf(self) -> bool {
        match self.en_passant_pawn {
            Some(e) => e.wf(),
            None => true,
        }
    }

    /// What stands at rank `r`, file `f`.
    pub open spec fn cell(self, r: int, f: int) -> Option<Piece> {
        self.board[r][f]
    }

    /// What stands on `s`.
    pub open spec fn at(self, s: Square) -> Option<Piece> {
        self.cell(s.rank as int, s.file as int)
    }

    pub open spec fn empty(self, r: int, f: int) -> bool {
        self.cell(r, f) is None
    }

    /// `s` holds a piece of `team`.
    pub open spec fn owned_by(self, s: Square, team: Team) -> bool {
        self.at(s) matches Some(p) && p.team == team
    }

    /// `s` holds the king of `team`.
    pub open spec fn king_at(self, s: Square, team: Team) -> bool {
        self.at(s) == Some(Piece { piece_type: PieceType::King, team })
    }

    /// `team` has a king somewhere on the board.
    pub open spec fn has_king(self, team: Team) -> bool {
        exists|k: Square| k.wf() && #[trigger] self.king_at(k, team)
    }

    /// The game with rank `r`, file `f` holding `v`.
    pub open spec fn with_cell(self, r: int, f: int, v: Option<Piece>) -> Game {
        Game {
            board: spec_array_update(self.board, r, spec_array_update(self.board[r], f, v)),
            ..self
        }
    }

    /// The game with `t` to move.
    pub open spec fn with_turn(self, t: Team) -> Game {
        Game { turn: t, ..self }
    }

    /// A pawn moving diagonally onto an empty cell: an en-passant capture.
    pub open spec fn en_passant_capture(self, s: Square, t: Square) -> bool {
        &&& self.at(s) matches Some(p) && p.piece_type == PieceType::Pawn
        &&& self.at(t) is None
        &&& s.file != t.file
    }

    /// The scratch position used to test a move: a pawn taken en passant is
    /// removed, the piece on `s` is put on `t` (over whatever stood there),
    /// `s` is emptied and the turn passes. No flag, en-passant target or
    /// counter changes.
    pub open spec fn move_test(self, s: Square, t: Square) -> Game {
        let cleared = if self.en_passant_capture(s, t) {
            self.with_cell(s.rank as int, t.file as int, None)
        } else {
            self
        };
        cleared.with_cell(s.rank as int, s.file as int, None).with_cell(
            t.rank as int,
            t.file as int,
            self.at(s),
        ).with_turn(opponent(self.turn))
    }

    /// Whether `team`'s king has left its home square.
    pub open spec fn king_moved(self, team: Team) -> bool {
        if team == Team::White {
            self.white_king_moved
        } else {
            self.black_king_moved
        }
    }

    /// Whether `team`'s a-file rook has left its home square.
    pub open spec fn rook_a_moved(self, team: Team) -> bool {
        if team == Team::White {
            self.white_rook_a_moved
        } else {
            self.black_rook_a_moved
        }
    }

    /// Whether `team`'s h-file rook has left its home square.
    pub open spec fn rook_h_moved(self, team: Team) -> bool {
        if team == Team::White {
            self.white_rook_h_moved
        } else {
            self.black_rook_h_moved
        }
    }

    /// The game is the standard opening position, White to move, nothing moved.
    pub open spec fn is_opening(self) -> bool {
        &&& forall|r: int, f: int| in_bounds(r, f) ==> #[trigger] self.cell(r, f) == opening_cell(r, f)
        &&& !self.white_king_moved && !self.white_rook_a_moved && !self.white_rook_h_moved
        &&& !self.black_king_moved && !self.black_rook_a_moved && !self.black_rook_h_moved
        &&& self.en_passant_pawn is None
        &&& self.turn == Team::White
        &&& self.move_num == 0
    }
}

/// Writing one cell leaves every other cell as it was.
pub proof fn lemma_with_cell(g: Game, r: int, f: int, v: Option<Piece>)
    requires
        in_bounds(r, f),
    ensures
        forall|r2: int, f2: int|
            in_bounds(r2, f2) ==> #[trigger] g.with_cell(r, f, v).cell(r2, f2) == if r2 == r && f2
                == f {
                v
            } else {
                g.cell(r2, f2)
            },
{
}

/// The kind that starts on file `f` of a back rank.
pub open spec fn back_rank_kind(f: int) -> PieceType {
    if f == 0 || f == 7 {
        PieceType::Rook
    } else if f == 1 || f == 6 {
        PieceType::Knight
    } else if f == 2 || f == 5 {
        PieceType::Bishop
    } else if f == 3 {
        PieceType::Queen
    } else {
        PieceType::King
    }
}

/// What stands on rank `r`, file `f` in the opening position.
pub open spec fn opening_cell(r: int, f: int) -> Option<Piece> {
    if r == 0 {
        Some(Piece { piece_type: back_rank_kind(f), team: Team::White })
    } else if r == 1 {
        Some(Piece { piece_type: PieceType::Pawn, team: Team::White })
    } else if r == 6 {
        Some(Piece { piece_type: PieceType::Pawn, team: Team::Black })
    } else if r == 7 {
        Some(Piece { piece_type: back_rank_kind(f), team: Team::Black })
    } else {
        None
    }
}

/// The back rank of `team` in the opening position.
fn back_rank(team: Team) -> (r: [Option<Piece>; 8])
    ensures
        forall|f: int| 0 <= f < 8 ==> #[trigger] r[f] == Some(Piece { piece_type: back_rank_kind(f), team }),
{
    let r = [
        Some(Piece::new(PieceType::Rook, team)),
        Some(Piece::new(PieceType::Knight, team)),
        Some(Piece::new(PieceType::Bishop, team)),
        Some(Piece::new(PieceType::Queen, team)),
        Some(Piece::new(PieceType::King, team)),
        Some(Piece::new(PieceType::Bishop, team)),
        Some(Piece::new(PieceType::Knight, team)),
        Some(Piece::new(PieceType::Rook, team)),
    ];
    assert(forall|f: int| 0 <= f < 8 ==> #[trigger] r[f] == Some(Piece { piece_type: back_rank_kind(f), team })) by {
        assert(r[0] == Some(Piece { piece_type: back_rank_kind(0), team }));
    }
    r
}

/// The board of the opening position.
fn get_default_board() -> (b: [[Option<Piece>; 8]; 8])
    ensures
        forall|r: int, f: int| in_bounds(r, f) ==> #[trigger] b[r][f] == opening_cell(r, f),
{
    let empty: [Option<Piece>; 8] = [None; 8];
    let white_pawns: [Option<Piece>; 8] = [Some(Piece::new(PieceType::Pawn, Team::White)); 8];
    let black_pawns: [Option<Piece>; 8] = [Some(Piece::new(PieceType::Pawn, Team::Black)); 8];
    let b = [
        back_rank(Team::White),
        white_pawns,
        empty,
        empty,
        empty,
        empty,
        black_pawns,
        back_rank(Team::Black),
    ];
    b
}

} // verus!

verus! {

broadcast use vstd::seq_lib::lemma_seq_contains_after_push;

impl Game {
    /// The whole board, rank by rank.
    pub fn get_board(&self) -> (r: [[Option<Piece>; 8]; 8])
        ensures
            r == self.board,
    {
        self.board
    }

    /// What stands on `square`.
    pub fn get_piece(&self, square: Square) -> (r: Option<Piece>)
        requires
            square.wf(),
        ensures
            r == self.at(square),
    {
        self.board[square.rank][square.file]
    }

    /// The side to move.
    pub fn turn(&self) -> (r: Team)
        ensures
            r == self.turn,
    {
        self.turn
    }

    pub fn is_white_turn(&self) -> (r: bool)
        ensures
            r == (self.turn == Team::White),
    {
        self.turn == Team::White
    }

    pub fn is_black_turn(&self) -> (r: bool)
        ensures
            r == (self.turn == Team::Black),
    {
        self.turn == Team::Black
    }

    /// The number of moves applied since the opening position.
    pub fn move_num(&self) -> (r: u32)
        ensures
            r == self.move_num,
    {
        self.move_num
    }

    /// Puts `v` on rank `r`, file `f`.
    pub(crate) fn set_cell(&mut self, r: usize, f: usize, v: Option<Piece>)
        requires
            r < 8,
            f < 8,
        ensures
            *final(self) == old(self).with_cell(r as int, f as int, v),
    {
        let mut row = self.board[r];
        row[f] = v;
        self.board[r] = row;
        proof {
            let ghost want = old(self).with_cell(r as int, f as int, v);
            assert(self.board[r as int] =~= want.board[r as int]);
            assert(self.board =~= want.board);
        }
    }

    /// Passes the move to the other side.
    fn switch_turn(&mut self)
        ensures
            *final(self) == old(self).with_turn(opponent(old(self).turn)),
    {
        match self.turn {
            Team::Black => self.turn = Team::White,
            Team::White => self.turn = Team::Black,
        }
    }

    /// A scratch copy with the piece on `start_sq` put on `target_sq` and the
    /// turn passed; the copy is for testing check and is then dropped.
    pub fn move_piece_test(&self, start_sq: Square, target_sq: Square) -> (r: Game)
        requires
            start_sq.wf(),
            target_sq.wf(),
        ensures
            r == self.move_test(start_sq, target_sq),
    {
        let mut test_game = *self;
        let piece = self.board[start_sq.rank][start_sq.file];
        let en_passant = match piece {
            Some(p) => p.is_pawn() && self.board[target_sq.rank][target_sq.file].is_none()
                && start_sq.file != target_sq.file,
            None => false,
        };
        if en_passant {
            test_game.set_cell(start_sq.rank, target_sq.file, None);
        }
        test_game.set_cell(start_sq.rank, start_sq.file, None);
        test_game.set_cell(target_sq.rank, target_sq.file, piece);
        test_game.switch_turn();
        test_game
    }

    /// A new game at the standard opening position.
    pub fn init() -> (r: Game)
        ensures
            r.is_opening(),
            r.wf(),
    {
        Game {
            board: get_default_board(),
            white_king_moved: false,
            white_rook_a_moved: false,
            white_rook_h_moved: false,
            black_king_moved: false,
            black_rook_a_moved: false,
            black_rook_h_moved: false,
            en_passant_pawn: None,
            turn: Team::White,
            move_num: 0,
        }
    }

    /// Puts the game back at the opening position.
    pub fn reset(&mut self)
        ensures
            final(self).is_opening(),
            final(self).wf(),
    {
        *self = Game::init();
    }

    /// Every cell that holds a piece of `team`, in rank then file order.
    pub fn find_team_pieces(&self, team: Team) -> (r: Vec<Square>)
        ensures
            forall|i: int| 0 <= i < r.len() ==> (#[trigger] r@[i]).wf(),
            forall|s: Square| s.wf() ==> (r@.contains(s) <==> self.owned_by(s, team)),
    {
        let mut pieces: Vec<Square> = Vec::new();
        let mut rank: usize = 0;
        while rank < 8
            invariant
                rank <= 8,
                forall|i: int| 0 <= i < pieces.len() ==> (#[trigger] pieces@[i]).wf(),
                forall|s: Square|
                    s.wf() ==> (pieces@.contains(s) <==> (s.rank < rank && self.owned_by(s, team))),
            decreases 8 - rank,
        {
            let mut file: usize = 0;
            while file < 8
                invariant
                    rank < 8,
                    file <= 8,
                    forall|i: int| 0 <= i < pieces.len() ==> (#[trigger] pieces@[i]).wf(),
                    forall|s: Square|
                        s.wf() ==> (pieces@.contains(s) <==> ((s.rank < rank || (s.rank == rank
                            && s.file < file)) && self.owned_by(s, team))),
                decreases 8 - file,
            {
                let sq = Square::new(rank, file);
                match self.board[rank][file] {
                    Some(p) => {
                        if p.team == team {
                            pieces.push(sq);
                        }
                    },
                    None => {},
                }
                file += 1;
            }
            rank += 1;
        }
        pieces
    }

    /// A cell that holds `team`'s king, if there is one.
    pub fn find_king(&self, team: Team) -> (r: Option<Square>)
        ensures
            r matches Some(k) ==> k.wf() && self.king_at(k, team),
            r is None ==> !self.has_king(team),
    {
        let mut rank: usize = 0;
        while rank < 8
            invariant
                rank <= 8,
                forall|s: Square| s.wf() && s.rank < rank ==> !self.king_at(s, team),
            decreases 8 - rank,
        {
            let mut file: usize = 0;
            while file < 8
                invariant
                    rank < 8,
                    file <= 8,
                    forall|s: Square|
                        s.wf() && (s.rank < rank || (s.rank == rank && s.file < file))
                            ==> !self.king_at(s, team),
                decreases 8 - file,
            {
                if self.board[rank][file] == Some(Piece::new(PieceType::King, team)) {
                    return Some(Square::new(rank, file));
                }
                file += 1;
            }
            rank += 1;
        }
        None
    }
}

} // verus!
