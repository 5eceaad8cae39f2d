//! The snapshot codec: the whole game state as one line of text and back.

use vstd::prelude::*;

use crate::error::ChessError;
use crate::game::{lemma_with_cell, Game};
use crate::piece::{Piece, PieceType, Team};
use crate::square::{file_char, file_index, file_of, in_bounds, label, rank_char, rank_index, rank_of, Square};
use crate::text::push_char;

verus! {

// A snapshot is one line of text:
//   64 cells, rank 1 first and file a first within a rank: `.` for an empty
//   cell, `KQBNRP` for White's pieces, `kqbnrp` for Black's;
//   6 castling flags, `1` for moved: White king, a-rook, h-rook, then Black's;
//   the en-passant target as a label, or `--`;
//   `w` or `b` for the side to move;
//   the move counter in decimal.

/// The character that stands for a cell's content in a snapshot.
pub open spec fn piece_char(c: Option<Piece>) -> char {
    match c {
        None => '.',
        Some(p) => match (p.team, p.piece_type) {
            (Team::White, PieceType::King) => 'K',
            (Team::White, PieceType::Queen) => 'Q',
            (Team::White, PieceType::Bishop) => 'B',
            (Team::White, PieceType::Knight) => 'N',
            (Team::White, PieceType::Rook) => 'R',
            (Team::White, PieceType::Pawn) => 'P',
            (Team::Black, PieceType::King) => 'k',
            (Team::Black, PieceType::Queen) => 'q',
            (Team::Black, PieceType::Bishop) => 'b',
            (Team::Black, PieceType::Knight) => 'n',
            (Team::Black, PieceType::Rook) => 'r',
            (Team::Black, PieceType::Pawn) => 'p',
        },
    }
}

/// The cell content that a snapshot character stands for, if any.
pub open spec fn char_piece(ch: char) -> Option<Option<Piece>> {
    if ch == '.' {
        Some(None)
    } else if ch == 'K' {
        Some(Some(Piece { piece_type: PieceType::King, team: Team::White }))
    } else if ch == 'Q' {
        Some(Some(Piece { piece_type: PieceType::Queen, team: Team::White }))
    } else if ch == 'B' {
        Some(Some(Piece { piece_type: PieceType::Bishop, team: Team::White }))
    } else if ch == 'N' {
        Some(Some(Piece { piece_type: PieceType::Knight, team: Team::White }))
    } else if ch == 'R' {
        Some(Some(Piece { piece_type: PieceType::Rook, team: Team::White }))
    } else if ch == 'P' {
        Some(Some(Piece { piece_type: PieceType::Pawn, team: Team::White }))
    } else if ch == 'k' {
        Some(Some(Piece { piece_type: PieceType::King, team: Team::Black }))
    } else if ch == 'q' {
        Some(Some(Piece { piece_type: PieceType::Queen, team: Team::Black }))
    } else if ch == 'b' {
        Some(Some(Piece { piece_type: PieceType::Bishop, team: Team::Black }))
    } else if ch == 'n' {
        Some(Some(Piece { piece_type: PieceType::Knight, team: Team::Black }))
    } else if ch == 'r' {
        Some(Some(Piece { piece_type: PieceType::Rook, team: Team::Black }))
    } else if ch == 'p' {
        Some(Some(Piece { piece_type: PieceType::Pawn, team: Team::Black }))
    } else {
        None
    }
}

/// The character of decimal digit `d`.
pub open spec fn digit_char(d: int) -> char {
    if d == 0 {
        '0'
    } else if d == 1 {
        '1'
    } else if d == 2 {
        '2'
    } else if d == 3 {
        '3'
    } else if d == 4 {
        '4'
    } else if d == 5 {
        '5'
    } else if d == 6 {
        '6'
    } else if d == 7 {
        '7'
    } else if d == 8 {
        '8'
    } else {
        '9'
    }
}

/// The value of a decimal digit character, or -1.
pub open spec fn digit_value(c: char) -> int {
    if c == '0' {
        0
    } else if c == '1' {
        1
    } else if c == '2' {
        2
    } else if c == '3' {
        3
    } else if c == '4' {
        4
    } else if c == '5' {
        5
    } else if c == '6' {
        6
    } else if c == '7' {
        7
    } else if c == '8' {
        8
    } else if c == '9' {
        9
    } else {
        -1
    }
}

/// The value of a string of decimal digits.
pub open spec fn digits_value(ds: Seq<char>) -> int
    decreases ds.len(),
{
    if ds.len() == 0 {
        0
    } else {
        digits_value(ds.drop_last()) * 10 + digit_value(ds.last())
    }
}

/// `n` written in decimal, without leading zeros.
pub open spec fn decimal(n: nat) -> Seq<char>
    decreases n,
{
    if n < 10 {
        seq![digit_char(n as int)]
    } else {
        decimal(n / 10).push(digit_char((n % 10) as int))
    }
}

pub open spec fn flag_char(b: bool) -> char {
    if b {
        '1'
    } else {
        '0'
    }
}

pub open spec fn turn_char(t: Team) -> char {
    if t == Team::White {
        'w'
    } else {
        'b'
    }
}

/// The snapshot's text for the en-passant target.
pub open spec fn en_passant_text(e: Option<Square>) -> Seq<char> {
    match e {
        Some(sq) => label(sq.rank as int, sq.file as int),
        None => seq!['-', '-'],
    }
}

/// The position of rank `r`, file `f` in a snapshot.
pub open spec fn cell_index(r: int, f: int) -> int {
    r * 8 + f
}

impl Game {
    /// The snapshot's 64 board characters.
    pub open spec fn board_text(self) -> Seq<char> {
        Seq::new(64, |i: int| piece_char(self.cell(i / 8, i % 8)))
    }

    /// The snapshot text of the game.
    pub open spec fn snapshot(self) -> Seq<char> {
        self.board_text() + seq![
            flag_char(self.white_king_moved),
            flag_char(self.white_rook_a_moved),
            flag_char(self.white_rook_h_moved),
            flag_char(self.black_king_moved),
            flag_char(self.black_rook_a_moved),
            flag_char(self.black_rook_h_moved),
        ] + en_passant_text(self.en_passant_pawn) + seq![turn_char(self.turn)] + decimal(
            self.move_num as nat,
        )
    }

    /// The game is what snapshot text `s` describes.
    pub open spec fn decoded_from(self, s: Seq<char>) -> bool {
        &&& s.len() >= 74
        &&& forall|r: int, f: int|
            in_bounds(r, f) ==> char_piece(s[cell_index(r, f)]) == Some(#[trigger] self.cell(r, f))
        &&& self.white_king_moved == (s[64] == '1')
        &&& self.white_rook_a_moved == (s[65] == '1')
        &&& self.white_rook_h_moved == (s[66] == '1')
        &&& self.black_king_moved == (s[67] == '1')
        &&& self.black_rook_a_moved == (s[68] == '1')
        &&& self.black_rook_h_moved == (s[69] == '1')
        &&& self.en_passant_pawn == if s[70] == '-' {
            None
        } else {
            Some(
                Square { rank: rank_of(s[71]).unwrap() as usize, file: file_of(s[70]).unwrap() as usize },
            )
        }
        &&& self.turn == if s[72] == 'w' {
            Team::White
        } else {
            Team::Black
        }
        &&& self.move_num == digits_value(s.subrange(73, s.len() as int))
    }
}

/// Text is a well-formed snapshot: 64 cell characters, six flags of `0` or
/// `1`, `--` or a label, `w` or `b`, and one or more decimal digits whose
/// value fits in a `u32`.
pub open spec fn snapshot_valid(s: Seq<char>) -> bool {
    &&& s.len() >= 74
    &&& forall|i: int| 0 <= i < 64 ==> (#[trigger] char_piece(s[i])) is Some
    &&& forall|i: int| 64 <= i < 70 ==> #[trigger] s[i] == '0' || s[i] == '1'
    &&& (s[70] == '-' && s[71] == '-') || (file_of(s[70]) is Some && rank_of(s[71]) is Some)
    &&& s[72] == 'w' || s[72] == 'b'
    &&& forall|i: int| 73 <= i < s.len() ==> 0 <= #[trigger] digit_value(s[i])
    &&& digits_value(s.subrange(73, s.len() as int)) <= u32::MAX
}

/// Decimal text reads back as its number, and has only digits.
pub proof fn lemma_decimal(n: nat)
    ensures
        digits_value(decimal(n)) == n,
        decimal(n).len() >= 1,
        forall|i: int| 0 <= i < decimal(n).len() ==> 0 <= #[trigger] digit_value(decimal(n)[i]),
    decreases n,
{
    if n < 10 {
        assert(decimal(n).drop_last() =~= Seq::<char>::empty());
        assert(digits_value(Seq::<char>::empty()) == 0);
        assert(digit_value(digit_char(n as int)) == n);
    } else {
        lemma_decimal(n / 10);
        let d = decimal(n / 10);
        assert(decimal(n).drop_last() =~= d);
        assert(digit_value(digit_char((n % 10) as int)) == n % 10);
        assert((n / 10) * 10 + n % 10 == n);
        assert forall|i: int| 0 <= i < decimal(n).len() implies 0 <= #[trigger] digit_value(
            decimal(n)[i],
        ) by {
            if i < d.len() {
                assert(decimal(n)[i] == d[i]);
            }
        }
    }
}

/// A cell's character reads back as the cell's content.
pub proof fn lemma_piece_char(c: Option<Piece>)
    ensures
        char_piece(piece_char(c)) == Some(c),
{
}

/// The cell of rank `r`, file `f` lies at `r * 8 + f` of the board text.
proof fn lemma_cell_index(r: int, f: int)
    requires
        in_bounds(r, f),
    ensures
        0 <= cell_index(r, f) < 64,
        cell_index(r, f) / 8 == r,
        cell_index(r, f) % 8 == f,
{
    assert(cell_index(r, f) / 8 == r && cell_index(r, f) % 8 == f) by (nonlinear_arith)
        requires
            0 <= r < 8,
            0 <= f < 8,
    ;
}

/// A snapshot is well formed, and describes the game it was written from.
pub proof fn lemma_snapshot_decodes(g: Game)
    requires
        g.wf(),
    ensures
        snapshot_valid(g.snapshot()),
        g.decoded_from(g.snapshot()),
{
    let s = g.snapshot();
    let n = g.move_num as nat;
    lemma_decimal(n);
    assert(s.subrange(73, s.len() as int) =~= decimal(n));
    assert forall|i: int| 0 <= i < 64 implies (#[trigger] char_piece(s[i])) is Some by {
        lemma_piece_char(g.cell(i / 8, i % 8));
    }
    assert forall|i: int| 73 <= i < s.len() implies 0 <= #[trigger] digit_value(s[i]) by {
        assert(s[i] == decimal(n)[i - 73]);
    }
    assert forall|r: int, f: int| in_bounds(r, f) implies char_piece(s[cell_index(r, f)]) == Some(
        #[trigger] g.cell(r, f),
    ) by {
        lemma_cell_index(r, f);
        lemma_piece_char(g.cell(r, f));
    }
    match g.en_passant_pawn {
        Some(e) => {
            crate::square::lemma_label_round_trip(e);
        },
        None => {},
    }
}

/// Snapshot text describes at most one game.
pub proof fn lemma_decoded_unique(s: Seq<char>, g1: Game, g2: Game)
    requires
        g1.decoded_from(s),
        g2.decoded_from(s),
    ensures
        g1 == g2,
{
    assert forall|r: int| 0 <= r < 8 implies g1.board[r] =~= g2.board[r] by {
        assert forall|f: int| 0 <= f < 8 implies g1.board[r][f] == g2.board[r][f] by {
            assert(g1.cell(r, f) == g2.cell(r, f));
        }
    }
    assert(g1.board =~= g2.board);
}

/// A longer run of digits is worth at least as much as its prefix.
proof fn lemma_digits_grow(s: Seq<char>, a: int, i: int, j: int)
    requires
        0 <= a <= i <= j <= s.len(),
        forall|k: int| a <= k < j ==> 0 <= #[trigger] digit_value(s[k]),
    ensures
        digits_value(s.subrange(a, j)) >= digits_value(s.subrange(a, i)),
    decreases j - i,
{
    if j > i {
        lemma_digits_grow(s, a, i, j - 1);
        assert(s.subrange(a, j).drop_last() =~= s.subrange(a, j - 1));
        lemma_digits_nonneg(s.subrange(a, j - 1));
    }
}

/// A run of digits is worth at least zero.
proof fn lemma_digits_nonneg(ds: Seq<char>)
    requires
        forall|k: int| 0 <= k < ds.len() ==> 0 <= #[trigger] digit_value(ds[k]),
    ensures
        digits_value(ds) >= 0,
    decreases ds.len(),
{
    if ds.len() > 0 {
        assert forall|k: int| 0 <= k < ds.drop_last().len() implies 0 <= #[trigger] digit_value(
            ds.drop_last()[k],
        ) by {
            assert(ds.drop_last()[k] == ds[k]);
        }
        lemma_digits_nonneg(ds.drop_last());
        assert(ds[ds.len() - 1] == ds.last());
    }
}

fn piece_to_char(c: Option<Piece>) -> (r: char)
    ensures
        r == piece_char(c),
{
    match c {
        None => '.',
        Some(p) => match (p.team, p.piece_type) {
            (Team::White, PieceType::King) => 'K',
            (Team::White, PieceType::Queen) => 'Q',
            (Team::White, PieceType::Bishop) => 'B',
            (Team::White, PieceType::Knight) => 'N',
            (Team::White, PieceType::Rook) => 'R',
            (Team::White, PieceType::Pawn) => 'P',
            (Team::Black, PieceType::King) => 'k',
            (Team::Black, PieceType::Queen) => 'q',
            (Team::Black, PieceType::Bishop) => 'b',
            (Team::Black, PieceType::Knight) => 'n',
            (Team::Black, PieceType::Rook) => 'r',
            (Team::Black, PieceType::Pawn) => 'p',
        },
    }
}

fn char_to_piece(ch: char) -> (r: Option<Option<Piece>>)
    ensures
        r == char_piece(ch),
{
    if ch == '.' {
        Some(None)
    } else if ch == 'K' {
        Some(Some(Piece::new(PieceType::King, Team::White)))
    } else if ch == 'Q' {
        Some(Some(Piece::new(PieceType::Queen, Team::White)))
    } else if ch == 'B' {
        Some(Some(Piece::new(PieceType::Bishop, Team::White)))
    } else if ch == 'N' {
        Some(Some(Piece::new(PieceType::Knight, Team::White)))
    } else if ch == 'R' {
        Some(Some(Piece::new(PieceType::Rook, Team::White)))
    } else if ch == 'P' {
        Some(Some(Piece::new(PieceType::Pawn, Team::White)))
    } else if ch == 'k' {
        Some(Some(Piece::new(PieceType::King, Team::Black)))
    } else if ch == 'q' {
        Some(Some(Piece::new(PieceType::Queen, Team::Black)))
    } else if ch == 'b' {
        Some(Some(Piece::new(PieceType::Bishop, Team::Black)))
    } else if ch == 'n' {
        Some(Some(Piece::new(PieceType::Knight, Team::Black)))
    } else if ch == 'r' {
        Some(Some(Piece::new(PieceType::Rook, Team::Black)))
    } else if ch == 'p' {
        Some(Some(Piece::new(PieceType::Pawn, Team::Black)))
    } else {
        None
    }
}

fn digit_to_char(d: u32) -> (r: char)
    requires
        d < 10,
    ensures
        r == digit_char(d as int),
{
    if d == 0 {
        '0'
    } else if d == 1 {
        '1'
    } else if d == 2 {
        '2'
    } else if d == 3 {
        '3'
    } else if d == 4 {
        '4'
    } else if d == 5 {
        '5'
    } else if d == 6 {
        '6'
    } else if d == 7 {
        '7'
    } else if d == 8 {
        '8'
    } else {
        '9'
    }
}

fn char_to_digit(c: char) -> (r: Option<u64>)
    ensures
        r matches Some(d) ==> d < 10 && d == digit_value(c),
        r is None ==> digit_value(c) < 0,
{
    if c == '0' {
        Some(0)
    } else if c == '1' {
        Some(1)
    } else if c == '2' {
        Some(2)
    } else if c == '3' {
        Some(3)
    } else if c == '4' {
        Some(4)
    } else if c == '5' {
        Some(5)
    } else if c == '6' {
        Some(6)
    } else if c == '7' {
        Some(7)
    } else if c == '8' {
        Some(8)
    } else if c == '9' {
        Some(9)
    } else {
        None
    }
}

/// Appends `n` in decimal.
fn push_decimal(out: &mut String, n: u32)
    ensures
        final(out)@ == old(out)@ + decimal(n as nat),
    decreases n,
{
    if n >= 10 {
        push_decimal(out, n / 10);
    }
    push_char(out, digit_to_char(n % 10));
    proof {
        if n >= 10 {
            assert(decimal(n as nat) == decimal((n / 10) as nat).push(digit_char((n % 10) as int)));
        }
        assert(out@ =~= old(out)@ + decimal(n as nat));
    }
}

fn flag_to_char(b: bool) -> (r: char)
    ensures
        r == flag_char(b),
{
    if b {
        '1'
    } else {
        '0'
    }
}

impl Game {
    /// The game's snapshot text.
    pub fn dump(&self) -> (r: String)
        requires
            self.wf(),
        ensures
            r@ == self.snapshot(),
    {
        let mut out = String::new();
        let mut rank: usize = 0;
        while rank < 8
            invariant
                rank <= 8,
                out@ =~= self.board_text().subrange(0, cell_index(rank as int, 0)),
            decreases 8 - rank,
        {
            let mut file: usize = 0;
            while file < 8
                invariant
                    rank < 8,
                    file <= 8,
                    out@ =~= self.board_text().subrange(0, cell_index(rank as int, file as int)),
                decreases 8 - file,
            {
                proof {
                    lemma_cell_index(rank as int, file as int);
                }
                push_char(&mut out, piece_to_char(self.board[rank][file]));
                file += 1;
            }
            rank += 1;
        }
        assert(out@ =~= self.board_text());
        push_char(&mut out, flag_to_char(self.white_king_moved));
        push_char(&mut out, flag_to_char(self.white_rook_a_moved));
        push_char(&mut out, flag_to_char(self.white_rook_h_moved));
        push_char(&mut out, flag_to_char(self.black_king_moved));
        push_char(&mut out, flag_to_char(self.black_rook_a_moved));
        push_char(&mut out, flag_to_char(self.black_rook_h_moved));
        match self.en_passant_pawn {
            Some(e) => {
                push_char(&mut out, file_char(e.file));
                push_char(&mut out, rank_char(e.rank));
            },
            None => {
                push_char(&mut out, '-');
                push_char(&mut out, '-');
            },
        }
        push_char(&mut out, if self.turn == Team::White {
            'w'
        } else {
            'b'
        });
        push_decimal(&mut out, self.move_num);
        assert(out@ =~= self.snapshot());
        out
    }

    /// Replaces the game by the one that snapshot text `dump` describes;
    /// `InvalidSnapshot`, with the game unchanged, when the text is malformed.
    #[verifier::loop_isolation(false)]
    pub fn from_dump(&mut self, dump: String) -> (r: Result<(), ChessError>)
        ensures
            r is Ok <==> snapshot_valid(dump@),
            r is Err ==> r == Err::<(), ChessError>(ChessError::InvalidSnapshot) && *final(self)
                == *old(self),
            r is Ok ==> final(self).decoded_from(dump@) && final(self).wf(),
    {
        let text = dump.as_str();
        let n = text.unicode_len();
        if n < 74 {
            return Err(ChessError::InvalidSnapshot);
        }
        let ghost s = text@;
        let mut g = Game::init();
        let mut rank: usize = 0;
        while rank < 8
            invariant
                s == text@,
                s == dump@,
                n == s.len(),
                n >= 74,
                rank <= 8,
                forall|r: int, f: int|
                    in_bounds(r, f) && r < rank ==> char_piece(s[cell_index(r, f)]) == Some(
                        #[trigger] g.cell(r, f),
                    ),
            decreases 8 - rank,
        {
            let mut file: usize = 0;
            while file < 8
                invariant
                    s == text@,
                    s == dump@,
                    n == s.len(),
                    n >= 74,
                    rank < 8,
                    file <= 8,
                    forall|r: int, f: int|
                        in_bounds(r, f) && (r < rank || (r == rank && f < file)) ==> char_piece(
                            s[cell_index(r, f)],
                        ) == Some(#[trigger] g.cell(r, f)),
                decreases 8 - file,
            {
                proof {
                    lemma_cell_index(rank as int, file as int);
                }
                let ch = text.get_char(rank * 8 + file);
                assert(ch == s[cell_index(rank as int, file as int)]);
                match char_to_piece(ch) {
                    Some(c) => {
                        proof {
                            lemma_with_cell(g, rank as int, file as int, c);
                        }
                        g.set_cell(rank, file, c);
                    },
                    None => {
                        assert(!(char_piece(s[cell_index(rank as int, file as int)]) is Some));
                        assert(!snapshot_valid(s));
                        return Err(ChessError::InvalidSnapshot);
                    },
                }
                file += 1;
            }
            rank += 1;
        }
        let mut flags: Vec<bool> = Vec::new();
        let mut i: usize = 0;
        while i < 6
            invariant
                s == text@,
                s == dump@,
                n == s.len(),
                n >= 74,
                i <= 6,
                flags.len() == i,
                forall|k: int| 0 <= k < i ==> #[trigger] s[64 + k] == '0' || s[64 + k] == '1',
                forall|k: int| 0 <= k < i ==> #[trigger] flags@[k] == (s[64 + k] == '1'),
            decreases 6 - i,
        {
            let c = text.get_char(64 + i);
            assert(c == s[64 + i as int]);
            if c == '1' {
                flags.push(true);
            } else if c == '0' {
                flags.push(false);
            } else {
                assert(!(s[64 + i as int] == '0' || s[64 + i as int] == '1'));
                assert(!snapshot_valid(s));
                return Err(ChessError::InvalidSnapshot);
            }
            i += 1;
        }
        assert(s[64] == s[64 + 0 as int]);
        let c70 = text.get_char(70);
        let c71 = text.get_char(71);
        let en_passant = if c70 == '-' {
            if c71 != '-' {
                assert(file_of('-') is None);
                assert(!snapshot_valid(s));
                return Err(ChessError::InvalidSnapshot);
            }
            None
        } else {
            match (file_index(c70), rank_index(c71)) {
                (Some(file), Some(rank)) => Some(Square::new(rank, file)),
                _ => {
                    assert(!snapshot_valid(s));
                    return Err(ChessError::InvalidSnapshot);
                },
            }
        };
        let c72 = text.get_char(72);
        let turn = if c72 == 'w' {
            Team::White
        } else if c72 == 'b' {
            Team::Black
        } else {
            assert(!snapshot_valid(s));
            return Err(ChessError::InvalidSnapshot);
        };
        let mut acc: u64 = 0;
        assert(s.subrange(73, 73) =~= Seq::<char>::empty());
        let mut i: usize = 73;
        while i < n
            invariant
                s == text@,
                s == dump@,
                n == s.len(),
                n >= 74,
                73 <= i <= n,
                acc <= u32::MAX,
                acc == digits_value(s.subrange(73, i as int)),
                forall|k: int| 73 <= k < i ==> 0 <= #[trigger] digit_value(s[k]),
            decreases n - i,
        {
            let ch = text.get_char(i);
            assert(ch == s[i as int]);
            let d = match char_to_digit(ch) {
                Some(d) => d,
                None => {
                    assert(!snapshot_valid(s));
                    return Err(ChessError::InvalidSnapshot);
                },
            };
            proof {
                assert(s.subrange(73, i + 1).drop_last() =~= s.subrange(73, i as int));
            }
            acc = acc * 10 + d;
            if acc > u32::MAX as u64 {
                proof {
                    if forall|k: int| 73 <= k < n ==> 0 <= #[trigger] digit_value(s[k]) {
                        lemma_digits_grow(s, 73, i + 1, n as int);
                    }
                    assert(!snapshot_valid(s));
                }
                return Err(ChessError::InvalidSnapshot);
            }
            i += 1;
        }
        proof {
            assert forall|k: int| 0 <= k < 64 implies (#[trigger] char_piece(s[k])) is Some by {
                assert(0 <= k / 8 < 8 && 0 <= k % 8 < 8 && k == (k / 8) * 8 + k % 8) by (nonlinear_arith)
                    requires
                        0 <= k < 64,
                ;
                assert(g.cell(k / 8, k % 8) == g.cell(k / 8, k % 8));
            }
            assert(s[65] == s[64 + 1 as int]);
            assert(s[66] == s[64 + 2 as int]);
            assert(s[67] == s[64 + 3 as int]);
            assert(s[68] == s[64 + 4 as int]);
            assert(s[69] == s[64 + 5 as int]);
        }
        let ghost gb = g;
        g.white_king_moved = flags[0];
        g.white_rook_a_moved = flags[1];
        g.white_rook_h_moved = flags[2];
        g.black_king_moved = flags[3];
        g.black_rook_a_moved = flags[4];
        g.black_rook_h_moved = flags[5];
        g.en_passant_pawn = en_passant;
        g.turn = turn;
        g.move_num = acc as u32;
        assert(g.board == gb.board);
        assert forall|r: int, f: int| in_bounds(r, f) implies char_piece(s[cell_index(r, f)]) == Some(
            #[trigger] g.cell(r, f),
        ) by {
            assert(gb.cell(r, f) == g.cell(r, f));
        }
        *self = g;
        Ok(())
    }
}

/// Restoring a game from its own snapshot succeeds and gives back the same
/// game, so every cell has the same legal moves as before.
pub proof fn lemma_snapshot_round_trip(g: Game, h: Game)
    requires
        g.wf(),
        h.decoded_from(g.snapshot()),
    ensures
        snapshot_valid(g.snapshot()),
        h == g,
        forall|s: Square, t: Square| #[trigger] h.is_legal_move(s, t) == g.is_legal_move(s, t),
{
    lemma_snapshot_decodes(g);
    lemma_decoded_unique(g.snapshot(), g, h);
}

} // verus!
