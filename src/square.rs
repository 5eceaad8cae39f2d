//! Board coordinates and their algebraic labels.

use vstd::prelude::*;

use crate::error::ChessError;
use crate::text::push_char;

verus! {

/// A cell of the 8x8 board. Rank 0, file 0 is `a1`; files run `a` to `h`,
/// ranks `1` to `8`.
#[derive(Clone, Copy, PartialEq, Eq, Structural, Debug)]
pub struct Square {
    pub rank: usize,
    pub file: usize,
}

/// A (rank, file) pair lies on the board.
pub open spec fn in_bounds(r: int, f: int) -> bool {
    0 <= r < 8 && 0 <= f < 8
}

/// The letter of file `f`.
pub open spec fn file_letter(f: int) -> char {
    if f == 0 {
        'a'
    } else if f == 1 {
        'b'
    } else if f == 2 {
        'c'
    } else if f == 3 {
        'd'
    } else if f == 4 {
        'e'
    } else if f == 5 {
        'f'
    } else if f == 6 {
        'g'
    } else {
        'h'
    }
}

/// The digit of rank `r`.
pub open spec fn rank_digit(r: int) -> char {
    if r == 0 {
        '1'
    } else if r == 1 {
        '2'
    } else if r == 2 {
        '3'
    } else if r == 3 {
        '4'
    } else if r == 4 {
        '5'
    } else if r == 5 {
        '6'
    } else if r == 6 {
        '7'
    } else {
        '8'
    }
}

/// The file that a letter names, if it names one.
pub open spec fn file_of(c: char) -> Option<int> {
    if c == 'a' {
        Some(0)
    } else if c == 'b' {
        Some(1)
    } else if c == 'c' {
        Some(2)
    } else if c == 'd' {
        Some(3)
    } else if c == 'e' {
        Some(4)
    } else if c == 'f' {
        Some(5)
    } else if c == 'g' {
        Some(6)
    } else if c == 'h' {
        Some(7)
    } else {
        None
    }
}

/// The rank that a digit names, if it names one.
pub open spec fn rank_of(c: char) -> Option<int> {
    if c == '1' {
        Some(0)
    } else if c == '2' {
        Some(1)
    } else if c == '3' {
        Some(2)
    } else if c == '4' {
        Some(3)
    } else if c == '5' {
        Some(4)
    } else if c == '6' {
        Some(5)
    } else if c == '7' {
        Some(6)
    } else if c == '8' {
        Some(7)
    } else {
        None
    }
}

/// The two-character algebraic label of a cell, such as `e4`.
pub open spec fn label(r: int, f: int) -> Seq<char> {
    seq![file_letter(f), rank_digit(r)]
}

/// Reading a label: exactly two characters, a file letter then a rank digit.
pub open spec fn parse_label(s: Seq<char>) -> Result<Square, ChessError> {
    if s.len() == 2 && file_of(s[0]).is_some() && rank_of(s[1]).is_some() {
        Ok(Square { rank: rank_of(s[1]).unwrap() as usize, file: file_of(s[0]).unwrap() as usize })
    } else {
        Err(ChessError::InvalidCoordinate)
    }
}

/// Distinct files have distinct letters, and distinct ranks distinct digits.
pub proof fn lemma_label_chars_injective()
    ensures
        forall|a: int, b: int|
            0 <= a < 8 && 0 <= b < 8 && #[trigger] file_letter(a) == #[trigger] file_letter(b)
                ==> a == b,
        forall|a: int, b: int|
            0 <= a < 8 && 0 <= b < 8 && #[trigger] rank_digit(a) == #[trigger] rank_digit(b)
                ==> a == b,
{
}

/// Labels read back as the cell they were written from.
pub proof fn lemma_label_round_trip(sq: Square)
    requires
        sq.wf(),
    ensures
        parse_label(label(sq.rank as int, sq.file as int)) == Ok::<Square, ChessError>(sq),
{
    lemma_label_chars_injective();
    let s = label(sq.rank as int, sq.file as int);
    assert(0 <= sq.file < 8 && file_letter(sq.file as int) == s[0]);
    assert(0 <= sq.rank < 8 && rank_digit(sq.rank as int) == s[1]);
}

/// The letter of a file, computed.
pub(crate) fn file_char(f: usize) -> (c: char)
    requires
        f < 8,
    ensures
        c == file_letter(f as int),
{
    if f == 0 {
        'a'
    } else if f == 1 {
        'b'
    } else if f == 2 {
        'c'
    } else if f == 3 {
        'd'
    } else if f == 4 {
        'e'
    } else if f == 5 {
        'f'
    } else if f == 6 {
        'g'
    } else {
        'h'
    }
}

/// The digit of a rank, computed.
pub(crate) fn rank_char(r: usize) -> (c: char)
    requires
        r < 8,
    ensures
        c == rank_digit(r as int),
{
    if r == 0 {
        '1'
    } else if r == 1 {
        '2'
    } else if r == 2 {
        '3'
    } else if r == 3 {
        '4'
    } else if r == 4 {
        '5'
    } else if r == 5 {
        '6'
    } else if r == 6 {
        '7'
    } else {
        '8'
    }
}

/// The file a letter names, computed.
pub(crate) fn file_index(c: char) -> (r: Option<usize>)
    ensures
        r matches Some(f) ==> f < 8 && file_of(c) == Some(f as int),
        r is None ==> file_of(c) is None,
{
    if c == 'a' {
        Some(0)
    } else if c == 'b' {
        Some(1)
    } else if c == 'c' {
        Some(2)
    } else if c == 'd' {
        Some(3)
    } else if c == 'e' {
        Some(4)
    } else if c == 'f' {
        Some(5)
    } else if c == 'g' {
        Some(6)
    } else if c == 'h' {
        Some(7)
    } else {
        None
    }
}

/// The rank a digit names, computed.
pub(crate) fn rank_index(c: char) -> (r: Option<usize>)
    ensures
        r matches Some(x) ==> x < 8 && rank_of(c) == Some(x as int),
        r is None ==> rank_of(c) is None,
{
    if c == '1' {
        Some(0)
    } else if c == '2' {
        Some(1)
    } else if c == '3' {
        Some(2)
    } else if c == '4' {
        Some(3)
    } else if c == '5' {
        Some(4)
    } else if c == '6' {
        Some(5)
    } else if c == '7' {
        Some(6)
    } else if c == '8' {
        Some(7)
    } else {
        None
    }
}

impl Square {
    /// The cell lies on the board.
    pub open spec fn wf(self) -> bool {
        self.rank < 8 && self.file < 8
    }

    /// This cell's label.
    pub open spec fn label(self) -> Seq<char> {
        label(self.rank as int, self.file as int)
    }

    /// Absolute difference of ranks.
    pub open spec fn rank_dist(self, o: Square) -> int {
        if self.rank >= o.rank {
            self.rank - o.rank
        } else {
            o.rank - self.rank
        }
    }

    /// Absolute difference of files.
    pub open spec fn file_dist(self, o: Square) -> int {
        if self.file >= o.file {
            self.file - o.file
        } else {
            o.file - self.file
        }
    }

    pub fn rank(&self) -> (r: usize)
        ensures
            r == self.rank,
    {
        self.rank
    }

    pub fn file(&self) -> (r: usize)
        ensures
            r == self.file,
    {
        self.file
    }

    /// A cell from a rank and file known to be on the board.
    pub fn new(rank: usize, file: usize) -> (r: Square)
        requires
            rank < 8,
            file < 8,
        ensures
            r == (Square { rank, file }),
    {
        Square { rank, file }
    }

    /// A cell from a rank and file, or `InvalidCoordinate` off the board.
    pub fn from_usize(rank: usize, file: usize) -> (r: Result<Square, ChessError>)
        ensures
            rank < 8 && file < 8 ==> r == Ok::<Square, ChessError>(Square { rank, file }),
            !(rank < 8 && file < 8) ==> r == Err::<Square, ChessError>(ChessError::InvalidCoordinate),
    {
        if rank > 7 || file > 7 {
            return Err(ChessError::InvalidCoordinate);
        }
        Ok(Square { rank, file })
    }

    /// A cell from signed coordinates, or `InvalidCoordinate` off the board.
    pub fn from_i32(rank: i32, file: i32) -> (r: Result<Square, ChessError>)
        ensures
            in_bounds(rank as int, file as int) ==> r == Ok::<Square, ChessError>(
                Square { rank: rank as usize, file: file as usize },
            ),
            !in_bounds(rank as int, file as int) ==> r == Err::<Square, ChessError>(
                ChessError::InvalidCoordinate,
            ),
    {
        if rank > 7 || file > 7 || rank < 0 || file < 0 {
            return Err(ChessError::InvalidCoordinate);
        }
        Ok(Square { rank: rank as usize, file: file as usize })
    }

    /// Parses an algebraic label such as `e4`.
    pub fn from(coords: &str) -> (r: Result<Square, ChessError>)
        ensures
            r == parse_label(coords@),
            r matches Ok(sq) ==> sq.wf(),
    {
        if coords.unicode_len() != 2 {
            return Err(ChessError::InvalidCoordinate);
        }
        let file_c = coords.get_char(0);
        let rank_c = coords.get_char(1);
        match (file_index(file_c), rank_index(rank_c)) {
            (Some(file), Some(rank)) => Ok(Square { rank, file }),
            _ => Err(ChessError::InvalidCoordinate),
        }
    }

    /// The cell's algebraic label, such as `e4`.
    pub fn coords(&self) -> (r: String)
        requires
            self.wf(),
        ensures
            r@ == self.label(),
    {
        let mut s = String::new();
        push_char(&mut s, file_char(self.file));
        push_char(&mut s, rank_char(self.rank));
        assert(s@ =~= self.label());
        s
    }

    /// Absolute difference between this cell's rank and `target_sq`'s.
    pub fn rank_diff(&self, target_sq: Square) -> (r: usize)
        ensures
            r == self.rank_dist(target_sq),
    {
        if self.rank >= target_sq.rank {
            self.rank - target_sq.rank
        } else {
            target_sq.rank - self.rank
        }
    }

    /// Absolute difference between this cell's file and `target_sq`'s.
    pub fn file_diff(&self, target_sq: Square) -> (r: usize)
        ensures
            r == self.file_dist(target_sq),
    {
        if self.file >= target_sq.file {
            self.file - target_sq.file
        } else {
            target_sq.file - self.file
        }
    }
}

} // verus!
