//! Sides, piece kinds and pieces, and their names.

use vstd::prelude::*;

use crate::error::ChessError;
use crate::text::str_equal;

verus! {

/// The two sides; White moves first and the sides alternate.
#[derive(Clone, Copy, PartialEq, Eq, Structural, Debug)]
pub enum Team {
    White,
    Black,
}

/// The six kinds of chess piece.
#[derive(Clone, Copy, PartialEq, Eq, Structural, Debug)]
pub enum PieceType {
    King,
    Queen,
    Bishop,
    Knight,
    Rook,
    Pawn,
}

/// A piece: its kind and the side that owns it.
#[derive(Clone, Copy, PartialEq, Eq, Structural, Debug)]
pub struct Piece {
    pub piece_type: PieceType,
    pub team: Team,
}

/// The side that is not `t`.
pub open spec fn opponent(t: Team) -> Team {
    match t {
        Team::White => Team::Black,
        Team::Black => Team::White,
    }
}

/// The text that names a team.
pub open spec fn team_name(t: Team) -> Seq<char> {
    match t {
        Team::White => seq!['W', 'h', 'i', 't', 'e'],
        Team::Black => seq!['B', 'l', 'a', 'c', 'k'],
    }
}

/// Reading a team name: exactly `White` or `Black`.
pub open spec fn parse_team(s: Seq<char>) -> Result<Team, ChessError> {
    if s == team_name(Team::White) {
        Ok(Team::White)
    } else if s == team_name(Team::Black) {
        Ok(Team::Black)
    } else {
        Err(ChessError::InvalidTeamName)
    }
}

/// The text that names a piece kind.
pub open spec fn kind_name(k: PieceType) -> Seq<char> {
    match k {
        PieceType::King => seq!['K', 'i', 'n', 'g'],
        PieceType::Queen => seq!['Q', 'u', 'e', 'e', 'n'],
        PieceType::Bishop => seq!['B', 'i', 's', 'h', 'o', 'p'],
        PieceType::Knight => seq!['K', 'n', 'i', 'g', 'h', 't'],
        PieceType::Rook => seq!['R', 'o', 'o', 'k'],
        PieceType::Pawn => seq!['P', 'a', 'w', 'n'],
    }
}

/// Reading a piece-kind name: exactly one of the six kind names.
pub open spec fn parse_kind(s: Seq<char>) -> Result<PieceType, ChessError> {
    if s == kind_name(PieceType::King) {
        Ok(PieceType::King)
    } else if s == kind_name(PieceType::Queen) {
        Ok(PieceType::Queen)
    } else if s == kind_name(PieceType::Bishop) {
        Ok(PieceType::Bishop)
    } else if s == kind_name(PieceType::Knight) {
        Ok(PieceType::Knight)
    } else if s == kind_name(PieceType::Rook) {
        Ok(PieceType::Rook)
    } else if s == kind_name(PieceType::Pawn) {
        Ok(PieceType::Pawn)
    } else {
        Err(ChessError::InvalidPieceKindName)
    }
}

impl PieceType {
    /// Parses a piece-kind name such as `Queen`.
    pub fn from(piece_type_str: &str) -> (r: Result<PieceType, ChessError>)
        ensures
            r == parse_kind(piece_type_str@),
    {
        proof {
            reveal_strlit("King");
            reveal_strlit("Queen");
            reveal_strlit("Bishop");
            reveal_strlit("Knight");
            reveal_strlit("Rook");
            reveal_strlit("Pawn");
            assert("King"@ =~= kind_name(PieceType::King));
            assert("Queen"@ =~= kind_name(PieceType::Queen));
            assert("Bishop"@ =~= kind_name(PieceType::Bishop));
            assert("Knight"@ =~= kind_name(PieceType::Knight));
            assert("Rook"@ =~= kind_name(PieceType::Rook));
            assert("Pawn"@ =~= kind_name(PieceType::Pawn));
        }
        if str_equal(piece_type_str, "King") {
            Ok(PieceType::King)
        } else if str_equal(piece_type_str, "Queen") {
            Ok(PieceType::Queen)
        } else if str_equal(piece_type_str, "Bishop") {
            Ok(PieceType::Bishop)
        } else if str_equal(piece_type_str, "Knight") {
            Ok(PieceType::Knight)
        } else if str_equal(piece_type_str, "Rook") {
            Ok(PieceType::Rook)
        } else if str_equal(piece_type_str, "Pawn") {
            Ok(PieceType::Pawn)
        } else {
            Err(ChessError::InvalidPieceKindName)
        }
    }
}

impl Team {
    /// Parses a team name, `White` or `Black`.
    pub fn from(team_str: &str) -> (r: Result<Team, ChessError>)
        ensures
            r == parse_team(team_str@),
    {
        proof {
            reveal_strlit("White");
            reveal_strlit("Black");
            assert("White"@ =~= team_name(Team::White));
            assert("Black"@ =~= team_name(Team::Black));
        }
        if str_equal(team_str, "White") {
            Ok(Team::White)
        } else if str_equal(team_str, "Black") {
            Ok(Team::Black)
        } else {
            Err(ChessError::InvalidTeamName)
        }
    }

    pub fn is_white(&self) -> (r: bool)
        ensures
            r == (*self == Team::White),
    {
        *self == Team::White
    }

    pub fn is_black(&self) -> (r: bool)
        ensures
            r == (*self == Team::Black),
    {
        *self == Team::Black
    }

    /// The other side.
    pub fn opponent(&self) -> (r: Team)
        ensures
            r == opponent(*self),
    {
        match self {
            Team::White => Team::Black,
            Team::Black => Team::White,
        }
    }

    /// The team's name, as `Team::from` reads it.
    pub fn name(&self) -> (r: String)
        ensures
            r@ == team_name(*self),
    {
        proof {
            reveal_strlit("White");
            reveal_strlit("Black");
        }
        match self {
            Team::White => String::from_str("White"),
            Team::Black => String::from_str("Black"),
        }
    }
}

impl Piece {
    pub fn new(piece_type: PieceType, team: Team) -> (r: Piece)
        ensures
            r == (Piece { piece_type, team }),
    {
        Piece { piece_type, team }
    }

    pub fn team(&self) -> (r: Team)
        ensures
            r == self.team,
    {
        self.team
    }

    pub fn piece_type(&self) -> (r: PieceType)
        ensures
            r == self.piece_type,
    {
        self.piece_type
    }

    pub fn is_king(&self) -> (r: bool)
        ensures
            r == (self.piece_type == PieceType::King),
    {
        self.piece_type == PieceType::King
    }

    pub fn is_pawn(&self) -> (r: bool)
        ensures
            r == (self.piece_type == PieceType::Pawn),
    {
        self.piece_type == PieceType::Pawn
    }
}

} // verus!
