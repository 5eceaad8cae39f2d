//! Pseudo-legal move generation, one pattern per piece kind.

use vstd::prelude::*;

use crate::game::Game;
use crate::piece::{Piece, PieceType, Team};
use crate::square::{in_bounds, Square};

verus! {

broadcast use vstd::seq_lib::lemma_seq_contains_after_push;

pub open spec fn abs(x: int) -> int {
    if x >= 0 {
        x
    } else {
        -x
    }
}

pub open spec fn sign(x: int) -> int {
    if x > 0 {
        1
    } else if x < 0 {
        -1
    } else {
        0
    }
}

/// `x` moved `j` steps in direction `d` (one of -1, 0, 1).
pub open spec fn step(x: int, d: int, j: int) -> int {
    if d > 0 {
        x + j
    } else if d < 0 {
        x - j
    } else {
        x
    }
}

pub open spec fn rank_delta(s: Square, t: Square) -> int {
    t.rank - s.rank
}

pub open spec fn file_delta(s: Square, t: Square) -> int {
    t.file - s.file
}

/// The number of king steps from `s` to `t` along their line.
pub open spec fn line_dist(s: Square, t: Square) -> int {
    if abs(rank_delta(s, t)) >= abs(file_delta(s, t)) {
        abs(rank_delta(s, t))
    } else {
        abs(file_delta(s, t))
    }
}

/// `t` is another cell of `s`'s rank or file.
pub open spec fn straight_line(s: Square, t: Square) -> bool {
    s != t && (s.rank == t.rank || s.file == t.file)
}

/// `t` is another cell of one of `s`'s diagonals.
pub open spec fn diagonal_line(s: Square, t: Square) -> bool {
    s != t && abs(rank_delta(s, t)) == abs(file_delta(s, t))
}

/// `t` is one of the eight cells around `s`.
pub open spec fn king_step(s: Square, t: Square) -> bool {
    s != t && abs(rank_delta(s, t)) <= 1 && abs(file_delta(s, t)) <= 1
}

/// `t` is a knight's jump away from `s`.
pub open spec fn knight_jump(s: Square, t: Square) -> bool {
    (abs(rank_delta(s, t)) == 1 && abs(file_delta(s, t)) == 2) || (abs(rank_delta(s, t)) == 2
        && abs(file_delta(s, t)) == 1)
}

/// The rank on which `team`'s king and rooks start.
pub open spec fn home_rank(team: Team) -> int {
    if team == Team::White {
        0
    } else {
        7
    }
}

/// The rank direction in which `team`'s pawns advance.
pub open spec fn pawn_dir(team: Team) -> int {
    if team == Team::White {
        1
    } else {
        -1
    }
}

/// The rank on which `team`'s pawns start.
pub open spec fn pawn_start_rank(team: Team) -> int {
    if team == Team::White {
        1
    } else {
        6
    }
}

/// The rank on which `team`'s pawns are promoted.
pub open spec fn pawn_last_rank(team: Team) -> int {
    if team == Team::White {
        7
    } else {
        0
    }
}

impl Game {
    /// The first `k - 1` cells from `s` in direction (`dr`, `df`) are empty.
    pub open spec fn ray_clear(self, s: Square, dr: int, df: int, k: int) -> bool {
        forall|j: int|
            1 <= j < k ==> #[trigger] self.empty(step(s.rank as int, dr, j), step(s.file as int, df, j))
    }

    /// Every cell strictly between `s` and `t` on their line is empty.
    pub open spec fn path_clear(self, s: Square, t: Square) -> bool {
        self.ray_clear(s, sign(rank_delta(s, t)), sign(file_delta(s, t)), line_dist(s, t))
    }

    /// A piece sliding from `s` in direction (`dr`, `df`) reaches `t`: `t` is
    /// on that ray and every cell before it is empty.
    pub open spec fn ray_hit(self, s: Square, dr: int, df: int, t: Square) -> bool {
        exists|k: int|
            #![trigger step(s.rank as int, dr, k), step(s.file as int, df, k)]
            k >= 1 && t.rank == step(s.rank as int, dr, k) && t.file == step(s.file as int, df, k)
                && self.ray_clear(s, dr, df, k)
    }

    /// `t` is a castling target of `team`'s king on `s`: the king stands
    /// unmoved on its home square, the rook of that side is unmoved, and the
    /// cells between them are empty. The king's home square is asked for as
    /// well as its flag: in play the flag stays clear only while the king is
    /// at home, but a position read from a snapshot may pair a clear flag
    /// with a king elsewhere, and a castling move from there would not end
    /// with the king and the rook side by side.
    pub open spec fn castle_target(self, s: Square, t: Square, team: Team) -> bool {
        let hr = home_rank(team);
        &&& s.rank == hr
        &&& s.file == 4
        &&& !self.king_moved(team)
        &&& t.rank == hr
        &&& ((t.file == 2 && !self.rook_a_moved(team) && self.empty(hr, 1) && self.empty(hr, 2)
            && self.empty(hr, 3)) || (t.file == 6 && !self.rook_h_moved(team) && self.empty(hr, 5)
            && self.empty(hr, 6)))
    }

    /// `t` is a pawn move of `team`'s pawn on `s`: one cell ahead onto an
    /// empty cell; two ahead from the start rank over two empty cells; one
    /// diagonally ahead onto an occupied cell; or, en passant, diagonally
    /// ahead behind the pawn that has just advanced two cells beside it.
    pub open spec fn pawn_target(self, s: Square, t: Square, team: Team) -> bool {
        let d = pawn_dir(team);
        let ahead = s.rank + d;
        ||| (s.rank != pawn_last_rank(team) && t.rank == ahead && t.file == s.file
            && self.empty(t.rank as int, t.file as int))
        ||| (s.rank == pawn_start_rank(team) && t.rank == s.rank + 2 * d && t.file == s.file
            && self.empty(ahead, s.file as int) && self.empty(t.rank as int, t.file as int))
        ||| (s.rank != pawn_last_rank(team) && t.rank == ahead && abs(file_delta(s, t)) == 1
            && !self.empty(t.rank as int, t.file as int))
        ||| (self.en_passant_pawn matches Some(e) && e.rank == s.rank && abs(e.file - s.file) == 1
            && t.rank == ahead && t.file == e.file)
    }

    /// `t` is a pseudo-legal target of the piece on `s`: it follows the
    /// piece's pattern of movement and the board's occupancy, whatever
    /// stands on `t` and whether or not the mover's king is left in check.
    pub open spec fn pseudo_move(self, s: Square, t: Square) -> bool {
        match self.at(s) {
            Some(p) => match p.piece_type {
                PieceType::King => king_step(s, t) || self.castle_target(s, t, p.team),
                PieceType::Queen => (straight_line(s, t) || diagonal_line(s, t)) && self.path_clear(
                    s,
                    t,
                ),
                PieceType::Bishop => diagonal_line(s, t) && self.path_clear(s, t),
                PieceType::Knight => knight_jump(s, t),
                PieceType::Rook => straight_line(s, t) && self.path_clear(s, t),
                PieceType::Pawn => self.pawn_target(s, t, p.team),
            },
            None => false,
        }
    }

    /// A pseudo-legal target that does not hold a piece of the mover's side.
    pub open spec fn possible_move(self, s: Square, t: Square) -> bool {
        &&& self.pseudo_move(s, t)
        &&& !(self.at(s) matches Some(p) && self.owned_by(t, p.team))
    }
}

/// Every square of `v` lies on the board.
pub open spec fn all_wf(v: Seq<Square>) -> bool {
    forall|i: int| 0 <= i < v.len() ==> (#[trigger] v[i]).wf()
}

/// Appending a value that `v` does not hold keeps `v` free of repeats.
pub proof fn lemma_push_no_duplicates<A>(v: Seq<A>, x: A)
    requires
        v.no_duplicates(),
        !v.contains(x),
    ensures
        v.push(x).no_duplicates(),
{
    let w = v.push(x);
    assert forall|i: int, j: int| 0 <= i < w.len() && 0 <= j < w.len() && i != j implies w[i]
        != w[j] by {
        if i == v.len() {
            assert(v[j] == w[j]);
        } else if j == v.len() {
            assert(v[i] == w[i]);
        } else {
            assert(v[i] == w[i] && v[j] == w[j]);
        }
    }
}

/// Appends the cell at offset (`dr`, `df`) from `s`, if it lies on the board.
/// The list must not hold that cell yet.
fn push_offset(s: Square, dr: i32, df: i32, moves: &mut Vec<Square>)
    requires
        s.wf(),
        -2 <= dr <= 2,
        -2 <= df <= 2,
        all_wf(old(moves)@),
        old(moves)@.no_duplicates(),
        forall|t: Square| #[trigger] old(moves)@.contains(t) ==> !(t.rank == s.rank + dr && t.file == s.file + df),
    ensures
        all_wf(final(moves)@),
        final(moves)@.no_duplicates(),
        final(moves)@.len() <= old(moves)@.len() + 1,
        forall|t: Square|
            #[trigger] final(moves)@.contains(t) ==> (old(moves)@.contains(t) || (t.rank == s.rank + dr
                && t.file == s.file + df)),
        forall|t: Square|
            t.wf() ==> (final(moves)@.contains(t) <==> (old(moves)@.contains(t) || (t.rank == s.rank
                + dr && t.file == s.file + df))),
{
    let r = s.rank as i32 + dr;
    let f = s.file as i32 + df;
    if 0 <= r && r < 8 && 0 <= f && f < 8 {
        let t = Square::new(r as usize, f as usize);
        proof {
            lemma_push_no_duplicates(moves@, t);
        }
        moves.push(t);
    }
}

impl Game {
    /// Appends the cells that a piece sliding from `s` in direction
    /// (`dr`, `df`) reaches: each empty cell, and the first occupied one.
    fn push_ray(&self, s: Square, dr: i32, df: i32, moves: &mut Vec<Square>)
        requires
            s.wf(),
            -1 <= dr <= 1,
            -1 <= df <= 1,
            dr != 0 || df != 0,
            all_wf(old(moves)@),
            old(moves)@.no_duplicates(),
            forall|t: Square| #[trigger] old(moves)@.contains(t) ==> !self.ray_hit(s, dr as int, df as int, t),
        ensures
            all_wf(final(moves)@),
            final(moves)@.no_duplicates(),
            forall|t: Square|
                t.wf() ==> (final(moves)@.contains(t) <==> (old(moves)@.contains(t) || self.ray_hit(
                    s,
                    dr as int,
                    df as int,
                    t,
                ))),
    {
        let ghost start = moves@;
        let ghost sr = s.rank as int;
        let ghost sf = s.file as int;
        let mut r: i32 = s.rank as i32 + dr;
        let mut f: i32 = s.file as i32 + df;
        let ghost mut k: int = 1;
        loop
            invariant_except_break
                forall|t: Square|
                    t.wf() ==> (moves@.contains(t) <==> (start.contains(t) || exists|j: int|
                        #![trigger step(sr, dr as int, j), step(sf, df as int, j)]
                        1 <= j < k && t.rank == step(sr, dr as int, j) && t.file == step(
                            sf,
                            df as int,
                            j,
                        ))),
            invariant
                s.wf(),
                -1 <= dr <= 1,
                -1 <= df <= 1,
                dr != 0 || df != 0,
                sr == s.rank,
                sf == s.file,
                1 <= k <= 8,
                r == step(sr, dr as int, k),
                f == step(sf, df as int, k),
                self.ray_clear(s, dr as int, df as int, k),
                forall|j: int|
                    1 <= j < k ==> in_bounds(
                        #[trigger] step(sr, dr as int, j),
                        step(sf, df as int, j),
                    ),
                all_wf(moves@),
                moves@.no_duplicates(),
                forall|t: Square| #[trigger] start.contains(t) ==> !self.ray_hit(s, dr as int, df as int, t),
            ensures
                all_wf(moves@),
                moves@.no_duplicates(),
                forall|t: Square|
                    t.wf() ==> (moves@.contains(t) <==> (start.contains(t) || self.ray_hit(
                        s,
                        dr as int,
                        df as int,
                        t,
                    ))),
            decreases 8 - k,
        {
            if r < 0 || r > 7 || f < 0 || f > 7 {
                proof {
                    assert forall|t: Square| t.wf() implies (moves@.contains(t) <==> (start.contains(
                        t,
                    ) || self.ray_hit(s, dr as int, df as int, t))) by {
                        if self.ray_hit(s, dr as int, df as int, t) {
                            let kk = choose|kk: int|
                                #![trigger step(sr, dr as int, kk), step(sf, df as int, kk)]
                                kk >= 1 && t.rank == step(sr, dr as int, kk) && t.file == step(
                                    sf,
                                    df as int,
                                    kk,
                                ) && self.ray_clear(s, dr as int, df as int, kk);
                            assert(kk < k);
                        }
                        if exists|j: int|
                            #![trigger step(sr, dr as int, j), step(sf, df as int, j)]
                            1 <= j < k && t.rank == step(sr, dr as int, j) && t.file == step(
                                sf,
                                df as int,
                                j,
                            ) {
                            let j = choose|j: int|
                                #![trigger step(sr, dr as int, j), step(sf, df as int, j)]
                                1 <= j < k && t.rank == step(sr, dr as int, j) && t.file == step(
                                    sf,
                                    df as int,
                                    j,
                                );
                            assert(self.ray_clear(s, dr as int, df as int, j));
                        }
                    }
                }
                break;
            }
            let t = Square::new(r as usize, f as usize);
            proof {
                assert(t.rank == step(sr, dr as int, k) && t.file == step(sf, df as int, k));
                assert(self.ray_hit(s, dr as int, df as int, t));
                if moves@.contains(t) {
                    let j = choose|j: int|
                        #![trigger step(sr, dr as int, j), step(sf, df as int, j)]
                        1 <= j < k && t.rank == step(sr, dr as int, j) && t.file == step(
                            sf,
                            df as int,
                            j,
                        );
                }
                lemma_push_no_duplicates(moves@, t);
            }
            moves.push(t);
            if self.board[r as usize][f as usize].is_some() {
                proof {
                    assert forall|t2: Square| t2.wf() implies (moves@.contains(t2) <==> (
                    start.contains(t2) || self.ray_hit(s, dr as int, df as int, t2))) by {
                        if self.ray_hit(s, dr as int, df as int, t2) {
                            let kk = choose|kk: int|
                                #![trigger step(sr, dr as int, kk), step(sf, df as int, kk)]
                                kk >= 1 && t2.rank == step(sr, dr as int, kk) && t2.file == step(
                                    sf,
                                    df as int,
                                    kk,
                                ) && self.ray_clear(s, dr as int, df as int, kk);
                            if kk > k {
                                assert(self.empty(step(sr, dr as int, k), step(sf, df as int, k)));
                            }
                            if kk < k {
                                assert(exists|j: int|
                                    #![trigger step(sr, dr as int, j), step(sf, df as int, j)]
                                    1 <= j < k && t2.rank == step(sr, dr as int, j) && t2.file
                                        == step(sf, df as int, j));
                            }
                        }
                        if moves@.contains(t2) && !start.contains(t2) {
                            if t2 == t {
                                assert(self.ray_clear(s, dr as int, df as int, k));
                            } else {
                                let j = choose|j: int|
                                    #![trigger step(sr, dr as int, j), step(sf, df as int, j)]
                                    1 <= j < k && t2.rank == step(sr, dr as int, j) && t2.file
                                        == step(sf, df as int, j);
                                assert(self.ray_clear(s, dr as int, df as int, j));
                            }
                        }
                    }
                }
                break;
            }
            proof {
                assert forall|t2: Square| t2.wf() implies (moves@.contains(t2) <==> (start.contains(
                    t2,
                ) || exists|j: int|
                    #![trigger step(sr, dr as int, j), step(sf, df as int, j)]
                    1 <= j < k + 1 && t2.rank == step(sr, dr as int, j) && t2.file == step(
                        sf,
                        df as int,
                        j,
                    ))) by {
                    if t2 == t {
                        assert(t2.rank == step(sr, dr as int, k) && t2.file == step(
                            sf,
                            df as int,
                            k,
                        ));
                    }
                }
            }
            r = r + dr;
            f = f + df;
            proof {
                k = k + 1;
            }
        }
    }
}

/// The four diagonal rays from `s` reach exactly the cells of `s`'s
/// diagonals with an empty path.
pub proof fn lemma_diagonal_rays(g: Game, s: Square, t: Square)
    requires
        s.wf(),
        t.wf(),
    ensures
        (g.ray_hit(s, 1, 1, t) || g.ray_hit(s, 1, -1, t) || g.ray_hit(s, -1, 1, t) || g.ray_hit(
            s,
            -1,
            -1,
            t,
        )) <==> (diagonal_line(s, t) && g.path_clear(s, t)),
{
    let sr = s.rank as int;
    let sf = s.file as int;
    let dr = sign(rank_delta(s, t));
    let df = sign(file_delta(s, t));
    let n = line_dist(s, t);
    if diagonal_line(s, t) && g.path_clear(s, t) {
        assert(t.rank == step(sr, dr, n) && t.file == step(sf, df, n));
    }
    if g.ray_hit(s, dr, df, t) && dr != 0 && df != 0 {
        let k = choose|k: int|
            #![trigger step(sr, dr, k), step(sf, df, k)]
            k >= 1 && t.rank == step(sr, dr, k) && t.file == step(sf, df, k) && g.ray_clear(
                s,
                dr,
                df,
                k,
            );
        assert(k == n);
    }
    assert forall|a: int, b: int|
        (a == 1 || a == -1) && (b == 1 || b == -1) && g.ray_hit(s, a, b, t) implies a == dr && b
        == df by {
        let k = choose|k: int|
            #![trigger step(sr, a, k), step(sf, b, k)]
            k >= 1 && t.rank == step(sr, a, k) && t.file == step(sf, b, k) && g.ray_clear(s, a, b, k);
    }
}

/// The four straight rays from `s` reach exactly the cells of `s`'s rank and
/// file with an empty path.
pub proof fn lemma_straight_rays(g: Game, s: Square, t: Square)
    requires
        s.wf(),
        t.wf(),
    ensures
        (g.ray_hit(s, 1, 0, t) || g.ray_hit(s, -1, 0, t) || g.ray_hit(s, 0, 1, t) || g.ray_hit(
            s,
            0,
            -1,
            t,
        )) <==> (straight_line(s, t) && g.path_clear(s, t)),
{
    let sr = s.rank as int;
    let sf = s.file as int;
    let dr = sign(rank_delta(s, t));
    let df = sign(file_delta(s, t));
    let n = line_dist(s, t);
    if straight_line(s, t) && g.path_clear(s, t) {
        assert(t.rank == step(sr, dr, n) && t.file == step(sf, df, n));
    }
    if g.ray_hit(s, dr, df, t) && (dr == 0 || df == 0) && (dr != 0 || df != 0) {
        let k = choose|k: int|
            #![trigger step(sr, dr, k), step(sf, df, k)]
            k >= 1 && t.rank == step(sr, dr, k) && t.file == step(sf, df, k) && g.ray_clear(
                s,
                dr,
                df,
                k,
            );
        assert(k == n);
    }
    assert forall|a: int, b: int|
        ((a == 0) != (b == 0)) && -1 <= a <= 1 && -1 <= b <= 1 && g.ray_hit(s, a, b, t) implies a
        == dr && b == df by {
        let k = choose|k: int|
            #![trigger step(sr, a, k), step(sf, b, k)]
            k >= 1 && t.rank == step(sr, a, k) && t.file == step(sf, b, k) && g.ray_clear(s, a, b, k);
    }
}

impl Game {
    /// The cells that a bishop on `start_sq` reaches.
    pub fn get_diagonal_moves(&self, start_sq: Square) -> (r: Vec<Square>)
        requires
            start_sq.wf(),
        ensures
            all_wf(r@),
            r@.no_duplicates(),
            forall|t: Square|
                t.wf() ==> (r@.contains(t) <==> (diagonal_line(start_sq, t) && self.path_clear(
                    start_sq,
                    t,
                ))),
    {
        let mut moves: Vec<Square> = Vec::new();
        self.push_ray(start_sq, 1, 1, &mut moves);
        self.push_ray(start_sq, 1, -1, &mut moves);
        self.push_ray(start_sq, -1, 1, &mut moves);
        self.push_ray(start_sq, -1, -1, &mut moves);
        proof {
            assert forall|t: Square| t.wf() implies (moves@.contains(t) <==> (diagonal_line(
                start_sq,
                t,
            ) && self.path_clear(start_sq, t))) by {
                lemma_diagonal_rays(*self, start_sq, t);
            }
        }
        moves
    }

    /// The cells that a rook on `start_sq` reaches.
    pub fn get_straight_moves(&self, start_sq: Square) -> (r: Vec<Square>)
        requires
            start_sq.wf(),
        ensures
            all_wf(r@),
            r@.no_duplicates(),
            forall|t: Square|
                t.wf() ==> (r@.contains(t) <==> (straight_line(start_sq, t) && self.path_clear(
                    start_sq,
                    t,
                ))),
    {
        let mut moves: Vec<Square> = Vec::new();
        self.push_ray(start_sq, 1, 0, &mut moves);
        self.push_ray(start_sq, -1, 0, &mut moves);
        self.push_ray(start_sq, 0, 1, &mut moves);
        self.push_ray(start_sq, 0, -1, &mut moves);
        proof {
            assert forall|t: Square| t.wf() implies (moves@.contains(t) <==> (straight_line(
                start_sq,
                t,
            ) && self.path_clear(start_sq, t))) by {
                lemma_straight_rays(*self, start_sq, t);
            }
        }
        moves
    }
}

impl Game {
    /// The team of the piece on `s`.
    fn team_at(&self, s: Square) -> (r: Team)
        requires
            s.wf(),
            self.at(s) is Some,
        ensures
            r == self.at(s).unwrap().team,
    {
        match self.board[s.rank][s.file] {
            Some(p) => p.team,
            None => Team::White,
        }
    }

    /// The king's pseudo-legal targets: the eight cells around it, and the
    /// castling targets.
    pub fn get_king_moves(&self, start_sq: Square) -> (r: Vec<Square>)
        requires
            start_sq.wf(),
            self.at(start_sq) is Some,
        ensures
            all_wf(r@),
            r@.no_duplicates(),
            forall|t: Square|
                t.wf() ==> (r@.contains(t) <==> (king_step(start_sq, t) || self.castle_target(
                    start_sq,
                    t,
                    self.at(start_sq).unwrap().team,
                ))),
    {
        let team = self.team_at(start_sq);
        let mut moves: Vec<Square> = Vec::new();
        push_offset(start_sq, -1, -1, &mut moves);
        push_offset(start_sq, -1, 0, &mut moves);
        push_offset(start_sq, -1, 1, &mut moves);
        push_offset(start_sq, 0, -1, &mut moves);
        push_offset(start_sq, 0, 1, &mut moves);
        push_offset(start_sq, 1, -1, &mut moves);
        push_offset(start_sq, 1, 0, &mut moves);
        push_offset(start_sq, 1, 1, &mut moves);
        let home: usize = if team.is_white() {
            0
        } else {
            7
        };
        let (king_moved, rook_a_moved, rook_h_moved) = if team.is_white() {
            (self.white_king_moved, self.white_rook_a_moved, self.white_rook_h_moved)
        } else {
            (self.black_king_moved, self.black_rook_a_moved, self.black_rook_h_moved)
        };
        if start_sq.rank == home && start_sq.file == 4 && !king_moved {
            if !rook_a_moved && self.board[home][1].is_none() && self.board[home][2].is_none()
                && self.board[home][3].is_none() {
                push_offset(start_sq, 0, -2, &mut moves);
            }
            if !rook_h_moved && self.board[home][5].is_none() && self.board[home][6].is_none() {
                push_offset(start_sq, 0, 2, &mut moves);
            }
        }
        moves
    }

    /// The queen's pseudo-legal targets: the bishop's and the rook's.
    pub fn get_queen_moves(&self, start_sq: Square) -> (r: Vec<Square>)
        requires
            start_sq.wf(),
        ensures
            all_wf(r@),
            r@.no_duplicates(),
            forall|t: Square|
                t.wf() ==> (r@.contains(t) <==> ((straight_line(start_sq, t) || diagonal_line(
                    start_sq,
                    t,
                )) && self.path_clear(start_sq, t))),
    {
        let mut diagonal_moves = self.get_diagonal_moves(start_sq);
        let mut straight_moves = self.get_straight_moves(start_sq);
        let ghost d = diagonal_moves@;
        let ghost st = straight_moves@;
        diagonal_moves.append(&mut straight_moves);
        proof {
            assert forall|t: Square| t.wf() implies (diagonal_moves@.contains(t) <==> (d.contains(t)
                || st.contains(t))) by {
                if diagonal_moves@.contains(t) {
                    let i = choose|i: int| 0 <= i < diagonal_moves@.len() && diagonal_moves@[i] == t;
                    if i >= d.len() {
                        assert(st[i - d.len()] == t);
                    }
                }
                if st.contains(t) {
                    let i = choose|i: int| 0 <= i < st.len() && st[i] == t;
                    assert(diagonal_moves@[d.len() + i] == t);
                }
                if d.contains(t) {
                    let i = choose|i: int| 0 <= i < d.len() && d[i] == t;
                    assert(diagonal_moves@[i] == t);
                }
            }
            assert forall|i: int| 0 <= i < diagonal_moves@.len() implies (
            #[trigger] diagonal_moves@[i]).wf() by {
                if i >= d.len() {
                    assert(st[i - d.len()].wf());
                }
            }
        }
        diagonal_moves
    }

    /// The bishop's pseudo-legal targets.
    pub fn get_bishop_moves(&self, start_sq: Square) -> (r: Vec<Square>)
        requires
            start_sq.wf(),
        ensures
            all_wf(r@),
            r@.no_duplicates(),
            forall|t: Square|
                t.wf() ==> (r@.contains(t) <==> (diagonal_line(start_sq, t) && self.path_clear(
                    start_sq,
                    t,
                ))),
    {
        self.get_diagonal_moves(start_sq)
    }

    /// The knight's pseudo-legal targets: every cell a knight's jump away.
    pub fn get_knight_moves(&self, start_sq: Square) -> (r: Vec<Square>)
        requires
            start_sq.wf(),
        ensures
            all_wf(r@),
            r@.no_duplicates(),
            r@.len() <= 8,
            forall|t: Square| t.wf() ==> (r@.contains(t) <==> knight_jump(start_sq, t)),
    {
        let mut moves: Vec<Square> = Vec::new();
        push_offset(start_sq, -2, -1, &mut moves);
        push_offset(start_sq, -2, 1, &mut moves);
        push_offset(start_sq, -1, -2, &mut moves);
        push_offset(start_sq, -1, 2, &mut moves);
        push_offset(start_sq, 1, -2, &mut moves);
        push_offset(start_sq, 1, 2, &mut moves);
        push_offset(start_sq, 2, -1, &mut moves);
        push_offset(start_sq, 2, 1, &mut moves);
        moves
    }

    /// The rook's pseudo-legal targets.
    pub fn get_rook_moves(&self, start_sq: Square) -> (r: Vec<Square>)
        requires
            start_sq.wf(),
        ensures
            all_wf(r@),
            r@.no_duplicates(),
            forall|t: Square|
                t.wf() ==> (r@.contains(t) <==> (straight_line(start_sq, t) && self.path_clear(
                    start_sq,
                    t,
                ))),
    {
        self.get_straight_moves(start_sq)
    }

    /// The pawn's pseudo-legal targets.
    pub fn get_pawn_moves(&self, start_sq: Square) -> (r: Vec<Square>)
        requires
            start_sq.wf(),
            self.at(start_sq) is Some,
        ensures
            all_wf(r@),
            r@.no_duplicates(),
            forall|t: Square|
                t.wf() ==> (r@.contains(t) <==> self.pawn_target(
                    start_sq,
                    t,
                    self.at(start_sq).unwrap().team,
                )),
    {
        let team = self.team_at(start_sq);
        let mut moves: Vec<Square> = Vec::new();
        let rank = start_sq.rank;
        let file = start_sq.file;
        let white = team.is_white();
        let dir: i32 = if white {
            1
        } else {
            -1
        };
        let start_rank: usize = if white {
            1
        } else {
            6
        };
        let last_rank: usize = if white {
            7
        } else {
            0
        };
        if rank != last_rank {
            let ahead: usize = if white {
                rank + 1
            } else {
                rank - 1
            };
            if self.board[ahead][file].is_none() {
                push_offset(start_sq, dir, 0, &mut moves);
                if rank == start_rank {
                    let two_ahead: usize = if white {
                        rank + 2
                    } else {
                        rank - 2
                    };
                    if self.board[two_ahead][file].is_none() {
                        push_offset(start_sq, 2 * dir, 0, &mut moves);
                    }
                }
            }
            if file < 7 && self.board[ahead][file + 1].is_some() {
                push_offset(start_sq, dir, 1, &mut moves);
            }
            if file > 0 && self.board[ahead][file - 1].is_some() {
                push_offset(start_sq, dir, -1, &mut moves);
            }
        }
        // An occupied cell behind the en-passant pawn is already a capture
        // target, and no cell lies beyond the last rank.
        match self.en_passant_pawn {
            Some(e) => {
                if e.rank == rank && start_sq.file_diff(e) == 1 && e.file < 8 && rank != last_rank {
                    let ahead: usize = if white {
                        rank + 1
                    } else {
                        rank - 1
                    };
                    if self.board[ahead][e.file].is_none() {
                        let df: i32 = if e.file > file {
                            1
                        } else {
                            -1
                        };
                        push_offset(start_sq, dir, df, &mut moves);
                    }
                }
            },
            None => {},
        }
        moves
    }

    /// The piece's pseudo-legal targets, less those that hold a piece of its
    /// own side; none for an empty cell.
    pub fn get_possible_moves(&self, start_sq: Square) -> (r: Vec<Square>)
        requires
            start_sq.wf(),
        ensures
            all_wf(r@),
            r@.no_duplicates(),
            forall|t: Square| t.wf() ==> (r@.contains(t) <==> self.possible_move(start_sq, t)),
    {
        let start_piece = match self.board[start_sq.rank][start_sq.file] {
            Some(p) => p,
            None => {
                return Vec::new();
            },
        };
        let candidates = match start_piece.piece_type {
            PieceType::King => self.get_king_moves(start_sq),
            PieceType::Queen => self.get_queen_moves(start_sq),
            PieceType::Bishop => self.get_bishop_moves(start_sq),
            PieceType::Knight => self.get_knight_moves(start_sq),
            PieceType::Rook => self.get_rook_moves(start_sq),
            PieceType::Pawn => self.get_pawn_moves(start_sq),
        };
        let mut possible_moves: Vec<Square> = Vec::new();
        let mut i: usize = 0;
        while i < candidates.len()
            invariant
                start_sq.wf(),
                self.at(start_sq) == Some(start_piece),
                all_wf(candidates@),
                candidates@.no_duplicates(),
                forall|t: Square| t.wf() ==> (candidates@.contains(t) <==> self.pseudo_move(start_sq, t)),
                i <= candidates.len(),
                all_wf(possible_moves@),
                possible_moves@.no_duplicates(),
                forall|t: Square|
                    t.wf() ==> (possible_moves@.contains(t) <==> (candidates@.subrange(0, i as int).contains(t)
                        && !self.owned_by(t, start_piece.team))),
            decreases candidates.len() - i,
        {
            let t = candidates[i];
            let friendly = match self.board[t.rank][t.file] {
                Some(p) => p.team == start_piece.team,
                None => false,
            };
            proof {
                assert(candidates@.subrange(0, i + 1) =~= candidates@.subrange(0, i as int).push(t));
                if candidates@.subrange(0, i as int).contains(t) {
                    let j = choose|j: int|
                        0 <= j < i && #[trigger] candidates@.subrange(0, i as int)[j] == t;
                    assert(candidates@[j] == candidates@[i as int]);
                }
            }
            if !friendly {
                proof {
                    lemma_push_no_duplicates(possible_moves@, t);
                }
                possible_moves.push(t);
            }
            i += 1;
        }
        proof {
            assert(candidates@.subrange(0, i as int) =~= candidates@);
        }
        possible_moves
    }
}

} // verus!
