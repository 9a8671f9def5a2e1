//! Pseudo-legal move generation: where each kind of piece may go on a given
//! board, before considering whether its own king is left attacked.

use vstd::prelude::*;
use crate::board::{
    in_bounds, in_bounds_spec, in_palace, in_palace_spec, on_own_side, on_own_side_spec, row_of,
    col_of, sq, sq_spec, Board, BoardView, Color, Piece, PieceKind,
};

verus! {

/// The piece standing at (row, col).
pub open spec fn at(b: BoardView, row: int, col: int) -> Option<Piece> {
    b.squares[sq_spec(row, col)]
}

/// A single step to (row, col): the square, if it is on the board and does
/// not hold a piece of `color`.
pub open spec fn step_to(b: BoardView, color: Color, row: int, col: int) -> Seq<usize> {
    if !in_bounds_spec(row, col) {
        seq![]
    } else {
        match at(b, row, col) {
            Some(p) => if p.color == color {
                seq![]
            } else {
                seq![sq_spec(row, col) as usize]
            },
            None => seq![sq_spec(row, col) as usize],
        }
    }
}

/// A step by (dr, dc) that must land inside `color`'s palace.
pub open spec fn palace_step(b: BoardView, color: Color, r: int, c: int, dr: int, dc: int) -> Seq<
    usize,
> {
    if in_palace_spec(color, r + dr, c + dc) {
        step_to(b, color, r + dr, c + dc)
    } else {
        seq![]
    }
}

pub open spec fn king_targets(b: BoardView, color: Color, r: int, c: int) -> Seq<usize> {
    palace_step(b, color, r, c, -1, 0) + palace_step(b, color, r, c, 1, 0) + palace_step(
        b,
        color,
        r,
        c,
        0,
        -1,
    ) + palace_step(b, color, r, c, 0, 1)
}

pub open spec fn advisor_targets(b: BoardView, color: Color, r: int, c: int) -> Seq<usize> {
    palace_step(b, color, r, c, -1, -1) + palace_step(b, color, r, c, -1, 1) + palace_step(
        b,
        color,
        r,
        c,
        1,
        -1,
    ) + palace_step(b, color, r, c, 1, 1)
}

/// A two-square diagonal step in direction (ur, uc): it must stay on the board
/// and on `color`'s side of the river, and its midpoint (the eye) must be empty.
pub open spec fn elephant_step(b: BoardView, color: Color, r: int, c: int, ur: int, uc: int) -> Seq<
    usize,
> {
    let nr = r + 2 * ur;
    let nc = c + 2 * uc;
    if !in_bounds_spec(nr, nc) {
        seq![]
    } else if !on_own_side_spec(color, nr) {
        seq![]
    } else if at(b, r + ur, c + uc) is Some {
        seq![]
    } else {
        step_to(b, color, nr, nc)
    }
}

pub open spec fn elephant_targets(b: BoardView, color: Color, r: int, c: int) -> Seq<usize> {
    elephant_step(b, color, r, c, -1, -1) + elephant_step(b, color, r, c, -1, 1) + elephant_step(
        b,
        color,
        r,
        c,
        1,
        -1,
    ) + elephant_step(b, color, r, c, 1, 1)
}

/// An L-shaped jump by (dr, dc) whose leg square (r + lr, c + lc) must be empty.
pub open spec fn horse_step(
    b: BoardView,
    color: Color,
    r: int,
    c: int,
    dr: int,
    dc: int,
    lr: int,
    lc: int,
) -> Seq<usize> {
    if !in_bounds_spec(r + dr, c + dc) {
        seq![]
    } else if at(b, r + lr, c + lc) is Some {
        seq![]
    } else {
        step_to(b, color, r + dr, c + dc)
    }
}

pub open spec fn horse_targets(b: BoardView, color: Color, r: int, c: int) -> Seq<usize> {
    horse_step(b, color, r, c, -2, -1, -1, 0) + horse_step(b, color, r, c, -2, 1, -1, 0)
        + horse_step(b, color, r, c, 2, -1, 1, 0) + horse_step(b, color, r, c, 2, 1, 1, 0)
        + horse_step(b, color, r, c, -1, -2, 0, -1) + horse_step(b, color, r, c, 1, -2, 0, -1)
        + horse_step(b, color, r, c, -1, 2, 0, 1) + horse_step(b, color, r, c, 1, 2, 0, 1)
}

/// An orthogonal unit direction.
pub open spec fn unit_dir(dr: int, dc: int) -> bool {
    ||| dr == 0 && (dc == 1 || dc == -1)
    ||| dc == 0 && (dr == 1 || dr == -1)
}

/// How many squares a ray from (r, c) in direction (dr, dc) can still visit.
pub open spec fn ray_measure(r: int, c: int, dr: int, dc: int) -> int {
    (if dr == 1 {
        10 - r
    } else if dr == -1 {
        r + 1
    } else {
        0
    }) + (if dc == 1 {
        9 - c
    } else if dc == -1 {
        c + 1
    } else {
        0
    })
}

/// Rook moves along a ray, starting with square (r, c): every empty square up
/// to the first piece, and that piece's square if it is an opponent's.
pub open spec fn rook_ray(b: BoardView, color: Color, r: int, c: int, dr: int, dc: int) -> Seq<
    usize,
>
    decreases ray_measure(r, c, dr, dc),
    when unit_dir(dr, dc)
{
    if !in_bounds_spec(r, c) {
        seq![]
    } else {
        match at(b, r, c) {
            None => seq![sq_spec(r, c) as usize] + rook_ray(b, color, r + dr, c + dc, dr, dc),
            Some(p) => if p.color != color {
                seq![sq_spec(r, c) as usize]
            } else {
                seq![]
            },
        }
    }
}

pub open spec fn rook_targets(b: BoardView, color: Color, r: int, c: int) -> Seq<usize> {
    rook_ray(b, color, r - 1, c, -1, 0) + rook_ray(b, color, r + 1, c, 1, 0) + rook_ray(
        b,
        color,
        r,
        c - 1,
        0,
        -1,
    ) + rook_ray(b, color, r, c + 1, 0, 1)
}

/// The capture part of a cannon ray, starting just past the screen at (r, c):
/// the first piece found, if it is an opponent's.
pub open spec fn cannon_jump(b: BoardView, color: Color, r: int, c: int, dr: int, dc: int) -> Seq<
    usize,
>
    decreases ray_measure(r, c, dr, dc),
    when unit_dir(dr, dc)
{
    if !in_bounds_spec(r, c) {
        seq![]
    } else {
        match at(b, r, c) {
            None => cannon_jump(b, color, r + dr, c + dc, dr, dc),
            Some(p) => if p.color != color {
                seq![sq_spec(r, c) as usize]
            } else {
                seq![]
            },
        }
    }
}

/// A cannon ray starting with (r, c): every empty square up to the first
/// piece (the screen), then the capture beyond the screen.
pub open spec fn cannon_ray(b: BoardView, color: Color, r: int, c: int, dr: int, dc: int) -> Seq<
    usize,
>
    decreases ray_measure(r, c, dr, dc),
    when unit_dir(dr, dc)
{
    if !in_bounds_spec(r, c) {
        seq![]
    } else {
        match at(b, r, c) {
            None => seq![sq_spec(r, c) as usize] + cannon_ray(b, color, r + dr, c + dc, dr, dc),
            Some(_) => cannon_jump(b, color, r + dr, c + dc, dr, dc),
        }
    }
}

pub open spec fn cannon_targets(b: BoardView, color: Color, r: int, c: int) -> Seq<usize> {
    cannon_ray(b, color, r - 1, c, -1, 0) + cannon_ray(b, color, r + 1, c, 1, 0) + cannon_ray(
        b,
        color,
        r,
        c - 1,
        0,
        -1,
    ) + cannon_ray(b, color, r, c + 1, 0, 1)
}

/// Whether a pawn of `color` on row `r` has crossed the river.
pub open spec fn crossed_river(color: Color, r: int) -> bool {
    match color {
        Color::Red => r <= 4,
        Color::Black => r >= 5,
    }
}

pub open spec fn pawn_forward(color: Color) -> int {
    match color {
        Color::Red => -1,
        Color::Black => 1,
    }
}

/// One step forward; after crossing the river also one step to either side.
pub open spec fn pawn_targets(b: BoardView, color: Color, r: int, c: int) -> Seq<usize> {
    step_to(b, color, r + pawn_forward(color), c) + if crossed_river(color, r) {
        step_to(b, color, r, c - 1) + step_to(b, color, r, c + 1)
    } else {
        seq![]
    }
}

/// Kinematically valid destinations of the piece on square `s`, in the order
/// the generator produces them; empty for an empty square.
#[verifier::opaque]
pub open spec fn pseudo_targets(b: BoardView, s: int) -> Seq<usize> {
    match b.squares[s] {
        None => seq![],
        Some(p) => {
            let r = s / 9;
            let c = s % 9;
            match p.kind {
                PieceKind::King => king_targets(b, p.color, r, c),
                PieceKind::Advisor => advisor_targets(b, p.color, r, c),
                PieceKind::Elephant => elephant_targets(b, p.color, r, c),
                PieceKind::Horse => horse_targets(b, p.color, r, c),
                PieceKind::Rook => rook_targets(b, p.color, r, c),
                PieceKind::Cannon => cannon_targets(b, p.color, r, c),
                PieceKind::Pawn => pawn_targets(b, p.color, r, c),
            }
        },
    }
}

/// Appending four pieces one after another appends their concatenation.
proof fn lemma_append4<A>(o: Seq<A>, a: Seq<A>, b: Seq<A>, c: Seq<A>, d: Seq<A>)
    ensures
        o + (a + b + c + d) == o + a + b + c + d,
{
    vstd::seq_lib::lemma_concat_associative(o, a + b + c, d);
    vstd::seq_lib::lemma_concat_associative(o, a + b, c);
    vstd::seq_lib::lemma_concat_associative(o, a, b);
}

/// Appending eight pieces one after another appends their concatenation.
proof fn lemma_append8<A>(
    o: Seq<A>,
    a: Seq<A>,
    b: Seq<A>,
    c: Seq<A>,
    d: Seq<A>,
    e: Seq<A>,
    f: Seq<A>,
    g: Seq<A>,
    h: Seq<A>,
)
    ensures
        o + (a + b + c + d + e + f + g + h) == o + a + b + c + d + e + f + g + h,
{
    vstd::seq_lib::lemma_concat_associative(o, a + b + c + d + e + f + g, h);
    vstd::seq_lib::lemma_concat_associative(o, a + b + c + d + e + f, g);
    vstd::seq_lib::lemma_concat_associative(o, a + b + c + d + e, f);
    vstd::seq_lib::lemma_concat_associative(o, a + b + c + d, e);
    lemma_append4(o, a, b, c, d);
}

impl Board {
    /// Generate pseudo-legal moves for the piece at `s`. Pseudo-legal means
    /// kinematically valid for that piece kind on this board, but may leave
    /// own king in check or violate the flying-general rule.
    pub fn pseudo_moves_from(&self, s: usize, out: &mut Vec<usize>)
        requires
            s < 90,
        ensures
            final(out)@ == old(out)@ + pseudo_targets(self@, s as int),
    {
        reveal(pseudo_targets);
        let p = match self.squares[s] {
            Some(p) => p,
            None => {
                assert(out@ =~= old(out)@ + pseudo_targets(self@, s as int));
                return ;
            },
        };
        let r = row_of(s);
        let c = col_of(s);
        match p.kind {
            PieceKind::King => self.king_moves(p.color, r, c, out),
            PieceKind::Advisor => self.advisor_moves(p.color, r, c, out),
            PieceKind::Elephant => self.elephant_moves(p.color, r, c, out),
            PieceKind::Horse => self.horse_moves(p.color, r, c, out),
            PieceKind::Rook => self.rook_moves(p.color, r, c, out),
            PieceKind::Cannon => self.cannon_moves(p.color, r, c, out),
            PieceKind::Pawn => self.pawn_moves(p.color, r, c, out),
        }
    }

    fn try_push(&self, color: Color, r: i32, c: i32, out: &mut Vec<usize>)
        ensures
            final(out)@ == old(out)@ + step_to(self@, color, r as int, c as int),
    {
        if !in_bounds(r, c) {
            assert(out@ =~= old(out)@ + step_to(self@, color, r as int, c as int));
            return ;
        }
        match self.squares[sq(r, c)] {
            Some(p) => {
                if p.color == color {
                    // own piece: blocked
                    assert(out@ =~= old(out)@ + step_to(self@, color, r as int, c as int));
                } else {
                    out.push(sq(r, c));
                }
            },
            None => out.push(sq(r, c)),
        }
    }

    fn palace_move(&self, color: Color, r: i32, c: i32, dr: i32, dc: i32, out: &mut Vec<usize>)
        requires
            0 <= r < 10,
            0 <= c < 9,
            -1 <= dr <= 1,
            -1 <= dc <= 1,
        ensures
            final(out)@ == old(out)@ + palace_step(self@, color, r as int, c as int, dr as int, dc as int),
    {
        let nr = r + dr;
        let nc = c + dc;
        if in_palace(color, nr, nc) {
            self.try_push(color, nr, nc, out);
        } else {
            assert(out@ =~= old(out)@ + palace_step(self@, color, r as int, c as int, dr as int, dc as int));
        }
    }

    fn king_moves(&self, color: Color, r: i32, c: i32, out: &mut Vec<usize>)
        requires
            0 <= r < 10,
            0 <= c < 9,
        ensures
            final(out)@ == old(out)@ + king_targets(self@, color, r as int, c as int),
    {
        self.palace_move(color, r, c, -1, 0, out);
        self.palace_move(color, r, c, 1, 0, out);
        self.palace_move(color, r, c, 0, -1, out);
        self.palace_move(color, r, c, 0, 1, out);
        proof {
            lemma_append4(
                old(out)@,
                palace_step(self@, color, r as int, c as int, -1, 0),
                palace_step(self@, color, r as int, c as int, 1, 0),
                palace_step(self@, color, r as int, c as int, 0, -1),
                palace_step(self@, color, r as int, c as int, 0, 1),
            );
        }
    }

    fn advisor_moves(&self, color: Color, r: i32, c: i32, out: &mut Vec<usize>)
        requires
            0 <= r < 10,
            0 <= c < 9,
        ensures
            final(out)@ == old(out)@ + advisor_targets(self@, color, r as int, c as int),
    {
        self.palace_move(color, r, c, -1, -1, out);
        self.palace_move(color, r, c, -1, 1, out);
        self.palace_move(color, r, c, 1, -1, out);
        self.palace_move(color, r, c, 1, 1, out);
        proof {
            lemma_append4(
                old(out)@,
                palace_step(self@, color, r as int, c as int, -1, -1),
                palace_step(self@, color, r as int, c as int, -1, 1),
                palace_step(self@, color, r as int, c as int, 1, -1),
                palace_step(self@, color, r as int, c as int, 1, 1),
            );
        }
    }

    fn elephant_move(&self, color: Color, r: i32, c: i32, ur: i32, uc: i32, out: &mut Vec<usize>)
        requires
            0 <= r < 10,
            0 <= c < 9,
            ur == 1 || ur == -1,
            uc == 1 || uc == -1,
        ensures
            final(out)@ == old(out)@ + elephant_step(self@, color, r as int, c as int, ur as int, uc as int),
    {
        let nr = r + 2 * ur;
        let nc = c + 2 * uc;
        if !in_bounds(nr, nc) {
            assert(out@ =~= old(out)@ + elephant_step(self@, color, r as int, c as int, ur as int, uc as int));
            return ;
        }
        // Cannot cross the river
        if !on_own_side(color, nr) {
            assert(out@ =~= old(out)@ + elephant_step(self@, color, r as int, c as int, ur as int, uc as int));
            return ;
        }
        // "Eye" must not be blocked
        if self.squares[sq(r + ur, c + uc)].is_some() {
            assert(out@ =~= old(out)@ + elephant_step(self@, color, r as int, c as int, ur as int, uc as int));
            return ;
        }
        self.try_push(color, nr, nc, out);
    }

    fn elephant_moves(&self, color: Color, r: i32, c: i32, out: &mut Vec<usize>)
        requires
            0 <= r < 10,
            0 <= c < 9,
        ensures
            final(out)@ == old(out)@ + elephant_targets(self@, color, r as int, c as int),
    {
        self.elephant_move(color, r, c, -1, -1, out);
        self.elephant_move(color, r, c, -1, 1, out);
        self.elephant_move(color, r, c, 1, -1, out);
        self.elephant_move(color, r, c, 1, 1, out);
        proof {
            lemma_append4(
                old(out)@,
                elephant_step(self@, color, r as int, c as int, -1, -1),
                elephant_step(self@, color, r as int, c as int, -1, 1),
                elephant_step(self@, color, r as int, c as int, 1, -1),
                elephant_step(self@, color, r as int, c as int, 1, 1),
            );
        }
    }

    fn horse_move(
        &self,
        color: Color,
        r: i32,
        c: i32,
        dr: i32,
        dc: i32,
        lr: i32,
        lc: i32,
        out: &mut Vec<usize>,
    )
        requires
            0 <= r < 10,
            0 <= c < 9,
            -2 <= dr <= 2,
            -2 <= dc <= 2,
            lr == 0 || lr == dr / 2,
            lc == 0 || lc == dc / 2,
            dr == 2 * lr || dc == 2 * lc,
            lr == 0 <==> lc != 0,
        ensures
            final(out)@ == old(out)@ + horse_step(
                self@,
                color,
                r as int,
                c as int,
                dr as int,
                dc as int,
                lr as int,
                lc as int,
            ),
    {
        let nr = r + dr;
        let nc = c + dc;
        if !in_bounds(nr, nc) {
            assert(out@ =~= old(out)@ + horse_step(self@, color, r as int, c as int, dr as int, dc as int, lr as int, lc as int));
            return ;
        }
        // Leg must be empty
        if self.squares[sq(r + lr, c + lc)].is_some() {
            assert(out@ =~= old(out)@ + horse_step(self@, color, r as int, c as int, dr as int, dc as int, lr as int, lc as int));
            return ;
        }
        self.try_push(color, nr, nc, out);
    }

    fn horse_moves(&self, color: Color, r: i32, c: i32, out: &mut Vec<usize>)
        requires
            0 <= r < 10,
            0 <= c < 9,
        ensures
            final(out)@ == old(out)@ + horse_targets(self@, color, r as int, c as int),
    {
        // Eight L-shaped offsets, each blocked by a "leg" piece adjacent in
        // the orthogonal direction of the longer leg.
        self.horse_move(color, r, c, -2, -1, -1, 0, out);
        self.horse_move(color, r, c, -2, 1, -1, 0, out);
        self.horse_move(color, r, c, 2, -1, 1, 0, out);
        self.horse_move(color, r, c, 2, 1, 1, 0, out);
        self.horse_move(color, r, c, -1, -2, 0, -1, out);
        self.horse_move(color, r, c, 1, -2, 0, -1, out);
        self.horse_move(color, r, c, -1, 2, 0, 1, out);
        self.horse_move(color, r, c, 1, 2, 0, 1, out);
        proof {
            lemma_append8(
                old(out)@,
                horse_step(self@, color, r as int, c as int, -2, -1, -1, 0),
                horse_step(self@, color, r as int, c as int, -2, 1, -1, 0),
                horse_step(self@, color, r as int, c as int, 2, -1, 1, 0),
                horse_step(self@, color, r as int, c as int, 2, 1, 1, 0),
                horse_step(self@, color, r as int, c as int, -1, -2, 0, -1),
                horse_step(self@, color, r as int, c as int, 1, -2, 0, -1),
                horse_step(self@, color, r as int, c as int, -1, 2, 0, 1),
                horse_step(self@, color, r as int, c as int, 1, 2, 0, 1),
            );
        }
    }

    fn rook_ray_moves(&self, color: Color, r: i32, c: i32, dr: i32, dc: i32, out: &mut Vec<usize>)
        requires
            0 <= r < 10,
            0 <= c < 9,
            unit_dir(dr as int, dc as int),
        ensures
            final(out)@ == old(out)@ + rook_ray(
                self@,
                color,
                r + dr,
                c + dc,
                dr as int,
                dc as int,
            ),
    {
        let mut nr = r + dr;
        let mut nc = c + dc;
        while in_bounds(nr, nc)
            invariant_except_break
                out@ + rook_ray(self@, color, nr as int, nc as int, dr as int, dc as int) == old(
                    out,
                )@ + rook_ray(self@, color, r + dr, c + dc, dr as int, dc as int),
            invariant
                unit_dir(dr as int, dc as int),
                -1 <= nr <= 10,
                -1 <= nc <= 9,
            ensures
                out@ == old(out)@ + rook_ray(self@, color, r + dr, c + dc, dr as int, dc as int),
            decreases ray_measure(nr as int, nc as int, dr as int, dc as int),
        {
            let ghost before = out@;
            match self.squares[sq(nr, nc)] {
                None => {
                    out.push(sq(nr, nc));
                    assert(out@ + rook_ray(self@, color, nr + dr, nc + dc, dr as int, dc as int)
                        =~= before + rook_ray(self@, color, nr as int, nc as int, dr as int, dc as int));
                },
                Some(p) => {
                    if p.color != color {
                        out.push(sq(nr, nc));
                    }
                    assert(out@ =~= before + rook_ray(self@, color, nr as int, nc as int, dr as int, dc as int));
                    break;
                },
            }
            nr += dr;
            nc += dc;
        }
        proof {
            if !in_bounds_spec(nr as int, nc as int) {
                assert(out@ =~= old(out)@ + rook_ray(self@, color, r + dr, c + dc, dr as int, dc as int));
            }
        }
    }

    fn rook_moves(&self, color: Color, r: i32, c: i32, out: &mut Vec<usize>)
        requires
            0 <= r < 10,
            0 <= c < 9,
        ensures
            final(out)@ == old(out)@ + rook_targets(self@, color, r as int, c as int),
    {
        self.rook_ray_moves(color, r, c, -1, 0, out);
        self.rook_ray_moves(color, r, c, 1, 0, out);
        self.rook_ray_moves(color, r, c, 0, -1, out);
        self.rook_ray_moves(color, r, c, 0, 1, out);
        proof {
            lemma_append4(
                old(out)@,
                rook_ray(self@, color, r - 1, c as int, -1, 0),
                rook_ray(self@, color, r + 1, c as int, 1, 0),
                rook_ray(self@, color, r as int, c - 1, 0, -1),
                rook_ray(self@, color, r as int, c + 1, 0, 1),
            );
        }
    }

    fn cannon_ray_moves(&self, color: Color, r: i32, c: i32, dr: i32, dc: i32, out: &mut Vec<usize>)
        requires
            0 <= r < 10,
            0 <= c < 9,
            unit_dir(dr as int, dc as int),
        ensures
            final(out)@ == old(out)@ + cannon_ray(
                self@,
                color,
                r + dr,
                c + dc,
                dr as int,
                dc as int,
            ),
    {
        // Phase 1: empty squares are legal non-capture moves.
        let mut nr = r + dr;
        let mut nc = c + dc;
        loop
            invariant
                unit_dir(dr as int, dc as int),
                -1 <= nr <= 10,
                -1 <= nc <= 9,
                out@ + cannon_ray(self@, color, nr as int, nc as int, dr as int, dc as int) == old(
                    out,
                )@ + cannon_ray(self@, color, r + dr, c + dc, dr as int, dc as int),
            ensures
                -1 <= nr <= 10,
                -1 <= nc <= 9,
                out@ + cannon_ray(self@, color, nr as int, nc as int, dr as int, dc as int) == old(
                    out,
                )@ + cannon_ray(self@, color, r + dr, c + dc, dr as int, dc as int),
                in_bounds_spec(nr as int, nc as int) ==> at(self@, nr as int, nc as int) is Some,
            decreases ray_measure(nr as int, nc as int, dr as int, dc as int),
        {
            if !in_bounds(nr, nc) {
                break;
            }
            if self.squares[sq(nr, nc)].is_some() {
                break;
            }
            let ghost before = out@;
            out.push(sq(nr, nc));
            assert(out@ + cannon_ray(self@, color, nr + dr, nc + dc, dr as int, dc as int)
                =~= before + cannon_ray(self@, color, nr as int, nc as int, dr as int, dc as int));
            nr += dr;
            nc += dc;
        }
        if !in_bounds(nr, nc) {
            assert(out@ =~= old(out)@ + cannon_ray(self@, color, r + dr, c + dc, dr as int, dc as int));
            return ;
        }
        // We hit a screen piece. Skip past it and look for first piece beyond.
        let ghost mid = out@;
        assert(cannon_ray(self@, color, nr as int, nc as int, dr as int, dc as int)
            == cannon_jump(self@, color, nr + dr, nc + dc, dr as int, dc as int));
        nr += dr;
        nc += dc;
        while in_bounds(nr, nc)
            invariant_except_break
                out@ == mid,
            invariant
                unit_dir(dr as int, dc as int),
                -1 <= nr <= 10,
                -1 <= nc <= 9,
                mid + cannon_jump(self@, color, nr as int, nc as int, dr as int, dc as int) == old(
                    out,
                )@ + cannon_ray(self@, color, r + dr, c + dc, dr as int, dc as int),
            ensures
                out@ == old(out)@ + cannon_ray(self@, color, r + dr, c + dc, dr as int, dc as int),
            decreases ray_measure(nr as int, nc as int, dr as int, dc as int),
        {
            if let Some(p) = self.squares[sq(nr, nc)] {
                if p.color != color {
                    out.push(sq(nr, nc));
                }
                assert(out@ =~= mid + cannon_jump(self@, color, nr as int, nc as int, dr as int, dc as int));
                break;
            }
            nr += dr;
            nc += dc;
        }
        proof {
            if !in_bounds_spec(nr as int, nc as int) {
                assert(out@ =~= old(out)@ + cannon_ray(self@, color, r + dr, c + dc, dr as int, dc as int));
            }
        }
    }

    fn cannon_moves(&self, color: Color, r: i32, c: i32, out: &mut Vec<usize>)
        requires
            0 <= r < 10,
            0 <= c < 9,
        ensures
            final(out)@ == old(out)@ + cannon_targets(self@, color, r as int, c as int),
    {
        self.cannon_ray_moves(color, r, c, -1, 0, out);
        self.cannon_ray_moves(color, r, c, 1, 0, out);
        self.cannon_ray_moves(color, r, c, 0, -1, out);
        self.cannon_ray_moves(color, r, c, 0, 1, out);
        proof {
            lemma_append4(
                old(out)@,
                cannon_ray(self@, color, r - 1, c as int, -1, 0),
                cannon_ray(self@, color, r + 1, c as int, 1, 0),
                cannon_ray(self@, color, r as int, c - 1, 0, -1),
                cannon_ray(self@, color, r as int, c + 1, 0, 1),
            );
        }
    }

    #[verifier::spinoff_prover]
    fn pawn_moves(&self, color: Color, r: i32, c: i32, out: &mut Vec<usize>)
        requires
            0 <= r < 10,
            0 <= c < 9,
        ensures
            final(out)@ == old(out)@ + pawn_targets(self@, color, r as int, c as int),
    {
        let forward = match color {
            Color::Red => -1,
            Color::Black => 1,
        };
        // Forward step
        let nr = r + forward;
        if in_bounds(nr, c) {
            self.try_push(color, nr, c, out);
        }
        let ghost mid = out@;
        assert(mid =~= old(out)@ + step_to(self@, color, r + pawn_forward(color), c as int));
        // After crossing the river, sideways steps allowed
        let crossed = match color {
            Color::Red => r <= 4,
            Color::Black => r >= 5,
        };
        if crossed {
            let nc = c - 1;
            if in_bounds(r, nc) {
                self.try_push(color, r, nc, out);
            }
            let nc = c + 1;
            if in_bounds(r, nc) {
                self.try_push(color, r, nc, out);
            }
        }
        assert(out@ =~= old(out)@ + pawn_targets(self@, color, r as int, c as int));
    }
}

// ---- The movement rules, read off the targets -------------------------------

/// A square that a piece of `color` may land on: on the board and not held
/// by a piece of its own side.
pub open spec fn enterable(b: BoardView, color: Color, row: int, col: int) -> bool {
    &&& in_bounds_spec(row, col)
    &&& !(at(b, row, col) matches Some(p) && p.color == color)
}

pub open spec fn abs(x: int) -> int {
    if x < 0 {
        -x
    } else {
        x
    }
}

proof fn lemma_contains_concat(a: Seq<usize>, c: Seq<usize>, x: usize)
    requires
        (a + c).contains(x),
    ensures
        a.contains(x) || c.contains(x),
{
    let k = choose|k: int| 0 <= k < (a + c).len() && (a + c)[k] == x;
    if k < a.len() {
        assert(a[k] == x);
    } else {
        assert(c[k - a.len()] == x);
    }
}

/// A single step lands exactly on its square, when that square can be entered.
pub proof fn lemma_step_to(b: BoardView, color: Color, row: int, col: int, t: usize)
    ensures
        step_to(b, color, row, col).contains(t) <==> (enterable(b, color, row, col) && t
            == sq_spec(row, col)),
{
    if enterable(b, color, row, col) && t == sq_spec(row, col) {
        assert(step_to(b, color, row, col)[0] == t);
    }
}

proof fn lemma_palace_step(b: BoardView, color: Color, r: int, c: int, dr: int, dc: int, t: usize)
    requires
        palace_step(b, color, r, c, dr, dc).contains(t),
    ensures
        in_palace_spec(color, r + dr, c + dc) && enterable(b, color, r + dr, c + dc) && t
            == sq_spec(r + dr, c + dc),
{
    lemma_step_to(b, color, r + dr, c + dc, t);
}

/// The general moves one point orthogonally and stays inside its palace.
pub proof fn lemma_king_rule(b: BoardView, color: Color, r: int, c: int, t: usize)
    requires
        king_targets(b, color, r, c).contains(t),
    ensures
        exists|tr: int, tc: int|
            t == #[trigger] sq_spec(tr, tc) && abs(tr - r) + abs(tc - c) == 1 && in_palace_spec(
                color,
                tr,
                tc,
            ) && enterable(b, color, tr, tc),
{
    let a = palace_step(b, color, r, c, -1, 0);
    let d = palace_step(b, color, r, c, 1, 0);
    let e = palace_step(b, color, r, c, 0, -1);
    let f = palace_step(b, color, r, c, 0, 1);
    lemma_contains_concat(a + d + e, f, t);
    if (a + d + e).contains(t) {
        lemma_contains_concat(a + d, e, t);
        if (a + d).contains(t) {
            lemma_contains_concat(a, d, t);
            if a.contains(t) {
                lemma_palace_step(b, color, r, c, -1, 0, t);
                assert(t == sq_spec(r - 1, c));
            } else {
                lemma_palace_step(b, color, r, c, 1, 0, t);
                assert(t == sq_spec(r + 1, c));
            }
        } else {
            lemma_palace_step(b, color, r, c, 0, -1, t);
            assert(t == sq_spec(r, c - 1));
        }
    } else {
        lemma_palace_step(b, color, r, c, 0, 1, t);
        assert(t == sq_spec(r, c + 1));
    }
}

/// The advisor moves one point diagonally and stays inside its palace.
pub proof fn lemma_advisor_rule(b: BoardView, color: Color, r: int, c: int, t: usize)
    requires
        advisor_targets(b, color, r, c).contains(t),
    ensures
        exists|tr: int, tc: int|
            t == #[trigger] sq_spec(tr, tc) && abs(tr - r) == 1 && abs(tc - c) == 1
                && in_palace_spec(color, tr, tc) && enterable(b, color, tr, tc),
{
    let a = palace_step(b, color, r, c, -1, -1);
    let d = palace_step(b, color, r, c, -1, 1);
    let e = palace_step(b, color, r, c, 1, -1);
    let f = palace_step(b, color, r, c, 1, 1);
    lemma_contains_concat(a + d + e, f, t);
    if (a + d + e).contains(t) {
        lemma_contains_concat(a + d, e, t);
        if (a + d).contains(t) {
            lemma_contains_concat(a, d, t);
            if a.contains(t) {
                lemma_palace_step(b, color, r, c, -1, -1, t);
                assert(t == sq_spec(r - 1, c - 1));
            } else {
                lemma_palace_step(b, color, r, c, -1, 1, t);
                assert(t == sq_spec(r - 1, c + 1));
            }
        } else {
            lemma_palace_step(b, color, r, c, 1, -1, t);
            assert(t == sq_spec(r + 1, c - 1));
        }
    } else {
        lemma_palace_step(b, color, r, c, 1, 1, t);
        assert(t == sq_spec(r + 1, c + 1));
    }
}

/// The rule of one elephant step, read off its targets.
pub open spec fn elephant_rule(b: BoardView, color: Color, r: int, c: int, tr: int, tc: int) -> bool {
    &&& abs(tr - r) == 2
    &&& abs(tc - c) == 2
    &&& on_own_side_spec(color, tr)
    &&& at(b, (r + tr) / 2, (c + tc) / 2) is None
    &&& enterable(b, color, tr, tc)
}

proof fn lemma_elephant_step(b: BoardView, color: Color, r: int, c: int, ur: int, uc: int, t: usize)
    requires
        elephant_step(b, color, r, c, ur, uc).contains(t),
        ur == 1 || ur == -1,
        uc == 1 || uc == -1,
    ensures
        t == sq_spec(r + 2 * ur, c + 2 * uc) && elephant_rule(
            b,
            color,
            r,
            c,
            r + 2 * ur,
            c + 2 * uc,
        ),
{
    lemma_step_to(b, color, r + 2 * ur, c + 2 * uc, t);
    assert((r + (r + 2 * ur)) / 2 == r + ur);
    assert((c + (c + 2 * uc)) / 2 == c + uc);
}

/// The elephant moves two points diagonally, never across the river, and is
/// blocked when the point in between (its eye) is occupied.
pub proof fn lemma_elephant_rule(b: BoardView, color: Color, r: int, c: int, t: usize)
    requires
        elephant_targets(b, color, r, c).contains(t),
    ensures
        exists|tr: int, tc: int|
            t == #[trigger] sq_spec(tr, tc) && elephant_rule(b, color, r, c, tr, tc),
{
    let a = elephant_step(b, color, r, c, -1, -1);
    let d = elephant_step(b, color, r, c, -1, 1);
    let e = elephant_step(b, color, r, c, 1, -1);
    let f = elephant_step(b, color, r, c, 1, 1);
    lemma_contains_concat(a + d + e, f, t);
    if (a + d + e).contains(t) {
        lemma_contains_concat(a + d, e, t);
        if (a + d).contains(t) {
            lemma_contains_concat(a, d, t);
            if a.contains(t) {
                lemma_elephant_step(b, color, r, c, -1, -1, t);
            } else {
                lemma_elephant_step(b, color, r, c, -1, 1, t);
            }
        } else {
            lemma_elephant_step(b, color, r, c, 1, -1, t);
        }
    } else {
        lemma_elephant_step(b, color, r, c, 1, 1, t);
    }
}

/// The rule of one horse jump, read off its targets: one point orthogonally
/// and one diagonally outwards, with the orthogonal point (the leg) empty.
pub open spec fn horse_rule(b: BoardView, color: Color, r: int, c: int, tr: int, tc: int) -> bool {
    &&& (abs(tr - r) == 2 && abs(tc - c) == 1 && at(b, (r + tr) / 2, c) is None) || (abs(tr - r)
        == 1 && abs(tc - c) == 2 && at(b, r, (c + tc) / 2) is None)
    &&& enterable(b, color, tr, tc)
}

proof fn lemma_horse_step(
    b: BoardView,
    color: Color,
    r: int,
    c: int,
    dr: int,
    dc: int,
    lr: int,
    lc: int,
    t: usize,
)
    requires
        horse_step(b, color, r, c, dr, dc, lr, lc).contains(t),
        (abs(dr) == 2 && abs(dc) == 1 && lr == dr / 2 && lc == 0) || (abs(dr) == 1 && abs(dc) == 2
            && lr == 0 && lc == dc / 2),
    ensures
        t == sq_spec(r + dr, c + dc) && horse_rule(b, color, r, c, r + dr, c + dc),
{
    lemma_step_to(b, color, r + dr, c + dc, t);
    if abs(dr) == 2 {
        assert((r + (r + dr)) / 2 == r + lr);
    } else {
        assert((c + (c + dc)) / 2 == c + lc);
    }
}

/// The horse jumps to the eight L-shaped points and is blocked when its leg
/// is occupied.
pub proof fn lemma_horse_rule(b: BoardView, color: Color, r: int, c: int, t: usize)
    requires
        horse_targets(b, color, r, c).contains(t),
    ensures
        exists|tr: int, tc: int| t == #[trigger] sq_spec(tr, tc) && horse_rule(b, color, r, c, tr, tc),
{
    let h1 = horse_step(b, color, r, c, -2, -1, -1, 0);
    let h2 = horse_step(b, color, r, c, -2, 1, -1, 0);
    let h3 = horse_step(b, color, r, c, 2, -1, 1, 0);
    let h4 = horse_step(b, color, r, c, 2, 1, 1, 0);
    let h5 = horse_step(b, color, r, c, -1, -2, 0, -1);
    let h6 = horse_step(b, color, r, c, 1, -2, 0, -1);
    let h7 = horse_step(b, color, r, c, -1, 2, 0, 1);
    let h8 = horse_step(b, color, r, c, 1, 2, 0, 1);
    lemma_contains_concat(h1 + h2 + h3 + h4 + h5 + h6 + h7, h8, t);
    if (h1 + h2 + h3 + h4 + h5 + h6 + h7).contains(t) {
        lemma_contains_concat(h1 + h2 + h3 + h4 + h5 + h6, h7, t);
        if (h1 + h2 + h3 + h4 + h5 + h6).contains(t) {
            lemma_contains_concat(h1 + h2 + h3 + h4 + h5, h6, t);
            if (h1 + h2 + h3 + h4 + h5).contains(t) {
                lemma_contains_concat(h1 + h2 + h3 + h4, h5, t);
                if (h1 + h2 + h3 + h4).contains(t) {
                    lemma_contains_concat(h1 + h2 + h3, h4, t);
                    if (h1 + h2 + h3).contains(t) {
                        lemma_contains_concat(h1 + h2, h3, t);
                        if (h1 + h2).contains(t) {
                            lemma_contains_concat(h1, h2, t);
                            if h1.contains(t) {
                                lemma_horse_step(b, color, r, c, -2, -1, -1, 0, t);
                            } else {
                                lemma_horse_step(b, color, r, c, -2, 1, -1, 0, t);
                            }
                        } else {
                            lemma_horse_step(b, color, r, c, 2, -1, 1, 0, t);
                        }
                    } else {
                        lemma_horse_step(b, color, r, c, 2, 1, 1, 0, t);
                    }
                } else {
                    lemma_horse_step(b, color, r, c, -1, -2, 0, -1, t);
                }
            } else {
                lemma_horse_step(b, color, r, c, 1, -2, 0, -1, t);
            }
        } else {
            lemma_horse_step(b, color, r, c, -1, 2, 0, 1, t);
        }
    } else {
        lemma_horse_step(b, color, r, c, 1, 2, 0, 1, t);
    }
}

/// The soldier moves one point forward; only after crossing the river may it
/// also move one point sideways. It never moves backward.
pub proof fn lemma_pawn_rule(b: BoardView, color: Color, r: int, c: int, t: usize)
    requires
        pawn_targets(b, color, r, c).contains(t),
    ensures
        exists|tr: int, tc: int|
            t == #[trigger] sq_spec(tr, tc) && enterable(b, color, tr, tc) && ((tr == r
                + pawn_forward(color) && tc == c) || (crossed_river(color, r) && tr == r && abs(
                tc - c,
            ) == 1)),
{
    let fwd = step_to(b, color, r + pawn_forward(color), c);
    let side = if crossed_river(color, r) {
        step_to(b, color, r, c - 1) + step_to(b, color, r, c + 1)
    } else {
        seq![]
    };
    lemma_contains_concat(fwd, side, t);
    if fwd.contains(t) {
        lemma_step_to(b, color, r + pawn_forward(color), c, t);
        assert(t == sq_spec(r + pawn_forward(color), c));
    } else {
        assert(crossed_river(color, r));
        lemma_contains_concat(step_to(b, color, r, c - 1), step_to(b, color, r, c + 1), t);
        if step_to(b, color, r, c - 1).contains(t) {
            lemma_step_to(b, color, r, c - 1, t);
            assert(t == sq_spec(r, c - 1));
        } else {
            lemma_step_to(b, color, r, c + 1, t);
            assert(t == sq_spec(r, c + 1));
        }
    }
}

/// The point `k` steps from (r, c) in direction (dr, dc).
pub open spec fn ray_point(r: int, c: int, dr: int, dc: int, k: nat) -> (int, int)
    decreases k,
{
    if k == 0 {
        (r, c)
    } else {
        ray_point(r + dr, c + dc, dr, dc, (k - 1) as nat)
    }
}

/// How many of the `k` points from (r, c) on in direction (dr, dc) hold a piece.
pub open spec fn pieces_on_ray(b: BoardView, r: int, c: int, dr: int, dc: int, k: nat) -> nat
    decreases k,
{
    if k == 0 {
        0
    } else {
        (if at(b, r, c) is Some {
            1nat
        } else {
            0nat
        }) + pieces_on_ray(b, r + dr, c + dc, dr, dc, (k - 1) as nat)
    }
}

/// A rook ray starting at (r, c) reaches the points whose predecessors on the
/// ray are all empty, when they can be entered.
pub proof fn lemma_rook_ray_rule(b: BoardView, color: Color, r: int, c: int, dr: int, dc: int, t: usize)
    requires
        unit_dir(dr, dc),
        rook_ray(b, color, r, c, dr, dc).contains(t),
    ensures
        exists|k: nat|
            {
                let p = ray_point(r, c, dr, dc, k);
                &&& t == sq_spec(p.0, p.1)
                &&& enterable(b, color, p.0, p.1)
                &&& #[trigger] pieces_on_ray(b, r, c, dr, dc, k) == 0
            },
    decreases ray_measure(r, c, dr, dc),
{
    assert(in_bounds_spec(r, c));
    match at(b, r, c) {
        None => {
            let rest = rook_ray(b, color, r + dr, c + dc, dr, dc);
            lemma_contains_concat(seq![sq_spec(r, c) as usize], rest, t);
            if rest.contains(t) {
                lemma_rook_ray_rule(b, color, r + dr, c + dc, dr, dc, t);
                let k = choose|k: nat|
                    {
                        let p = ray_point(r + dr, c + dc, dr, dc, k);
                        &&& t == sq_spec(p.0, p.1)
                        &&& enterable(b, color, p.0, p.1)
                        &&& #[trigger] pieces_on_ray(b, r + dr, c + dc, dr, dc, k) == 0
                    };
                assert(ray_point(r, c, dr, dc, k + 1) == ray_point(r + dr, c + dc, dr, dc, k));
                assert(pieces_on_ray(b, r, c, dr, dc, k + 1) == 0);
            } else {
                assert(pieces_on_ray(b, r, c, dr, dc, 0) == 0);
            }
        },
        Some(p) => {
            assert(pieces_on_ray(b, r, c, dr, dc, 0) == 0);
        },
    }
}

/// Past a cannon's screen, the capture reaches the first piece, when it is an
/// opponent's.
proof fn lemma_cannon_jump_rule(b: BoardView, color: Color, r: int, c: int, dr: int, dc: int, t: usize)
    requires
        unit_dir(dr, dc),
        cannon_jump(b, color, r, c, dr, dc).contains(t),
    ensures
        exists|k: nat|
            {
                let p = ray_point(r, c, dr, dc, k);
                &&& t == sq_spec(p.0, p.1)
                &&& in_bounds_spec(p.0, p.1)
                &&& at(b, p.0, p.1) matches Some(q) && q.color != color
                &&& #[trigger] pieces_on_ray(b, r, c, dr, dc, k) == 0
            },
    decreases ray_measure(r, c, dr, dc),
{
    assert(in_bounds_spec(r, c));
    match at(b, r, c) {
        None => {
            lemma_cannon_jump_rule(b, color, r + dr, c + dc, dr, dc, t);
            let k = choose|k: nat|
                {
                    let p = ray_point(r + dr, c + dc, dr, dc, k);
                    &&& t == sq_spec(p.0, p.1)
                    &&& in_bounds_spec(p.0, p.1)
                    &&& at(b, p.0, p.1) matches Some(q) && q.color != color
                    &&& #[trigger] pieces_on_ray(b, r + dr, c + dc, dr, dc, k) == 0
                };
            assert(ray_point(r, c, dr, dc, k + 1) == ray_point(r + dr, c + dc, dr, dc, k));
            assert(pieces_on_ray(b, r, c, dr, dc, k + 1) == 0);
        },
        Some(p) => {
            assert(pieces_on_ray(b, r, c, dr, dc, 0) == 0);
        },
    }
}

/// A cannon ray starting at (r, c) reaches the empty points with no piece
/// before them, and captures an opponent's piece with exactly one piece (the
/// screen) before it.
pub proof fn lemma_cannon_ray_rule(b: BoardView, color: Color, r: int, c: int, dr: int, dc: int, t: usize)
    requires
        unit_dir(dr, dc),
        cannon_ray(b, color, r, c, dr, dc).contains(t),
    ensures
        exists|k: nat|
            {
                let p = ray_point(r, c, dr, dc, k);
                &&& t == sq_spec(p.0, p.1)
                &&& in_bounds_spec(p.0, p.1)
                &&& match at(b, p.0, p.1) {
                    None => #[trigger] pieces_on_ray(b, r, c, dr, dc, k) == 0,
                    Some(q) => q.color != color && pieces_on_ray(b, r, c, dr, dc, k) == 1,
                }
            },
    decreases ray_measure(r, c, dr, dc),
{
    assert(in_bounds_spec(r, c));
    match at(b, r, c) {
        None => {
            let rest = cannon_ray(b, color, r + dr, c + dc, dr, dc);
            lemma_contains_concat(seq![sq_spec(r, c) as usize], rest, t);
            if rest.contains(t) {
                lemma_cannon_ray_rule(b, color, r + dr, c + dc, dr, dc, t);
                let k = choose|k: nat|
                    {
                        let p = ray_point(r + dr, c + dc, dr, dc, k);
                        &&& t == sq_spec(p.0, p.1)
                        &&& in_bounds_spec(p.0, p.1)
                        &&& match at(b, p.0, p.1) {
                            None => #[trigger] pieces_on_ray(b, r + dr, c + dc, dr, dc, k) == 0,
                            Some(q) => q.color != color && pieces_on_ray(
                                b,
                                r + dr,
                                c + dc,
                                dr,
                                dc,
                                k,
                            ) == 1,
                        }
                    };
                assert(ray_point(r, c, dr, dc, k + 1) == ray_point(r + dr, c + dc, dr, dc, k));
                assert(pieces_on_ray(b, r, c, dr, dc, k + 1) == pieces_on_ray(
                    b,
                    r + dr,
                    c + dc,
                    dr,
                    dc,
                    k,
                ));
            } else {
                assert(pieces_on_ray(b, r, c, dr, dc, 0) == 0);
            }
        },
        Some(_) => {
            lemma_cannon_jump_rule(b, color, r + dr, c + dc, dr, dc, t);
            let k = choose|k: nat|
                {
                    let p = ray_point(r + dr, c + dc, dr, dc, k);
                    &&& t == sq_spec(p.0, p.1)
                    &&& in_bounds_spec(p.0, p.1)
                    &&& at(b, p.0, p.1) matches Some(q) && q.color != color
                    &&& #[trigger] pieces_on_ray(b, r + dr, c + dc, dr, dc, k) == 0
                };
            assert(ray_point(r, c, dr, dc, k + 1) == ray_point(r + dr, c + dc, dr, dc, k));
            assert(pieces_on_ray(b, r, c, dr, dc, k + 1) == 1);
        },
    }
}

} // verus!
