//! Check detection and fully legal move generation.

use vstd::prelude::*;
use crate::board::{
    apply_move, col_of, king_square, lemma_unmake_restores, row_of, sq, sq_spec, Board, BoardView,
    Color,
};
use crate::movegen::{
    at, cannon_jump, cannon_ray, elephant_step, horse_step, palace_step, pseudo_targets, rook_ray,
    step_to, unit_dir, ray_measure,
};

verus! {

/// Every listed square lies on the board.
pub open spec fn on_board(t: Seq<usize>) -> bool {
    forall|i: int| 0 <= i < t.len() ==> #[trigger] t[i] < 90
}

proof fn lemma_on_board_concat(a: Seq<usize>, b: Seq<usize>)
    requires
        on_board(a),
        on_board(b),
    ensures
        on_board(a + b),
{
    assert forall|i: int| 0 <= i < (a + b).len() implies #[trigger] (a + b)[i] < 90 by {
        if i < a.len() {
            assert((a + b)[i] == a[i]);
        } else {
            assert((a + b)[i] == b[i - a.len()]);
        }
    }
}

proof fn lemma_rook_ray_on_board(b: BoardView, color: Color, r: int, c: int, dr: int, dc: int)
    requires
        unit_dir(dr, dc),
    ensures
        on_board(rook_ray(b, color, r, c, dr, dc)),
    decreases ray_measure(r, c, dr, dc),
{
    if crate::board::in_bounds_spec(r, c) {
        lemma_rook_ray_on_board(b, color, r + dr, c + dc, dr, dc);
        if at(b, r, c) is None {
            lemma_on_board_concat(
                seq![sq_spec(r, c) as usize],
                rook_ray(b, color, r + dr, c + dc, dr, dc),
            );
        }
    }
}

proof fn lemma_cannon_jump_on_board(b: BoardView, color: Color, r: int, c: int, dr: int, dc: int)
    requires
        unit_dir(dr, dc),
    ensures
        on_board(cannon_jump(b, color, r, c, dr, dc)),
    decreases ray_measure(r, c, dr, dc),
{
    if crate::board::in_bounds_spec(r, c) {
        lemma_cannon_jump_on_board(b, color, r + dr, c + dc, dr, dc);
    }
}

proof fn lemma_cannon_ray_on_board(b: BoardView, color: Color, r: int, c: int, dr: int, dc: int)
    requires
        unit_dir(dr, dc),
    ensures
        on_board(cannon_ray(b, color, r, c, dr, dc)),
    decreases ray_measure(r, c, dr, dc),
{
    if crate::board::in_bounds_spec(r, c) {
        lemma_cannon_ray_on_board(b, color, r + dr, c + dc, dr, dc);
        lemma_cannon_jump_on_board(b, color, r + dr, c + dc, dr, dc);
        if at(b, r, c) is None {
            lemma_on_board_concat(
                seq![sq_spec(r, c) as usize],
                cannon_ray(b, color, r + dr, c + dc, dr, dc),
            );
        }
    }
}

proof fn lemma_on_board4(a: Seq<usize>, b: Seq<usize>, c: Seq<usize>, d: Seq<usize>)
    requires
        on_board(a),
        on_board(b),
        on_board(c),
        on_board(d),
    ensures
        on_board(a + b + c + d),
{
    lemma_on_board_concat(a, b);
    lemma_on_board_concat(a + b, c);
    lemma_on_board_concat(a + b + c, d);
}

/// Every pseudo-legal destination is a square of the board.
pub proof fn lemma_pseudo_on_board(b: BoardView, s: int)
    requires
        0 <= s < 90,
    ensures
        on_board(pseudo_targets(b, s)),
{
    reveal(pseudo_targets);
    if let Some(p) = b.squares[s] {
        let r = s / 9;
        let c = s % 9;
        let col = p.color;
        match p.kind {
            crate::board::PieceKind::King => {
                lemma_on_board4(
                    palace_step(b, col, r, c, -1, 0),
                    palace_step(b, col, r, c, 1, 0),
                    palace_step(b, col, r, c, 0, -1),
                    palace_step(b, col, r, c, 0, 1),
                );
            },
            crate::board::PieceKind::Advisor => {
                lemma_on_board4(
                    palace_step(b, col, r, c, -1, -1),
                    palace_step(b, col, r, c, -1, 1),
                    palace_step(b, col, r, c, 1, -1),
                    palace_step(b, col, r, c, 1, 1),
                );
            },
            crate::board::PieceKind::Elephant => {
                lemma_on_board4(
                    elephant_step(b, col, r, c, -1, -1),
                    elephant_step(b, col, r, c, -1, 1),
                    elephant_step(b, col, r, c, 1, -1),
                    elephant_step(b, col, r, c, 1, 1),
                );
            },
            crate::board::PieceKind::Horse => {
                let h1 = horse_step(b, col, r, c, -2, -1, -1, 0);
                let h2 = horse_step(b, col, r, c, -2, 1, -1, 0);
                let h3 = horse_step(b, col, r, c, 2, -1, 1, 0);
                let h4 = horse_step(b, col, r, c, 2, 1, 1, 0);
                let h5 = horse_step(b, col, r, c, -1, -2, 0, -1);
                let h6 = horse_step(b, col, r, c, 1, -2, 0, -1);
                let h7 = horse_step(b, col, r, c, -1, 2, 0, 1);
                let h8 = horse_step(b, col, r, c, 1, 2, 0, 1);
                lemma_on_board4(h1, h2, h3, h4);
                lemma_on_board_concat(h1 + h2 + h3 + h4, h5);
                lemma_on_board_concat(h1 + h2 + h3 + h4 + h5, h6);
                lemma_on_board_concat(h1 + h2 + h3 + h4 + h5 + h6, h7);
                lemma_on_board_concat(h1 + h2 + h3 + h4 + h5 + h6 + h7, h8);
            },
            crate::board::PieceKind::Rook => {
                lemma_rook_ray_on_board(b, col, r - 1, c, -1, 0);
                lemma_rook_ray_on_board(b, col, r + 1, c, 1, 0);
                lemma_rook_ray_on_board(b, col, r, c - 1, 0, -1);
                lemma_rook_ray_on_board(b, col, r, c + 1, 0, 1);
                lemma_on_board4(
                    rook_ray(b, col, r - 1, c, -1, 0),
                    rook_ray(b, col, r + 1, c, 1, 0),
                    rook_ray(b, col, r, c - 1, 0, -1),
                    rook_ray(b, col, r, c + 1, 0, 1),
                );
            },
            crate::board::PieceKind::Cannon => {
                lemma_cannon_ray_on_board(b, col, r - 1, c, -1, 0);
                lemma_cannon_ray_on_board(b, col, r + 1, c, 1, 0);
                lemma_cannon_ray_on_board(b, col, r, c - 1, 0, -1);
                lemma_cannon_ray_on_board(b, col, r, c + 1, 0, 1);
                lemma_on_board4(
                    cannon_ray(b, col, r - 1, c, -1, 0),
                    cannon_ray(b, col, r + 1, c, 1, 0),
                    cannon_ray(b, col, r, c - 1, 0, -1),
                    cannon_ray(b, col, r, c + 1, 0, 1),
                );
            },
            crate::board::PieceKind::Pawn => {
                let f = crate::movegen::pawn_forward(col);
                lemma_on_board_concat(step_to(b, col, r, c - 1), step_to(b, col, r, c + 1));
                lemma_on_board_concat(
                    step_to(b, col, r + f, c),
                    if crate::movegen::crossed_river(col, r) {
                        step_to(b, col, r, c - 1) + step_to(b, col, r, c + 1)
                    } else {
                        seq![]
                    },
                );
            },
        }
    }
}

/// No piece stands on column `col` strictly between rows `r1` and `r2`.
pub open spec fn column_clear(b: BoardView, col: int, r1: int, r2: int) -> bool {
    forall|r: int| r1 < r < r2 ==> #[trigger] at(b, r, col) is None
}

/// The flying-general rule: both kings on one column with nothing between them.
pub open spec fn kings_facing(b: BoardView, color: Color) -> bool {
    match (king_square(b, color), king_square(b, color.opp())) {
        (Some(k), Some(o)) => {
            let r1 = if k / 9 <= o / 9 { k / 9 } else { o / 9 };
            let r2 = if k / 9 <= o / 9 { o / 9 } else { k / 9 };
            k % 9 == o % 9 && column_clear(b, k % 9, r1, r2)
        },
        _ => false,
    }
}

/// A piece of `attacker` on square `s` can move to square `target`.
pub open spec fn attacks(b: BoardView, attacker: Color, s: int, target: int) -> bool {
    &&& b.squares[s] matches Some(p)
    &&& p.color == attacker
    &&& pseudo_targets(b, s).contains(target as usize)
}

/// `color`'s king is missing, faces the other king, or is attacked by an
/// opposing piece.
pub open spec fn in_check_spec(b: BoardView, color: Color) -> bool {
    match king_square(b, color) {
        None => true,
        Some(k) => kings_facing(b, color) || exists|s: int|
            0 <= s < 90 && #[trigger] attacks(b, color.opp(), s, k),
    }
}

/// Of the destinations `tos` for the piece on `from`, those after which the
/// side to move is not in check, in order.
pub open spec fn safe_targets(b: BoardView, from: int, tos: Seq<usize>) -> Seq<usize>
    decreases tos.len(),
{
    if tos.len() == 0 {
        seq![]
    } else {
        safe_targets(b, from, tos.drop_last()) + if !in_check_spec(
            apply_move(b, from, tos.last() as int),
            b.turn,
        ) {
            seq![tos.last()]
        } else {
            seq![]
        }
    }
}

/// Fully legal destinations of the piece on `from`: empty unless it belongs
/// to the side to move.
pub open spec fn legal_targets(b: BoardView, from: int) -> Seq<usize> {
    match b.squares[from] {
        Some(p) => if p.color == b.turn {
            safe_targets(b, from, pseudo_targets(b, from))
        } else {
            seq![]
        },
        None => seq![],
    }
}

/// Legal moves of pieces on squares below `n`, by square, then in generation order.
pub open spec fn legal_moves_below(b: BoardView, n: int) -> Seq<(usize, usize)>
    decreases n,
{
    if n <= 0 {
        seq![]
    } else {
        legal_moves_below(b, n - 1) + legal_targets(b, n - 1).map_values(
            |t: usize| ((n - 1) as usize, t),
        )
    }
}

/// All fully legal moves of the side to move.
pub open spec fn legal_moves_spec(b: BoardView) -> Seq<(usize, usize)> {
    legal_moves_below(b, 90)
}

fn vec_contains(v: &Vec<usize>, x: usize) -> (res: bool)
    ensures
        res == v@.contains(x),
{
    let mut i: usize = 0;
    while i < v.len()
        invariant
            i <= v.len(),
            forall|j: int| 0 <= j < i ==> v@[j] != x,
        decreases v.len() - i,
    {
        if v[i] == x {
            return true;
        }
        i = i + 1;
    }
    false
}

proof fn lemma_attack_means_check(b: BoardView, color: Color, s: int, k: int)
    requires
        king_square(b, color) == Some(k),
        0 <= s < 90,
        attacks(b, color.opp(), s, k),
    ensures
        in_check_spec(b, color),
{
}

impl Board {
    /// Returns true if `color`'s king is attacked by any opposing piece, OR
    /// if both kings face each other on the same file with no piece between.
    pub fn in_check(&self, color: Color) -> (res: bool)
        ensures
            res == in_check_spec(self@, color),
    {
        let king_sq = match self.find_king(color) {
            Some(s) => s,
            None => return true,  // king missing: treat as lost
        };
        proof {
            crate::board::lemma_first_king_props(self@, color, 90);
        }
        // Flying general rule: kings cannot face on same file with no piece between.
        if let Some(opp_king) = self.find_king(color.opp()) {
            proof {
                crate::board::lemma_first_king_props(self@, color.opp(), 90);
            }
            if col_of(king_sq) == col_of(opp_king) {
                let c = col_of(king_sq);
                let r1 = if row_of(king_sq) <= row_of(opp_king) {
                    row_of(king_sq)
                } else {
                    row_of(opp_king)
                };
                let r2 = if row_of(king_sq) <= row_of(opp_king) {
                    row_of(opp_king)
                } else {
                    row_of(king_sq)
                };
                let mut any_between = false;
                let mut r = r1 + 1;
                while r < r2
                    invariant_except_break
                        !any_between,
                    invariant
                        0 <= r1,
                        r2 <= 9,
                        0 <= c < 9,
                        r1 + 1 <= r,
                        r <= r2 || r == r1 + 1,
                        forall|rr: int| r1 < rr < r ==> #[trigger] at(self@, rr, c as int) is None,
                    ensures
                        any_between <==> !column_clear(self@, c as int, r1 as int, r2 as int),
                    decreases r2 - r,
                {
                    if self.squares[sq(r, c)].is_some() {
                        assert(at(self@, r as int, c as int) is Some);
                        any_between = true;
                        break;
                    }
                    r = r + 1;
                }
                if !any_between {
                    return true;
                }
            }
        }
        // Check attacks from any opposing piece.
        let mut moves: Vec<usize> = Vec::with_capacity(20);
        let mut s: usize = 0;
        while s < 90
            invariant
                s <= 90,
                king_square(self@, color) == Some(king_sq as int),
                !kings_facing(self@, color),
                forall|t: int| 0 <= t < s ==> !#[trigger] attacks(self@, color.opp(), t, king_sq as int),
            decreases 90 - s,
        {
            if let Some(p) = self.squares[s] {
                if p.color == color.opp() {
                    moves.clear();
                    self.pseudo_moves_from(s, &mut moves);
                    assert(moves@ =~= pseudo_targets(self@, s as int));
                    if vec_contains(&moves, king_sq) {
                        assert(attacks(self@, color.opp(), s as int, king_sq as int));
                        assert(exists|t: int|
                            0 <= t < 90 && #[trigger] attacks(self@, color.opp(), t, king_sq as int));
                        proof {
                            lemma_attack_means_check(self@, color, s as int, king_sq as int);
                        }
                        return true;
                    }
                }
            }
            s = s + 1;
        }
        false
    }
}


impl Board {
    /// For each destination in `tos`, tries the move from `from`, keeps it if
    /// the side to move is not left in check, and undoes it.
    fn push_safe_targets(&mut self, from: usize, tos: &Vec<usize>, out: &mut Vec<usize>)
        requires
            from < 90,
            on_board(tos@),
        ensures
            final(self)@ == old(self)@,
            final(out)@ == old(out)@ + safe_targets(old(self)@, from as int, tos@),
    {
        let ghost b0 = self@;
        let mover = self.turn;
        let mut j: usize = 0;
        while j < tos.len()
            invariant
                from < 90,
                on_board(tos@),
                j <= tos.len(),
                self@ == b0,
                mover == b0.turn,
                b0.squares.len() == 90,
                out@ == old(out)@ + safe_targets(b0, from as int, tos@.take(j as int)),
            decreases tos.len() - j,
        {
            let to = tos[j];
            let mv = self.make_move(from, to);
            let safe = !self.in_check(mover);
            self.unmake_move(mv);
            proof {
                lemma_unmake_restores(b0, from as int, to as int);
                assert(tos@.take(j + 1).drop_last() =~= tos@.take(j as int));
                assert(tos@.take(j + 1).last() == to);
            }
            if safe {
                out.push(to);
            }
            assert(out@ =~= old(out)@ + safe_targets(b0, from as int, tos@.take(j + 1)));
            j = j + 1;
        }
        assert(tos@.take(tos.len() as int) =~= tos@);
    }

    /// Generate all fully legal moves for the side to move.
    pub fn legal_moves(&mut self) -> (res: Vec<(usize, usize)>)
        ensures
            final(self)@ == old(self)@,
            res@ == legal_moves_spec(old(self)@),
    {
        let ghost b0 = self@;
        let mut result: Vec<(usize, usize)> = Vec::with_capacity(40);
        let mover = self.turn;
        let mut buf: Vec<usize> = Vec::with_capacity(20);
        let mut dests: Vec<usize> = Vec::with_capacity(20);
        let mut from: usize = 0;
        while from < 90
            invariant
                from <= 90,
                self@ == b0,
                mover == b0.turn,
                b0.squares.len() == 90,
                result@ == legal_moves_below(b0, from as int),
            decreases 90 - from,
        {
            let ghost before = result@;
            if let Some(p) = self.squares[from] {
                if p.color == mover {
                    buf.clear();
                    self.pseudo_moves_from(from, &mut buf);
                    proof {
                        lemma_pseudo_on_board(b0, from as int);
                        assert(buf@ =~= pseudo_targets(b0, from as int));
                    }
                    dests.clear();
                    self.push_safe_targets(from, &buf, &mut dests);
                    assert(dests@ =~= legal_targets(b0, from as int));
                    let mut k: usize = 0;
                    while k < dests.len()
                        invariant
                            from < 90,
                            k <= dests.len(),
                            dests@ == legal_targets(b0, from as int),
                            result@ == before + dests@.take(k as int).map_values(
                                |t: usize| (from, t),
                            ),
                        decreases dests.len() - k,
                    {
                        result.push((from, dests[k]));
                        assert(dests@.take(k + 1).map_values(|t: usize| (from, t))
                            =~= dests@.take(k as int).map_values(|t: usize| (from, t)).push(
                            (from, dests@[k as int]),
                        ));
                        k = k + 1;
                    }
                    assert(dests@.take(dests.len() as int) =~= dests@);
                }
            }
            assert(result@ =~= legal_moves_below(b0, from + 1));
            from = from + 1;
        }
        result
    }

    /// Generate fully legal destinations from a given square.
    pub fn legal_moves_from(&mut self, from: usize) -> (res: Vec<usize>)
        requires
            from < 90,
        ensures
            final(self)@ == old(self)@,
            res@ == legal_targets(old(self)@, from as int),
    {
        let p = match self.squares[from] {
            Some(p) => p,
            None => return Vec::new(),
        };
        if p.color != self.turn {
            return Vec::new();
        }
        let mut buf: Vec<usize> = Vec::with_capacity(20);
        self.pseudo_moves_from(from, &mut buf);
        proof {
            lemma_pseudo_on_board(self@, from as int);
            assert(buf@ =~= pseudo_targets(self@, from as int));
        }
        let mut out: Vec<usize> = Vec::with_capacity(buf.len());
        self.push_safe_targets(from, &buf, &mut out);
        assert(out@ =~= legal_targets(old(self)@, from as int));
        out
    }
}

/// Both squares of every listed move lie on the board.
pub open spec fn moves_on_board(ms: Seq<(usize, usize)>) -> bool {
    forall|i: int| 0 <= i < ms.len() ==> (#[trigger] ms[i]).0 < 90 && ms[i].1 < 90
}

proof fn lemma_safe_subset(b: BoardView, from: int, tos: Seq<usize>)
    ensures
        forall|x: usize| #[trigger] safe_targets(b, from, tos).contains(x) ==> tos.contains(x),
    decreases tos.len(),
{
    if tos.len() > 0 {
        lemma_safe_subset(b, from, tos.drop_last());
        let prev = safe_targets(b, from, tos.drop_last());
        assert forall|x: usize| #[trigger] safe_targets(b, from, tos).contains(x) implies tos.contains(
            x,
        ) by {
            let st = safe_targets(b, from, tos);
            let k = choose|k: int| 0 <= k < st.len() && st[k] == x;
            if k < prev.len() {
                assert(prev[k] == x);
                assert(prev.contains(x));
                let k2 = choose|k2: int| 0 <= k2 < tos.drop_last().len() && tos.drop_last()[k2] == x;
                assert(tos[k2] == x);
            } else {
                assert(tos[tos.len() - 1] == x);
            }
        }
    }
}

pub proof fn lemma_legal_targets_on_board(b: BoardView, from: int)
    requires
        0 <= from < 90,
    ensures
        on_board(legal_targets(b, from)),
{
    lemma_pseudo_on_board(b, from);
    let tos = pseudo_targets(b, from);
    lemma_safe_subset(b, from, tos);
    let st = safe_targets(b, from, tos);
    assert forall|i: int| 0 <= i < st.len() implies #[trigger] st[i] < 90 by {
        assert(st.contains(st[i]));
        let k = choose|k: int| 0 <= k < tos.len() && tos[k] == st[i];
    }
}

proof fn lemma_legal_below_on_board(b: BoardView, n: int)
    requires
        n <= 90,
    ensures
        moves_on_board(legal_moves_below(b, n)),
    decreases n,
{
    if n > 0 {
        lemma_legal_below_on_board(b, n - 1);
        lemma_legal_targets_on_board(b, n - 1);
        let prev = legal_moves_below(b, n - 1);
        let ext = legal_targets(b, n - 1).map_values(|t: usize| ((n - 1) as usize, t));
        assert forall|i: int| 0 <= i < (prev + ext).len() implies (#[trigger] (prev + ext)[i]).0 < 90
            && (prev + ext)[i].1 < 90 by {
            if i < prev.len() {
                assert((prev + ext)[i] == prev[i]);
            } else {
                assert((prev + ext)[i] == ext[i - prev.len()]);
            }
        }
    }
}

/// Both squares of every legal move lie on the board.
pub proof fn lemma_legal_moves_on_board(b: BoardView)
    ensures
        moves_on_board(legal_moves_spec(b)),
{
    lemma_legal_below_on_board(b, 90);
}

proof fn lemma_legal_below_contains(b: BoardView, n: int, from: int, to: usize)
    requires
        0 <= n <= 90,
        0 <= from < 90,
    ensures
        legal_moves_below(b, n).contains((from as usize, to)) <==> (from < n && legal_targets(
            b,
            from,
        ).contains(to)),
    decreases n,
{
    if n > 0 {
        lemma_legal_below_contains(b, n - 1, from, to);
        let prev = legal_moves_below(b, n - 1);
        let lt = legal_targets(b, n - 1);
        let ext = lt.map_values(|t: usize| ((n - 1) as usize, t));
        let all = prev + ext;
        let m = (from as usize, to);
        if all.contains(m) {
            let k = choose|k: int| 0 <= k < all.len() && all[k] == m;
            if k < prev.len() {
                assert(prev[k] == m);
                assert(prev.contains(m));
            } else {
                assert(ext[k - prev.len()] == m);
                assert(lt[k - prev.len()] == to);
                assert(lt.contains(to));
            }
        }
        if from < n - 1 && legal_targets(b, from).contains(to) {
            let k = choose|k: int| 0 <= k < prev.len() && prev[k] == m;
            assert(all[k] == m);
        }
        if from == n - 1 && legal_targets(b, from).contains(to) {
            let k = choose|k: int| 0 <= k < lt.len() && lt[k] == to;
            assert(ext[k] == m);
            assert(all[prev.len() + k] == m);
        }
    }
}

/// A move is among all legal moves exactly when its destination is among the
/// legal destinations of its origin square.
pub proof fn lemma_legal_moves_agree(b: BoardView, from: int, to: usize)
    requires
        0 <= from < 90,
    ensures
        legal_moves_spec(b).contains((from as usize, to)) <==> legal_targets(b, from).contains(to),
{
    lemma_legal_below_contains(b, 90, from, to);
}

/// The destinations of the moves in `ms` that start on `from`, in order.
pub open spec fn targets_of(ms: Seq<(usize, usize)>, from: usize) -> Seq<usize>
    decreases ms.len(),
{
    if ms.len() == 0 {
        seq![]
    } else {
        targets_of(ms.drop_last(), from) + if ms.last().0 == from {
            seq![ms.last().1]
        } else {
            seq![]
        }
    }
}

proof fn lemma_targets_of_concat(a: Seq<(usize, usize)>, c: Seq<(usize, usize)>, from: usize)
    ensures
        targets_of(a + c, from) == targets_of(a, from) + targets_of(c, from),
    decreases c.len(),
{
    if c.len() == 0 {
        assert(a + c =~= a);
        assert(targets_of(a, from) + targets_of(c, from) =~= targets_of(a, from));
    } else {
        lemma_targets_of_concat(a, c.drop_last(), from);
        assert((a + c).drop_last() =~= a + c.drop_last());
        assert((a + c).last() == c.last());
        let tail = if c.last().0 == from {
            seq![c.last().1]
        } else {
            seq![]
        };
        assert(targets_of(a, from) + targets_of(c.drop_last(), from) + tail =~= targets_of(a, from)
            + (targets_of(c.drop_last(), from) + tail));
    }
}

proof fn lemma_targets_of_square(lt: Seq<usize>, k: usize, from: usize)
    ensures
        targets_of(lt.map_values(|t: usize| (k, t)), from) == if k == from {
            lt
        } else {
            seq![]
        },
    decreases lt.len(),
{
    let ms = lt.map_values(|t: usize| (k, t));
    if lt.len() > 0 {
        lemma_targets_of_square(lt.drop_last(), k, from);
        assert(ms.drop_last() =~= lt.drop_last().map_values(|t: usize| (k, t)));
        if k == from {
            assert(lt.drop_last() + seq![lt.last()] =~= lt);
        } else {
            assert(seq![] + seq![] =~= Seq::<usize>::empty());
        }
    } else {
        assert(ms.len() == 0);
    }
}

proof fn lemma_targets_of_below(b: BoardView, n: int, from: int)
    requires
        0 <= n <= 90,
        0 <= from < 90,
    ensures
        targets_of(legal_moves_below(b, n), from as usize) == if from < n {
            legal_targets(b, from)
        } else {
            seq![]
        },
    decreases n,
{
    if n > 0 {
        lemma_targets_of_below(b, n - 1, from);
        let lt = legal_targets(b, n - 1);
        let ext = lt.map_values(|t: usize| ((n - 1) as usize, t));
        lemma_targets_of_concat(legal_moves_below(b, n - 1), ext, from as usize);
        lemma_targets_of_square(lt, (n - 1) as usize, from as usize);
        if from < n - 1 {
            assert(legal_targets(b, from) + seq![] =~= legal_targets(b, from));
        } else if from == n - 1 {
            assert(seq![] + lt =~= lt);
        } else {
            assert(seq![] + seq![] =~= Seq::<usize>::empty());
        }
    }
}

/// The legal destinations of a square are exactly the destinations of the
/// legal moves that start there, in the same order.
pub proof fn lemma_legal_moves_from_order(b: BoardView, from: int)
    requires
        0 <= from < 90,
    ensures
        targets_of(legal_moves_spec(b), from as usize) == legal_targets(b, from),
{
    lemma_targets_of_below(b, 90, from);
}

proof fn lemma_safe_targets_safe(b: BoardView, from: int, tos: Seq<usize>, to: usize)
    requires
        safe_targets(b, from, tos).contains(to),
    ensures
        tos.contains(to),
        !in_check_spec(apply_move(b, from, to as int), b.turn),
    decreases tos.len(),
{
    lemma_safe_subset(b, from, tos);
    let prev = safe_targets(b, from, tos.drop_last());
    let st = safe_targets(b, from, tos);
    let k = choose|k: int| 0 <= k < st.len() && st[k] == to;
    if k < prev.len() {
        assert(prev[k] == to);
        lemma_safe_targets_safe(b, from, tos.drop_last(), to);
    }
}

/// Every legal move takes a piece of the side to move along one of its
/// pseudo-legal paths and does not leave that side in check.
pub proof fn lemma_legal_move_is_safe(b: BoardView, from: int, to: usize)
    requires
        0 <= from < 90,
        legal_moves_spec(b).contains((from as usize, to)),
    ensures
        b.squares[from] matches Some(p) && p.color == b.turn,
        pseudo_targets(b, from).contains(to),
        !in_check_spec(apply_move(b, from, to as int), b.turn),
{
    lemma_legal_moves_agree(b, from, to);
    lemma_safe_targets_safe(b, from, pseudo_targets(b, from), to);
}

} // verus!
