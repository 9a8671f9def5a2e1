//! Evaluation and negamax alpha-beta search.

use vstd::prelude::*;
use crate::board::{apply_move, lemma_unmake_restores, Board, BoardView, Color, PieceKind};
use crate::rules::{lemma_legal_moves_on_board, legal_moves_spec, moves_on_board};

verus! {

pub const INF: i32 = 1000000;

pub const MATE: i32 = 100000;

/// Material value of a piece; a pawn is worth double once across the river.
pub open spec fn piece_value_spec(kind: PieceKind, color: Color, row: int) -> int {
    match kind {
        PieceKind::King => 0,
        PieceKind::Rook => 900,
        PieceKind::Cannon => 450,
        PieceKind::Horse => 400,
        PieceKind::Elephant => 200,
        PieceKind::Advisor => 200,
        PieceKind::Pawn => if crate::movegen::crossed_river(color, row) {
            200
        } else {
            100
        },
    }
}

fn piece_value(kind: PieceKind, color: Color, row: i32) -> (v: i32)
    ensures
        v == piece_value_spec(kind, color, row as int),
        0 <= v <= 900,
{
    match kind {
        PieceKind::King => 0,
        PieceKind::Rook => 900,
        PieceKind::Cannon => 450,
        PieceKind::Horse => 400,
        PieceKind::Elephant => 200,
        PieceKind::Advisor => 200,
        PieceKind::Pawn => {
            let crossed = match color {
                Color::Red => row <= 4,
                Color::Black => row >= 5,
            };
            if crossed {
                200
            } else {
                100
            }
        },
    }
}

/// Value of whatever stands on square `s`, or 0 for an empty square.
pub open spec fn square_value(b: BoardView, s: int) -> int {
    match b.squares[s] {
        Some(p) => piece_value_spec(p.kind, p.color, s / 9),
        None => 0,
    }
}

/// MVV-LVA ordering score: 0 for a non-capture, else sixteen times the
/// captured value minus the mover's value.
pub open spec fn capture_score_spec(b: BoardView, from: int, to: int) -> int {
    let cap = square_value(b, to);
    if cap == 0 {
        0
    } else {
        cap * 16 - square_value(b, from)
    }
}

fn capture_score(b: &Board, from: usize, to: usize) -> (v: i32)
    requires
        from < 90,
        to < 90,
    ensures
        v == capture_score_spec(b@, from as int, to as int),
        -900 <= v <= 14400,
{
    // MVV-LVA-ish: prioritize taking high-value pieces with low-value pieces.
    let cap_val = match b.squares[to] {
        Some(p) => piece_value(p.kind, p.color, (to as i32) / 9),
        None => 0,
    };
    if cap_val == 0 {
        return 0;
    }
    let mover_val = match b.squares[from] {
        Some(p) => piece_value(p.kind, p.color, (from as i32) / 9),
        None => 0,
    };
    cap_val * 16 - mover_val
}

/// Red's material minus Black's on the squares below `n`.
pub open spec fn material(b: BoardView, n: int) -> int
    decreases n,
{
    if n <= 0 {
        0
    } else {
        material(b, n - 1) + match b.squares[n - 1] {
            Some(p) => match p.color {
                Color::Red => square_value(b, n - 1),
                Color::Black => -square_value(b, n - 1),
            },
            None => 0,
        }
    }
}

/// Material balance from the point of view of the side to move.
pub open spec fn evaluate_spec(b: BoardView) -> int {
    match b.turn {
        Color::Red => material(b, 90),
        Color::Black => -material(b, 90),
    }
}

pub fn evaluate(b: &Board) -> (v: i32)
    ensures
        v == evaluate_spec(b@),
        -81000 <= v <= 81000,
{
    let mut score: i32 = 0;
    let mut s: usize = 0;
    while s < 90
        invariant
            s <= 90,
            score == material(b@, s as int),
            -900 * s <= score <= 900 * s,
        decreases 90 - s,
    {
        if let Some(p) = b.squares[s] {
            let r = (s as i32) / 9;
            let v = piece_value(p.kind, p.color, r);
            match p.color {
                Color::Red => score += v,
                Color::Black => score -= v,
            }
        }
        s = s + 1;
    }
    match b.turn {
        Color::Red => score,
        Color::Black => -score,
    }
}

/// The ordering key of a move: captures of valuable pieces first.
pub open spec fn move_key(b: BoardView, m: (usize, usize)) -> int {
    -capture_score_spec(b, m.0 as int, m.1 as int)
}

/// Inserts `m` into `s` after every element whose key is not greater.
pub open spec fn insert_by_key(b: BoardView, s: Seq<(usize, usize)>, m: (usize, usize)) -> Seq<
    (usize, usize),
>
    decreases s.len(),
{
    if s.len() == 0 {
        seq![m]
    } else if move_key(b, s.last()) <= move_key(b, m) {
        s.push(m)
    } else {
        insert_by_key(b, s.drop_last(), m).push(s.last())
    }
}

/// The stable sort of `s` by ascending key.
pub open spec fn sort_by_key(b: BoardView, s: Seq<(usize, usize)>) -> Seq<(usize, usize)>
    decreases s.len(),
{
    if s.len() == 0 {
        seq![]
    } else {
        insert_by_key(b, sort_by_key(b, s.drop_last()), s.last())
    }
}

/// Inserting at the position found by scanning back past the greater keys.
proof fn lemma_insert_at(b: BoardView, s: Seq<(usize, usize)>, m: (usize, usize), j: int)
    requires
        0 <= j <= s.len(),
        forall|i: int| j <= i < s.len() ==> move_key(b, #[trigger] s[i]) > move_key(b, m),
        j == 0 || move_key(b, s[j - 1]) <= move_key(b, m),
    ensures
        insert_by_key(b, s, m) == s.take(j).push(m) + s.skip(j),
    decreases s.len(),
{
    if s.len() == 0 {
        assert(s.take(j).push(m) + s.skip(j) =~= seq![m]);
    } else if move_key(b, s.last()) <= move_key(b, m) {
        assert(j == s.len());
        assert(s.take(j).push(m) + s.skip(j) =~= s.push(m));
    } else {
        assert(j < s.len());
        lemma_insert_at(b, s.drop_last(), m, j);
        assert(s.drop_last().take(j).push(m) + s.drop_last().skip(j) + seq![s.last()]
            =~= s.take(j).push(m) + s.skip(j));
    }
}

proof fn lemma_insert_contains(b: BoardView, s: Seq<(usize, usize)>, m: (usize, usize))
    ensures
        insert_by_key(b, s, m).len() == s.len() + 1,
        forall|x: (usize, usize)| #[trigger]
            insert_by_key(b, s, m).contains(x) <==> (s.contains(x) || x == m),
    decreases s.len(),
{
    if s.len() == 0 {
        assert forall|x: (usize, usize)| #[trigger]
            insert_by_key(b, s, m).contains(x) <==> (s.contains(x) || x == m) by {
            if x == m {
                assert(seq![m][0] == x);
            }
        }
    } else if move_key(b, s.last()) <= move_key(b, m) {
        assert forall|x: (usize, usize)| #[trigger]
            s.push(m).contains(x) <==> (s.contains(x) || x == m) by {
            if s.push(m).contains(x) {
                let k = choose|k: int| 0 <= k < s.push(m).len() && s.push(m)[k] == x;
                if k < s.len() {
                    assert(s[k] == x);
                }
            }
            if s.contains(x) {
                let k = choose|k: int| 0 <= k < s.len() && s[k] == x;
                assert(s.push(m)[k] == x);
            }
            if x == m {
                assert(s.push(m)[s.len() as int] == x);
            }
        }
    } else {
        let r = insert_by_key(b, s.drop_last(), m);
        lemma_insert_contains(b, s.drop_last(), m);
        assert forall|x: (usize, usize)| #[trigger]
            r.push(s.last()).contains(x) <==> (s.contains(x) || x == m) by {
            if r.push(s.last()).contains(x) {
                let k = choose|k: int| 0 <= k < r.push(s.last()).len() && r.push(s.last())[k] == x;
                if k < r.len() {
                    assert(r[k] == x);
                    assert(r.contains(x));
                    if x != m {
                        let k2 = choose|k2: int|
                            0 <= k2 < s.drop_last().len() && s.drop_last()[k2] == x;
                        assert(s[k2] == x);
                    }
                } else {
                    assert(s[s.len() - 1] == x);
                }
            }
            if s.contains(x) {
                let k = choose|k: int| 0 <= k < s.len() && s[k] == x;
                if k < s.len() - 1 {
                    assert(s.drop_last()[k] == x);
                    assert(r.contains(x));
                    let k2 = choose|k2: int| 0 <= k2 < r.len() && r[k2] == x;
                    assert(r.push(s.last())[k2] == x);
                } else {
                    assert(r.push(s.last())[r.len() as int] == x);
                }
            }
            if x == m {
                assert(r.contains(x));
                let k2 = choose|k2: int| 0 <= k2 < r.len() && r[k2] == x;
                assert(r.push(s.last())[k2] == x);
            }
        }
    }
}

/// Sorting keeps exactly the same moves.
pub proof fn lemma_sort_contains(b: BoardView, s: Seq<(usize, usize)>)
    ensures
        sort_by_key(b, s).len() == s.len(),
        forall|x: (usize, usize)| #[trigger] sort_by_key(b, s).contains(x) <==> s.contains(x),
    decreases s.len(),
{
    if s.len() > 0 {
        lemma_sort_contains(b, s.drop_last());
        lemma_insert_contains(b, sort_by_key(b, s.drop_last()), s.last());
        assert forall|x: (usize, usize)| #[trigger]
            sort_by_key(b, s).contains(x) <==> s.contains(x) by {
            if s.contains(x) {
                let k = choose|k: int| 0 <= k < s.len() && s[k] == x;
                if k < s.len() - 1 {
                    assert(s.drop_last()[k] == x);
                }
            }
            if s.drop_last().contains(x) {
                let k = choose|k: int| 0 <= k < s.drop_last().len() && s.drop_last()[k] == x;
                assert(s[k] == x);
            }
        }
    }
}

/// Orders moves by descending capture score; moves with equal scores keep
/// their relative order.
fn order_moves(b: &Board, moves: &mut Vec<(usize, usize)>)
    requires
        forall|i: int| 0 <= i < old(moves)@.len() ==> (#[trigger] old(moves)@[i]).0 < 90 && old(
            moves,
        )@[i].1 < 90,
    ensures
        final(moves)@ == sort_by_key(b@, old(moves)@),
{
    let ghost orig = moves@;
    let mut sorted: Vec<(usize, usize)> = Vec::with_capacity(moves.len());
    let mut keys: Vec<i32> = Vec::with_capacity(moves.len());
    let mut i: usize = 0;
    while i < moves.len()
        invariant
            moves@ == orig,
            i <= moves.len(),
            forall|k: int| 0 <= k < orig.len() ==> (#[trigger] orig[k]).0 < 90 && orig[k].1 < 90,
            sorted@ == sort_by_key(b@, orig.take(i as int)),
            keys@.len() == sorted@.len(),
            forall|k: int| 0 <= k < keys@.len() ==> #[trigger] keys@[k] == move_key(b@, sorted@[k]),
        decreases moves.len() - i,
    {
        let m = moves[i];
        let key = -capture_score(b, m.0, m.1);
        let mut j = sorted.len();
        while j > 0 && keys[j - 1] > key
            invariant
                j <= sorted.len(),
                keys@.len() == sorted@.len(),
                forall|k: int| 0 <= k < keys@.len() ==> #[trigger] keys@[k] == move_key(b@, sorted@[k]),
                forall|k: int| j <= k < sorted@.len() ==> move_key(b@, #[trigger] sorted@[k]) > key,
            decreases j,
        {
            j = j - 1;
        }
        proof {
            assert(key == move_key(b@, m));
            assert(j == 0 || keys@[j - 1] <= key);
            lemma_insert_at(b@, sorted@, m, j as int);
            assert(orig.take(i + 1).drop_last() =~= orig.take(i as int));
            assert(orig.take(i + 1).last() == m);
        }
        let ghost ks = keys@;
        let ghost ss = sorted@;
        sorted.insert(j, m);
        keys.insert(j, key);
        assert(sorted@ =~= sort_by_key(b@, orig.take(i + 1)));
        assert forall|k: int| 0 <= k < keys@.len() implies #[trigger] keys@[k] == move_key(
            b@,
            sorted@[k],
        ) by {
            if k < j {
                assert(keys@[k] == ks[k] && sorted@[k] == ss[k]);
            } else if k == j {
            } else {
                assert(keys@[k] == ks[k - 1] && sorted@[k] == ss[k - 1]);
            }
        }
        i = i + 1;
    }
    assert(orig.take(orig.len() as int) =~= orig);
    *moves = sorted;
}

/// The legal moves in the order the search tries them.
pub open spec fn ordered_moves(b: BoardView) -> Seq<(usize, usize)> {
    sort_by_key(b, legal_moves_spec(b))
}

/// Negamax value of `b` searched `depth` plies deep, `ply` plies below the
/// root: the static evaluation at depth 0, a loss scored by distance from the
/// root when the side to move has no legal move, and otherwise the best of
/// the negated values of the replies.
pub open spec fn negamax(b: BoardView, depth: nat, ply: int) -> int
    decreases depth, 1int, 0int,
{
    if depth == 0 {
        evaluate_spec(b)
    } else if legal_moves_spec(b).len() == 0 {
        -(MATE - ply)
    } else {
        best_reply(b, ordered_moves(b), (depth - 1) as nat, ply + 1)
    }
}

/// The greatest negated child value over the moves `ms` from `b` (minus
/// infinity for no moves).
pub open spec fn best_reply(b: BoardView, ms: Seq<(usize, usize)>, depth: nat, ply: int) -> int
    decreases depth + 1, 0int, ms.len(),
{
    if ms.len() == 0 {
        -INF
    } else {
        let prev = best_reply(b, ms.drop_last(), depth, ply);
        let s = -negamax(apply_move(b, ms.last().0 as int, ms.last().1 as int), depth, ply);
        if s > prev {
            s
        } else {
            prev
        }
    }
}

/// What a fail-soft alpha-beta search returns: `v` is exact inside the
/// window, an upper bound at or below `alpha`, and a lower bound at or above `beta`.
pub open spec fn fail_soft(v: int, alpha: int, beta: int, t: int) -> bool {
    &&& v <= alpha ==> t <= v
    &&& v >= beta ==> t >= v
    &&& alpha < v < beta ==> t == v
}

proof fn lemma_best_reply_prefix(b: BoardView, ms: Seq<(usize, usize)>, depth: nat, ply: int, k: int)
    requires
        0 <= k <= ms.len(),
    ensures
        best_reply(b, ms, depth, ply) >= best_reply(b, ms.take(k), depth, ply),
    decreases ms.len(),
{
    if k == ms.len() {
        assert(ms.take(k) =~= ms);
    } else {
        lemma_best_reply_prefix(b, ms.drop_last(), depth, ply, k);
        assert(ms.drop_last().take(k) =~= ms.take(k));
    }
}

proof fn lemma_best_reply_step(b: BoardView, ms: Seq<(usize, usize)>, depth: nat, ply: int, i: int)
    requires
        0 <= i < ms.len(),
    ensures
        best_reply(b, ms.take(i + 1), depth, ply) == (if -negamax(
            apply_move(b, ms[i].0 as int, ms[i].1 as int),
            depth,
            ply,
        ) > best_reply(b, ms.take(i), depth, ply) {
            -negamax(apply_move(b, ms[i].0 as int, ms[i].1 as int), depth, ply)
        } else {
            best_reply(b, ms.take(i), depth, ply)
        }),
{
    assert(ms.take(i + 1).drop_last() =~= ms.take(i));
    assert(ms.take(i + 1).last() == ms[i]);
}

/// The moves the search tries all lie on the board.
proof fn lemma_ordered_on_board(b: BoardView)
    ensures
        moves_on_board(ordered_moves(b)),
        ordered_moves(b).len() == legal_moves_spec(b).len(),
{
    lemma_legal_moves_on_board(b);
    lemma_sort_contains(b, legal_moves_spec(b));
    let ms = ordered_moves(b);
    assert forall|i: int| 0 <= i < ms.len() implies (#[trigger] ms[i]).0 < 90 && ms[i].1 < 90 by {
        assert(ms.contains(ms[i]));
        let k = choose|k: int|
            0 <= k < legal_moves_spec(b).len() && legal_moves_spec(b)[k] == ms[i];
    }
}

/// Fail-soft alpha-beta search of `b` to `depth`, `ply` moves below the
/// root, in the window (`alpha`, `beta`). The board is left as it was. The
/// result is the negamax value where that value lies inside the window, and
/// otherwise a bound on the same side of the window as the value.
pub fn alphabeta(b: &mut Board, depth: u32, alpha: i32, beta: i32, ply: i32) -> (v: i32)
    requires
        0 <= ply,
        ply + depth <= MATE,
        -INF <= alpha < beta <= INF,
    ensures
        final(b)@ == old(b)@,
        -MATE <= v <= MATE,
        fail_soft(v as int, alpha as int, beta as int, negamax(old(b)@, depth as nat, ply as int)),
        ({
            let t = negamax(old(b)@, depth as nat, ply as int);
            &&& alpha < t < beta ==> v == t
            &&& t <= alpha ==> v <= alpha
            &&& t >= beta ==> v >= beta
        }),
    decreases depth,
{
    let ghost b0 = b@;
    let ghost a0 = alpha as int;
    let mut alpha = alpha;
    if depth == 0 {
        return evaluate(b);
    }
    let mut moves = b.legal_moves();
    if moves.is_empty() {
        // No legal moves: side to move loses. Use ply to prefer faster mates / slower losses.
        return -(MATE - ply);
    }
    proof {
        lemma_legal_moves_on_board(b0);
    }
    order_moves(b, &mut moves);
    let ghost ms = moves@;
    proof {
        lemma_ordered_on_board(b0);
    }
    let ghost d = (depth - 1) as nat;
    assert(ms.take(ms.len() as int) =~= ms);
    let mut best = -INF;
    let mut i: usize = 0;
    while i < moves.len()
        invariant_except_break
            alpha < beta,
            i == 0 ==> best == -INF,
            best <= a0 ==> best_reply(b0, ms.take(i as int), d, ply + 1) <= best,
            best > a0 ==> best_reply(b0, ms.take(i as int), d, ply + 1) == best,
        invariant
            best_reply(b0, ms.take(ms.len() as int), d, ply + 1) == best_reply(b0, ms, d, ply + 1),
            b@ == b0,
            b0.squares.len() == 90,
            depth > 0,
            d == depth - 1,
            0 <= ply,
            ply + depth <= MATE,
            -INF <= a0 < beta <= INF,
            moves@ == ms,
            ms == ordered_moves(b0),
            moves_on_board(ms),
            ms.len() > 0,
            i <= ms.len(),
            alpha == (if best > a0 {
                best as int
            } else {
                a0
            }),
            i > 0 ==> -MATE <= best <= MATE,
        ensures
            -MATE <= best <= MATE,
            fail_soft(best as int, a0, beta as int, best_reply(b0, ms, d, ply + 1)),
        decreases ms.len() - i,
    {
        let (from, to) = moves[i];
        let mv = b.make_move(from, to);
        let ghost child = b@;
        let score = -alphabeta(b, depth - 1, -beta, -alpha, ply + 1);
        b.unmake_move(mv);
        proof {
            lemma_unmake_restores(b0, from as int, to as int);
            lemma_best_reply_step(b0, ms, d, ply + 1, i as int);
        }
        if score > best {
            best = score;
        }
        if best > alpha {
            alpha = best;
        }
        if alpha >= beta {
            proof {
                lemma_best_reply_prefix(b0, ms, d, ply + 1, i + 1);
            }
            break;
        }
        i = i + 1;
    }
    best
}

/// The score of root move `m`: its negated negamax value one ply down.
pub open spec fn root_score(b: BoardView, m: (usize, usize), depth: nat) -> int {
    -negamax(
        apply_move(b, m.0 as int, m.1 as int),
        if depth == 0 {
            0
        } else {
            (depth - 1) as nat
        },
        1,
    )
}

/// The position of the first move with the highest root score among the
/// first `n` of `ms`.
pub open spec fn best_index(b: BoardView, ms: Seq<(usize, usize)>, depth: nat, n: int) -> int
    decreases n,
{
    if n <= 1 {
        0
    } else {
        let k = best_index(b, ms, depth, n - 1);
        if root_score(b, ms[n - 1], depth) > root_score(b, ms[k], depth) {
            n - 1
        } else {
            k
        }
    }
}

/// The move the search picks: none without legal moves, else the first of
/// the ordered legal moves with the highest negamax score.
pub open spec fn search_best_spec(b: BoardView, depth: nat) -> Option<(usize, usize)> {
    let ms = ordered_moves(b);
    if ms.len() == 0 {
        None
    } else {
        Some(ms[best_index(b, ms, depth, ms.len() as int)])
    }
}

proof fn lemma_best_index_range(b: BoardView, ms: Seq<(usize, usize)>, depth: nat, n: int)
    requires
        n >= 1,
    ensures
        0 <= best_index(b, ms, depth, n) < n,
    decreases n,
{
    if n > 1 {
        lemma_best_index_range(b, ms, depth, n - 1);
    }
}

/// The move the search picks for the side to move, looking `depth` plies
/// ahead; none when there is no legal move. A search that explores replies
/// goes at most `MATE` plies deep: the mate-distance score `MATE - ply`
/// ranks faster mates higher only while the ply stays below `MATE`, and a
/// search of even a few dozen plies does not finish.
pub fn search_best(b: &mut Board, depth: u32) -> (res: Option<(usize, usize)>)
    requires
        legal_moves_spec(old(b)@).len() > 0 ==> depth <= MATE,
    ensures
        final(b)@ == old(b)@,
        res == search_best_spec(old(b)@, depth as nat),
{
    let ghost b0 = b@;
    let mut moves = b.legal_moves();
    if moves.is_empty() {
        proof {
            lemma_ordered_on_board(b0);
        }
        return None;
    }
    proof {
        lemma_legal_moves_on_board(b0);
    }
    order_moves(b, &mut moves);
    let ghost ms = moves@;
    proof {
        lemma_ordered_on_board(b0);
    }
    let child_depth = depth.saturating_sub(1);
    let mut best_move = moves[0];
    let mut best_score = -INF;
    let mut alpha = -INF;
    let beta = INF;
    let mut i: usize = 0;
    while i < moves.len()
        invariant
            b@ == b0,
            b0.squares.len() == 90,
            depth <= MATE,
            child_depth == (if depth == 0 {
                0
            } else {
                depth - 1
            }),
            beta == INF,
            moves@ == ms,
            ms == ordered_moves(b0),
            moves_on_board(ms),
            ms.len() > 0,
            i <= ms.len(),
            alpha == best_score,
            i == 0 ==> best_score == -INF && best_move == ms[0],
            i > 0 ==> {
                let k = best_index(b0, ms, depth as nat, i as int);
                &&& 0 <= k < i
                &&& best_move == ms[k]
                &&& best_score == root_score(b0, ms[k], depth as nat)
                &&& -MATE <= best_score <= MATE
            },
        decreases ms.len() - i,
    {
        let (from, to) = moves[i];
        let mv = b.make_move(from, to);
        let score = -alphabeta(b, child_depth, -beta, -alpha, 1);
        b.unmake_move(mv);
        proof {
            lemma_unmake_restores(b0, from as int, to as int);
            if i > 0 {
                lemma_best_index_range(b0, ms, depth as nat, i as int);
            }
        }
        if score > best_score {
            best_score = score;
            best_move = (from, to);
        }
        if best_score > alpha {
            alpha = best_score;
        }
        i = i + 1;
    }
    Some(best_move)
}

/// The search picks a move exactly when there is a legal move, and the move
/// it picks is legal.
pub proof fn lemma_search_best_is_legal(b: BoardView, depth: nat)
    ensures
        search_best_spec(b, depth) is None <==> legal_moves_spec(b).len() == 0,
        search_best_spec(b, depth) matches Some(m) ==> legal_moves_spec(b).contains(m),
{
    lemma_sort_contains(b, legal_moves_spec(b));
    let ms = ordered_moves(b);
    if ms.len() > 0 {
        lemma_best_index_range(b, ms, depth, ms.len() as int);
        let k = best_index(b, ms, depth, ms.len() as int);
        assert(ms.contains(ms[k]));
    }
}

/// Passing the turn negates the evaluation: it is a zero-sum score.
pub proof fn lemma_evaluate_zero_sum(b: BoardView)
    ensures
        evaluate_spec(BoardView { squares: b.squares, turn: b.turn.opp() }) == -evaluate_spec(b),
{
    let f = BoardView { squares: b.squares, turn: b.turn.opp() };
    lemma_material_squares_only(b, f, 90);
}

proof fn lemma_material_squares_only(b: BoardView, f: BoardView, n: int)
    requires
        b.squares == f.squares,
    ensures
        material(b, n) == material(f, n),
    decreases n,
{
    if n > 0 {
        lemma_material_squares_only(b, f, n - 1);
    }
}

} // verus!
