//! A single game played from the starting position: the board plus the
//! history of moves played, with undo and computer moves.

use vstd::prelude::*;
use vstd::string::StringExecFns;
use crate::board::{
    apply_move, board_json_spec, board_to_json, initial_board, undo_move, Board, BoardView, Color,
    Move,
};
use crate::rules::{in_check_spec, legal_moves_spec, legal_targets};
use crate::search::{search_best, search_best_spec, MATE};
use crate::text::{decimal, push_char, push_decimal};

verus! {

/// `{"from":F,"to":T}`.
pub open spec fn move_json(from: nat, to: nat) -> Seq<char> {
    seq!['{', '"', 'f', 'r', 'o', 'm', '"', ':'] + decimal(from) + seq![
        ',',
        '"',
        't',
        'o',
        '"',
        ':',
    ] + decimal(to) + seq!['}']
}

pub open spec fn null_json() -> Seq<char> {
    seq!['n', 'u', 'l', 'l']
}

/// A JSON array of the numbers in `xs`, separated by commas.
pub open spec fn number_list_json(xs: Seq<usize>) -> Seq<char> {
    seq!['['] + number_entries(xs) + seq![']']
}

pub open spec fn number_entries(xs: Seq<usize>) -> Seq<char>
    decreases xs.len(),
{
    if xs.len() == 0 {
        seq![]
    } else if xs.len() == 1 {
        decimal(xs[0] as nat)
    } else {
        number_entries(xs.drop_last()) + seq![','] + decimal(xs.last() as nat)
    }
}

/// The outcome of a position in words: `playing` while the side to move has a
/// legal move, otherwise a win for the other side (there is no stalemate).
pub open spec fn status_text(b: BoardView) -> Seq<char> {
    if legal_moves_spec(b).len() > 0 {
        seq!['p', 'l', 'a', 'y', 'i', 'n', 'g']
    } else {
        match b.turn {
            Color::Red => seq!['b', 'l', 'a', 'c', 'k', '_', 'w', 'i', 'n', 's'],
            Color::Black => seq!['r', 'e', 'd', '_', 'w', 'i', 'n', 's'],
        }
    }
}

fn move_to_json(from: u64, to: u64) -> (s: String)
    ensures
        s@ == move_json(from as nat, to as nat),
{
    proof {
        reveal_strlit("{\"from\":");
        reveal_strlit(",\"to\":");
    }
    let mut s = String::from_str("{\"from\":");
    push_decimal(&mut s, from);
    s.append(",\"to\":");
    push_decimal(&mut s, to);
    push_char(&mut s, '}');
    s
}

fn null_string() -> (s: String)
    ensures
        s@ == null_json(),
{
    proof {
        reveal_strlit("null");
    }
    String::from_str("null")
}

pub struct Game {
    board: Board,
    history: Vec<Move>,
}

impl Game {
    /// The current position.
    pub closed spec fn board(&self) -> BoardView {
        self.board@
    }

    /// The moves played so far, oldest first, with their undo records.
    pub closed spec fn history(&self) -> Seq<Move> {
        self.history@
    }

    /// Every recorded move names squares of the board; every method keeps this.
    pub closed spec fn wf(&self) -> bool {
        forall|i: int|
            0 <= i < self.history@.len() ==> (#[trigger] self.history@[i]).from < 90
                && self.history@[i].to < 90
    }

    pub fn new() -> (g: Self)
        ensures
            g.wf(),
            g.board() == initial_board(),
            g.history() == Seq::<Move>::empty(),
    {
        Game { board: Board::new_initial(), history: Vec::new() }
    }

    pub fn reset(&mut self)
        ensures
            final(self).wf(),
            final(self).board() == initial_board(),
            final(self).history() == Seq::<Move>::empty(),
    {
        self.board = Board::new_initial();
        self.history.clear();
    }

    /// Returns the side to move: 0 = Red, 1 = Black.
    pub fn turn(&self) -> (t: u8)
        ensures
            t == (match self.board().turn {
                Color::Red => 0u8,
                Color::Black => 1u8,
            }),
    {
        match self.board.turn {
            Color::Red => 0,
            Color::Black => 1,
        }
    }

    pub fn ply(&self) -> (n: u32)
        ensures
            n == self.history().len() as u32,
    {
        self.history.len() as u32
    }

    /// JSON array of 90 entries (row-major, row 0 = top/Black side). Each
    /// entry is either `null` or a two-letter piece code like `"rR"`, `"bP"`.
    pub fn board_json(&self) -> (s: String)
        ensures
            s@ == board_json_spec(self.board()),
    {
        board_to_json(&self.board)
    }

    /// JSON array of legal destination square indices for the piece at `from`.
    pub fn legal_moves_from(&mut self, from: u8) -> (s: String)
        requires
            old(self).wf(),
            from < 90,
        ensures
            final(self).wf(),
            final(self).board() == old(self).board(),
            final(self).history() == old(self).history(),
            s@ == number_list_json(legal_targets(old(self).board(), from as int)),
    {
        let dests = self.board.legal_moves_from(from as usize);
        let mut s = String::new();
        push_char(&mut s, '[');
        let mut i: usize = 0;
        while i < dests.len()
            invariant
                i <= dests.len(),
                s@ == seq!['['] + number_entries(dests@.take(i as int)),
            decreases dests.len() - i,
        {
            if i > 0 {
                push_char(&mut s, ',');
            }
            push_decimal(&mut s, dests[i] as u64);
            proof {
                let t = dests@.take(i + 1);
                assert(t.drop_last() =~= dests@.take(i as int));
                assert(t.last() == dests@[i as int]);
                if i == 0 {
                    assert(number_entries(dests@.take(0)) =~= seq![]);
                }
            }
            assert(s@ =~= seq!['['] + number_entries(dests@.take(i + 1)));
            i = i + 1;
        }
        assert(dests@.take(dests.len() as int) =~= dests@);
        push_char(&mut s, ']');
        s
    }

    /// Returns true if the move was legal and was played. A square off the
    /// board is no legal origin.
    pub fn play_move(&mut self, from: u8, to: u8) -> (played: bool)
        requires
            old(self).wf(),
        ensures
            final(self).wf(),
            played == (from < 90 && legal_targets(old(self).board(), from as int).contains(
                to as usize,
            )),
            played ==> final(self).board() == apply_move(old(self).board(), from as int, to as int)
                && final(self).history() == old(self).history().push(
                Move { from, to, captured: old(self).board().squares[to as int] },
            ),
            !played ==> final(self).board() == old(self).board() && final(self).history() == old(
                self,
            ).history(),
    {
        if from >= 90 {
            return false;
        }
        let dests = self.board.legal_moves_from(from as usize);
        let mut k: usize = 0;
        let mut found = false;
        while k < dests.len()
            invariant_except_break
                !found,
            invariant
                k <= dests.len(),
                forall|j: int| 0 <= j < k ==> dests@[j] != to as usize,
            ensures
                found <==> dests@.contains(to as usize),
            decreases dests.len() - k,
        {
            if dests[k] == to as usize {
                found = true;
                break;
            }
            k = k + 1;
        }
        if !found {
            return false;
        }
        proof {
            crate::rules::lemma_legal_targets_on_board(self.board@, from as int);
            let j = choose|j: int| 0 <= j < dests@.len() && dests@[j] == to as usize;
        }
        let mv = self.board.make_move(from as usize, to as usize);
        self.history.push(mv);
        true
    }

    /// Undo the last move. Returns true if a move was undone.
    pub fn undo(&mut self) -> (undone: bool)
        requires
            old(self).wf(),
        ensures
            final(self).wf(),
            undone == (old(self).history().len() > 0),
            undone ==> final(self).board() == undo_move(old(self).board(), old(self).history().last())
                && final(self).history() == old(self).history().drop_last(),
            !undone ==> final(self).board() == old(self).board() && final(self).history() == old(
                self,
            ).history(),
    {
        if let Some(mv) = self.history.pop() {
            self.board.unmake_move(mv);
            true
        } else {
            false
        }
    }

    /// Search and play the best move for the side to move at the given depth.
    /// Returns JSON `{"from":N,"to":N}` or `null` if there is no legal move.
    pub fn ai_move(&mut self, depth: u32) -> (s: String)
        requires
            old(self).wf(),
            legal_moves_spec(old(self).board()).len() > 0 ==> depth <= MATE,
        ensures
            final(self).wf(),
            ({
                let d = if depth == 0 { 1nat } else { depth as nat };
                match search_best_spec(old(self).board(), d) {
                    None => s@ == null_json() && final(self).board() == old(self).board()
                        && final(self).history() == old(self).history(),
                    Some(m) => s@ == move_json(m.0 as nat, m.1 as nat) && final(self).board()
                        == apply_move(old(self).board(), m.0 as int, m.1 as int)
                        && final(self).history() == old(self).history().push(
                        Move {
                            from: m.0 as u8,
                            to: m.1 as u8,
                            captured: old(self).board().squares[m.1 as int],
                        },
                    ),
                }
            }),
    {
        let d = if depth == 0 {
            1
        } else {
            depth
        };
        let best = search_best(&mut self.board, d);
        proof {
            crate::search::lemma_search_best_is_legal(old(self).board(), d as nat);
        }
        match best {
            None => null_string(),
            Some((from, to)) => {
                proof {
                    crate::rules::lemma_legal_moves_on_board(old(self).board());
                    let k = choose|k: int|
                        0 <= k < legal_moves_spec(old(self).board()).len() && legal_moves_spec(
                            old(self).board(),
                        )[k] == (from, to);
                }
                let mv = self.board.make_move(from, to);
                self.history.push(mv);
                move_to_json(from as u64, to as u64)
            },
        }
    }

    /// Suggest the best move without playing it.
    pub fn suggest_move(&mut self, depth: u32) -> (s: String)
        requires
            old(self).wf(),
            legal_moves_spec(old(self).board()).len() > 0 ==> depth <= MATE,
        ensures
            final(self).wf(),
            final(self).board() == old(self).board(),
            final(self).history() == old(self).history(),
            ({
                let d = if depth == 0 { 1nat } else { depth as nat };
                match search_best_spec(old(self).board(), d) {
                    None => s@ == null_json(),
                    Some(m) => s@ == move_json(m.0 as nat, m.1 as nat),
                }
            }),
    {
        let d = if depth == 0 {
            1
        } else {
            depth
        };
        let best = search_best(&mut self.board, d);
        match best {
            None => null_string(),
            Some((from, to)) => move_to_json(from as u64, to as u64),
        }
    }

    /// Returns one of: "playing", "red_wins", "black_wins".
    /// Xiangqi has no stalemate — a side with no legal moves loses.
    pub fn status(&mut self) -> (s: String)
        requires
            old(self).wf(),
        ensures
            final(self).wf(),
            final(self).board() == old(self).board(),
            final(self).history() == old(self).history(),
            s@ == status_text(old(self).board()),
    {
        let moves = self.board.legal_moves();
        if !moves.is_empty() {
            proof {
                reveal_strlit("playing");
            }
            return String::from_str("playing");
        }
        match self.board.turn {
            Color::Red => {
                proof {
                    reveal_strlit("black_wins");
                }
                String::from_str("black_wins")
            },
            Color::Black => {
                proof {
                    reveal_strlit("red_wins");
                }
                String::from_str("red_wins")
            },
        }
    }

    pub fn in_check(&self) -> (c: bool)
        ensures
            c == in_check_spec(self.board(), self.board().turn),
    {
        self.board.in_check(self.board.turn)
    }

    /// JSON `{"from":N,"to":N}` for the last move, or `null`.
    pub fn last_move_json(&self) -> (s: String)
        ensures
            self.history().len() == 0 ==> s@ == null_json(),
            self.history().len() > 0 ==> s@ == move_json(
                self.history().last().from as nat,
                self.history().last().to as nat,
            ),
    {
        if self.history.len() == 0 {
            null_string()
        } else {
            let mv = self.history[self.history.len() - 1];
            move_to_json(mv.from as u64, mv.to as u64)
        }
    }
}

/// The position of a game always has the 90 squares of the board.
pub proof fn lemma_game_board_size(g: Game)
    ensures
        g.board().squares.len() == 90,
{
}

/// Undoing right after playing a move gives back the position and the
/// history from before the move.
pub proof fn lemma_undo_reverts_play(b: BoardView, h: Seq<Move>, from: u8, to: u8)
    requires
        b.squares.len() == 90,
        from < 90,
        to < 90,
    ensures
        ({
            let mv = Move { from, to, captured: b.squares[to as int] };
            &&& undo_move(apply_move(b, from as int, to as int), mv) == b
            &&& h.push(mv).last() == mv
            &&& h.push(mv).drop_last() == h
        }),
{
    crate::board::lemma_unmake_restores(b, from as int, to as int);
    let mv = Move { from, to, captured: b.squares[to as int] };
    assert(h.push(mv).drop_last() =~= h);
}

/// Playing a move and then undoing it gives back the game. When `g1` is what
/// `play_move(from, to)` leaves of `g0` on answering `true`, and `g2` is what
/// `undo` leaves of `g1`, then `undo` answers `true` (there is a move to take
/// back) and `g2` has `g0`'s position and history, hence also its board JSON,
/// turn, ply and last move.
pub proof fn lemma_play_then_undo(g0: Game, g1: Game, g2: Game, from: u8, to: u8)
    requires
        from < 90 && legal_targets(g0.board(), from as int).contains(to as usize),
        g1.board() == apply_move(g0.board(), from as int, to as int),
        g1.history() == g0.history().push(
            Move { from, to, captured: g0.board().squares[to as int] },
        ),
        g1.history().len() > 0 ==> g2.board() == undo_move(g1.board(), g1.history().last())
            && g2.history() == g1.history().drop_last(),
    ensures
        g1.history().len() > 0,
        g2.board() == g0.board(),
        g2.history() == g0.history(),
{
    lemma_game_board_size(g0);
    crate::rules::lemma_legal_targets_on_board(g0.board(), from as int);
    let k = choose|k: int|
        0 <= k < legal_targets(g0.board(), from as int).len() && legal_targets(
            g0.board(),
            from as int,
        )[k] == to as usize;
    lemma_undo_reverts_play(g0.board(), g0.history(), from, to);
}

} // verus!
