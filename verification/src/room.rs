//! Synchronous game-room state machine. Independent of any networking so the
//! rules-driven state transitions can be checked directly.

use vstd::prelude::*;
use crate::board::{apply_move, initial_board, Board, Color, Move};
use crate::proto::MovePayload;
use crate::rules::{in_check_spec, legal_moves_spec, legal_targets};

verus! {

pub struct GameRoom {
    pub board: Board,
    pub history: Vec<Move>,
    pub last_move: Option<MovePayload>,
    pub finished: bool,
    /// Result, if the game is finished. None while playing.
    pub winner: Option<Color>,
}

#[derive(Debug, PartialEq, Eq, Structural)]
pub enum MoveError {
    NotYourTurn,
    GameFinished,
    Illegal,
}

#[derive(Debug)]
pub struct MoveOutcome {
    pub status: &'static str,  // "playing" | "red_wins" | "black_wins"
    pub in_check: bool,
}

pub open spec fn playing_text() -> Seq<char> {
    seq!['p', 'l', 'a', 'y', 'i', 'n', 'g']
}

/// The text naming `winner` as the winner.
pub open spec fn win_text(winner: Color) -> Seq<char> {
    match winner {
        Color::Red => seq!['r', 'e', 'd', '_', 'w', 'i', 'n', 's'],
        Color::Black => seq!['b', 'l', 'a', 'c', 'k', '_', 'w', 'i', 'n', 's'],
    }
}

impl GameRoom {
    pub fn new() -> (r: Self)
        ensures
            r.board@ == initial_board(),
            r.history@ == Seq::<Move>::empty(),
            r.last_move is None,
            !r.finished,
            r.winner is None,
    {
        Self {
            board: Board::new_initial(),
            history: Vec::new(),
            last_move: None,
            finished: false,
            winner: None,
        }
    }

    pub fn turn(&self) -> (c: Color)
        ensures
            c == self.board@.turn,
    {
        self.board.turn
    }

    /// Plays `actor`'s move from `from` to `to` if the game is still on, it is
    /// `actor`'s turn and the move is legal. After the move, a side left
    /// without a legal move loses and the game is finished.
    pub fn try_play(&mut self, actor: Color, from: u8, to: u8) -> (res: Result<
        MoveOutcome,
        MoveError,
    >)
        requires
            !old(self).finished && old(self).board@.turn == actor ==> from < 90,
        ensures
            old(self).finished ==> res == Err::<MoveOutcome, MoveError>(MoveError::GameFinished),
            !old(self).finished && old(self).board@.turn != actor ==> res == Err::<
                MoveOutcome,
                MoveError,
            >(MoveError::NotYourTurn),
            !old(self).finished && old(self).board@.turn == actor && !legal_targets(
                old(self).board@,
                from as int,
            ).contains(to as usize) ==> res == Err::<MoveOutcome, MoveError>(MoveError::Illegal),
            res is Err ==> final(self).board@ == old(self).board@ && final(self).history@ == old(
                self,
            ).history@ && final(self).last_move == old(self).last_move && final(self).finished
                == old(self).finished && final(self).winner == old(self).winner,
            res is Ok <==> !old(self).finished && old(self).board@.turn == actor && legal_targets(
                old(self).board@,
                from as int,
            ).contains(to as usize),
            res matches Ok(outcome) ==> {
                let after = apply_move(old(self).board@, from as int, to as int);
                &&& final(self).board@ == after
                &&& final(self).history@ == old(self).history@.push(
                    Move { from, to, captured: old(self).board@.squares[to as int] },
                )
                &&& final(self).last_move == Some(MovePayload { from, to })
                &&& outcome.in_check == in_check_spec(after, after.turn)
                &&& if legal_moves_spec(after).len() > 0 {
                    &&& outcome.status@ == playing_text()
                    &&& !final(self).finished
                    &&& final(self).winner == old(self).winner
                } else {
                    &&& outcome.status@ == win_text(after.turn.opp())
                    &&& final(self).finished
                    &&& final(self).winner == Some(after.turn.opp())
                }
            },
    {
        if self.finished {
            return Err(MoveError::GameFinished);
        }
        if self.board.turn != actor {
            return Err(MoveError::NotYourTurn);
        }
        let dests = self.board.legal_moves_from(from as usize);
        let mut k: usize = 0;
        let mut found = false;
        while k < dests.len()
            invariant_except_break
                !found,
            invariant
                k <= dests.len(),
                forall|j: int| 0 <= j < k ==> dests@[j] != to as usize,
            ensures
                found <==> dests@.contains(to as usize),
            decreases dests.len() - k,
        {
            if dests[k] == to as usize {
                found = true;
                break;
            }
            k = k + 1;
        }
        if !found {
            return Err(MoveError::Illegal);
        }
        proof {
            crate::rules::lemma_legal_targets_on_board(self.board@, from as int);
            let j = choose|j: int| 0 <= j < dests@.len() && dests@[j] == to as usize;
        }
        let mv = self.board.make_move(from as usize, to as usize);
        self.history.push(mv);
        self.last_move = Some(MovePayload { from, to });

        let in_check = self.board.in_check(self.board.turn);
        let any_move = !self.board.legal_moves().is_empty();
        let status = if any_move {
            proof {
                reveal_strlit("playing");
            }
            "playing"
        } else {
            self.finished = true;
            // The side to move has no legal move and therefore loses.
            self.winner = Some(self.board.turn.opp());
            match self.board.turn {
                Color::Red => {
                    proof {
                        reveal_strlit("black_wins");
                    }
                    "black_wins"
                },
                Color::Black => {
                    proof {
                        reveal_strlit("red_wins");
                    }
                    "red_wins"
                },
            }
        };
        Ok(MoveOutcome { status, in_check })
    }

    /// Mark the game finished by resignation. Returns the winning color.
    pub fn resign(&mut self, actor: Color) -> (res: Option<Color>)
        ensures
            old(self).finished ==> res is None && final(self).winner == old(self).winner,
            !old(self).finished ==> res == Some(actor.opp()) && final(self).winner == Some(
                actor.opp(),
            ),
            final(self).finished,
            final(self).board@ == old(self).board@,
            final(self).history@ == old(self).history@,
            final(self).last_move == old(self).last_move,
    {
        if self.finished {
            return None;
        }
        self.finished = true;
        let winner = actor.opp();
        self.winner = Some(winner);
        Some(winner)
    }
}

} // verus!
