//! The decisions of a player's WebSocket session: what each client message
//! asks the hub to do, which seat a joining player gets, and how a room's
//! state is reported. The hub's room map and the sockets live in the server
//! program, which carries out these actions.

use vstd::prelude::*;
use vstd::string::StringExecFns;
use crate::board::{BoardView, Color};
use crate::db::GameResult;
use crate::proto::{ClientMsg, SeatPayload};
use crate::room::{playing_text, win_text, GameRoom, MoveError};
use crate::rules::{in_check_spec, legal_moves_spec};
use crate::text::{chars_of, push_char};

use rand::Rng;

verus! {

pub const ROOM_CODE_CHARS: &'static str = "ABCDEFGHJKLMNPQRSTUVWXYZ23456789";

pub const ROOM_CODE_LEN: usize = 6;

/// `Rng::gen_range` of `rand` on the thread-local generator: a random index
/// below `n`.
#[verifier::external_body]
fn random_below(n: usize) -> (i: usize)
    requires
        n > 0,
    ensures
        i < n,
{
    rand::thread_rng().gen_range(0..n)
}

/// The upper-case form of `s` under Unicode case mapping.
pub uninterp spec fn unicode_uppercase(s: Seq<char>) -> Seq<char>;

/// `str::to_uppercase` of std: the Unicode upper-case form of `s`.
#[verifier::external_body]
fn to_uppercase(s: &str) -> (u: String)
    ensures
        u@ == unicode_uppercase(s@),
{
    s.to_uppercase()
}

/// A fresh room code: six characters drawn from `ROOM_CODE_CHARS`, which
/// leaves out the easily confused `I`, `O`, `0` and `1`.
pub fn random_code() -> (code: String)
    ensures
        code@.len() == 6,
        forall|i: int| 0 <= i < 6 ==> ROOM_CODE_CHARS@.contains(#[trigger] code@[i]),
{
    let alphabet = chars_of(ROOM_CODE_CHARS);
    proof {
        reveal_strlit("ABCDEFGHJKLMNPQRSTUVWXYZ23456789");
    }
    let mut code = String::new();
    let mut k: usize = 0;
    while k < ROOM_CODE_LEN
        invariant
            alphabet@ == ROOM_CODE_CHARS@,
            alphabet.len() == 32,
            k <= 6,
            code@.len() == k,
            forall|i: int| 0 <= i < k ==> ROOM_CODE_CHARS@.contains(#[trigger] code@[i]),
        decreases 6 - k,
    {
        let i = random_below(alphabet.len());
        let ghost before = code@;
        push_char(&mut code, alphabet[i]);
        assert(code@[k as int] == alphabet@[i as int]);
        assert forall|j: int| 0 <= j < k + 1 implies ROOM_CODE_CHARS@.contains(#[trigger] code@[j]) by {
            if j < k {
                assert(code@[j] == before[j]);
            }
        }
        k = k + 1;
    }
    code
}

/// Seat index of a colour: Red sits at 0, Black at 1.
pub fn color_idx(c: Color) -> (i: usize)
    ensures
        i == (match c {
            Color::Red => 0usize,
            Color::Black => 1usize,
        }),
{
    match c {
        Color::Red => 0,
        Color::Black => 1,
    }
}

pub open spec fn color_name(c: Color) -> Seq<char> {
    match c {
        Color::Red => "red"@,
        Color::Black => "black"@,
    }
}

pub fn color_str(c: Color) -> (s: String)
    ensures
        s@ == color_name(c),
{
    match c {
        Color::Red => String::from_str("red"),
        Color::Black => String::from_str("black"),
    }
}

/// The side to move on the wire: 0 for Red, 1 for Black.
pub fn turn_byte(c: Color) -> (b: u8)
    ensures
        b == (match c {
            Color::Red => 0u8,
            Color::Black => 1u8,
        }),
{
    match c {
        Color::Red => 0,
        Color::Black => 1,
    }
}

/// The status a room reports: `playing` while the side to move has a legal
/// move; otherwise the recorded winner of a finished game, or a win for the
/// side not to move.
pub open spec fn room_status(b: BoardView, finished: bool, winner: Option<Color>) -> Seq<char> {
    if legal_moves_spec(b).len() > 0 {
        playing_text()
    } else if finished {
        match winner {
            Some(w) => win_text(w),
            None => playing_text(),
        }
    } else {
        win_text(b.turn.opp())
    }
}

/// The status of a room and whether the side to move is in check.
pub fn current_status(game: &mut GameRoom) -> (r: (&'static str, bool))
    ensures
        final(game).board@ == old(game).board@,
        final(game).history@ == old(game).history@,
        final(game).last_move == old(game).last_move,
        final(game).finished == old(game).finished,
        final(game).winner == old(game).winner,
        r.0@ == room_status(old(game).board@, old(game).finished, old(game).winner),
        r.1 == in_check_spec(old(game).board@, old(game).board@.turn),
{
    proof {
        reveal_strlit("playing");
        reveal_strlit("red_wins");
        reveal_strlit("black_wins");
    }
    let in_check = game.board.in_check(game.board.turn);
    let any = !game.board.legal_moves().is_empty();
    let status = if any {
        "playing"
    } else if game.finished {
        match game.winner {
            Some(Color::Red) => "red_wins",
            Some(Color::Black) => "black_wins",
            None => "playing",
        }
    } else {
        match game.board.turn {
            Color::Red => "black_wins",
            Color::Black => "red_wins",
        }
    };
    (status, in_check)
}

/// The result recorded for a game that `winner` won.
pub fn result_for_winner(winner: Color) -> (r: GameResult)
    ensures
        r == (match winner {
            Color::Red => GameResult::RedWins,
            Color::Black => GameResult::BlackWins,
        }),
{
    match winner {
        Color::Red => GameResult::RedWins,
        Color::Black => GameResult::BlackWins,
    }
}

/// Seat index of a colour, as an integer.
pub open spec fn color_idx_spec(c: Color) -> int {
    match c {
        Color::Red => 0,
        Color::Black => 1,
    }
}

/// What happens when a player asks for a seat of a room.
#[derive(Debug, PartialEq, Eq, Structural)]
pub enum JoinStep {
    /// No room has the code: answer "room not found".
    RoomNotFound,
    /// The seat is occupied: answer "seat taken".
    SeatTaken,
    /// The player sits down. `notify_other`: the other seat is occupied and
    /// hears that an opponent joined; `record_black`: a signed-in player took
    /// Black in a stored game, and the game records that player.
    Seated { notify_other: bool, record_black: bool },
}

/// The step of seating a player of colour `color` in a room whose seats are
/// occupied as `seats` (Red first), and the seats after it.
pub fn join_step(room_exists: bool, seats: [bool; 2], color: Color, is_user: bool, has_game: bool) -> (r: (
    JoinStep,
    [bool; 2],
))
    ensures
        !room_exists ==> r.0 is RoomNotFound && r.1 == seats,
        room_exists && seats[color_idx_spec(color)] ==> r.0 is SeatTaken && r.1 == seats,
        room_exists && !seats[color_idx_spec(color)] ==> r.1[color_idx_spec(color)] && r.1[1
            - color_idx_spec(color)] == seats[1 - color_idx_spec(color)] && r.0 == (JoinStep::Seated {
            notify_other: seats[1 - color_idx_spec(color)],
            record_black: color == Color::Black && is_user && has_game,
        }),
{
    if !room_exists {
        return (JoinStep::RoomNotFound, seats);
    }
    let i = color_idx(color);
    if seats[i] {
        return (JoinStep::SeatTaken, seats);
    }
    let mut after = seats;
    after[i] = true;
    let record_black = match color {
        Color::Black => is_user && has_game,
        Color::Red => false,
    };
    (JoinStep::Seated { notify_other: seats[1 - i], record_black }, after)
}

/// What a room does when a player leaves it.
#[derive(Debug)]
pub struct LeaveStep {
    /// The seats after the player left (Red first).
    pub seats: [bool; 2],
    /// Both seats are empty: the room is dropped.
    pub drop_room: bool,
    /// The room is dropped with a stored game still unfinished: the game is
    /// recorded as abandoned.
    pub record_abandoned: bool,
}

/// The step of the player of colour `color` leaving a room whose seats are
/// occupied as `seats`.
pub fn leave_step(seats: [bool; 2], color: Color, finished: bool, has_game: bool) -> (r: LeaveStep)
    ensures
        !r.seats[color_idx_spec(color)],
        r.seats[1 - color_idx_spec(color)] == seats[1 - color_idx_spec(color)],
        r.seats@ == seats@.update(color_idx_spec(color), false),
        r.drop_room == (!r.seats[0] && !r.seats[1]),
        r.record_abandoned == (r.drop_room && has_game && !finished),
{
    let i = color_idx(color);
    let mut after = seats;
    after[i] = false;
    let drop_room = !after[0] && !after[1];
    LeaveStep { seats: after, drop_room, record_abandoned: drop_room && has_game && !finished }
}

/// Once both players have left a room, in either order and whatever the
/// seats were, no seat is occupied: the second leave step drops the room.
pub proof fn lemma_room_dropped_after_both_leave(seats: Seq<bool>, first: Color)
    requires
        seats.len() == 2,
    ensures
        ({
            let after = seats.update(color_idx_spec(first), false).update(
                color_idx_spec(first.opp()),
                false,
            );
            !after[0] && !after[1]
        }),
{
}

/// The name a guest plays under: the one it gave, or `Guest` if it gave none.
pub open spec fn guest_name_spec(name: Option<Seq<char>>) -> Seq<char> {
    match name {
        Some(n) => if n.len() > 0 {
            n
        } else {
            "Guest"@
        },
        None => "Guest"@,
    }
}

/// How a seated player is shown: an account under its username, as a
/// `user`; anyone else under the name it gave, as a `guest`.
pub fn seat_of(account: Option<String>, name: Option<String>) -> (s: SeatPayload)
    ensures
        match account {
            Some(u) => s.name@ == u@ && s.kind@ == "user"@,
            None => s.name@ == guest_name_spec(
                match name {
                    Some(n) => Some(n@),
                    None => None,
                },
            ) && s.kind@ == "guest"@,
        },
{
    match account {
        Some(u) => SeatPayload { name: u, kind: "user" },
        None => {
            let shown = match name {
                Some(n) => if n.as_str().unicode_len() > 0 {
                    n
                } else {
                    String::from_str("Guest")
                },
                None => String::from_str("Guest"),
            };
            SeatPayload { name: shown, kind: "guest" }
        },
    }
}

/// The seat a joining player gets: Red if free, else Black if free, else none.
pub fn seat_for_join(red_taken: bool, black_taken: bool) -> (c: Option<Color>)
    ensures
        c == (if !red_taken {
            Some(Color::Red)
        } else if !black_taken {
            Some(Color::Black)
        } else {
            None::<Color>
        }),
{
    if !red_taken {
        Some(Color::Red)
    } else if !black_taken {
        Some(Color::Black)
    } else {
        None
    }
}

/// The error text a refused move is answered with.
pub fn move_error_reason(e: &MoveError) -> (s: &'static str)
    ensures
        s@ == (match e {
            MoveError::NotYourTurn => "not your turn"@,
            MoveError::GameFinished => "game finished"@,
            MoveError::Illegal => "illegal move"@,
        }),
{
    match e {
        MoveError::NotYourTurn => "not your turn",
        MoveError::GameFinished => "game finished",
        MoveError::Illegal => "illegal move",
    }
}

/// What the hub does for one client message.
#[derive(Debug)]
pub enum SessionAction {
    /// Answer with an error message.
    Reply(&'static str),
    /// Create a room and seat the player as Red.
    CreateRoom,
    /// Seat the player in the room with this (upper-cased) code.
    JoinRoom(String),
    /// Play a move in the player's room with the player's colour.
    PlayMove { room: String, color: Color, from: u8, to: u8 },
    /// Resign the player's game.
    Resign { room: String, color: Color },
    /// Answer a ping.
    Pong,
    /// Do nothing.
    Ignore,
}

/// The action for `msg` from a session that is in room `state.0` with
/// colour `state.1`, or in no room.
pub fn session_action(state: &Option<(String, Color)>, msg: ClientMsg) -> (a: SessionAction)
    ensures
        match msg {
            ClientMsg::Create { .. } => match state {
                Some(_) => a matches SessionAction::Reply(r) && r@ == "already in a room"@,
                None => a is CreateRoom,
            },
            ClientMsg::Join { room, .. } => match state {
                Some(_) => a matches SessionAction::Reply(r) && r@ == "already in a room"@,
                None => a matches SessionAction::JoinRoom(code) && code@ == unicode_uppercase(
                    room@,
                ),
            },
            ClientMsg::Move { from, to } => match state {
                Some((code, color)) => a matches SessionAction::PlayMove {
                    room,
                    color: c,
                    from: f,
                    to: t,
                } && room@ == code@ && c == color && f == from && t == to,
                None => a matches SessionAction::Reply(r) && r@ == "not in a room"@,
            },
            ClientMsg::Resign => match state {
                Some((code, color)) => a matches SessionAction::Resign { room, color: c }
                    && room@ == code@ && c == color,
                None => a is Ignore,
            },
            ClientMsg::Ping => a is Pong,
        },
{
    match msg {
        ClientMsg::Create { .. } => {
            if state.is_some() {
                return SessionAction::Reply("already in a room");
            }
            SessionAction::CreateRoom
        },
        ClientMsg::Join { room, .. } => {
            if state.is_some() {
                return SessionAction::Reply("already in a room");
            }
            SessionAction::JoinRoom(to_uppercase(room.as_str()))
        },
        ClientMsg::Move { from, to } => match state {
            Some((code, color)) => SessionAction::PlayMove {
                room: String::from_str(code.as_str()),
                color: *color,
                from,
                to,
            },
            None => SessionAction::Reply("not in a room"),
        },
        ClientMsg::Resign => match state {
            Some((code, color)) => SessionAction::Resign {
                room: String::from_str(code.as_str()),
                color: *color,
            },
            None => SessionAction::Ignore,
        },
        ClientMsg::Ping => SessionAction::Pong,
    }
}

} // verus!
