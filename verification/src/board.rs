//! Board representation, coordinates and move making.
//!
//! The board is 9 files wide and 10 ranks tall. Row 0 is Black's back rank,
//! row 9 is Red's. Square index = row * 9 + col, in 0..90. The river lies
//! between rows 4 and 5. Red moves first.

use vstd::prelude::*;
use vstd::string::StringExecFns;
use crate::text::push_char;

verus! {

#[derive(Copy, Clone, Debug, PartialEq, Eq, Structural)]
pub enum Color {
    Red,
    Black,
}

impl Color {
    pub open spec fn opp_spec(self) -> Color {
        match self {
            Color::Red => Color::Black,
            Color::Black => Color::Red,
        }
    }

    #[verifier::when_used_as_spec(opp_spec)]
    pub fn opp(self) -> (res: Self)
        ensures
            res == self.opp_spec(),
            res != self,
            res.opp_spec() == self,
    {
        match self {
            Color::Red => Color::Black,
            Color::Black => Color::Red,
        }
    }
}

#[derive(Copy, Clone, Debug, PartialEq, Eq, Structural)]
pub enum PieceKind {
    King,
    Advisor,
    Elephant,
    Horse,
    Rook,
    Cannon,
    Pawn,
}

#[derive(Copy, Clone, Debug, PartialEq, Eq, Structural)]
pub struct Piece {
    pub color: Color,
    pub kind: PieceKind,
}

/// The two-letter code of a piece: colour letter then kind letter.
pub open spec fn piece_code(p: Piece) -> Seq<char> {
    let c = match p.color {
        Color::Red => 'r',
        Color::Black => 'b',
    };
    let k = match p.kind {
        PieceKind::King => 'K',
        PieceKind::Advisor => 'A',
        PieceKind::Elephant => 'E',
        PieceKind::Horse => 'H',
        PieceKind::Rook => 'R',
        PieceKind::Cannon => 'C',
        PieceKind::Pawn => 'P',
    };
    seq![c, k]
}

impl Piece {
    pub fn code(self) -> (res: &'static str)
        ensures
            res@ == piece_code(self),
    {
        match (self.color, self.kind) {
            (Color::Red, PieceKind::King) => {
                proof { reveal_strlit("rK"); }
                "rK"
            },
            (Color::Red, PieceKind::Advisor) => {
                proof { reveal_strlit("rA"); }
                "rA"
            },
            (Color::Red, PieceKind::Elephant) => {
                proof { reveal_strlit("rE"); }
                "rE"
            },
            (Color::Red, PieceKind::Horse) => {
                proof { reveal_strlit("rH"); }
                "rH"
            },
            (Color::Red, PieceKind::Rook) => {
                proof { reveal_strlit("rR"); }
                "rR"
            },
            (Color::Red, PieceKind::Cannon) => {
                proof { reveal_strlit("rC"); }
                "rC"
            },
            (Color::Red, PieceKind::Pawn) => {
                proof { reveal_strlit("rP"); }
                "rP"
            },
            (Color::Black, PieceKind::King) => {
                proof { reveal_strlit("bK"); }
                "bK"
            },
            (Color::Black, PieceKind::Advisor) => {
                proof { reveal_strlit("bA"); }
                "bA"
            },
            (Color::Black, PieceKind::Elephant) => {
                proof { reveal_strlit("bE"); }
                "bE"
            },
            (Color::Black, PieceKind::Horse) => {
                proof { reveal_strlit("bH"); }
                "bH"
            },
            (Color::Black, PieceKind::Rook) => {
                proof { reveal_strlit("bR"); }
                "bR"
            },
            (Color::Black, PieceKind::Cannon) => {
                proof { reveal_strlit("bC"); }
                "bC"
            },
            (Color::Black, PieceKind::Pawn) => {
                proof { reveal_strlit("bP"); }
                "bP"
            },
        }
    }
}

pub const FILES: i32 = 9;

pub const RANKS: i32 = 10;

/// Square index of (row, col).
pub open spec fn sq_spec(row: int, col: int) -> int {
    row * 9 + col
}

pub open spec fn in_bounds_spec(row: int, col: int) -> bool {
    0 <= row < 10 && 0 <= col < 9
}

pub fn sq(row: i32, col: i32) -> (res: usize)
    requires
        i32::MIN <= row * 9 <= i32::MAX,
        i32::MIN <= row * 9 + col <= i32::MAX,
    ensures
        res == (row * 9 + col) as usize,
        0 <= row * 9 + col ==> res == sq_spec(row as int, col as int),
{
    (row * FILES + col) as usize
}

pub fn row_of(s: usize) -> (res: i32)
    requires
        s <= i32::MAX,
    ensures
        res == s / 9,
{
    (s as i32) / FILES
}

pub fn col_of(s: usize) -> (res: i32)
    requires
        s <= i32::MAX,
    ensures
        res == s % 9,
{
    (s as i32) % FILES
}

pub fn in_bounds(row: i32, col: i32) -> (res: bool)
    ensures
        res == in_bounds_spec(row as int, col as int),
{
    row >= 0 && row < RANKS && col >= 0 && col < FILES
}

/// The palace of `color`: columns 3..=5, rows 0..=2 for Black and 7..=9 for Red.
pub open spec fn in_palace_spec(color: Color, row: int, col: int) -> bool {
    3 <= col <= 5 && match color {
        Color::Black => 0 <= row <= 2,
        Color::Red => 7 <= row <= 9,
    }
}

/// Rows on `color`'s side of the river.
pub open spec fn on_own_side_spec(color: Color, row: int) -> bool {
    match color {
        Color::Black => row <= 4,
        Color::Red => row >= 5,
    }
}

pub(crate) fn in_palace(color: Color, row: i32, col: i32) -> (res: bool)
    ensures
        res == in_palace_spec(color, row as int, col as int),
{
    if !(col >= 3 && col <= 5) {
        return false;
    }
    match color {
        Color::Black => row >= 0 && row <= 2,
        Color::Red => row >= 7 && row <= 9,
    }
}

pub(crate) fn on_own_side(color: Color, row: i32) -> (res: bool)
    ensures
        res == on_own_side_spec(color, row as int),
{
    match color {
        Color::Black => row <= 4,
        Color::Red => row >= 5,
    }
}

/// Undo record of a move: its squares and what stood on the target.
#[derive(Copy, Clone, Debug)]
pub struct Move {
    pub from: u8,
    pub to: u8,
    pub captured: Option<Piece>,
}

#[derive(Clone)]
pub struct Board {
    pub squares: [Option<Piece>; 90],
    pub turn: Color,
}

/// What a board is: its 90 squares and the side to move.
pub struct BoardView {
    pub squares: Seq<Option<Piece>>,
    pub turn: Color,
}

impl View for Board {
    type V = BoardView;

    open spec fn view(&self) -> BoardView {
        BoardView { squares: self.squares@, turn: self.turn }
    }
}

/// The board after moving whatever stands on `from` to `to` and passing the turn.
pub open spec fn apply_move(b: BoardView, from: int, to: int) -> BoardView {
    BoardView {
        squares: b.squares.update(to, b.squares[from]).update(from, None),
        turn: b.turn.opp(),
    }
}

/// The board from before a move, given the board after it and its undo record.
pub open spec fn undo_move(b: BoardView, mv: Move) -> BoardView {
    BoardView {
        squares: b.squares.update(mv.from as int, b.squares[mv.to as int]).update(
            mv.to as int,
            mv.captured,
        ),
        turn: b.turn.opp(),
    }
}

/// Whether square `i` holds `color`'s king.
pub open spec fn is_king_at(b: BoardView, color: Color, i: int) -> bool {
    match b.squares[i] {
        Some(p) => p.color == color && p.kind == PieceKind::King,
        None => false,
    }
}

/// The first square below `n` that holds `color`'s king.
pub open spec fn first_king(b: BoardView, color: Color, n: int) -> Option<int>
    decreases n,
{
    if n <= 0 {
        None
    } else {
        match first_king(b, color, n - 1) {
            Some(k) => Some(k),
            None => if is_king_at(b, color, n - 1) {
                Some(n - 1)
            } else {
                None
            },
        }
    }
}

/// The square of `color`'s king: the lowest-indexed one if there are several.
pub open spec fn king_square(b: BoardView, color: Color) -> Option<int> {
    first_king(b, color, 90)
}

pub proof fn lemma_first_king_stable(b: BoardView, color: Color, n: int, m: int)
    requires
        n <= m,
        first_king(b, color, n) is Some,
    ensures
        first_king(b, color, m) == first_king(b, color, n),
    decreases m - n,
{
    if n < m {
        lemma_first_king_stable(b, color, n, m - 1);
    }
}

pub proof fn lemma_first_king_props(b: BoardView, color: Color, n: int)
    ensures
        match first_king(b, color, n) {
            Some(k) => 0 <= k < n && is_king_at(b, color, k) && forall|j: int|
                0 <= j < k ==> !is_king_at(b, color, j),
            None => forall|j: int| 0 <= j < n ==> !is_king_at(b, color, j),
        },
    decreases n,
{
    if n > 0 {
        lemma_first_king_props(b, color, n - 1);
    }
}

impl Board {
    pub fn find_king(&self, color: Color) -> (res: Option<usize>)
        ensures
            match res {
                Some(i) => king_square(self@, color) == Some(i as int),
                None => king_square(self@, color) is None,
            },
    {
        let mut i: usize = 0;
        while i < 90
            invariant
                0 <= i <= 90,
                first_king(self@, color, i as int) is None,
            decreases 90 - i,
        {
            if let Some(p) = self.squares[i] {
                if p.color == color && p.kind == PieceKind::King {
                    proof {
                        assert(first_king(self@, color, i + 1) == Some(i as int));
                        lemma_first_king_stable(self@, color, i + 1, 90);
                    }
                    return Some(i);
                }
            }
            i = i + 1;
        }
        None
    }

    /// Make a pseudo-legal move, recording undo info. Does not check legality.
    pub fn make_move(&mut self, from: usize, to: usize) -> (mv: Move)
        requires
            from < 90,
            to < 90,
        ensures
            final(self)@ == apply_move(old(self)@, from as int, to as int),
            mv.from == from,
            mv.to == to,
            mv.captured == old(self)@.squares[to as int],
    {
        let mover = self.squares[from];
        let captured = self.squares[to];
        self.squares[to] = mover;
        self.squares[from] = None;
        self.turn = self.turn.opp();
        Move { from: from as u8, to: to as u8, captured }
    }

    pub fn unmake_move(&mut self, mv: Move)
        requires
            mv.from < 90,
            mv.to < 90,
        ensures
            final(self)@ == undo_move(old(self)@, mv),
    {
        let from = mv.from as usize;
        let to = mv.to as usize;
        self.squares[from] = self.squares[to];
        self.squares[to] = mv.captured;
        self.turn = self.turn.opp();
    }
}

/// Undoing a move with the record that making it returned gives back the
/// board it was made on.
pub proof fn lemma_unmake_restores(b: BoardView, from: int, to: int)
    requires
        b.squares.len() == 90,
        0 <= from < 90,
        0 <= to < 90,
    ensures
        undo_move(
            apply_move(b, from, to),
            Move { from: from as u8, to: to as u8, captured: b.squares[to] },
        ) == b,
{
    let a = apply_move(b, from, to);
    let u = undo_move(a, Move { from: from as u8, to: to as u8, captured: b.squares[to] });
    assert(u.squares =~= b.squares);
}


/// The kind standing on column `c` of a back rank at the start.
pub open spec fn back_rank_kind(c: int) -> PieceKind {
    if c == 0 || c == 8 {
        PieceKind::Rook
    } else if c == 1 || c == 7 {
        PieceKind::Horse
    } else if c == 2 || c == 6 {
        PieceKind::Elephant
    } else if c == 3 || c == 5 {
        PieceKind::Advisor
    } else {
        PieceKind::King
    }
}

/// What stands on square `i` at the start of a game.
pub open spec fn initial_piece(i: int) -> Option<Piece> {
    let r = i / 9;
    let c = i % 9;
    if r == 0 {
        Some(Piece { color: Color::Black, kind: back_rank_kind(c) })
    } else if r == 2 && (c == 1 || c == 7) {
        Some(Piece { color: Color::Black, kind: PieceKind::Cannon })
    } else if r == 3 && c % 2 == 0 {
        Some(Piece { color: Color::Black, kind: PieceKind::Pawn })
    } else if r == 9 {
        Some(Piece { color: Color::Red, kind: back_rank_kind(c) })
    } else if r == 7 && (c == 1 || c == 7) {
        Some(Piece { color: Color::Red, kind: PieceKind::Cannon })
    } else if r == 6 && c % 2 == 0 {
        Some(Piece { color: Color::Red, kind: PieceKind::Pawn })
    } else {
        None
    }
}

/// The starting position, Red to move.
pub open spec fn initial_board() -> BoardView {
    BoardView { squares: Seq::new(90, |i: int| initial_piece(i)), turn: Color::Red }
}

/// The Black half of the starting position (rows 0..=4).
pub open spec fn black_setup(i: int) -> Option<Piece> {
    if i < 45 {
        initial_piece(i)
    } else {
        None
    }
}

impl Board {
    pub fn new_initial() -> (b: Self)
        ensures
            b@ == initial_board(),
    {
        let mut b = Board { squares: [None;90], turn: Color::Red };
        // Black back rank (row 0)
        let back_black = [
            PieceKind::Rook,
            PieceKind::Horse,
            PieceKind::Elephant,
            PieceKind::Advisor,
            PieceKind::King,
            PieceKind::Advisor,
            PieceKind::Elephant,
            PieceKind::Horse,
            PieceKind::Rook,
        ];
        assert(forall|c: int| 0 <= c < 9 ==> back_black@[c] == back_rank_kind(c));
        let mut c: usize = 0;
        while c < 9
            invariant
                c <= 9,
                forall|c2: int| 0 <= c2 < 9 ==> back_black@[c2] == back_rank_kind(c2),
                b.turn == Color::Red,
                b.squares@.len() == 90,
                forall|i: int|
                    0 <= i < 90 ==> #[trigger] b.squares@[i] == if i < c {
                        initial_piece(i)
                    } else {
                        None
                    },
            decreases 9 - c,
        {
            b.squares[sq(0, c as i32)] = Some(Piece { color: Color::Black, kind: back_black[c] });
            c = c + 1;
        }
        // Black cannons (row 2, cols 1 and 7)
        b.squares[sq(2, 1)] = Some(Piece { color: Color::Black, kind: PieceKind::Cannon });
        b.squares[sq(2, 7)] = Some(Piece { color: Color::Black, kind: PieceKind::Cannon });
        // Black soldiers (row 3, cols 0,2,4,6,8)
        b.squares[sq(3, 0)] = Some(Piece { color: Color::Black, kind: PieceKind::Pawn });
        b.squares[sq(3, 2)] = Some(Piece { color: Color::Black, kind: PieceKind::Pawn });
        b.squares[sq(3, 4)] = Some(Piece { color: Color::Black, kind: PieceKind::Pawn });
        b.squares[sq(3, 6)] = Some(Piece { color: Color::Black, kind: PieceKind::Pawn });
        b.squares[sq(3, 8)] = Some(Piece { color: Color::Black, kind: PieceKind::Pawn });
        assert(forall|i: int| 0 <= i < 90 ==> #[trigger] b.squares@[i] == black_setup(i));
        // Red back rank (row 9)
        let back_red = back_black;  // mirror
        let mut c: usize = 0;
        while c < 9
            invariant
                c <= 9,
                forall|c2: int| 0 <= c2 < 9 ==> back_red@[c2] == back_rank_kind(c2),
                b.turn == Color::Red,
                b.squares@.len() == 90,
                forall|i: int|
                    0 <= i < 90 ==> #[trigger] b.squares@[i] == if 81 <= i < 81 + c {
                        initial_piece(i)
                    } else {
                        black_setup(i)
                    },
            decreases 9 - c,
        {
            b.squares[sq(9, c as i32)] = Some(Piece { color: Color::Red, kind: back_red[c] });
            c = c + 1;
        }
        // Red cannons (row 7, cols 1 and 7)
        b.squares[sq(7, 1)] = Some(Piece { color: Color::Red, kind: PieceKind::Cannon });
        b.squares[sq(7, 7)] = Some(Piece { color: Color::Red, kind: PieceKind::Cannon });
        // Red soldiers (row 6, cols 0,2,4,6,8)
        b.squares[sq(6, 0)] = Some(Piece { color: Color::Red, kind: PieceKind::Pawn });
        b.squares[sq(6, 2)] = Some(Piece { color: Color::Red, kind: PieceKind::Pawn });
        b.squares[sq(6, 4)] = Some(Piece { color: Color::Red, kind: PieceKind::Pawn });
        b.squares[sq(6, 6)] = Some(Piece { color: Color::Red, kind: PieceKind::Pawn });
        b.squares[sq(6, 8)] = Some(Piece { color: Color::Red, kind: PieceKind::Pawn });
        assert(b@.squares =~= initial_board().squares);
        b
    }
}

/// The JSON text of one square: `null` or the quoted piece code.
pub open spec fn square_json(s: Option<Piece>) -> Seq<char> {
    match s {
        None => seq!['n', 'u', 'l', 'l'],
        Some(p) => seq!['"'] + piece_code(p) + seq!['"'],
    }
}

/// The JSON entries of the first `n` squares, separated by commas.
pub open spec fn json_entries(squares: Seq<Option<Piece>>, n: int) -> Seq<char>
    decreases n,
{
    if n <= 0 {
        seq![]
    } else if n == 1 {
        square_json(squares[0])
    } else {
        json_entries(squares, n - 1) + seq![','] + square_json(squares[n - 1])
    }
}

/// The JSON array of all 90 squares, row by row.
pub open spec fn board_json_spec(b: BoardView) -> Seq<char> {
    seq!['['] + json_entries(b.squares, 90) + seq![']']
}

/// Serialize a board to a JSON array of 90 entries (each `null` or a piece
/// code string like `"rR"` / `"bP"`).
pub fn board_to_json(b: &Board) -> (s: String)
    ensures
        s@ == board_json_spec(b@),
{
    let mut s = String::new();
    push_char(&mut s, '[');
    let mut i: usize = 0;
    while i < 90
        invariant
            i <= 90,
            s@ == seq!['['] + json_entries(b@.squares, i as int),
        decreases 90 - i,
    {
        if i > 0 {
            push_char(&mut s, ',');
        }
        match b.squares[i] {
            None => {
                proof {
                    reveal_strlit("null");
                }
                s.append("null");
            },
            Some(p) => {
                push_char(&mut s, '"');
                s.append(p.code());
                push_char(&mut s, '"');
            },
        }
        assert(s@ =~= seq!['['] + json_entries(b@.squares, i + 1));
        i = i + 1;
    }
    push_char(&mut s, ']');
    s
}

} // verus!
