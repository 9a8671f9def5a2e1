use cotuong::board::{board_to_json, col_of, in_bounds, row_of, sq, Board, Color, Piece, PieceKind};
use cotuong::game::Game;
use cotuong::room::{GameRoom, MoveError};
use cotuong::search::{alphabeta, evaluate, search_best, INF};

fn at(row: i32, col: i32) -> usize {
    sq(row, col)
}

fn empty_board(turn: Color) -> Board {
    Board { squares: [None; 90], turn }
}

fn put(b: &mut Board, row: i32, col: i32, color: Color, kind: PieceKind) {
    b.squares[at(row, col)] = Some(Piece { color, kind });
}

#[test]
fn coordinates() {
    assert_eq!(sq(9, 4), 85);
    assert_eq!(row_of(85), 9);
    assert_eq!(col_of(85), 4);
    assert!(in_bounds(0, 0));
    assert!(in_bounds(9, 8));
    assert!(!in_bounds(10, 0));
    assert!(!in_bounds(0, 9));
    assert!(!in_bounds(-1, 3));
}

#[test]
fn initial_layout() {
    let b = Board::new_initial();
    assert_eq!(b.turn, Color::Red);
    assert_eq!(b.squares[at(0, 4)], Some(Piece { color: Color::Black, kind: PieceKind::King }));
    assert_eq!(b.squares[at(9, 4)], Some(Piece { color: Color::Red, kind: PieceKind::King }));
    assert_eq!(b.squares[at(2, 1)], Some(Piece { color: Color::Black, kind: PieceKind::Cannon }));
    assert_eq!(b.squares[at(7, 7)], Some(Piece { color: Color::Red, kind: PieceKind::Cannon }));
    assert_eq!(b.squares[at(6, 4)], Some(Piece { color: Color::Red, kind: PieceKind::Pawn }));
    assert_eq!(b.squares[at(3, 1)], None);
    assert_eq!(b.squares.iter().filter(|s| s.is_some()).count(), 32);
    assert_eq!(b.find_king(Color::Black), Some(4));
    assert_eq!(b.find_king(Color::Red), Some(85));
}

#[test]
fn board_json_layout() {
    let b = Board::new_initial();
    let j = board_to_json(&b);
    assert!(j.starts_with("[\"bR\",\"bH\",\"bE\",\"bA\",\"bK\",\"bA\",\"bE\",\"bH\",\"bR\",null,"));
    assert!(j.ends_with(",\"rR\",\"rH\",\"rE\",\"rA\",\"rK\",\"rA\",\"rE\",\"rH\",\"rR\"]"));
    assert_eq!(j.matches(',').count(), 89);
    assert_eq!(j.matches("null").count(), 58);
    let empty = board_to_json(&empty_board(Color::Red));
    assert_eq!(empty, format!("[{}]", vec!["null"; 90].join(",")));
}

#[test]
fn initial_position_has_44_moves() {
    let mut b = Board::new_initial();
    let moves = b.legal_moves();
    assert_eq!(moves.len(), 44);
    assert!(moves.iter().all(|&(f, _)| b.squares[f].unwrap().color == Color::Red));
}

#[test]
fn cannon_needs_screen_to_capture() {
    let mut b = Board::new_initial();
    let dests = b.legal_moves_from(at(7, 1));
    // Slides up the file to the screen, then captures the horse beyond it.
    assert!(dests.contains(&at(0, 1)));
    assert!(!dests.contains(&at(2, 1)));
    assert!(dests.contains(&at(3, 1)));
    assert!(!dests.contains(&at(1, 1)));
}

#[test]
fn horse_leg_blocks() {
    let mut b = Board::new_initial();
    assert_eq!(b.legal_moves_from(at(9, 1)), vec![at(7, 0), at(7, 2)]);
}

#[test]
fn elephant_stays_home() {
    let mut b = Board::new_initial();
    assert_eq!(b.legal_moves_from(at(9, 2)), vec![at(7, 0), at(7, 4)]);
    let mut e = empty_board(Color::Red);
    put(&mut e, 9, 3, Color::Red, PieceKind::King);
    put(&mut e, 0, 5, Color::Black, PieceKind::King);
    put(&mut e, 5, 2, Color::Red, PieceKind::Elephant);
    // From the river bank it may not cross; only the two home-side squares remain.
    assert_eq!(e.legal_moves_from(at(5, 2)), vec![at(7, 0), at(7, 4)]);
}


#[test]
fn king_stays_in_palace() {
    let mut b = Board::new_initial();
    assert_eq!(b.legal_moves_from(at(9, 4)), vec![at(8, 4)]);
    let mut e = empty_board(Color::Red);
    put(&mut e, 7, 3, Color::Red, PieceKind::King);
    put(&mut e, 0, 5, Color::Black, PieceKind::King);
    let d = e.legal_moves_from(at(7, 3));
    assert_eq!(d, vec![at(8, 3), at(7, 4)]);
}

#[test]
fn pawn_moves_sideways_after_river() {
    let mut b = Board::new_initial();
    assert_eq!(b.legal_moves_from(at(6, 0)), vec![at(5, 0)]);
    let mut e = empty_board(Color::Red);
    put(&mut e, 9, 3, Color::Red, PieceKind::King);
    put(&mut e, 0, 5, Color::Black, PieceKind::King);
    put(&mut e, 4, 4, Color::Red, PieceKind::Pawn);
    assert_eq!(e.legal_moves_from(at(4, 4)), vec![at(3, 4), at(4, 3), at(4, 5)]);
}

#[test]
fn flying_general_is_check() {
    let mut b = empty_board(Color::Red);
    put(&mut b, 9, 4, Color::Red, PieceKind::King);
    put(&mut b, 0, 4, Color::Black, PieceKind::King);
    assert!(b.in_check(Color::Red));
    assert!(b.in_check(Color::Black));
    put(&mut b, 5, 4, Color::Red, PieceKind::Pawn);
    assert!(!b.in_check(Color::Red));
    // The screening pawn may not step aside.
    assert_eq!(b.legal_moves_from(at(5, 4)), vec![at(4, 4)]);
}

#[test]
fn missing_king_counts_as_check() {
    let b = empty_board(Color::Red);
    assert!(b.in_check(Color::Red));
}

#[test]
fn make_unmake_roundtrip() {
    let mut b = Board::new_initial();
    let before = b.squares;
    let mv = b.make_move(at(7, 1), at(0, 1));
    assert_eq!(b.turn, Color::Black);
    assert_eq!(b.squares[at(0, 1)], Some(Piece { color: Color::Red, kind: PieceKind::Cannon }));
    assert_eq!(mv.captured, Some(Piece { color: Color::Black, kind: PieceKind::Horse }));
    b.unmake_move(mv);
    assert_eq!(b.squares, before);
    assert_eq!(b.turn, Color::Red);
}

#[test]
fn legal_moves_agree_with_legal_moves_from() {
    let mut b = Board::new_initial();
    let all = b.legal_moves();
    for from in 0..90 {
        let d = b.legal_moves_from(from);
        let expected: Vec<usize> = all.iter().filter(|m| m.0 == from).map(|m| m.1).collect();
        assert_eq!(d, expected);
    }
}

#[test]
fn evaluate_is_balanced_and_zero_sum() {
    let mut b = Board::new_initial();
    assert_eq!(evaluate(&b), 0);
    b.squares[at(0, 0)] = None;
    assert_eq!(evaluate(&b), 900);
    b.turn = Color::Black;
    assert_eq!(evaluate(&b), -900);
    // A pawn across the river counts double.
    let mut e = empty_board(Color::Red);
    put(&mut e, 4, 0, Color::Red, PieceKind::Pawn);
    put(&mut e, 3, 2, Color::Black, PieceKind::Pawn);
    assert_eq!(evaluate(&e), 200 - 100);
}

fn mate_in_one() -> Board {
    let mut b = empty_board(Color::Red);
    put(&mut b, 9, 3, Color::Red, PieceKind::King);
    put(&mut b, 0, 4, Color::Black, PieceKind::King);
    put(&mut b, 1, 8, Color::Red, PieceKind::Rook);
    put(&mut b, 2, 0, Color::Red, PieceKind::Rook);
    b
}

#[test]
fn search_finds_mate_in_one() {
    let mut b = mate_in_one();
    let (from, to) = search_best(&mut b, 2).unwrap();
    b.make_move(from, to);
    // Black is left without a legal move, which loses (there is no stalemate).
    assert!(b.legal_moves().is_empty());
}

#[test]
fn search_takes_free_rook() {
    let mut b = empty_board(Color::Red);
    put(&mut b, 9, 3, Color::Red, PieceKind::King);
    put(&mut b, 0, 5, Color::Black, PieceKind::King);
    put(&mut b, 5, 0, Color::Red, PieceKind::Rook);
    put(&mut b, 5, 7, Color::Black, PieceKind::Rook);
    let squares = b.squares;
    assert_eq!(search_best(&mut b, 1), Some((at(5, 0), at(5, 7))));
    assert_eq!(b.squares, squares);
}

#[test]
fn search_without_moves_is_none() {
    let mut b = mate_in_one();
    b.make_move(at(2, 0), at(0, 0));
    assert_eq!(search_best(&mut b, 3), None);
}

#[test]
fn game_play_undo_and_status() {
    let mut g = Game::new();
    assert_eq!(g.turn(), 0);
    assert_eq!(g.ply(), 0);
    assert_eq!(g.status(), "playing");
    assert_eq!(g.last_move_json(), "null");
    assert_eq!(g.legal_moves_from(at(9, 1) as u8), "[63,65]");
    assert_eq!(g.legal_moves_from(at(0, 1) as u8), "[]");
    assert!(!g.play_move(at(9, 4) as u8, 0));
    assert!(g.play_move(at(6, 0) as u8, at(5, 0) as u8));
    assert_eq!(g.turn(), 1);
    assert_eq!(g.ply(), 1);
    assert_eq!(g.last_move_json(), "{\"from\":54,\"to\":45}");
    let j = g.board_json();
    assert!(g.undo());
    assert_ne!(g.board_json(), j);
    assert_eq!(g.board_json(), board_to_json(&Board::new_initial()));
    assert!(!g.undo());
    assert!(!g.in_check());
}

#[test]
fn game_ai_move_plays_and_reports() {
    let mut g = Game::new();
    let suggestion = g.suggest_move(1);
    assert_eq!(g.ply(), 0);
    let played = g.ai_move(1);
    assert_eq!(suggestion, played);
    assert!(played.starts_with("{\"from\":"));
    assert_eq!(g.ply(), 1);
    assert_eq!(g.last_move_json(), played);
    g.reset();
    assert_eq!(g.ply(), 0);
    assert_eq!(g.turn(), 0);
}

fn sq8(row: i32, col: i32) -> u8 {
    (row * 9 + col) as u8
}

#[test]
fn red_must_move_first() {
    let mut r = GameRoom::new();
    let err = r.try_play(Color::Black, sq8(3, 0), sq8(4, 0)).unwrap_err();
    assert_eq!(err, MoveError::NotYourTurn);
}

#[test]
fn rejects_illegal_move() {
    let mut r = GameRoom::new();
    // Red king at (9,4) cannot teleport to (0,0)
    let err = r.try_play(Color::Red, sq8(9, 4), sq8(0, 0)).unwrap_err();
    assert_eq!(err, MoveError::Illegal);
}

#[test]
fn legal_move_advances_turn() {
    let mut r = GameRoom::new();
    // Red pawn (6,0) -> (5,0) is legal
    let outcome = r.try_play(Color::Red, sq8(6, 0), sq8(5, 0)).unwrap();
    assert_eq!(outcome.status, "playing");
    assert_eq!(r.turn(), Color::Black);
    assert_eq!(r.last_move.as_ref().unwrap().from, sq8(6, 0));
}

#[test]
fn resign_finishes_game() {
    let mut r = GameRoom::new();
    let winner = r.resign(Color::Red).unwrap();
    assert_eq!(winner, Color::Black);
    assert!(r.finished);
    // Subsequent move attempts are rejected.
    let err = r.try_play(Color::Red, sq8(6, 0), sq8(5, 0)).unwrap_err();
    assert_eq!(err, MoveError::GameFinished);
}

#[test]
fn checkmate_finishes_room() {
    let mut r = GameRoom::new();
    r.board = mate_in_one();
    let outcome = r.try_play(Color::Red, sq8(2, 0), sq8(0, 0)).unwrap();
    assert_eq!(outcome.status, "red_wins");
    assert!(outcome.in_check);
    assert!(r.finished);
    assert_eq!(r.winner, Some(Color::Red));
    assert_eq!(r.history.len(), 1);
    assert_eq!(r.resign(Color::Black), None);
    assert_eq!(r.winner, Some(Color::Red));
}

#[test]
fn play_move_off_the_board_is_refused() {
    let mut g = Game::new();
    let before = g.board_json();
    assert!(!g.play_move(90, 0));
    assert!(!g.play_move(255, 45));
    assert_eq!(g.board_json(), before);
    assert_eq!(g.ply(), 0);
}

#[test]
fn legal_moves_from_follows_legal_moves_order() {
    let mut b = Board::new_initial();
    let all = b.legal_moves();
    for from in 0..90usize {
        let filtered: Vec<usize> = all.iter().filter(|m| m.0 == from).map(|m| m.1).collect();
        assert_eq!(b.legal_moves_from(from), filtered);
    }
}

#[test]
fn alphabeta_window_bounds() {
    let mut b = mate_in_one();
    let exact = alphabeta(&mut b, 2, -INF, INF, 0);
    // Mate in one found at the root: the reply position is lost at ply 1.
    assert_eq!(exact, 100000 - 1);
    let low = alphabeta(&mut b, 2, -INF, exact - 10, 0);
    assert!(low >= exact - 10);
    let high = alphabeta(&mut b, 2, exact + 1, INF, 0);
    assert!(high <= exact + 1);
    let inside = alphabeta(&mut b, 2, exact - 1, exact + 1, 0);
    assert_eq!(inside, exact);
}

#[test]
fn search_without_moves_at_any_depth() {
    let mut b = mate_in_one();
    b.make_move(at(2, 0), at(0, 0));
    assert_eq!(search_best(&mut b, u32::MAX), None);
}
