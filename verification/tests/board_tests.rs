use chess_engine::board::Board;
use chess_engine::board::CastleState;
use chess_engine::board::Color;
use chess_engine::board::Kind;
use chess_engine::board::Loc;
use chess_engine::board::Move;
use chess_engine::board::Piece;
use chess_engine::board::WinState;

fn piece(kind: Kind, color: Color) -> Piece {
    Piece { kind, color }
}

fn find_move(b: &Board, from: Loc, to: Loc) -> Move {
    let moves = b.get_moves_for(from);
    for mv in moves {
        if mv.to == to {
            return mv;
        }
    }
    panic!("no move from {:?} to {:?}", from, to);
}

fn empty_board() -> Board {
    let mut b = Board::new();
    for x in 0..8 {
        for y in 0..8 {
            b.set_at(Loc(x, y), None);
        }
    }
    b
}

#[test]
fn new_board_layout() {
    let b = Board::new();
    assert_eq!(b.at(Loc(0, 0)), Some(piece(Kind::Rook, Color::White)));
    assert_eq!(b.at(Loc(1, 0)), Some(piece(Kind::Knight, Color::White)));
    assert_eq!(b.at(Loc(2, 0)), Some(piece(Kind::Bishop, Color::White)));
    assert_eq!(b.at(Loc(3, 0)), Some(piece(Kind::Queen, Color::White)));
    assert_eq!(b.at(Loc(4, 0)), Some(piece(Kind::King, Color::White)));
    assert_eq!(b.at(Loc(7, 0)), Some(piece(Kind::Rook, Color::White)));
    for x in 0..8 {
        assert_eq!(b.at(Loc(x, 1)), Some(piece(Kind::Pawn, Color::White)));
        assert_eq!(b.at(Loc(x, 6)), Some(piece(Kind::Pawn, Color::Black)));
        for y in 2..6 {
            assert_eq!(b.at(Loc(x, y)), None);
        }
    }
    assert_eq!(b.at(Loc(4, 7)), Some(piece(Kind::King, Color::Black)));
    assert_eq!(b.turn, Color::White);
    assert_eq!(b.en_passant_file, None);
    assert_eq!(b.moves_since_progress, 0);
    assert_eq!(
        b.castling,
        CastleState { white: (false, false), black: (false, false) }
    );
}

#[test]
fn scenario_e2_e4() {
    let mut b = Board::new();
    let mv = find_move(&b, Loc(4, 1), Loc(4, 3));
    b.apply_move(mv);
    assert_eq!(b.at(Loc(4, 1)), None);
    assert_eq!(b.at(Loc(4, 3)), Some(piece(Kind::Pawn, Color::White)));
    assert_eq!(b.en_passant_file, Some(4));
    assert_eq!(b.turn, Color::Black);
    assert_eq!(b.moves_since_progress, 0);
}

#[test]
fn empty_square_and_opponent_square_give_no_moves() {
    let b = Board::new();
    assert!(b.get_moves_for(Loc(4, 4)).is_empty());
    assert!(b.get_moves_for(Loc(4, 6)).is_empty());
    assert!(b.get_moves_for(Loc(4, 7)).is_empty());
}

#[test]
fn win_state_start_is_playing() {
    let b = Board::new();
    assert_eq!(b.win_state(), WinState::Playing);
}

#[test]
fn king_capture_ends_the_game() {
    let mut b = Board::new();
    b.turn = Color::Black;
    b.set_at(Loc(4, 7), None);
    assert_eq!(b.win_state(), WinState::Winner(Color::White));

    let mut b2 = Board::new();
    b2.set_at(Loc(4, 0), None);
    assert_eq!(b2.win_state(), WinState::Winner(Color::Black));
}

#[test]
fn draw_after_fifty_knight_moves() {
    let mut b = Board::new();
    let cycle = [
        (Loc(1, 0), Loc(2, 2)),
        (Loc(1, 7), Loc(2, 5)),
        (Loc(2, 2), Loc(1, 0)),
        (Loc(2, 5), Loc(1, 7)),
    ];
    for i in 0..50 {
        assert_eq!(b.win_state(), WinState::Playing);
        let (from, to) = cycle[i % 4];
        let mv = find_move(&b, from, to);
        b.apply_move(mv);
        assert_eq!(b.moves_since_progress, i + 1);
    }
    assert_eq!(b.win_state(), WinState::Draw);
}

#[test]
fn capture_as_fiftieth_move_resets_the_counter() {
    let mut b = Board::new();
    b.set_at(Loc(2, 2), Some(piece(Kind::Pawn, Color::Black)));
    b.moves_since_progress = 49;
    let mv = find_move(&b, Loc(1, 0), Loc(2, 2));
    assert!(mv.attack.is_some());
    b.apply_move(mv);
    assert_eq!(b.moves_since_progress, 0);
    assert_eq!(b.win_state(), WinState::Playing);
}

#[test]
fn draw_checked_before_king_capture() {
    let mut b = Board::new();
    b.moves_since_progress = 50;
    b.set_at(Loc(4, 7), None);
    b.turn = Color::Black;
    assert_eq!(b.win_state(), WinState::Draw);
}

#[test]
fn round_trip_plain_move() {
    let mut b = Board::new();
    let orig = b.duplicate();
    let mv = find_move(&b, Loc(1, 0), Loc(2, 2));
    let prev = b.consider_move(mv);
    assert_ne!(b, orig);
    b.revert_move(mv, prev);
    assert_eq!(b, orig);
}

#[test]
fn round_trip_capture() {
    let mut b = Board::new();
    b.set_at(Loc(2, 2), Some(piece(Kind::Pawn, Color::Black)));
    let orig = b.duplicate();
    let mv = find_move(&b, Loc(1, 0), Loc(2, 2));
    let prev = b.consider_move(mv);
    b.revert_move(mv, prev);
    assert_eq!(b, orig);
}

#[test]
fn round_trip_double_push() {
    let mut b = Board::new();
    let orig = b.duplicate();
    let mv = find_move(&b, Loc(3, 1), Loc(3, 3));
    let prev = b.consider_move(mv);
    assert_eq!(b.en_passant_file, Some(3));
    b.revert_move(mv, prev);
    assert_eq!(b, orig);
}

#[test]
fn round_trip_en_passant() {
    let mut b = Board::new();
    b.apply_move(find_move(&b, Loc(4, 1), Loc(4, 3)));
    b.apply_move(find_move(&b, Loc(0, 6), Loc(0, 5)));
    b.apply_move(find_move(&b, Loc(4, 3), Loc(4, 4)));
    b.apply_move(find_move(&b, Loc(3, 6), Loc(3, 4)));
    assert_eq!(b.en_passant_file, Some(3));
    let orig = b.duplicate();
    let mv = find_move(&b, Loc(4, 4), Loc(3, 5));
    assert_eq!(mv.attack, Some((piece(Kind::Pawn, Color::Black), Loc(3, 4))));
    let prev = b.consider_move(mv);
    assert_eq!(b.at(Loc(3, 4)), None);
    assert_eq!(b.at(Loc(3, 5)), Some(piece(Kind::Pawn, Color::White)));
    b.revert_move(mv, prev);
    assert_eq!(b, orig);
}

#[test]
fn round_trip_promotion() {
    let mut b = empty_board();
    b.set_at(Loc(0, 6), Some(piece(Kind::Pawn, Color::White)));
    b.turn = Color::White;
    let orig = b.duplicate();
    let moves = b.get_moves_for(Loc(0, 6));
    assert_eq!(moves.len(), 4);
    for mv in moves {
        let prev = b.consider_move(mv);
        assert_eq!(b.at(Loc(0, 7)), Some(mv.promote.unwrap()));
        assert_eq!(b.at(Loc(0, 6)), None);
        b.revert_move(mv, prev);
        assert_eq!(b, orig);
    }
}

#[test]
fn round_trip_castle() {
    let mut b = Board::new();
    b.set_at(Loc(5, 0), None);
    b.set_at(Loc(6, 0), None);
    let orig = b.duplicate();
    let mv = find_move(&b, Loc(4, 0), Loc(6, 0));
    assert!(mv.castle.is_some());
    let prev = b.consider_move(mv);
    assert_eq!(b.at(Loc(6, 0)), Some(piece(Kind::King, Color::White)));
    assert_eq!(b.at(Loc(5, 0)), Some(piece(Kind::Rook, Color::White)));
    assert_eq!(b.at(Loc(7, 0)), None);
    assert_eq!(b.castling.white, (true, true));
    b.revert_move(mv, prev);
    assert_eq!(b, orig);
}

#[test]
fn castling_rights_set_permanently_by_king_move() {
    let mut b = Board::new();
    b.set_at(Loc(4, 1), None);
    let mv = find_move(&b, Loc(4, 0), Loc(4, 1));
    b.apply_move(mv);
    assert_eq!(b.castling.white, (true, true));
    assert_eq!(b.castling.black, (false, false));
}

#[test]
fn rook_move_from_corner_clears_one_side() {
    let mut b = Board::new();
    b.set_at(Loc(0, 1), None);
    let mv = find_move(&b, Loc(0, 0), Loc(0, 3));
    b.apply_move(mv);
    assert_eq!(b.castling.white, (true, false));
}
