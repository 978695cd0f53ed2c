use chess_engine::board::Board;
use chess_engine::board::Color;
use chess_engine::board::Kind;
use chess_engine::board::Loc;
use chess_engine::board::Piece;
use chess_engine::strategy::Strategy;
use chess_engine::strategy::minimax::BasicMinimax;
use chess_engine::strategy::minimax::Maximax;
use chess_engine::strategy::minimax::Minimin;
use chess_engine::strategy::minimax::SinglePlayer;
use chess_engine::strategy::minimax::flip;
use chess_engine::strategy::user::to_char;
use chess_engine::strategy::user::to_emoji;

fn piece(kind: Kind, color: Color) -> Piece {
    Piece { kind, color }
}

#[test]
fn flip_signs() {
    assert_eq!(flip(Color::White), 1);
    assert_eq!(flip(Color::Black), -1);
}

#[test]
fn evaluate_piece_values() {
    assert_eq!(BasicMinimax::evaluate_piece(piece(Kind::Pawn, Color::White)), 1);
    assert_eq!(BasicMinimax::evaluate_piece(piece(Kind::Knight, Color::White)), 3);
    assert_eq!(BasicMinimax::evaluate_piece(piece(Kind::Bishop, Color::White)), 3);
    assert_eq!(BasicMinimax::evaluate_piece(piece(Kind::Rook, Color::White)), 5);
    assert_eq!(BasicMinimax::evaluate_piece(piece(Kind::Queen, Color::White)), 9);
    assert_eq!(BasicMinimax::evaluate_piece(piece(Kind::King, Color::White)), 4);
    assert_eq!(BasicMinimax::evaluate_piece(piece(Kind::Queen, Color::Black)), -9);
    assert_eq!(BasicMinimax::evaluate_piece(piece(Kind::Pawn, Color::Black)), -1);
}

#[test]
fn evaluate_board_starting_position() {
    // Material cancels; the rank terms leave 8 - 48 - 56 = -96.
    let b = Board::new();
    assert_eq!(BasicMinimax::evaluate_board(&b), -96);
}

#[test]
fn evaluate_board_single_pieces() {
    let mut b = Board::new();
    for x in 0..8 {
        for y in 0..8 {
            b.set_at(Loc(x, y), None);
        }
    }
    b.set_at(Loc(0, 4), Some(piece(Kind::Queen, Color::White)));
    assert_eq!(BasicMinimax::evaluate_board(&b), 904);
    b.set_at(Loc(3, 2), Some(piece(Kind::Rook, Color::Black)));
    assert_eq!(BasicMinimax::evaluate_board(&b), 904 - 502);
}

#[test]
fn minimax_depth_zero_picks_the_immediate_best() {
    // White can capture a free queen: depth 0 already sees it.
    let mut b = Board::new();
    b.set_at(Loc(2, 2), Some(piece(Kind::Queen, Color::Black)));
    let (mv, _) = BasicMinimax::search(0, &mut b).unwrap();
    assert_eq!(mv.to, Loc(2, 2));
    assert!(mv.attack.is_some());
}

#[test]
fn search_restores_the_board() {
    let mut b = Board::new();
    let orig = b.duplicate();
    let _ = BasicMinimax::search(1, &mut b).unwrap();
    assert_eq!(b, orig);
    let _ = Maximax::search(1, &mut b).unwrap();
    assert_eq!(b, orig);
    let _ = Minimin::search(1, &mut b).unwrap();
    assert_eq!(b, orig);
    let _ = SinglePlayer::search(1, &mut b).unwrap();
    assert_eq!(b, orig);
}

#[test]
fn maximax_bounds_minimin_at_equal_depth() {
    for depth in 0..2 {
        let mut b1 = Board::new();
        let (_, hi) = Maximax::search(depth, &mut b1).unwrap();
        let mut b2 = Board::new();
        let (_, lo) = Minimin::search(depth, &mut b2).unwrap();
        assert!(hi >= lo, "depth {}: {} < {}", depth, hi, lo);
    }
}

#[test]
fn strategies_choose_some_move_at_the_start() {
    let b = Board::new();
    let mut s1 = BasicMinimax { depth: 1 };
    let mut s2 = Maximax { depth: 1 };
    let mut s3 = Minimin { depth: 1 };
    let mut s4 = SinglePlayer { depth: 1 };
    let m1 = s1.choose_move(&b).unwrap();
    assert_eq!(m1.player, Color::White);
    assert!(s2.choose_move(&b).is_some());
    assert!(s3.choose_move(&b).is_some());
    assert!(s4.choose_move(&b).is_some());
}

#[test]
fn chosen_moves_apply_cleanly() {
    let mut b = Board::new();
    let mut white = BasicMinimax { depth: 1 };
    let mut black = SinglePlayer { depth: 1 };
    for _ in 0..6 {
        let mv = match b.turn {
            Color::White => white.choose_move(&b).unwrap(),
            Color::Black => black.choose_move(&b).unwrap(),
        };
        assert_eq!(mv.player, b.turn);
        b.apply_move(mv);
    }
}

#[test]
fn single_player_ignores_replies() {
    // A rook hangs next to the black king; SinglePlayer grabs material as
    // if Black never answers.
    let mut b = Board::new();
    b.set_at(Loc(0, 4), Some(piece(Kind::Queen, Color::Black)));
    let (mv, _) = SinglePlayer::search(1, &mut b).unwrap();
    assert_eq!(mv.player, Color::White);
}

#[test]
fn evaluate_recursive_depth_zero_is_the_leaf_score() {
    let mut b = Board::new();
    let r = BasicMinimax::evaluate_recursive(0, &mut b).unwrap();
    assert_eq!(r, -96);
    let mut b2 = Board::new();
    b2.moves_since_progress = 50;
    let r2 = BasicMinimax::evaluate_recursive(3, &mut b2).unwrap();
    assert_eq!(r2, -96 + 3);
}

#[test]
fn maximax_and_minimin_evaluate_signs() {
    // On a terminal board both leaf formulas read the evaluation from the
    // opponent's perspective, with opposite depth bonuses.
    let mut b = Board::new();
    b.moves_since_progress = 50;
    let hi = Maximax::evaluate(2, &mut b).unwrap();
    let lo = Minimin::evaluate(2, &mut b).unwrap();
    assert_eq!(hi, 96 + 20);
    assert_eq!(lo, 96 - 20);
}

#[test]
fn to_char_letters() {
    assert_eq!(to_char(piece(Kind::Pawn, Color::White)), 'P');
    assert_eq!(to_char(piece(Kind::Knight, Color::White)), 'N');
    assert_eq!(to_char(piece(Kind::King, Color::White)), 'K');
    assert_eq!(to_char(piece(Kind::Pawn, Color::Black)), 'p');
    assert_eq!(to_char(piece(Kind::Queen, Color::Black)), 'q');
    assert_eq!(to_char(piece(Kind::Rook, Color::Black)), 'r');
    assert_eq!(to_char(piece(Kind::Bishop, Color::Black)), 'b');
}

#[test]
fn to_emoji_glyphs() {
    assert_eq!(to_emoji(piece(Kind::Pawn, Color::White)), '\u{265F}');
    assert_eq!(to_emoji(piece(Kind::King, Color::Black)), '\u{265A}');
    assert_eq!(to_emoji(piece(Kind::Queen, Color::White)), '\u{265B}');
}

#[test]
fn choose_move_leaves_the_strategy_unchanged() {
    let b = Board::new();
    let mut s = BasicMinimax { depth: 1 };
    let _ = s.choose_move(&b);
    assert_eq!(s.depth, 1);
    let mut m = Minimin { depth: 2 };
    let _ = m.choose_move(&b);
    assert_eq!(m.depth, 2);
}
