use chess_engine::board::Board;
use chess_engine::board::Color;
use chess_engine::board::Kind;
use chess_engine::board::Loc;
use chess_engine::board::Piece;

fn piece(kind: Kind, color: Color) -> Piece {
    Piece { kind, color }
}

fn empty_board() -> Board {
    let mut b = Board::new();
    for x in 0..8 {
        for y in 0..8 {
            b.set_at(Loc(x, y), None);
        }
    }
    b
}

#[test]
fn knight_interior_has_eight_moves() {
    let mut b = empty_board();
    b.set_at(Loc(3, 3), Some(piece(Kind::Knight, Color::White)));
    assert_eq!(b.get_moves_for(Loc(3, 3)).len(), 8);
}

#[test]
fn knight_corner_has_two_moves() {
    let mut b = empty_board();
    b.set_at(Loc(0, 0), Some(piece(Kind::Knight, Color::White)));
    let moves = b.get_moves_for(Loc(0, 0));
    assert_eq!(moves.len(), 2);
    assert_eq!(moves[0].to, Loc(2, 1));
    assert_eq!(moves[1].to, Loc(1, 2));
}

#[test]
fn knight_own_pieces_block_destinations() {
    let b = Board::new();
    let moves = b.get_moves_for(Loc(1, 0));
    assert_eq!(moves.len(), 2);
    assert_eq!(moves[0].to, Loc(0, 2));
    assert_eq!(moves[1].to, Loc(2, 2));
}

#[test]
fn rook_rays_reach_the_far_edge() {
    let mut b = empty_board();
    b.set_at(Loc(0, 0), Some(piece(Kind::Rook, Color::White)));
    let moves = b.get_moves_for(Loc(0, 0));
    assert_eq!(moves.len(), 14);
}

#[test]
fn ray_stops_inclusively_on_an_enemy() {
    let mut b = empty_board();
    b.set_at(Loc(0, 0), Some(piece(Kind::Rook, Color::White)));
    b.set_at(Loc(0, 3), Some(piece(Kind::Pawn, Color::Black)));
    b.set_at(Loc(3, 0), Some(piece(Kind::Pawn, Color::White)));
    let moves = b.get_moves_for(Loc(0, 0));
    let tos: Vec<Loc> = moves.iter().map(|m| m.to).collect();
    assert!(tos.contains(&Loc(0, 3)));
    assert!(!tos.contains(&Loc(0, 4)));
    assert!(tos.contains(&Loc(2, 0)));
    assert!(!tos.contains(&Loc(3, 0)));
    assert_eq!(moves.len(), 5);
}

#[test]
fn pawn_double_push_needs_both_squares_empty() {
    let mut b = Board::new();
    b.set_at(Loc(4, 2), Some(piece(Kind::Pawn, Color::Black)));
    assert!(b.get_moves_for(Loc(4, 1)).iter().all(|m| m.to != Loc(4, 3)));
    let mut b2 = Board::new();
    b2.set_at(Loc(4, 3), Some(piece(Kind::Pawn, Color::Black)));
    let tos: Vec<Loc> = b2.get_moves_for(Loc(4, 1)).iter().map(|m| m.to).collect();
    assert!(tos.contains(&Loc(4, 2)));
    assert!(!tos.contains(&Loc(4, 3)));
}

#[test]
fn pawn_captures_only_diagonally_onto_enemies() {
    let mut b = Board::new();
    b.set_at(Loc(3, 2), Some(piece(Kind::Pawn, Color::Black)));
    let moves = b.get_moves_for(Loc(4, 1));
    let tos: Vec<Loc> = moves.iter().map(|m| m.to).collect();
    assert!(tos.contains(&Loc(3, 2)));
    assert!(!tos.contains(&Loc(5, 2)));
    let capture = moves.iter().find(|m| m.to == Loc(3, 2)).unwrap();
    assert_eq!(
        capture.attack,
        Some((piece(Kind::Pawn, Color::Black), Loc(3, 2)))
    );
}

#[test]
fn promotion_expands_to_four_kinds() {
    let mut b = empty_board();
    b.set_at(Loc(4, 6), Some(piece(Kind::Pawn, Color::White)));
    let moves = b.get_moves_for(Loc(4, 6));
    assert_eq!(moves.len(), 4);
    let kinds: Vec<Kind> = moves.iter().map(|m| m.promote.unwrap().kind).collect();
    assert_eq!(kinds, vec![Kind::Rook, Kind::Knight, Kind::Bishop, Kind::Queen]);
    assert!(moves.iter().all(|m| m.to == Loc(4, 7)));
}

#[test]
fn promotion_with_two_captures_gives_twelve_moves() {
    let mut b = empty_board();
    b.set_at(Loc(4, 6), Some(piece(Kind::Pawn, Color::White)));
    b.set_at(Loc(3, 7), Some(piece(Kind::Rook, Color::Black)));
    b.set_at(Loc(5, 7), Some(piece(Kind::Rook, Color::Black)));
    let moves = b.get_moves_for(Loc(4, 6));
    assert_eq!(moves.len(), 12);
    assert!(moves.iter().all(|m| m.promote.is_some()));
}

#[test]
fn black_pawn_promotes_on_rank_one() {
    let mut b = empty_board();
    b.turn = Color::Black;
    b.set_at(Loc(2, 1), Some(piece(Kind::Pawn, Color::Black)));
    let moves = b.get_moves_for(Loc(2, 1));
    assert_eq!(moves.len(), 4);
    assert!(moves.iter().all(|m| m.to == Loc(2, 0)));
    assert!(moves.iter().all(|m| m.promote.unwrap().color == Color::Black));
}

#[test]
fn en_passant_window_opens_and_closes() {
    let mut b = Board::new();
    let e4 = b.get_moves_for(Loc(4, 1)).into_iter().find(|m| m.to == Loc(4, 3)).unwrap();
    b.apply_move(e4);
    let a6 = b.get_moves_for(Loc(0, 6)).into_iter().find(|m| m.to == Loc(0, 5)).unwrap();
    b.apply_move(a6);
    let e5 = b.get_moves_for(Loc(4, 3)).into_iter().find(|m| m.to == Loc(4, 4)).unwrap();
    b.apply_move(e5);
    let f5 = b.get_moves_for(Loc(5, 6)).into_iter().find(|m| m.to == Loc(5, 4)).unwrap();
    b.apply_move(f5);
    assert_eq!(b.en_passant_file, Some(5));

    // The pawn one file away gains exactly one extra capturing move, whose
    // captured square is not its destination.
    let moves = b.get_moves_for(Loc(4, 4));
    let ep: Vec<_> = moves
        .iter()
        .filter(|m| m.attack.is_some() && m.attack.unwrap().1 != m.to)
        .collect();
    assert_eq!(ep.len(), 1);
    assert_eq!(ep[0].to, Loc(5, 5));
    assert_eq!(ep[0].attack, Some((piece(Kind::Pawn, Color::Black), Loc(5, 4))));

    // The right vanishes after one subsequent move, whatever it is.
    let a3 = b.get_moves_for(Loc(0, 1)).into_iter().find(|m| m.to == Loc(0, 2)).unwrap();
    b.apply_move(a3);
    assert_eq!(b.en_passant_file, None);
    let a5 = b.get_moves_for(Loc(0, 5)).into_iter().find(|m| m.to == Loc(0, 4)).unwrap();
    b.apply_move(a5);
    assert_eq!(b.en_passant_file, None);
    let later = b.get_moves_for(Loc(4, 4));
    assert!(!later.is_empty());
    assert!(later.iter().all(|m| m.attack.is_none() || m.attack.unwrap().1 == m.to));
}

#[test]
fn castling_blocked_by_pieces_between() {
    let b = Board::new();
    let moves = b.get_moves_for(Loc(4, 0));
    assert!(moves.iter().all(|m| m.castle.is_none()));
}

#[test]
fn queenside_castle_generated_when_clear() {
    let mut b = Board::new();
    b.set_at(Loc(1, 0), None);
    b.set_at(Loc(2, 0), None);
    b.set_at(Loc(3, 0), None);
    let moves = b.get_moves_for(Loc(4, 0));
    let castle = moves.iter().find(|m| m.castle.is_some()).unwrap();
    assert_eq!(castle.to, Loc(2, 0));
    let cm = castle.castle.unwrap();
    assert_eq!(cm.rook_from, Loc(0, 0));
    assert_eq!(cm.rook_to, Loc(3, 0));
    assert_eq!(cm.rook, piece(Kind::Rook, Color::White));
}

#[test]
fn castle_not_generated_once_flag_is_set() {
    let mut b = Board::new();
    b.set_at(Loc(1, 0), None);
    b.set_at(Loc(2, 0), None);
    b.set_at(Loc(3, 0), None);
    b.castling.white.0 = true;
    let moves = b.get_moves_for(Loc(4, 0));
    assert!(moves.iter().all(|m| m.castle.is_none()));
}

#[test]
fn king_has_eight_moves_in_the_open() {
    let mut b = empty_board();
    b.set_at(Loc(4, 4), Some(piece(Kind::King, Color::White)));
    assert_eq!(b.get_moves_for(Loc(4, 4)).len(), 8);
}

#[test]
fn bishop_and_queen_counts_in_the_open() {
    let mut b = empty_board();
    b.set_at(Loc(3, 3), Some(piece(Kind::Bishop, Color::White)));
    assert_eq!(b.get_moves_for(Loc(3, 3)).len(), 13);
    let mut b2 = empty_board();
    b2.set_at(Loc(3, 3), Some(piece(Kind::Queen, Color::White)));
    assert_eq!(b2.get_moves_for(Loc(3, 3)).len(), 27);
}

#[test]
fn castle_needs_a_rook_on_the_corner() {
    // A non-rook occupant of the rook's origin square must not produce a
    // castling move, even with the flag unset and the gap clear.
    let mut b = Board::new();
    b.set_at(Loc(1, 0), None);
    b.set_at(Loc(2, 0), None);
    b.set_at(Loc(3, 0), None);
    b.set_at(Loc(0, 0), Some(piece(Kind::Knight, Color::White)));
    let moves = b.get_moves_for(Loc(4, 0));
    assert!(moves.iter().all(|m| m.castle.is_none()));
    b.set_at(Loc(0, 0), None);
    let moves2 = b.get_moves_for(Loc(4, 0));
    assert!(moves2.iter().all(|m| m.castle.is_none()));
}

#[test]
fn castle_accepts_a_rook_of_either_color() {
    // The rook's color is not inspected, only its kind.
    let mut b = Board::new();
    b.set_at(Loc(1, 0), None);
    b.set_at(Loc(2, 0), None);
    b.set_at(Loc(3, 0), None);
    b.set_at(Loc(0, 0), Some(piece(Kind::Rook, Color::Black)));
    let moves = b.get_moves_for(Loc(4, 0));
    let castle = moves.iter().find(|m| m.castle.is_some()).unwrap();
    assert_eq!(castle.castle.unwrap().rook, piece(Kind::Rook, Color::Black));
}

#[test]
fn promotion_with_one_capture_gives_eight_moves() {
    let mut b = empty_board();
    b.set_at(Loc(4, 6), Some(piece(Kind::Pawn, Color::White)));
    b.set_at(Loc(5, 7), Some(piece(Kind::Queen, Color::Black)));
    let moves = b.get_moves_for(Loc(4, 6));
    assert_eq!(moves.len(), 8);
    // Kind-major order: both destinations per kind, push before capture.
    let kinds: Vec<Kind> = moves.iter().map(|m| m.promote.unwrap().kind).collect();
    assert_eq!(
        kinds,
        vec![
            Kind::Rook,
            Kind::Rook,
            Kind::Knight,
            Kind::Knight,
            Kind::Bishop,
            Kind::Bishop,
            Kind::Queen,
            Kind::Queen
        ]
    );
    assert_eq!(moves[0].to, Loc(4, 7));
    assert_eq!(moves[1].to, Loc(5, 7));
}
