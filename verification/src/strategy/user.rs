//! Character renderings of pieces, used by interactive front ends.

use vstd::prelude::*;

use crate::board::Color;
use crate::board::Kind;
use crate::board::Piece;

verus! {

/// Letter rendering: the piece's initial, uppercase for White and lowercase
/// for Black (with 'N' for a knight).
pub open spec fn spec_to_char(piece: Piece) -> char {
    match piece.color {
        Color::White => match piece.kind {
            Kind::Pawn => 'P',
            Kind::Rook => 'R',
            Kind::Knight => 'N',
            Kind::Bishop => 'B',
            Kind::Queen => 'Q',
            Kind::King => 'K',
        },
        Color::Black => match piece.kind {
            Kind::Pawn => 'p',
            Kind::Rook => 'r',
            Kind::Knight => 'n',
            Kind::Bishop => 'b',
            Kind::Queen => 'q',
            Kind::King => 'k',
        },
    }
}

#[verifier::when_used_as_spec(spec_to_char)]
pub fn to_char(piece: Piece) -> (c: char)
    ensures
        c == spec_to_char(piece),
{
    let ch = match piece.kind {
        Kind::Pawn => 'p',
        Kind::Rook => 'r',
        Kind::Knight => 'n',
        Kind::Bishop => 'b',
        Kind::Queen => 'q',
        Kind::King => 'k',
    };
    match piece.color {
        Color::White => match piece.kind {
            Kind::Pawn => 'P',
            Kind::Rook => 'R',
            Kind::Knight => 'N',
            Kind::Bishop => 'B',
            Kind::Queen => 'Q',
            Kind::King => 'K',
        },
        Color::Black => ch,
    }
}

/// Figurine rendering: one glyph per kind, the same for both colors.
pub open spec fn spec_to_emoji(piece: Piece) -> char {
    match piece.kind {
        Kind::Pawn => '\u{265F}',
        Kind::Rook => '\u{265C}',
        Kind::Knight => '\u{265E}',
        Kind::Bishop => '\u{265D}',
        Kind::Queen => '\u{265B}',
        Kind::King => '\u{265A}',
    }
}

#[verifier::when_used_as_spec(spec_to_emoji)]
pub fn to_emoji(piece: Piece) -> (c: char)
    ensures
        c == spec_to_emoji(piece),
{
    match piece.kind {
        Kind::Pawn => '\u{265F}',
        Kind::Rook => '\u{265C}',
        Kind::Knight => '\u{265E}',
        Kind::Bishop => '\u{265D}',
        Kind::Queen => '\u{265B}',
        Kind::King => '\u{265A}',
    }
}

} // verus!
