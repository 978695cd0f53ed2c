//! Board state: the 8x8 grid, castling rights, en-passant file, the
//! no-progress counter and the side to move, together with the reversible
//! move applicator and the win-state evaluation.

use vstd::prelude::*;

verus! {

#[derive(Debug, PartialEq, Eq, Clone, Copy, Structural)]
pub enum Kind {
    Pawn,
    Rook,
    Knight,
    Bishop,
    Queen,
    King,
}

#[derive(Debug, PartialEq, Eq, Clone, Copy, Structural)]
pub enum Color {
    White,
    Black,
}

impl Color {
    pub open spec fn spec_opposite(self) -> Color {
        match self {
            Color::White => Color::Black,
            Color::Black => Color::White,
        }
    }

    #[verifier::when_used_as_spec(spec_opposite)]
    pub fn opposite(self) -> (c: Color)
        ensures
            c == self.spec_opposite(),
    {
        match self {
            Color::White => Color::Black,
            Color::Black => Color::White,
        }
    }

    /// Rank direction a pawn of this color advances in: +1 for White, -1 for Black.
    pub open spec fn fdir(self) -> int {
        match self {
            Color::White => 1,
            Color::Black => -1,
        }
    }

    pub fn forward(self) -> (r: isize)
        ensures
            r as int == self.fdir(),
    {
        match self {
            Color::White => 1,
            Color::Black => -1,
        }
    }

    pub open spec fn spec_forwardv(self) -> Loc {
        match self {
            Color::White => Loc(0 as isize, 1 as isize),
            Color::Black => Loc(0 as isize, -1 as isize),
        }
    }

    #[verifier::when_used_as_spec(spec_forwardv)]
    pub fn forwardv(self) -> (r: Loc)
        ensures
            r == self.spec_forwardv(),
    {
        Loc(0, self.forward())
    }

    /// The rank this color's pawns start on.
    pub open spec fn spec_pawn_rank(self) -> int {
        match self {
            Color::White => 1,
            Color::Black => 6,
        }
    }

    pub fn pawn_rank(self) -> (r: isize)
        ensures
            r as int == self.spec_pawn_rank(),
    {
        match self {
            Color::White => 1,
            Color::Black => 6,
        }
    }

    /// The rank this color's major pieces start on, used for castling-rook detection.
    pub open spec fn spec_back_rank(self) -> int {
        match self {
            Color::White => 0,
            Color::Black => 7,
        }
    }

    pub fn back_rank(self) -> (r: isize)
        ensures
            r as int == self.spec_back_rank(),
    {
        match self {
            Color::White => 0,
            Color::Black => 7,
        }
    }
}

#[derive(Debug, PartialEq, Eq, Clone, Copy, Structural)]
pub struct Piece {
    pub kind: Kind,
    pub color: Color,
}

/// Per-color castling flags, `(queenside, kingside)`. A flag is `false` while
/// the right is still open and is set permanently to `true` once the king or
/// the relevant rook has moved away from its original square.
#[derive(Debug, PartialEq, Eq, Clone, Copy)]
pub struct CastleState {
    pub white: (bool, bool),
    pub black: (bool, bool),
}

impl CastleState {
    pub open spec fn of(self, c: Color) -> (bool, bool) {
        match c {
            Color::White => self.white,
            Color::Black => self.black,
        }
    }
}

/// A square as a (file, rank) pair; valid iff both coordinates lie in [0, 8).
#[derive(Debug, PartialEq, Eq, Clone, Copy, Structural)]
pub struct Loc(pub isize, pub isize);

impl Loc {
    pub fn rank(self) -> (r: isize)
        ensures
            r == self.1,
    {
        self.1
    }

    pub fn file(self) -> (r: isize)
        ensures
            r == self.0,
    {
        self.0
    }

    /// Rotate a quarter turn counterclockwise around the origin.
    pub fn rotl(self) -> (r: Loc)
        requires
            self.1 != isize::MIN,
        ensures
            r.0 as int == -(self.1 as int),
            r.1 == self.0,
    {
        Loc(-self.1, self.0)
    }

    /// Rotate a quarter turn clockwise around the origin.
    pub fn rotr(self) -> (r: Loc)
        requires
            self.0 != isize::MIN,
        ensures
            r.0 == self.1,
            r.1 as int == -(self.0 as int),
    {
        Loc(self.1, -self.0)
    }

    pub open spec fn spec_valid(self) -> bool {
        0 <= self.0 < 8 && 0 <= self.1 < 8
    }

    #[verifier::when_used_as_spec(spec_valid)]
    pub fn is_valid(self) -> (r: bool)
        ensures
            r == self.spec_valid(),
    {
        self.0 >= 0 && self.0 < 8 && self.1 >= 0 && self.1 < 8
    }

    /// Index of a valid square in the rank-major grid sequence.
    pub open spec fn idx(self) -> int {
        self.1 * 8 + self.0
    }

    /// Component-wise sum.
    pub fn plus(self, rhs: Loc) -> (r: Loc)
        requires
            isize::MIN <= self.0 + rhs.0 <= isize::MAX,
            isize::MIN <= self.1 + rhs.1 <= isize::MAX,
        ensures
            r.0 == self.0 + rhs.0,
            r.1 == self.1 + rhs.1,
    {
        Loc(self.0 + rhs.0, self.1 + rhs.1)
    }

    /// Component-wise difference.
    pub fn minus(self, rhs: Loc) -> (r: Loc)
        requires
            isize::MIN <= self.0 - rhs.0 <= isize::MAX,
            isize::MIN <= self.1 - rhs.1 <= isize::MAX,
        ensures
            r.0 == self.0 - rhs.0,
            r.1 == self.1 - rhs.1,
    {
        Loc(self.0 - rhs.0, self.1 - rhs.1)
    }

    /// Scalar multiple, used to walk along a ray direction.
    pub fn times(self, rhs: isize) -> (r: Loc)
        requires
            isize::MIN <= self.0 * rhs <= isize::MAX,
            isize::MIN <= self.1 * rhs <= isize::MAX,
        ensures
            r.0 == self.0 * rhs,
            r.1 == self.1 * rhs,
    {
        Loc(self.0 * rhs, self.1 * rhs)
    }
}

/// The square `(l.0 + dx, l.1 + dy)`; meaningful when the result is a valid square.
pub open spec fn loc_ofs(l: Loc, dx: int, dy: int) -> Loc {
    Loc((l.0 + dx) as isize, (l.1 + dy) as isize)
}

/// The rook's half of a castling move.
#[derive(Debug, PartialEq, Eq, Clone, Copy)]
pub struct CastleMove {
    pub rook: Piece,
    pub rook_from: Loc,
    pub rook_to: Loc,
}

/// A self-contained description of one state transition and its exact inverse.
/// `attack` records the captured piece and its square, which differs from `to`
/// only for en passant; `promote` carries the replacement piece; `castle`
/// carries the rook's simultaneous relocation.
#[derive(Debug, PartialEq, Eq, Clone, Copy)]
pub struct Move {
    pub player: Color,
    pub from: Loc,
    pub to: Loc,
    pub piece: Piece,
    pub attack: Option<(Piece, Loc)>,
    pub promote: Option<Piece>,
    pub castle: Option<CastleMove>,
}

#[derive(Debug, PartialEq, Eq, Clone)]
pub struct Board {
    /// Rank-major grid: the square `(file, rank)` is at index `rank * 8 + file`.
    pub positions: Vec<Option<Piece>>,
    pub castling: CastleState,
    pub moves_since_progress: usize,
    pub en_passant_file: Option<isize>,
    pub turn: Color,
}

#[derive(Debug, PartialEq, Eq, Clone)]
pub enum WinState {
    Playing,
    Winner(Color),
    Draw,
}

/// The mathematical value of a board: the grid as a sequence of 64 squares
/// plus the scalar side state.
#[verifier::ext_equal]
pub struct BoardModel {
    pub grid: Seq<Option<Piece>>,
    pub castling: CastleState,
    pub moves_since_progress: int,
    pub en_passant_file: Option<isize>,
    pub turn: Color,
}

impl View for Board {
    type V = BoardModel;

    open spec fn view(&self) -> BoardModel {
        BoardModel {
            grid: self.positions@,
            castling: self.castling,
            moves_since_progress: self.moves_since_progress as int,
            en_passant_file: self.en_passant_file,
            turn: self.turn,
        }
    }
}

impl BoardModel {
    pub open spec fn wf(self) -> bool {
        self.grid.len() == 64
    }

    pub open spec fn at(self, l: Loc) -> Option<Piece>
        recommends
            self.wf(),
            l.spec_valid(),
    {
        self.grid[l.idx()]
    }

    pub open spec fn king_sq(self, c: Color, l: Loc) -> bool {
        l.spec_valid() && self.at(l) == Some(Piece { kind: Kind::King, color: c })
    }

    pub open spec fn has_king(self, c: Color) -> bool {
        exists|l: Loc| self.king_sq(c, l)
    }

    /// Draw once the no-progress counter reaches 50; otherwise the opponent of
    /// a side whose king is gone has won; otherwise play continues.
    pub open spec fn spec_win_state(self) -> WinState {
        if self.moves_since_progress >= 50 {
            WinState::Draw
        } else if !self.has_king(self.turn) {
            WinState::Winner(self.turn.spec_opposite())
        } else {
            WinState::Playing
        }
    }
}

impl Board {
    pub fn at(&self, l: Loc) -> (r: Option<Piece>)
        requires
            self@.wf(),
            l.is_valid(),
        ensures
            r == self@.at(l),
    {
        self.positions[(l.1 * 8 + l.0) as usize]
    }

    pub fn set_at(&mut self, l: Loc, p: Option<Piece>)
        requires
            old(self)@.wf(),
            l.is_valid(),
        ensures
            final(self)@.wf(),
            final(self)@.grid == old(self)@.grid.update(l.idx(), p),
            final(self)@.castling == old(self)@.castling,
            final(self)@.moves_since_progress == old(self)@.moves_since_progress,
            final(self)@.en_passant_file == old(self)@.en_passant_file,
            final(self)@.turn == old(self)@.turn,
    {
        let i: usize = (l.1 * 8 + l.0) as usize;
        self.positions[i] = p;
    }
}

/// The piece standing on a square in the standard starting position.
pub open spec fn start_at(l: Loc) -> Option<Piece> {
    if l.1 == 0 {
        start_back(l.0 as int, Color::White)
    } else if l.1 == 1 {
        Some(Piece { kind: Kind::Pawn, color: Color::White })
    } else if l.1 == 6 {
        Some(Piece { kind: Kind::Pawn, color: Color::Black })
    } else if l.1 == 7 {
        start_back(l.0 as int, Color::Black)
    } else {
        None
    }
}

pub open spec fn start_back(file: int, c: Color) -> Option<Piece> {
    if file == 0 || file == 7 {
        Some(Piece { kind: Kind::Rook, color: c })
    } else if file == 1 || file == 6 {
        Some(Piece { kind: Kind::Knight, color: c })
    } else if file == 2 || file == 5 {
        Some(Piece { kind: Kind::Bishop, color: c })
    } else if file == 3 {
        Some(Piece { kind: Kind::Queen, color: c })
    } else if file == 4 {
        Some(Piece { kind: Kind::King, color: c })
    } else {
        None
    }
}

fn start_square(file: isize, rank: isize) -> (r: Option<Piece>)
    requires
        0 <= file < 8,
        0 <= rank < 8,
    ensures
        r == start_at(Loc(file, rank)),
{
    let c = if rank <= 1 { Color::White } else { Color::Black };
    if rank == 1 || rank == 6 {
        Some(Piece { kind: Kind::Pawn, color: c })
    } else if rank == 0 || rank == 7 {
        if file == 0 || file == 7 {
            Some(Piece { kind: Kind::Rook, color: c })
        } else if file == 1 || file == 6 {
            Some(Piece { kind: Kind::Knight, color: c })
        } else if file == 2 || file == 5 {
            Some(Piece { kind: Kind::Bishop, color: c })
        } else if file == 3 {
            Some(Piece { kind: Kind::Queen, color: c })
        } else {
            Some(Piece { kind: Kind::King, color: c })
        }
    } else {
        None
    }
}

impl Board {
    /// The standard starting position: White to move, all castling rights
    /// open, no en-passant file, counter at zero.
    pub fn new() -> (b: Board)
        ensures
            b@.wf(),
            forall|l: Loc| l.spec_valid() ==> b@.at(l) == start_at(l),
            b@.castling == (CastleState { white: (false, false), black: (false, false) }),
            b@.moves_since_progress == 0,
            b@.en_passant_file is None,
            b@.turn == Color::White,
    {
        let mut v: Vec<Option<Piece>> = Vec::new();
        let mut i: usize = 0;
        while i < 64
            invariant
                i <= 64,
                v@.len() == i,
                forall|j: int|
                    0 <= j < i ==> v@[j] == start_at(Loc((j % 8) as isize, (j / 8) as isize)),
            decreases 64 - i,
        {
            v.push(start_square((i % 8) as isize, (i / 8) as isize));
            i += 1;
        }
        let b = Board {
            positions: v,
            castling: CastleState { white: (false, false), black: (false, false) },
            moves_since_progress: 0,
            en_passant_file: None,
            turn: Color::White,
        };
        proof {
            assert forall|l: Loc| l.spec_valid() implies b@.at(l) == start_at(l) by {
                let j = l.idx();
                assert(0 <= j < 64);
                assert(j % 8 == l.0 as int && j / 8 == l.1 as int) by (nonlinear_arith)
                    requires
                        0 <= l.0 < 8,
                        0 <= l.1 < 8,
                        j == l.1 * 8 + l.0,
                ;
            }
        }
        b
    }

    /// An independent copy with the same mathematical value, for strategies
    /// that search on a scratch board.
    pub fn duplicate(&self) -> (b: Board)
        requires
            self@.wf(),
        ensures
            b@ == self@,
            b@.wf(),
    {
        let mut v: Vec<Option<Piece>> = Vec::new();
        let mut i: usize = 0;
        while i < self.positions.len()
            invariant
                i <= self.positions@.len(),
                v@ == self.positions@.take(i as int),
            decreases self.positions@.len() - i,
        {
            v.push(self.positions[i]);
            proof {
                assert(v@ =~= self.positions@.take(i + 1 as int));
            }
            i = i + 1;
        }
        let b = Board {
            positions: v,
            castling: self.castling,
            moves_since_progress: self.moves_since_progress,
            en_passant_file: self.en_passant_file,
            turn: self.turn,
        };
        proof {
            assert(b.positions@ =~= self.positions@);
            assert(b@ =~= self@);
        }
        b
    }

    /// Win-state evaluation: scans the grid for the side to move's king.
    pub fn win_state(&self) -> (w: WinState)
        requires
            self@.wf(),
        ensures
            w == self@.spec_win_state(),
    {
        if self.moves_since_progress >= 50 {
            return WinState::Draw;
        }
        let mut x: isize = 0;
        while x < 8
            invariant
                self@.wf(),
                self@.moves_since_progress < 50,
                0 <= x <= 8,
                forall|l: Loc| l.spec_valid() && l.0 < x ==> !self@.king_sq(self.turn, l),
            decreases 8 - x,
        {
            let mut y: isize = 0;
            while y < 8
                invariant
                    self@.wf(),
                    self@.moves_since_progress < 50,
                    0 <= x < 8,
                    0 <= y <= 8,
                    forall|l: Loc| l.spec_valid() && l.0 < x ==> !self@.king_sq(self.turn, l),
                    forall|l: Loc|
                        l.spec_valid() && l.0 == x && l.1 < y ==> !self@.king_sq(self.turn, l),
                decreases 8 - y,
            {
                match self.at(Loc(x, y)) {
                    Some(p) => {
                        if matches!(p.kind, Kind::King) && p.color == self.turn {
                            proof {
                                assert(self@.king_sq(self.turn, Loc(x, y)));
                            }
                            return WinState::Playing;
                        }
                    },
                    None => {},
                }
                y += 1;
            }
            x += 1;
        }
        proof {
            assert forall|l: Loc| !self@.king_sq(self.turn, l) by {
                if l.spec_valid() {
                    assert(l.0 < 8);
                }
            }
        }
        WinState::Winner(self.turn.opposite())
    }
}

/// The scalar side state saved before a speculative move and restored by
/// `revert_move`.
#[derive(Debug, PartialEq, Eq, Clone, Copy)]
pub struct Snapshot {
    pub castling: CastleState,
    pub en_passant_file: Option<isize>,
    pub moves_since_progress: usize,
}

/// The square at rank-major index `i`.
pub open spec fn loc_of(i: int) -> Loc {
    Loc((i % 8) as isize, (i / 8) as isize)
}

pub proof fn lemma_idx_inverse(l: Loc)
    requires
        l.spec_valid(),
    ensures
        0 <= l.idx() < 64,
        loc_of(l.idx()) == l,
{
    assert(l.idx() % 8 == l.0 as int && l.idx() / 8 == l.1 as int && 0 <= l.idx() < 64)
        by (nonlinear_arith)
        requires
            0 <= l.0 < 8,
            0 <= l.1 < 8,
    ;
}

pub proof fn lemma_idx_injective(a: Loc, b: Loc)
    requires
        a.spec_valid(),
        b.spec_valid(),
        a.idx() == b.idx(),
    ensures
        a == b,
{
    lemma_idx_inverse(a);
    lemma_idx_inverse(b);
}

/// The piece that ends up on the destination square: the promotion piece if
/// one is present, else the moving piece.
pub open spec fn moved_piece(mv: Move) -> Piece {
    match mv.promote {
        Some(p) => p,
        None => mv.piece,
    }
}

/// What the move generator guarantees of every move it produces against a
/// board: the stated piece stands on `from`, the recorded capture matches the
/// grid, and all referenced squares are valid and suitably distinct. These
/// are exactly the facts that make `apply_move` total and `revert_move` an
/// exact inverse.
pub open spec fn move_valid(m: BoardModel, mv: Move) -> bool {
    &&& mv.from.spec_valid()
    &&& mv.to.spec_valid()
    &&& mv.from != mv.to
    &&& mv.player == m.turn
    &&& mv.piece.color == m.turn
    &&& m.at(mv.from) == Some(mv.piece)
    &&& match mv.attack {
        None => m.at(mv.to) is None,
        Some((pc, al)) => {
            &&& al.spec_valid()
            &&& al != mv.from
            &&& m.at(al) == Some(pc)
            &&& (al == mv.to || m.at(mv.to) is None)
        },
    }
    &&& match mv.castle {
        None => true,
        Some(cm) => {
            &&& mv.attack is None
            &&& cm.rook_from.spec_valid()
            &&& cm.rook_to.spec_valid()
            &&& cm.rook_from != mv.from
            &&& cm.rook_from != mv.to
            &&& cm.rook_from != cm.rook_to
            &&& cm.rook_to != mv.from
            &&& cm.rook_to != mv.to
            &&& m.at(cm.rook_from) == Some(cm.rook)
            &&& m.at(cm.rook_to) is None
        },
    }
}

/// Validity of the squares a move refers to, without any occupancy claims;
/// all that `revert_move` needs to index the grid.
pub open spec fn move_locs_valid(mv: Move) -> bool {
    &&& mv.from.spec_valid()
    &&& mv.to.spec_valid()
    &&& match mv.attack {
        None => true,
        Some((pc, al)) => al.spec_valid(),
    }
    &&& match mv.castle {
        None => true,
        Some(cm) => cm.rook_from.spec_valid() && cm.rook_to.spec_valid(),
    }
}

pub open spec fn spec_apply_base(m: BoardModel, mv: Move, l: Loc) -> Option<Piece> {
    if l == mv.to {
        Some(moved_piece(mv))
    } else if l == mv.from {
        None
    } else {
        match mv.attack {
            Some((pc, al)) => if l == al {
                None
            } else {
                m.at(l)
            },
            None => m.at(l),
        }
    }
}

/// The occupant of square `l` after `mv` is applied to `m`.
pub open spec fn spec_apply_at(m: BoardModel, mv: Move, l: Loc) -> Option<Piece> {
    match mv.castle {
        Some(cm) => if l == cm.rook_to {
            Some(cm.rook)
        } else if l == cm.rook_from {
            None
        } else {
            spec_apply_base(m, mv, l)
        },
        None => spec_apply_base(m, mv, l),
    }
}

/// Castling flags after a move: a king move, or a rook move from an original
/// corner, permanently sets the matching flag of the mover's color.
pub open spec fn spec_castling_after(m: BoardModel, mv: Move) -> CastleState {
    let p = moved_piece(mv);
    let qs = p.kind == Kind::King || (p.kind == Kind::Rook && mv.from == Loc(
        0 as isize,
        p.color.spec_back_rank() as isize,
    ));
    let ks = p.kind == Kind::King || (p.kind == Kind::Rook && mv.from == Loc(
        7 as isize,
        p.color.spec_back_rank() as isize,
    ));
    match p.color {
        Color::White => CastleState {
            white: (m.castling.white.0 || qs, m.castling.white.1 || ks),
            black: m.castling.black,
        },
        Color::Black => CastleState {
            white: m.castling.white,
            black: (m.castling.black.0 || qs, m.castling.black.1 || ks),
        },
    }
}

/// The en-passant file is set only by a two-square pawn push, to the
/// destination file, and cleared by every other move.
pub open spec fn spec_ep_after(mv: Move) -> Option<isize> {
    if moved_piece(mv).kind == Kind::Pawn && (mv.from.1 - mv.to.1 == 2 || mv.to.1 - mv.from.1
        == 2) {
        Some(mv.to.0)
    } else {
        None
    }
}

/// The no-progress counter resets on a capture, pawn move, or castle, and
/// otherwise increments.
pub open spec fn spec_progress_after(m: BoardModel, mv: Move) -> int {
    if mv.attack is None && mv.piece.kind != Kind::Pawn && mv.castle is None {
        m.moves_since_progress + 1
    } else {
        0
    }
}

/// The whole board after `mv` is applied to `m`.
pub open spec fn spec_apply(m: BoardModel, mv: Move) -> BoardModel {
    BoardModel {
        grid: Seq::new(64, |i: int| spec_apply_at(m, mv, loc_of(i))),
        castling: spec_castling_after(m, mv),
        moves_since_progress: spec_progress_after(m, mv),
        en_passant_file: spec_ep_after(mv),
        turn: m.turn.spec_opposite(),
    }
}

pub open spec fn spec_revert_base(m: BoardModel, mv: Move, l: Loc) -> Option<Piece> {
    if l == mv.to {
        None
    } else if l == mv.from {
        Some(mv.piece)
    } else {
        match mv.castle {
            Some(cm) => if l == cm.rook_from {
                Some(cm.rook)
            } else if l == cm.rook_to {
                None
            } else {
                m.at(l)
            },
            None => m.at(l),
        }
    }
}

/// The occupant of square `l` after `mv` is undone against `m`: the moved
/// piece returns to `from`, `to` is cleared, any captured piece is restored
/// to its own square, and a castling rook returns home.
pub open spec fn spec_revert_at(m: BoardModel, mv: Move, l: Loc) -> Option<Piece> {
    match mv.attack {
        Some((pc, al)) => if l == al {
            Some(pc)
        } else {
            spec_revert_base(m, mv, l)
        },
        None => spec_revert_base(m, mv, l),
    }
}

/// The whole board after `mv` is undone against `m`, with the scalar side
/// state restored from the snapshot `prev`.
pub open spec fn spec_revert(m: BoardModel, mv: Move, prev: Snapshot) -> BoardModel {
    BoardModel {
        grid: Seq::new(64, |i: int| spec_revert_at(m, mv, loc_of(i))),
        castling: prev.castling,
        moves_since_progress: prev.moves_since_progress as int,
        en_passant_file: prev.en_passant_file,
        turn: m.turn.spec_opposite(),
    }
}

impl Board {
    /// Mutates the board in place to reflect `mv`. Callers must only pass
    /// moves obtained from the generator against this same board state.
    pub fn apply_move(&mut self, mv: Move)
        requires
            old(self)@.wf(),
            move_valid(old(self)@, mv),
            old(self).moves_since_progress < usize::MAX,
        ensures
            final(self)@.wf(),
            final(self)@ == spec_apply(old(self)@, mv),
    {
        let ghost m = self@;
        let mut piece = self.at(mv.from).unwrap();
        self.set_at(mv.from, None);
        if let Some((_, position)) = mv.attack {
            proof {
                lemma_idx_injective_hint(mv);
            }
            self.set_at(position, None);
        }
        if let Some(promotion) = mv.promote {
            piece = promotion;
        }
        self.set_at(mv.to, Some(piece));
        if let Some(castle_move) = mv.castle {
            proof {
                lemma_idx_injective_hint(mv);
            }
            let rook = self.at(castle_move.rook_from).unwrap();
            self.set_at(castle_move.rook_from, None);
            self.set_at(castle_move.rook_to, Some(rook));
        }
        let qs_corner = matches!(piece.kind, Kind::Rook) && mv.from == Loc(
            0,
            piece.color.back_rank(),
        );
        let ks_corner = matches!(piece.kind, Kind::Rook) && mv.from == Loc(
            7,
            piece.color.back_rank(),
        );
        let king_moved = matches!(piece.kind, Kind::King);
        match piece.color {
            Color::White => {
                self.castling = CastleState {
                    white: (
                        self.castling.white.0 || king_moved || qs_corner,
                        self.castling.white.1 || king_moved || ks_corner,
                    ),
                    black: self.castling.black,
                };
            },
            Color::Black => {
                self.castling = CastleState {
                    white: self.castling.white,
                    black: (
                        self.castling.black.0 || king_moved || qs_corner,
                        self.castling.black.1 || king_moved || ks_corner,
                    ),
                };
            },
        }
        if matches!(piece.kind, Kind::Pawn) && (mv.from.rank() - mv.to.rank() == 2
            || mv.to.rank() - mv.from.rank() == 2) {
            self.en_passant_file = Some(mv.to.file());
        } else {
            self.en_passant_file = None;
        }
        self.turn = self.turn.opposite();
        if mv.attack.is_none() && !matches!(mv.piece.kind, Kind::Pawn) && mv.castle.is_none() {
            self.moves_since_progress = self.moves_since_progress + 1;
        } else {
            self.moves_since_progress = 0;
        }
        proof {
            assert forall|i: int| 0 <= i < 64 implies self@.grid[i] == spec_apply_at(
                m,
                mv,
                loc_of(i),
            ) by {
                let l = loc_of(i);
                lemma_loc_of_valid(i);
                lemma_idx_inverse(l);
                lemma_idx_injective_all(mv, l);
            }
            assert(self@.grid =~= spec_apply(m, mv).grid);
            assert(self@ =~= spec_apply(m, mv));
        }
    }

    /// The forward half of a speculative apply/revert pair: applies `mv` and
    /// returns the snapshot that `revert_move` needs to undo it exactly.
    pub fn consider_move(&mut self, mv: Move) -> (prev: Snapshot)
        requires
            old(self)@.wf(),
            move_valid(old(self)@, mv),
            old(self).moves_since_progress < usize::MAX,
        ensures
            final(self)@.wf(),
            final(self)@ == spec_apply(old(self)@, mv),
            prev.castling == old(self)@.castling,
            prev.en_passant_file == old(self)@.en_passant_file,
            prev.moves_since_progress as int == old(self)@.moves_since_progress,
    {
        let prev = Snapshot {
            castling: self.castling,
            en_passant_file: self.en_passant_file,
            moves_since_progress: self.moves_since_progress,
        };
        self.apply_move(mv);
        prev
    }

    /// Deterministically undoes `mv`, restoring the scalar side state from
    /// `prev`. Exactness against the forward application is the round-trip
    /// law `lemma_apply_then_revert`.
    pub fn revert_move(&mut self, mv: Move, prev: Snapshot)
        requires
            old(self)@.wf(),
            move_locs_valid(mv),
        ensures
            final(self)@.wf(),
            final(self)@ == spec_revert(old(self)@, mv, prev),
    {
        let ghost m = self@;
        if let Some(castle_move) = mv.castle {
            self.set_at(castle_move.rook_to, None);
            self.set_at(castle_move.rook_from, Some(castle_move.rook));
        }
        self.set_at(mv.from, Some(mv.piece));
        self.set_at(mv.to, None);
        if let Some((attacked, al)) = mv.attack {
            self.set_at(al, Some(attacked));
        }
        self.castling = prev.castling;
        self.en_passant_file = prev.en_passant_file;
        self.moves_since_progress = prev.moves_since_progress;
        self.turn = self.turn.opposite();
        proof {
            assert forall|i: int| 0 <= i < 64 implies self@.grid[i] == spec_revert_at(
                m,
                mv,
                loc_of(i),
            ) by {
                let l = loc_of(i);
                lemma_loc_of_valid(i);
                lemma_idx_inverse(l);
                lemma_idx_injective_all(mv, l);
            }
            assert(self@.grid =~= spec_revert(m, mv, prev).grid);
            assert(self@ =~= spec_revert(m, mv, prev));
        }
    }
}

pub proof fn lemma_loc_of_valid(i: int)
    requires
        0 <= i < 64,
    ensures
        loc_of(i).spec_valid(),
        loc_of(i).idx() == i,
{
    assert(0 <= i % 8 < 8 && 0 <= i / 8 < 8 && (i / 8) * 8 + i % 8 == i) by (nonlinear_arith)
        requires
            0 <= i < 64,
    ;
}

/// Distinguishes a square from each square a move writes, by comparing
/// rank-major indices.
proof fn lemma_idx_injective_all(mv: Move, l: Loc)
    requires
        l.spec_valid(),
    ensures
        move_locs_valid(mv) ==> {
            &&& (l.idx() == mv.from.idx() <==> l == mv.from)
            &&& (l.idx() == mv.to.idx() <==> l == mv.to)
            &&& match mv.attack {
                None => true,
                Some((pc, al)) => l.idx() == al.idx() <==> l == al,
            }
            &&& match mv.castle {
                None => true,
                Some(cm) => (l.idx() == cm.rook_from.idx() <==> l == cm.rook_from) && (l.idx()
                    == cm.rook_to.idx() <==> l == cm.rook_to),
            }
        },
{
    if move_locs_valid(mv) {
        if l.idx() == mv.from.idx() {
            lemma_idx_injective(l, mv.from);
        }
        if l.idx() == mv.to.idx() {
            lemma_idx_injective(l, mv.to);
        }
        match mv.attack {
            None => {},
            Some((pc, al)) => {
                if l.idx() == al.idx() {
                    lemma_idx_injective(l, al);
                }
            },
        }
        match mv.castle {
            None => {},
            Some(cm) => {
                if l.idx() == cm.rook_from.idx() {
                    lemma_idx_injective(l, cm.rook_from);
                }
                if l.idx() == cm.rook_to.idx() {
                    lemma_idx_injective(l, cm.rook_to);
                }
            },
        }
    }
}

/// Index-distinctness facts `apply_move` needs while it writes.
proof fn lemma_idx_injective_hint(mv: Move)
    ensures
        move_locs_valid(mv) ==> {
            &&& (mv.from.idx() == mv.to.idx() ==> mv.from == mv.to)
            &&& match mv.attack {
                None => true,
                Some((pc, al)) => (al.idx() == mv.from.idx() ==> al == mv.from) && (al.idx()
                    == mv.to.idx() ==> al == mv.to),
            }
            &&& match mv.castle {
                None => true,
                Some(cm) => {
                    &&& (cm.rook_from.idx() == mv.from.idx() ==> cm.rook_from == mv.from)
                    &&& (cm.rook_from.idx() == mv.to.idx() ==> cm.rook_from == mv.to)
                    &&& (cm.rook_from.idx() == cm.rook_to.idx() ==> cm.rook_from == cm.rook_to)
                    &&& match mv.attack {
                        None => true,
                        Some((pc, al)) => cm.rook_from.idx() == al.idx() ==> cm.rook_from == al,
                    }
                },
            }
        },
{
    if move_locs_valid(mv) {
        if mv.from.idx() == mv.to.idx() {
            lemma_idx_injective(mv.from, mv.to);
        }
        match mv.attack {
            None => {},
            Some((pc, al)) => {
                if al.idx() == mv.from.idx() {
                    lemma_idx_injective(al, mv.from);
                }
                if al.idx() == mv.to.idx() {
                    lemma_idx_injective(al, mv.to);
                }
            },
        }
        match mv.castle {
            None => {},
            Some(cm) => {
                if cm.rook_from.idx() == mv.from.idx() {
                    lemma_idx_injective(cm.rook_from, mv.from);
                }
                if cm.rook_from.idx() == mv.to.idx() {
                    lemma_idx_injective(cm.rook_from, mv.to);
                }
                if cm.rook_from.idx() == cm.rook_to.idx() {
                    lemma_idx_injective(cm.rook_from, cm.rook_to);
                }
                match mv.attack {
                    None => {},
                    Some((pc, al)) => {
                        if cm.rook_from.idx() == al.idx() {
                            lemma_idx_injective(cm.rook_from, al);
                        }
                    },
                }
            },
        }
    }
}

/// Round-trip law: for any board and any move the generator could produce
/// against it, reverting after applying restores the board exactly,
/// field for field. `mid` is the board the revert runs against; between
/// apply and revert a caller may have changed the en-passant file or the
/// counters, since the revert overwrites them from the snapshot.
pub proof fn lemma_apply_then_revert(m: BoardModel, mv: Move, prev: Snapshot, mid: BoardModel)
    requires
        m.wf(),
        move_valid(m, mv),
        prev.castling == m.castling,
        prev.en_passant_file == m.en_passant_file,
        prev.moves_since_progress as int == m.moves_since_progress,
        mid.grid == spec_apply(m, mv).grid,
        mid.turn == spec_apply(m, mv).turn,
    ensures
        spec_revert(mid, mv, prev) == m,
{
    assert forall|i: int| 0 <= i < 64 implies spec_revert(mid, mv, prev).grid[i] == m.grid[i] by {
        let l = loc_of(i);
        lemma_loc_of_valid(i);
        lemma_idx_inverse(l);
        lemma_idx_injective_all(mv, l);
        assert(mid.at(l) == spec_apply_at(m, mv, l));
    }
    assert(spec_revert(mid, mv, prev).grid =~= m.grid);
    assert(spec_revert(mid, mv, prev) =~= m);
}

/// Draw law: a fiftieth consecutive half-move that is neither a capture, a
/// pawn move, nor a castle drives the win state from Playing to Draw.
pub proof fn lemma_draw_after_fifty(m: BoardModel, mv: Move)
    requires
        m.wf(),
        move_valid(m, mv),
        mv.attack is None,
        mv.piece.kind != Kind::Pawn,
        mv.castle is None,
        m.moves_since_progress == 49,
    ensures
        spec_apply(m, mv).spec_win_state() == WinState::Draw,
{
}

/// Progress law: a capture resets the no-progress counter, so the resulting
/// position cannot be a draw by the fifty-move rule.
pub proof fn lemma_capture_resets_progress(m: BoardModel, mv: Move)
    requires
        m.wf(),
        move_valid(m, mv),
        mv.attack is Some,
    ensures
        spec_apply(m, mv).moves_since_progress == 0,
        spec_apply(m, mv).spec_win_state() != WinState::Draw,
{
}

/// En-passant window, opening half: a double pawn push records its file.
pub proof fn lemma_double_push_opens_window(m: BoardModel, mv: Move)
    requires
        m.wf(),
        move_valid(m, mv),
        moved_piece(mv).kind == Kind::Pawn,
        mv.from.1 - mv.to.1 == 2 || mv.to.1 - mv.from.1 == 2,
    ensures
        spec_apply(m, mv).en_passant_file == Some(mv.to.0),
{
}

/// En-passant window, closing half: the file vanishes after one subsequent
/// move, whatever that move is, unless that move is itself a double push.
pub proof fn lemma_window_closes(m: BoardModel, mv: Move)
    requires
        m.wf(),
        move_valid(m, mv),
        !(moved_piece(mv).kind == Kind::Pawn && (mv.from.1 - mv.to.1 == 2 || mv.to.1 - mv.from.1
            == 2)),
    ensures
        spec_apply(m, mv).en_passant_file is None,
{
}

} // verus!
