//! Pseudo-legal move generation: per-piece geometry, the own-color capture
//! filter, and the special-case expansion for promotion, en passant and
//! castling. No check or attack-safety validation is performed; the win
//! condition is king capture.

use vstd::prelude::*;

use crate::board::Board;
use crate::board::BoardModel;
use crate::board::CastleMove;
use crate::board::Color;
use crate::board::Kind;
use crate::board::Loc;
use crate::board::Move;
use crate::board::Piece;
use crate::board::loc_ofs;
use crate::board::move_valid;

verus! {

/// True when no piece of the side to move stands on `t`; the post-filter
/// keeps exactly these destinations.
pub open spec fn not_own(m: BoardModel, t: Loc) -> bool {
    match m.at(t) {
        Some(pc) => pc.color != m.turn,
        None => true,
    }
}

/// The move a base-phase destination becomes: its `attack` field records
/// whatever occupies the destination at generation time.
pub open spec fn mk_move(m: BoardModel, from: Loc, piece: Piece, to: Loc) -> Move {
    Move {
        player: piece.color,
        from: from,
        to: to,
        piece: piece,
        attack: match m.at(to) {
            Some(pc) => Some((pc, to)),
            None => None,
        },
        promote: None,
        castle: None,
    }
}

/// Base-phase conversion of candidate destinations to moves, discarding any
/// destination held by a piece of the mover's own color.
pub open spec fn targets_to_moves(m: BoardModel, from: Loc, piece: Piece, ts: Seq<Loc>) -> Seq<
    Move,
>
    decreases ts.len(),
{
    if ts.len() == 0 {
        Seq::empty()
    } else {
        targets_to_moves(m, from, piece, ts.drop_last()) + (if not_own(m, ts.last()) {
            seq![mk_move(m, from, piece, ts.last())]
        } else {
            Seq::empty()
        })
    }
}

/// Pawn destinations: one forward if empty; two forward from the starting
/// rank if both squares ahead are empty; the forward diagonals only when
/// occupied.
pub open spec fn pawn_targets(m: BoardModel, loc: Loc, c: Color) -> Seq<Loc> {
    let f = c.fdir();
    let t1 = loc_ofs(loc, 0, f);
    let t2 = loc_ofs(loc, 0, 2 * f);
    let a1 = loc_ofs(loc, -1, f);
    let a2 = loc_ofs(loc, 1, f);
    (if t1.spec_valid() && m.at(t1) is None {
        seq![t1]
    } else {
        Seq::empty()
    }) + (if t2.spec_valid() && t1.spec_valid() && m.at(t1) is None && m.at(t2) is None
        && c.spec_pawn_rank() == loc.1 {
        seq![t2]
    } else {
        Seq::empty()
    }) + (if a1.spec_valid() && m.at(a1) is Some {
        seq![a1]
    } else {
        Seq::empty()
    }) + (if a2.spec_valid() && m.at(a2) is Some {
        seq![a2]
    } else {
        Seq::empty()
    })
}

/// Fixed-offset destinations (knight and king), filtered to the board only.
pub open spec fn jump_targets(loc: Loc, ds: Seq<(int, int)>) -> Seq<Loc>
    decreases ds.len(),
{
    if ds.len() == 0 {
        Seq::empty()
    } else {
        jump_targets(loc, ds.drop_last()) + {
            let t = loc_ofs(loc, ds.last().0, ds.last().1);
            if t.spec_valid() {
                seq![t]
            } else {
                Seq::empty()
            }
        }
    }
}

pub open spec fn knight_deltas() -> Seq<(int, int)> {
    seq![(-2, -1), (-1, -2), (-2, 1), (1, -2), (2, -1), (-1, 2), (2, 1), (1, 2)]
}

pub open spec fn king_deltas() -> Seq<(int, int)> {
    seq![(1, 0), (0, 1), (-1, 0), (0, -1), (1, 1), (1, -1), (-1, -1), (-1, 1)]
}

/// A ray from `loc` along `(dx, dy)`, starting at step `off`, up to 7 steps:
/// stops before the edge or a friendly piece, and on (including) an enemy
/// piece.
pub open spec fn ray_targets(m: BoardModel, loc: Loc, c: Color, dx: int, dy: int, off: int) -> Seq<
    Loc,
>
    decreases 8 - off,
{
    if off < 1 || off > 7 {
        Seq::empty()
    } else {
        let t = loc_ofs(loc, dx * off, dy * off);
        if !t.spec_valid() {
            Seq::empty()
        } else {
            match m.at(t) {
                Some(pc) => if pc.color == c {
                    Seq::empty()
                } else {
                    seq![t]
                },
                None => seq![t] + ray_targets(m, loc, c, dx, dy, off + 1),
            }
        }
    }
}

pub open spec fn rook_dirs() -> Seq<(int, int)> {
    seq![(1, 0), (0, 1), (-1, 0), (0, -1)]
}

pub open spec fn bishop_dirs() -> Seq<(int, int)> {
    seq![(1, 1), (1, -1), (-1, -1), (-1, 1)]
}

pub open spec fn ray_targets_dirs(m: BoardModel, loc: Loc, c: Color, ds: Seq<(int, int)>) -> Seq<
    Loc,
>
    decreases ds.len(),
{
    if ds.len() == 0 {
        Seq::empty()
    } else {
        ray_targets_dirs(m, loc, c, ds.drop_last()) + ray_targets(
            m,
            loc,
            c,
            ds.last().0,
            ds.last().1,
            1,
        )
    }
}

/// The base-phase candidate destinations of the piece on `loc`.
pub open spec fn base_targets(m: BoardModel, loc: Loc, piece: Piece) -> Seq<Loc> {
    match piece.kind {
        Kind::Pawn => pawn_targets(m, loc, piece.color),
        Kind::Rook => ray_targets_dirs(m, loc, piece.color, rook_dirs()),
        Kind::Knight => jump_targets(loc, knight_deltas()),
        Kind::Bishop => ray_targets_dirs(m, loc, piece.color, bishop_dirs()),
        Kind::Queen => ray_targets_dirs(m, loc, piece.color, rook_dirs() + bishop_dirs()),
        Kind::King => jump_targets(loc, king_deltas()),
    }
}

pub open spec fn set_promotion(mv: Move, p: Piece) -> Move {
    Move { promote: Some(p), ..mv }
}

pub open spec fn promote_with(ms: Seq<Move>, p: Piece) -> Seq<Move>
    decreases ms.len(),
{
    if ms.len() == 0 {
        Seq::empty()
    } else {
        promote_with(ms.drop_last(), p) + seq![set_promotion(ms.last(), p)]
    }
}

/// Promotion expansion: each far-rank pawn move becomes four, one per
/// promotable kind, in the order Rook, Knight, Bishop, Queen.
pub open spec fn promote_all(ms: Seq<Move>, c: Color) -> Seq<Move> {
    promote_with(ms, Piece { kind: Kind::Rook, color: c }) + promote_with(
        ms,
        Piece { kind: Kind::Knight, color: c },
    ) + promote_with(ms, Piece { kind: Kind::Bishop, color: c }) + promote_with(
        ms,
        Piece { kind: Kind::Queen, color: c },
    )
}

/// The far rank: a pawn arriving here must promote.
pub open spec fn promote_rank(c: Color) -> int {
    c.spec_pawn_rank() + 5 * c.fdir()
}

/// The rank a pawn must stand on for an en-passant capture.
pub open spec fn ep_rank(c: Color) -> int {
    c.spec_pawn_rank() + 3 * c.fdir()
}

/// The extra en-passant capture, synthesized when the board's en-passant
/// file is one file away from the pawn and the pawn stands on the matching
/// rank; its captured square is the adjacent square, not the destination.
pub open spec fn ep_moves(m: BoardModel, loc: Loc, piece: Piece) -> Seq<Move> {
    let c = piece.color;
    match m.en_passant_file {
        None => Seq::empty(),
        Some(f) => if (f == loc.0 + 1 || f == loc.0 - 1) && ep_rank(c) == loc.1 {
            let asq = Loc(f, loc.1);
            let to = Loc(f, (loc.1 + c.fdir()) as isize);
            if asq.spec_valid() && to.spec_valid() && m.at(to) is None {
                match m.at(asq) {
                    Some(pc) => seq![
                        Move {
                            player: c,
                            from: loc,
                            to: to,
                            piece: piece,
                            attack: Some((pc, asq)),
                            promote: None,
                            castle: None,
                        },
                    ],
                    None => Seq::empty(),
                }
            } else {
                Seq::empty()
            }
        } else {
            Seq::empty()
        },
    }
}

pub open spec fn qs_gap(m: BoardModel, l: Loc) -> bool {
    &&& m.at(Loc(1 as isize, l.1)) is None
    &&& m.at(Loc(2 as isize, l.1)) is None
    &&& m.at(Loc(3 as isize, l.1)) is None
}

pub open spec fn ks_gap(m: BoardModel, l: Loc) -> bool {
    &&& m.at(Loc(5 as isize, l.1)) is None
    &&& m.at(Loc(6 as isize, l.1)) is None
}

/// One castling side: a two-square king move carrying the rook's relocation,
/// available while the side's flag is still unset, a rook (of either color)
/// still stands on its origin square, every square strictly between king and
/// rook is empty, and the king's destination and the rook's destination are
/// free.
pub open spec fn castle_side(
    m: BoardModel,
    loc: Loc,
    piece: Piece,
    rook_file: int,
    dir: int,
    flag: bool,
    gap_ok: bool,
) -> Seq<Move> {
    if flag {
        Seq::empty()
    } else {
        let rook_from = Loc(rook_file as isize, loc.1);
        match m.at(rook_from) {
            None => Seq::empty(),
            Some(rook) => {
                let to = loc_ofs(loc, 2 * dir, 0);
                let rook_to = loc_ofs(loc, dir, 0);
                if rook.kind == Kind::Rook && gap_ok && to.spec_valid() && m.at(to) is None
                    && m.at(rook_to) is None && rook_from != loc {
                    seq![
                        Move {
                            player: piece.color,
                            from: loc,
                            to: to,
                            piece: piece,
                            attack: None,
                            promote: None,
                            castle: Some(
                                CastleMove { rook: rook, rook_from: rook_from, rook_to: rook_to },
                            ),
                        },
                    ]
                } else {
                    Seq::empty()
                }
            },
        }
    }
}

pub open spec fn castle_moves(m: BoardModel, loc: Loc, piece: Piece) -> Seq<Move> {
    castle_side(m, loc, piece, 0, -1, m.castling.of(piece.color).0, qs_gap(m, loc)) + castle_side(
        m,
        loc,
        piece,
        7,
        1,
        m.castling.of(piece.color).1,
        ks_gap(m, loc),
    )
}

/// Everything the generator returns for the piece on `loc`: empty when the
/// square is empty or holds an opponent piece; otherwise the base moves,
/// promotion-expanded for a far-rank pawn, plus any en-passant capture and
/// any castling moves.
pub open spec fn spec_gen(m: BoardModel, loc: Loc) -> Seq<Move>
    recommends
        m.wf(),
        loc.spec_valid(),
{
    match m.at(loc) {
        None => Seq::empty(),
        Some(piece) => if piece.color != m.turn {
            Seq::empty()
        } else {
            let base = targets_to_moves(m, loc, piece, base_targets(m, loc, piece));
            match piece.kind {
                Kind::Pawn => (if loc.1 == promote_rank(piece.color) {
                    promote_all(base, piece.color)
                } else {
                    base
                }) + ep_moves(m, loc, piece),
                Kind::King => base + castle_moves(m, loc, piece),
                _ => base,
            }
        },
    }
}

impl Board {
    /// Walks one ray, appending destinations to `v`.
    fn push_ray(&self, v: &mut Vec<Loc>, loc: Loc, color: Color, dx: isize, dy: isize)
        requires
            self@.wf(),
            loc.is_valid(),
            -1 <= dx <= 1,
            -1 <= dy <= 1,
            dx != 0 || dy != 0,
        ensures
            final(v)@ == old(v)@ + ray_targets(self@, loc, color, dx as int, dy as int, 1),
            forall|j: int|
                old(v)@.len() <= j < final(v)@.len() ==> (#[trigger] final(v)@[j]).spec_valid()
                    && final(v)@[j] != loc,
    {
        let ghost full = ray_targets(self@, loc, color, dx as int, dy as int, 1);
        let ghost v0 = v@;
        let mut off: isize = 1;
        while off < 8
            invariant
                self@.wf(),
                loc.is_valid(),
                -1 <= dx <= 1,
                -1 <= dy <= 1,
                dx != 0 || dy != 0,
                1 <= off <= 8,
                v@ + ray_targets(self@, loc, color, dx as int, dy as int, off as int) == v0
                    + full,
                forall|j: int|
                    v0.len() <= j < v@.len() ==> (#[trigger] v@[j]).spec_valid() && v@[j] != loc,
            decreases 8 - off,
        {
            proof {
                assert(dx * off != 0 || dy * off != 0) by (nonlinear_arith)
                    requires
                        dx != 0 || dy != 0,
                        off >= 1,
                ;
                assert(-8 <= dx * off <= 8 && -8 <= dy * off <= 8) by (nonlinear_arith)
                    requires
                        -1 <= dx <= 1,
                        -1 <= dy <= 1,
                        1 <= off < 8,
                ;
            }
            let t = Loc(loc.0 + dx * off, loc.1 + dy * off);
            if !t.is_valid() {
                off = 8;
            } else {
                match self.at(t) {
                    Some(pc) => {
                        if pc.color != color {
                            v.push(t);
                        }
                        off = 8;
                    },
                    None => {
                        let ghost rest = ray_targets(
                            self@,
                            loc,
                            color,
                            dx as int,
                            dy as int,
                            off + 1,
                        );
                        v.push(t);
                        proof {
                            assert(v@ + rest =~= v0 + full);
                        }
                        off = off + 1;
                    },
                }
            }
        }
    }

    /// Appends a copy of every move in `ms` with its `promote` field set.
    fn push_promoted(&self, v: &mut Vec<Move>, ms: &Vec<Move>, p: Piece)
        requires
            self@.wf(),
            forall|j: int| 0 <= j < ms@.len() ==> move_valid(self@, #[trigger] ms@[j]),
        ensures
            final(v)@ == old(v)@ + promote_with(ms@, p),
            forall|j: int|
                old(v)@.len() <= j < final(v)@.len() ==> move_valid(
                    self@,
                    #[trigger] final(v)@[j],
                ),
    {
        let ghost v0 = v@;
        let mut i: usize = 0;
        while i < ms.len()
            invariant
                self@.wf(),
                forall|j: int| 0 <= j < ms@.len() ==> move_valid(self@, #[trigger] ms@[j]),
                i <= ms@.len(),
                v@ == v0 + promote_with(ms@.take(i as int), p),
                forall|j: int|
                    v0.len() <= j < v@.len() ==> move_valid(self@, #[trigger] v@[j]),
            decreases ms@.len() - i,
        {
            let mut mv = ms[i];
            mv.promote = Some(p);
            v.push(mv);
            proof {
                assert(ms@.take(i + 1 as int).drop_last() =~= ms@.take(i as int));
                assert(ms@.take(i + 1 as int).last() == ms@[i as int]);
                assert(v@ =~= v0 + promote_with(ms@.take(i + 1 as int), p));
                assert(move_valid(self@, mv));
            }
            i = i + 1;
        }
        proof {
            assert(ms@.take(ms@.len() as int) =~= ms@);
        }
    }


    /// Pawn base-phase destinations.
    fn pawn_phase(&self, loc: Loc, c: Color) -> (ts: Vec<Loc>)
        requires
            self@.wf(),
            loc.is_valid(),
        ensures
            ts@ == pawn_targets(self@, loc, c),
            forall|j: int|
                0 <= j < ts@.len() ==> (#[trigger] ts@[j]).spec_valid() && ts@[j] != loc,
    {
        let mut ts: Vec<Loc> = Vec::new();
        let fwd = c.forwardv();
        let t1 = loc.plus(fwd);
        if t1.is_valid() && self.at(t1).is_none() {
            ts.push(t1);
        }
        let t2 = loc.plus(fwd.times(2));
        if t2.is_valid() && t1.is_valid() && self.at(t1).is_none() && self.at(t2).is_none()
            && c.pawn_rank() == loc.rank() {
            ts.push(t2);
        }
        let a1 = loc.plus(Loc(-1, c.forward()));
        if a1.is_valid() && self.at(a1).is_some() {
            ts.push(a1);
        }
        let a2 = loc.plus(Loc(1, c.forward()));
        if a2.is_valid() && self.at(a2).is_some() {
            ts.push(a2);
        }
        proof {
            assert(ts@ =~= pawn_targets(self@, loc, c));
        }
        ts
    }

    /// Knight base-phase destinations.
    fn knight_phase(&self, loc: Loc) -> (ts: Vec<Loc>)
        requires
            loc.is_valid(),
        ensures
            ts@ == jump_targets(loc, knight_deltas()),
            forall|j: int|
                0 <= j < ts@.len() ==> (#[trigger] ts@[j]).spec_valid() && ts@[j] != loc,
    {
        let mut ts: Vec<Loc> = Vec::new();
        push_jump(&mut ts, loc, -2, -1);
        push_jump(&mut ts, loc, -1, -2);
        push_jump(&mut ts, loc, -2, 1);
        push_jump(&mut ts, loc, 1, -2);
        push_jump(&mut ts, loc, 2, -1);
        push_jump(&mut ts, loc, -1, 2);
        push_jump(&mut ts, loc, 2, 1);
        push_jump(&mut ts, loc, 1, 2);
        proof {
            reveal_with_fuel(jump_targets, 9);
            assert(ts@ =~= jump_targets(loc, knight_deltas()));
        }
        ts
    }

    /// King base-phase destinations (castling is a later phase).
    fn king_phase(&self, loc: Loc) -> (ts: Vec<Loc>)
        requires
            loc.is_valid(),
        ensures
            ts@ == jump_targets(loc, king_deltas()),
            forall|j: int|
                0 <= j < ts@.len() ==> (#[trigger] ts@[j]).spec_valid() && ts@[j] != loc,
    {
        let mut ts: Vec<Loc> = Vec::new();
        push_jump(&mut ts, loc, 1, 0);
        push_jump(&mut ts, loc, 0, 1);
        push_jump(&mut ts, loc, -1, 0);
        push_jump(&mut ts, loc, 0, -1);
        push_jump(&mut ts, loc, 1, 1);
        push_jump(&mut ts, loc, 1, -1);
        push_jump(&mut ts, loc, -1, -1);
        push_jump(&mut ts, loc, -1, 1);
        proof {
            reveal_with_fuel(jump_targets, 9);
            assert(ts@ =~= jump_targets(loc, king_deltas()));
        }
        ts
    }

    /// Rook base-phase destinations: the four orthogonal rays.
    fn rook_phase(&self, loc: Loc, c: Color) -> (ts: Vec<Loc>)
        requires
            self@.wf(),
            loc.is_valid(),
        ensures
            ts@ == ray_targets_dirs(self@, loc, c, rook_dirs()),
            forall|j: int|
                0 <= j < ts@.len() ==> (#[trigger] ts@[j]).spec_valid() && ts@[j] != loc,
    {
        let mut ts: Vec<Loc> = Vec::new();
        self.push_ray(&mut ts, loc, c, 1, 0);
        self.push_ray(&mut ts, loc, c, 0, 1);
        self.push_ray(&mut ts, loc, c, -1, 0);
        self.push_ray(&mut ts, loc, c, 0, -1);
        proof {
            reveal_with_fuel(ray_targets_dirs, 5);
            assert(ts@ =~= ray_targets_dirs(self@, loc, c, rook_dirs()));
        }
        ts
    }

    /// Bishop base-phase destinations: the four diagonal rays.
    fn bishop_phase(&self, loc: Loc, c: Color) -> (ts: Vec<Loc>)
        requires
            self@.wf(),
            loc.is_valid(),
        ensures
            ts@ == ray_targets_dirs(self@, loc, c, bishop_dirs()),
            forall|j: int|
                0 <= j < ts@.len() ==> (#[trigger] ts@[j]).spec_valid() && ts@[j] != loc,
    {
        let mut ts: Vec<Loc> = Vec::new();
        self.push_ray(&mut ts, loc, c, 1, 1);
        self.push_ray(&mut ts, loc, c, 1, -1);
        self.push_ray(&mut ts, loc, c, -1, -1);
        self.push_ray(&mut ts, loc, c, -1, 1);
        proof {
            reveal_with_fuel(ray_targets_dirs, 5);
            assert(ts@ =~= ray_targets_dirs(self@, loc, c, bishop_dirs()));
        }
        ts
    }

    /// Queen base-phase destinations: all eight rays, orthogonals first.
    fn queen_phase(&self, loc: Loc, c: Color) -> (ts: Vec<Loc>)
        requires
            self@.wf(),
            loc.is_valid(),
        ensures
            ts@ == ray_targets_dirs(self@, loc, c, rook_dirs() + bishop_dirs()),
            forall|j: int|
                0 <= j < ts@.len() ==> (#[trigger] ts@[j]).spec_valid() && ts@[j] != loc,
    {
        let mut ts: Vec<Loc> = Vec::new();
        self.push_ray(&mut ts, loc, c, 1, 0);
        self.push_ray(&mut ts, loc, c, 0, 1);
        self.push_ray(&mut ts, loc, c, -1, 0);
        self.push_ray(&mut ts, loc, c, 0, -1);
        self.push_ray(&mut ts, loc, c, 1, 1);
        self.push_ray(&mut ts, loc, c, 1, -1);
        self.push_ray(&mut ts, loc, c, -1, -1);
        self.push_ray(&mut ts, loc, c, -1, 1);
        proof {
            reveal_with_fuel(ray_targets_dirs, 9);
            assert(ts@ =~= ray_targets_dirs(self@, loc, c, rook_dirs() + bishop_dirs()));
        }
        ts
    }

    /// Base-phase candidate destinations for the piece on `loc`.
    fn base_phase(&self, loc: Loc, piece: Piece) -> (ts: Vec<Loc>)
        requires
            self@.wf(),
            loc.is_valid(),
        ensures
            ts@ == base_targets(self@, loc, piece),
            forall|j: int|
                0 <= j < ts@.len() ==> (#[trigger] ts@[j]).spec_valid() && ts@[j] != loc,
    {
        match piece.kind {
            Kind::Pawn => self.pawn_phase(loc, piece.color),
            Kind::Rook => self.rook_phase(loc, piece.color),
            Kind::Knight => self.knight_phase(loc),
            Kind::Bishop => self.bishop_phase(loc, piece.color),
            Kind::Queen => self.queen_phase(loc, piece.color),
            Kind::King => self.king_phase(loc),
        }
    }

    /// Filter phase: destinations become moves, own-color captures drop out.
    fn convert_targets(&self, loc: Loc, piece: Piece, ts: &Vec<Loc>) -> (moves: Vec<Move>)
        requires
            self@.wf(),
            loc.is_valid(),
            self@.at(loc) == Some(piece),
            piece.color == self@.turn,
            forall|j: int|
                0 <= j < ts@.len() ==> (#[trigger] ts@[j]).spec_valid() && ts@[j] != loc,
        ensures
            moves@ == targets_to_moves(self@, loc, piece, ts@),
            forall|i: int|
                0 <= i < moves@.len() ==> move_valid(self@, #[trigger] moves@[i]),
    {
        let mut moves: Vec<Move> = Vec::new();
        let mut i: usize = 0;
        while i < ts.len()
            invariant
                self@.wf(),
                loc.is_valid(),
                self@.at(loc) == Some(piece),
                piece.color == self@.turn,
                i <= ts@.len(),
                forall|j: int|
                    0 <= j < ts@.len() ==> (#[trigger] ts@[j]).spec_valid() && ts@[j] != loc,
                moves@ == targets_to_moves(self@, loc, piece, ts@.take(i as int)),
                forall|j: int|
                    0 <= j < moves@.len() ==> move_valid(self@, #[trigger] moves@[j]),
            decreases ts@.len() - i,
        {
            let t = ts[i];
            let keep: bool;
            let attack: Option<(Piece, Loc)>;
            match self.at(t) {
                Some(pc) => {
                    attack = Some((pc, t));
                    keep = pc.color != self.turn;
                },
                None => {
                    attack = None;
                    keep = true;
                },
            }
            if keep {
                let mv = Move {
                    player: piece.color,
                    from: loc,
                    to: t,
                    piece: piece,
                    attack: attack,
                    promote: None,
                    castle: None,
                };
                moves.push(mv);
                proof {
                    assert(mv == mk_move(self@, loc, piece, t));
                    assert(move_valid(self@, mv));
                }
            }
            proof {
                assert(ts@.take(i + 1 as int).drop_last() =~= ts@.take(i as int));
                assert(ts@.take(i + 1 as int).last() == ts@[i as int]);
                assert(moves@ =~= targets_to_moves(self@, loc, piece, ts@.take(i + 1 as int)));
            }
            i = i + 1;
        }
        proof {
            assert(ts@.take(ts@.len() as int) =~= ts@);
        }
        moves
    }

    /// Special phase for a pawn: promotion expansion on the far rank, then
    /// any en-passant capture.
    fn pawn_specials(&self, base: Vec<Move>, loc: Loc, piece: Piece) -> (moves: Vec<Move>)
        requires
            self@.wf(),
            loc.is_valid(),
            self@.at(loc) == Some(piece),
            piece.color == self@.turn,
            piece.kind == Kind::Pawn,
            forall|j: int| 0 <= j < base@.len() ==> move_valid(self@, #[trigger] base@[j]),
        ensures
            moves@ == (if loc.1 == promote_rank(piece.color) {
                promote_all(base@, piece.color)
            } else {
                base@
            }) + ep_moves(self@, loc, piece),
            forall|i: int|
                0 <= i < moves@.len() ==> move_valid(self@, #[trigger] moves@[i]),
    {
        let ghost b0 = base@;
        let mut moves = base;
        let pr = piece.color.pawn_rank() + 5 * piece.color.forward();
        if pr == loc.rank() {
            let mut expanded: Vec<Move> = Vec::new();
            self.push_promoted(&mut expanded, &moves, Piece { kind: Kind::Rook, color: piece.color });
            self.push_promoted(
                &mut expanded,
                &moves,
                Piece { kind: Kind::Knight, color: piece.color },
            );
            self.push_promoted(
                &mut expanded,
                &moves,
                Piece { kind: Kind::Bishop, color: piece.color },
            );
            self.push_promoted(
                &mut expanded,
                &moves,
                Piece { kind: Kind::Queen, color: piece.color },
            );
            proof {
                assert(expanded@ =~= promote_all(b0, piece.color));
            }
            moves = expanded;
        }
        let er = piece.color.pawn_rank() + 3 * piece.color.forward();
        match self.en_passant_file {
            Some(f) => {
                if (f == loc.file() + 1 || f == loc.file() - 1) && er == loc.rank() {
                    let asq = Loc(f, loc.rank());
                    let to = Loc(f, loc.rank() + piece.color.forward());
                    if asq.is_valid() && to.is_valid() && self.at(to).is_none() {
                        match self.at(asq) {
                            Some(pc) => {
                                let mv = Move {
                                    player: piece.color,
                                    from: loc,
                                    to: to,
                                    piece: piece,
                                    attack: Some((pc, asq)),
                                    promote: None,
                                    castle: None,
                                };
                                moves.push(mv);
                                proof {
                                    assert(move_valid(self@, mv));
                                }
                            },
                            None => {},
                        }
                    }
                }
            },
            None => {},
        }
        proof {
            assert(moves@ =~= (if loc.1 == promote_rank(piece.color) {
                promote_all(b0, piece.color)
            } else {
                b0
            }) + ep_moves(self@, loc, piece));
        }
        moves
    }

    /// Special phase for a king: appends the available castling moves,
    /// queenside first.
    fn king_castles(&self, v: &mut Vec<Move>, loc: Loc, piece: Piece)
        requires
            self@.wf(),
            loc.is_valid(),
            self@.at(loc) == Some(piece),
            piece.color == self@.turn,
        ensures
            final(v)@ == old(v)@ + castle_moves(self@, loc, piece),
            forall|j: int|
                old(v)@.len() <= j < final(v)@.len() ==> move_valid(
                    self@,
                    #[trigger] final(v)@[j],
                ),
    {
        let ghost v0 = v@;
        let qflag = match piece.color {
            Color::White => self.castling.white.0,
            Color::Black => self.castling.black.0,
        };
        if !qflag {
            let rook_from = Loc(0, loc.rank());
            match self.at(rook_from) {
                Some(rook) => {
                    let gap = self.at(Loc(1, loc.rank())).is_none() && self.at(
                        Loc(2, loc.rank()),
                    ).is_none() && self.at(Loc(3, loc.rank())).is_none();
                    let to = Loc(loc.file() - 2, loc.rank());
                    let rook_to = Loc(loc.file() - 1, loc.rank());
                    if matches!(rook.kind, Kind::Rook) && gap && to.is_valid() && self.at(
                        to,
                    ).is_none() && self.at(rook_to).is_none() && !(rook_from == loc) {
                        let mv = Move {
                            player: piece.color,
                            from: loc,
                            to: to,
                            piece: piece,
                            attack: None,
                            promote: None,
                            castle: Some(
                                CastleMove { rook: rook, rook_from: rook_from, rook_to: rook_to },
                            ),
                        };
                        v.push(mv);
                        proof {
                            assert(move_valid(self@, mv));
                        }
                    }
                },
                None => {},
            }
        }
        proof {
            assert(v@ =~= v0 + castle_side(
                self@,
                loc,
                piece,
                0,
                -1,
                self@.castling.of(piece.color).0,
                qs_gap(self@, loc),
            ));
        }
        let ghost v1 = v@;
        let kflag = match piece.color {
            Color::White => self.castling.white.1,
            Color::Black => self.castling.black.1,
        };
        if !kflag {
            let rook_from = Loc(7, loc.rank());
            match self.at(rook_from) {
                Some(rook) => {
                    let gap = self.at(Loc(5, loc.rank())).is_none() && self.at(
                        Loc(6, loc.rank()),
                    ).is_none();
                    let to = Loc(loc.file() + 2, loc.rank());
                    let rook_to = Loc(loc.file() + 1, loc.rank());
                    if matches!(rook.kind, Kind::Rook) && gap && to.is_valid() && self.at(
                        to,
                    ).is_none() && self.at(rook_to).is_none() && !(rook_from == loc) {
                        let mv = Move {
                            player: piece.color,
                            from: loc,
                            to: to,
                            piece: piece,
                            attack: None,
                            promote: None,
                            castle: Some(
                                CastleMove { rook: rook, rook_from: rook_from, rook_to: rook_to },
                            ),
                        };
                        v.push(mv);
                        proof {
                            assert(move_valid(self@, mv));
                        }
                    }
                },
                None => {},
            }
        }
        proof {
            assert(v@ =~= v0 + castle_moves(self@, loc, piece));
        }
    }

    /// Enumerates the pseudo-legal moves for the piece on `loc`. If the
    /// square is empty or the occupant is not the side to move, the list is
    /// empty: a normal outcome, not a failure. Every returned move is valid
    /// against this board in the sense of `move_valid`.
    pub fn get_moves_for(&self, loc: Loc) -> (moves: Vec<Move>)
        requires
            self@.wf(),
            loc.is_valid(),
        ensures
            moves@ == spec_gen(self@, loc),
            forall|i: int|
                0 <= i < moves@.len() ==> move_valid(self@, #[trigger] moves@[i]),
    {
        let piece = match self.at(loc) {
            Some(p) => p,
            None => {
                return Vec::new();
            },
        };
        if piece.color != self.turn {
            return Vec::new();
        }
        let ts = self.base_phase(loc, piece);
        let base = self.convert_targets(loc, piece, &ts);
        match piece.kind {
            Kind::Pawn => {
                let moves = self.pawn_specials(base, loc, piece);
                proof {
                    assert(moves@ =~= spec_gen(self@, loc));
                }
                moves
            },
            Kind::King => {
                let mut moves = base;
                self.king_castles(&mut moves, loc, piece);
                proof {
                    assert(moves@ =~= spec_gen(self@, loc));
                }
                moves
            },
            _ => {
                proof {
                    assert(base@ =~= spec_gen(self@, loc));
                }
                base
            },
        }
    }
}

fn push_jump(v: &mut Vec<Loc>, loc: Loc, dx: isize, dy: isize)
    requires
        loc.is_valid(),
        -2 <= dx <= 2,
        -2 <= dy <= 2,
        dx != 0 || dy != 0,
    ensures
        final(v)@ == old(v)@ + ({
            let t = loc_ofs(loc, dx as int, dy as int);
            if t.spec_valid() {
                seq![t]
            } else {
                Seq::<Loc>::empty()
            }
        }),
        forall|j: int|
            old(v)@.len() <= j < final(v)@.len() ==> (#[trigger] final(v)@[j]).spec_valid()
                && final(v)@[j] != loc,
{
    let t = Loc(loc.0 + dx, loc.1 + dy);
    if t.is_valid() {
        v.push(t);
    }
}

/// A board's move list and pawn geometry depend only on the grid and the
/// side to move, so two boards that agree on those generate the same base
/// moves.
proof fn lemma_t2m_same_board(
    m1: BoardModel,
    m2: BoardModel,
    from: Loc,
    piece: Piece,
    ts: Seq<Loc>,
)
    requires
        m1.grid == m2.grid,
        m1.turn == m2.turn,
    ensures
        targets_to_moves(m1, from, piece, ts) == targets_to_moves(m2, from, piece, ts),
    decreases ts.len(),
{
    if ts.len() > 0 {
        lemma_t2m_same_board(m1, m2, from, piece, ts.drop_last());
    }
}

/// Move-count law for knights: on a square with all eight knight offsets on
/// the board and none of them held by the mover's own piece, exactly eight
/// moves are generated.
pub proof fn lemma_knight_interior_count(m: BoardModel, loc: Loc)
    requires
        m.wf(),
        loc.spec_valid(),
        2 <= loc.0 <= 5,
        2 <= loc.1 <= 5,
        m.at(loc) == Some(Piece { kind: Kind::Knight, color: m.turn }),
        forall|j: int|
            0 <= j < 8 ==> not_own(
                m,
                loc_ofs(loc, knight_deltas()[j].0, knight_deltas()[j].1),
            ),
    ensures
        spec_gen(m, loc).len() == 8,
{
    reveal_with_fuel(jump_targets, 9);
    reveal_with_fuel(targets_to_moves, 9);
    let ds = knight_deltas();
    assert(not_own(m, loc_ofs(loc, -2, -1))) by {
        assert(ds[0] == (-2int, -1int));
    }
    assert(not_own(m, loc_ofs(loc, -1, -2))) by {
        assert(ds[1] == (-1int, -2int));
    }
    assert(not_own(m, loc_ofs(loc, -2, 1))) by {
        assert(ds[2] == (-2int, 1int));
    }
    assert(not_own(m, loc_ofs(loc, 1, -2))) by {
        assert(ds[3] == (1int, -2int));
    }
    assert(not_own(m, loc_ofs(loc, 2, -1))) by {
        assert(ds[4] == (2int, -1int));
    }
    assert(not_own(m, loc_ofs(loc, -1, 2))) by {
        assert(ds[5] == (-1int, 2int));
    }
    assert(not_own(m, loc_ofs(loc, 2, 1))) by {
        assert(ds[6] == (2int, 1int));
    }
    assert(not_own(m, loc_ofs(loc, 1, 2))) by {
        assert(ds[7] == (1int, 2int));
    }
    assert(spec_gen(m, loc).len() == 8);
}

/// Move-count law at the corner: a knight on (0,0) has exactly two squares
/// on the board, so exactly two moves are generated when neither is held by
/// the mover's own piece.
pub proof fn lemma_knight_corner_count(m: BoardModel)
    requires
        m.wf(),
        m.at(Loc(0 as isize, 0 as isize)) == Some(Piece { kind: Kind::Knight, color: m.turn }),
        not_own(m, Loc(2 as isize, 1 as isize)),
        not_own(m, Loc(1 as isize, 2 as isize)),
    ensures
        spec_gen(m, Loc(0 as isize, 0 as isize)).len() == 2,
{
    reveal_with_fuel(jump_targets, 9);
    reveal_with_fuel(targets_to_moves, 9);
    let loc = Loc(0 as isize, 0 as isize);
    assert(jump_targets(loc, knight_deltas()) =~= seq![
        Loc(2 as isize, 1 as isize),
        Loc(1 as isize, 2 as isize),
    ]);
    assert(spec_gen(m, loc).len() == 2);
}

/// Promotion completeness: a White pawn on rank 6 whose forward square is
/// empty and whose forward diagonals offer no capture generates exactly four
/// moves, the forward push expanded once per promotable kind, in the order
/// Rook, Knight, Bishop, Queen.
pub proof fn lemma_promotion_completeness(m: BoardModel, loc: Loc)
    requires
        m.wf(),
        loc.spec_valid(),
        loc.1 == 6,
        m.turn == Color::White,
        m.at(loc) == Some(Piece { kind: Kind::Pawn, color: Color::White }),
        m.at(loc_ofs(loc, 0, 1)) is None,
        loc_ofs(loc, -1, 1).spec_valid() ==> (m.at(loc_ofs(loc, -1, 1)) is None || !not_own(
            m,
            loc_ofs(loc, -1, 1),
        )),
        loc_ofs(loc, 1, 1).spec_valid() ==> (m.at(loc_ofs(loc, 1, 1)) is None || !not_own(
            m,
            loc_ofs(loc, 1, 1),
        )),
    ensures
        spec_gen(m, loc).len() == 4,
        forall|i: int|
            0 <= i < 4 ==> (#[trigger] spec_gen(m, loc)[i]).to == loc_ofs(loc, 0, 1)
                && spec_gen(m, loc)[i].from == loc,
        spec_gen(m, loc)[0].promote == Some(Piece { kind: Kind::Rook, color: Color::White }),
        spec_gen(m, loc)[1].promote == Some(Piece { kind: Kind::Knight, color: Color::White }),
        spec_gen(m, loc)[2].promote == Some(Piece { kind: Kind::Bishop, color: Color::White }),
        spec_gen(m, loc)[3].promote == Some(Piece { kind: Kind::Queen, color: Color::White }),
{
    reveal_with_fuel(targets_to_moves, 5);
    reveal_with_fuel(promote_with, 3);
    let piece = Piece { kind: Kind::Pawn, color: Color::White };
    let t1 = loc_ofs(loc, 0, 1);
    let a1 = loc_ofs(loc, -1, 1);
    let a2 = loc_ofs(loc, 1, 1);
    let ts = pawn_targets(m, loc, Color::White);
    let base = targets_to_moves(m, loc, piece, ts);
    let d1 = a1.spec_valid() && m.at(a1) is Some;
    let d2 = a2.spec_valid() && m.at(a2) is Some;
    if d1 && d2 {
        assert(ts =~= seq![t1, a1, a2]);
        assert(base =~= seq![mk_move(m, loc, piece, t1)]);
    } else if d1 {
        assert(ts =~= seq![t1, a1]);
        assert(base =~= seq![mk_move(m, loc, piece, t1)]);
    } else if d2 {
        assert(ts =~= seq![t1, a2]);
        assert(base =~= seq![mk_move(m, loc, piece, t1)]);
    } else {
        assert(ts =~= seq![t1]);
        assert(base =~= seq![mk_move(m, loc, piece, t1)]);
    }
    assert(ep_moves(m, loc, piece) =~= Seq::<Move>::empty());
    assert(spec_gen(m, loc) =~= promote_all(base, Color::White));
}

proof fn lemma_promote_with_len(ms: Seq<Move>, p: Piece)
    ensures
        promote_with(ms, p).len() == ms.len(),
    decreases ms.len(),
{
    if ms.len() > 0 {
        lemma_promote_with_len(ms.drop_last(), p);
    }
}

proof fn lemma_promote_with_index(ms: Seq<Move>, p: Piece, i: int)
    requires
        0 <= i < ms.len(),
    ensures
        promote_with(ms, p).len() == ms.len(),
        promote_with(ms, p)[i] == set_promotion(ms[i], p),
    decreases ms.len(),
{
    lemma_promote_with_len(ms, p);
    if i < ms.len() - 1 {
        lemma_promote_with_index(ms.drop_last(), p, i);
        lemma_promote_with_len(ms.drop_last(), p);
    }
}

/// Every move of the base phase starts at `from` with the mover's piece,
/// carries no promotion, and heads to one of the candidate destinations.
proof fn lemma_t2m_member(m: BoardModel, from: Loc, piece: Piece, ts: Seq<Loc>, i: int)
    requires
        0 <= i < targets_to_moves(m, from, piece, ts).len(),
    ensures
        ({
            let mv = targets_to_moves(m, from, piece, ts)[i];
            &&& mv.from == from
            &&& mv.piece == piece
            &&& mv.promote is None
            &&& exists|j: int| 0 <= j < ts.len() && mv.to == #[trigger] ts[j]
        }),
    decreases ts.len(),
{
    if ts.len() > 0 {
        let pre = targets_to_moves(m, from, piece, ts.drop_last());
        if i < pre.len() {
            lemma_t2m_member(m, from, piece, ts.drop_last(), i);
            let j = choose|j: int|
                0 <= j < ts.drop_last().len() && pre[i].to == #[trigger] ts.drop_last()[j];
            assert(pre[i].to == ts[j]);
        } else {
            assert(targets_to_moves(m, from, piece, ts)[i] == mk_move(m, from, piece, ts.last()));
            assert(ts[ts.len() - 1] == ts.last());
        }
    }
}

/// A capturable piece stands on `l` for the side of color `c`.
pub open spec fn enemy_at(m: BoardModel, l: Loc, c: Color) -> bool {
    l.spec_valid() && match m.at(l) {
        Some(pc) => pc.color != c,
        None => false,
    }
}

/// How many of a pawn's two forward diagonals hold a capturable piece.
pub open spec fn pawn_capture_count(m: BoardModel, loc: Loc, c: Color) -> int {
    (if enemy_at(m, loc_ofs(loc, -1, c.fdir()), c) {
        1int
    } else {
        0int
    }) + (if enemy_at(m, loc_ofs(loc, 1, c.fdir()), c) {
        1int
    } else {
        0int
    })
}

/// Promotion completeness in general: a White pawn on rank 6 over an empty
/// forward square generates exactly `4 * (1 + k)` moves, where `k` counts
/// its capturable diagonals: every surviving destination appears once per
/// promotable kind, in kind-major order Rook, Knight, Bishop, Queen.
#[verifier::rlimit(100)]
pub proof fn lemma_promotion_count(m: BoardModel, loc: Loc)
    requires
        m.wf(),
        loc.spec_valid(),
        loc.1 == 6,
        m.turn == Color::White,
        m.at(loc) == Some(Piece { kind: Kind::Pawn, color: Color::White }),
        m.at(loc_ofs(loc, 0, 1)) is None,
    ensures
        ({
            let piece = Piece { kind: Kind::Pawn, color: Color::White };
            let base = targets_to_moves(m, loc, piece, pawn_targets(m, loc, Color::White));
            let n = base.len();
            &&& n == 1 + pawn_capture_count(m, loc, Color::White)
            &&& spec_gen(m, loc).len() == 4 * n
            &&& forall|i: int|
                0 <= i < n ==> #[trigger] spec_gen(m, loc)[i] == set_promotion(
                    base[i],
                    Piece { kind: Kind::Rook, color: Color::White },
                )
            &&& forall|i: int|
                0 <= i < n ==> #[trigger] spec_gen(m, loc)[n + i] == set_promotion(
                    base[i],
                    Piece { kind: Kind::Knight, color: Color::White },
                )
            &&& forall|i: int|
                0 <= i < n ==> #[trigger] spec_gen(m, loc)[2 * n + i] == set_promotion(
                    base[i],
                    Piece { kind: Kind::Bishop, color: Color::White },
                )
            &&& forall|i: int|
                0 <= i < n ==> #[trigger] spec_gen(m, loc)[3 * n + i] == set_promotion(
                    base[i],
                    Piece { kind: Kind::Queen, color: Color::White },
                )
        }),
{
    reveal_with_fuel(targets_to_moves, 5);
    let piece = Piece { kind: Kind::Pawn, color: Color::White };
    let t1 = loc_ofs(loc, 0, 1);
    let a1 = loc_ofs(loc, -1, 1);
    let a2 = loc_ofs(loc, 1, 1);
    let ts = pawn_targets(m, loc, Color::White);
    let base = targets_to_moves(m, loc, piece, ts);
    let n = base.len();
    let d1 = a1.spec_valid() && m.at(a1) is Some;
    let d2 = a2.spec_valid() && m.at(a2) is Some;
    if d1 && d2 {
        assert(ts =~= seq![t1, a1, a2]);
    } else if d1 {
        assert(ts =~= seq![t1, a1]);
    } else if d2 {
        assert(ts =~= seq![t1, a2]);
    } else {
        assert(ts =~= seq![t1]);
    }
    assert(n == 1 + pawn_capture_count(m, loc, Color::White));
    assert(ep_moves(m, loc, piece) =~= Seq::<Move>::empty());
    let r = Piece { kind: Kind::Rook, color: Color::White };
    let kn = Piece { kind: Kind::Knight, color: Color::White };
    let bi = Piece { kind: Kind::Bishop, color: Color::White };
    let q = Piece { kind: Kind::Queen, color: Color::White };
    lemma_promote_with_len(base, r);
    lemma_promote_with_len(base, kn);
    lemma_promote_with_len(base, bi);
    lemma_promote_with_len(base, q);
    assert(spec_gen(m, loc) =~= promote_all(base, Color::White));
    assert forall|i: int| 0 <= i < n implies #[trigger] spec_gen(m, loc)[i] == set_promotion(
        base[i],
        r,
    ) by {
        lemma_promote_with_index(base, r, i);
    }
    assert forall|i: int| 0 <= i < n implies #[trigger] spec_gen(m, loc)[n + i] == set_promotion(
        base[i],
        kn,
    ) by {
        lemma_promote_with_index(base, kn, i);
    }
    assert forall|i: int|
        0 <= i < n implies #[trigger] spec_gen(m, loc)[2 * n + i] == set_promotion(
        base[i],
        bi,
    ) by {
        lemma_promote_with_index(base, bi, i);
    }
    assert forall|i: int|
        0 <= i < n implies #[trigger] spec_gen(m, loc)[3 * n + i] == set_promotion(
        base[i],
        q,
    ) by {
        lemma_promote_with_index(base, q, i);
    }
}

/// A generated promotion move advances exactly one rank, so the en-passant
/// file written by the applicator — stated there over the piece after
/// promotion substitution — agrees on every generated move with the same
/// formula read over the pre-promotion piece.
#[verifier::rlimit(100)]
pub proof fn lemma_ep_after_generated(m: BoardModel, loc: Loc, i: int)
    requires
        m.wf(),
        loc.spec_valid(),
        0 <= i < spec_gen(m, loc).len(),
    ensures
        ({
            let mv = spec_gen(m, loc)[i];
            crate::board::spec_ep_after(mv) == (if mv.piece.kind == Kind::Pawn && (mv.from.1
                - mv.to.1 == 2 || mv.to.1 - mv.from.1 == 2) {
                Some(mv.to.0)
            } else {
                None
            })
        }),
{
    let mv = spec_gen(m, loc)[i];
    match m.at(loc) {
        None => {},
        Some(piece) => {
            if piece.color == m.turn {
                let base = targets_to_moves(m, loc, piece, base_targets(m, loc, piece));
                match piece.kind {
                    Kind::Pawn => {
                        let c = piece.color;
                        if loc.1 == promote_rank(c) {
                            let pa = promote_all(base, c);
                            if i < pa.len() {
                                lemma_promoted_move_is_single_step(m, loc, piece, i);
                            } else {
                                assert(mv == ep_moves(m, loc, piece)[i - pa.len()]);
                                assert(mv.promote is None);
                            }
                        } else {
                            if i < base.len() {
                                lemma_t2m_member(m, loc, piece, base_targets(m, loc, piece), i);
                            } else {
                                assert(mv == ep_moves(m, loc, piece)[i - base.len()]);
                                assert(mv.promote is None);
                            }
                        }
                    },
                    Kind::King => {
                        if i < base.len() {
                            lemma_t2m_member(m, loc, piece, base_targets(m, loc, piece), i);
                        } else {
                            assert(mv == castle_moves(m, loc, piece)[i - base.len()]);
                            assert(mv.promote is None);
                        }
                    },
                    _ => {
                        lemma_t2m_member(m, loc, piece, base_targets(m, loc, piece), i);
                    },
                }
            }
        },
    }
}

/// In the promotion expansion, every move is a one-rank pawn step carrying a
/// promotion piece.
proof fn lemma_promoted_move_is_single_step(m: BoardModel, loc: Loc, piece: Piece, i: int)
    requires
        m.wf(),
        loc.spec_valid(),
        m.at(loc) == Some(piece),
        piece.color == m.turn,
        piece.kind == Kind::Pawn,
        loc.1 == promote_rank(piece.color),
        0 <= i < promote_all(
            targets_to_moves(m, loc, piece, base_targets(m, loc, piece)),
            piece.color,
        ).len(),
    ensures
        ({
            let mv = promote_all(
                targets_to_moves(m, loc, piece, base_targets(m, loc, piece)),
                piece.color,
            )[i];
            &&& mv.piece == piece
            &&& mv.promote is Some
            &&& (mv.to.1 - mv.from.1 == 1 || mv.from.1 - mv.to.1 == 1)
        }),
{
    let c = piece.color;
    let base = targets_to_moves(m, loc, piece, base_targets(m, loc, piece));
    let n = base.len();
    let r = Piece { kind: Kind::Rook, color: c };
    let kn = Piece { kind: Kind::Knight, color: c };
    let bi = Piece { kind: Kind::Bishop, color: c };
    let q = Piece { kind: Kind::Queen, color: c };
    lemma_promote_with_len(base, r);
    lemma_promote_with_len(base, kn);
    lemma_promote_with_len(base, bi);
    lemma_promote_with_len(base, q);
    let k = if i < n {
        i
    } else if i < 2 * n {
        i - n
    } else if i < 3 * n {
        i - 2 * n
    } else {
        i - 3 * n
    };
    if i < n {
        lemma_promote_with_index(base, r, k);
    } else if i < 2 * n {
        lemma_promote_with_index(base, kn, k);
    } else if i < 3 * n {
        lemma_promote_with_index(base, bi, k);
    } else {
        lemma_promote_with_index(base, q, k);
    }
    lemma_t2m_member(m, loc, piece, base_targets(m, loc, piece), k);
    let ts = pawn_targets(m, loc, c);
    let j = choose|j: int| 0 <= j < ts.len() && base[k].to == #[trigger] ts[j];
    assert(c.spec_pawn_rank() != loc.1);
    let f = c.fdir();
    assert forall|jj: int| 0 <= jj < ts.len() implies (#[trigger] ts[jj]).1 == ((loc.1 + f)
        as isize) by {
        assert(ts[jj] == loc_ofs(loc, 0, f) || ts[jj] == loc_ofs(loc, -1, f) || ts[jj]
            == loc_ofs(loc, 1, f));
    }
}

/// En-passant window, capture half: with the window open on file `f`, a pawn
/// of the side to move one file away on the matching rank gains exactly one
/// extra move over the same board with the window closed: the capture whose
/// captured square is the adjacent square, not the destination.
pub proof fn lemma_ep_window_gain(m: BoardModel, loc: Loc, f: isize, pc: Piece)
    requires
        m.wf(),
        loc.spec_valid(),
        m.at(loc) == Some(Piece { kind: Kind::Pawn, color: m.turn }),
        m.en_passant_file == Some(f),
        f == loc.0 + 1 || f == loc.0 - 1,
        ep_rank(m.turn) == loc.1,
        Loc(f, loc.1).spec_valid(),
        m.at(Loc(f, loc.1)) == Some(pc),
        m.at(Loc(f, (loc.1 + m.turn.fdir()) as isize)) is None,
    ensures
        ({
            let closed = BoardModel { en_passant_file: None, ..m };
            let epmv = Move {
                player: m.turn,
                from: loc,
                to: Loc(f, (loc.1 + m.turn.fdir()) as isize),
                piece: Piece { kind: Kind::Pawn, color: m.turn },
                attack: Some((pc, Loc(f, loc.1))),
                promote: None,
                castle: None,
            };
            spec_gen(m, loc) == spec_gen(closed, loc) + seq![epmv]
        }),
{
    let closed = BoardModel { en_passant_file: None, ..m };
    let piece = Piece { kind: Kind::Pawn, color: m.turn };
    lemma_t2m_same_board(m, closed, loc, piece, pawn_targets(m, loc, m.turn));
    assert(pawn_targets(closed, loc, m.turn) == pawn_targets(m, loc, m.turn));
    assert(ep_moves(closed, loc, piece) =~= Seq::<Move>::empty());
    assert(loc.1 != promote_rank(m.turn)) by {
        assert(ep_rank(m.turn) == 4 || ep_rank(m.turn) == 3);
        assert(promote_rank(m.turn) == 6 || promote_rank(m.turn) == 1);
    }
    assert(spec_gen(m, loc) =~= spec_gen(closed, loc) + ep_moves(m, loc, piece));
}

} // verus!
