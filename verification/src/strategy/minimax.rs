//! Game-tree search strategies sharing one shape: enumerate every
//! pseudo-legal move across the 64 squares, evaluate each resulting board by
//! a speculative apply/revert, and keep the move whose backed-up score is
//! most favorable under a policy-specific comparator. The policies differ in
//! the comparator, the leaf score, and whose turn the recursion assumes.

use vstd::prelude::*;

use crate::board::Board;
use crate::board::BoardModel;
use crate::board::Color;
use crate::board::Kind;
use crate::board::Loc;
use crate::board::Move;
use crate::board::Piece;
use crate::board::WinState;
use crate::board::spec_apply;
use crate::board::lemma_apply_then_revert;
use crate::board::move_valid;
use crate::movegen::spec_gen;
use crate::strategy::Strategy;

verus! {

pub type Evaluation = i32;

/// Searches the game tree for the best possible move.
pub struct BasicMinimax {
    pub depth: u8,
}

/// Searches the game tree for the best possible move, assuming the opponent
/// cooperates.
pub struct Maximax {
    pub depth: u8,
}

/// Searches the game tree for the worst possible move, assuming the opponent
/// does its best.
pub struct Minimin {
    pub depth: u8,
}

/// Searches the game tree for the best possible move, assuming the opponent
/// makes no moves.
pub struct SinglePlayer {
    pub depth: u8,
}

/// The four deterministic backup policies, used to state what each
/// strategy's search returns.
#[derive(Debug, PartialEq, Eq, Clone, Copy, Structural)]
pub enum Policy {
    Minimax,
    Maximax,
    Minimin,
    SinglePlayer,
}

pub open spec fn spec_flip(c: Color) -> int {
    match c {
        Color::White => 1,
        Color::Black => -1,
    }
}

/// Unsigned material value: Pawn 1, Knight 3, Bishop 3, Rook 5, Queen 9,
/// King 4 (nominal, since the king can be captured mid-tree).
pub open spec fn kind_value(k: Kind) -> int {
    match k {
        Kind::Pawn => 1,
        Kind::Rook => 5,
        Kind::Knight => 3,
        Kind::Bishop => 3,
        Kind::Queen => 9,
        Kind::King => 4,
    }
}

/// Material value signed by color.
pub open spec fn piece_score(p: Piece) -> int {
    spec_flip(p.color) * kind_value(p.kind)
}

/// One square's contribution: a hundredfold material value plus the
/// occupying rank, both signed by color.
pub open spec fn sq_term(m: BoardModel, l: Loc) -> int {
    match m.at(l) {
        Some(p) => piece_score(p) * 100 + spec_flip(p.color) * l.1,
        None => 0,
    }
}

/// Partial sum of square contributions over the first `k` squares in
/// file-major order (square `k` is file `k / 8`, rank `k % 8`).
pub open spec fn eval_upto(m: BoardModel, k: int) -> int
    decreases k,
{
    if k <= 0 {
        0
    } else {
        eval_upto(m, k - 1) + sq_term(m, sq_at(k - 1))
    }
}

/// The square visited `k`-th by the strategies' 64-square scan.
pub open spec fn sq_at(k: int) -> Loc {
    Loc((k / 8) as isize, (k % 8) as isize)
}

/// The shared material/positional evaluation of a whole board.
pub open spec fn spec_eval(m: BoardModel) -> int {
    eval_upto(m, 64)
}

proof fn lemma_piece_score_bound(p: Piece)
    ensures
        -9 <= piece_score(p) <= 9,
{
    match p.color {
        Color::White => {
            assert(piece_score(p) == kind_value(p.kind));
        },
        Color::Black => {
            assert(piece_score(p) == -1 * kind_value(p.kind));
        },
    }
}

proof fn lemma_sq_term_bound(m: BoardModel, l: Loc)
    requires
        0 <= l.1 < 8,
    ensures
        -907 <= sq_term(m, l) <= 907,
{
    match m.at(l) {
        None => {},
        Some(p) => {
            lemma_piece_score_bound(p);
            match p.color {
                Color::White => {
                    assert(sq_term(m, l) == piece_score(p) * 100 + l.1);
                },
                Color::Black => {
                    assert(sq_term(m, l) == piece_score(p) * 100 - l.1);
                },
            }
        },
    }
}

proof fn lemma_eval_upto_bound(m: BoardModel, k: int)
    requires
        0 <= k <= 64,
    ensures
        -907 * k <= eval_upto(m, k) <= 907 * k,
    decreases k,
{
    if k > 0 {
        lemma_eval_upto_bound(m, k - 1);
        let l = sq_at(k - 1);
        assert(0 <= (k - 1) % 8 < 8);
        lemma_sq_term_bound(m, l);
    }
}

pub proof fn lemma_eval_bound(m: BoardModel)
    ensures
        -58048 <= spec_eval(m) <= 58048,
{
    lemma_eval_upto_bound(m, 64);
}

/// `v` signed for `c`: positive values favor White, so a Black mover reads
/// its own advantage as `-v`.
pub open spec fn signed(c: Color, v: int) -> int {
    match c {
        Color::White => v,
        Color::Black => -v,
    }
}

/// What a strategy scores a board at its recursion floor: depth 0 or a
/// terminal board. The depth-proportional term prefers faster wins and
/// slower losses among equal-material outcomes.
pub open spec fn leaf_score(pol: Policy, depth: nat, m: BoardModel) -> int {
    match pol {
        Policy::Minimax => spec_eval(m) + signed(m.turn, depth as int),
        Policy::Maximax => -signed(m.turn, spec_eval(m)) + 10 * depth,
        Policy::Minimin => -signed(m.turn, spec_eval(m)) - 10 * depth,
        Policy::SinglePlayer => signed(m.turn, spec_eval(m)) + depth,
    }
}

/// The policy that scores the subtree below a move: Maximax and Minimin
/// alternate with each other; the others recurse into themselves.
pub open spec fn recurse_policy(pol: Policy) -> Policy {
    match pol {
        Policy::Minimax => Policy::Minimax,
        Policy::Maximax => Policy::Minimin,
        Policy::Minimin => Policy::Maximax,
        Policy::SinglePlayer => Policy::SinglePlayer,
    }
}

/// The policy-specific comparator: true when a candidate score displaces the
/// best so far. Ties keep the first-encountered move. Minimax compares
/// scores signed for the mover; Maximax and SinglePlayer take the raw
/// maximum and Minimin the raw minimum.
pub open spec fn prefer(pol: Policy, turn: Color, best: int, cand: int) -> bool {
    match pol {
        Policy::Minimax => signed(turn, best) < signed(turn, cand),
        Policy::Maximax => best < cand,
        Policy::Minimin => best > cand,
        Policy::SinglePlayer => best < cand,
    }
}

/// The board a child evaluation sees: the move applied; for SinglePlayer the
/// turn is handed back to the mover and the en-passant window is closed, as
/// if the opponent passed.
pub open spec fn child_board(pol: Policy, m: BoardModel, mv: Move) -> BoardModel {
    let a = spec_apply(m, mv);
    match pol {
        Policy::SinglePlayer => BoardModel {
            turn: a.turn.spec_opposite(),
            en_passant_file: None,
            ..a
        },
        _ => a,
    }
}

/// The score a policy backs up for a board: the leaf score at the recursion
/// floor, else the signed result of the deeper search. `None` marks a
/// decision point somewhere below with no pseudo-legal moves, on which the
/// whole search gives up.
pub open spec fn eval_rec(pol: Policy, depth: nat, m: BoardModel) -> Option<int>
    decreases depth, 0int, 0int,
{
    if depth == 0 || m.spec_win_state() != WinState::Playing {
        Some(leaf_score(pol, depth, m))
    } else {
        match search_rec(recurse_policy(pol), (depth - 1) as nat, m) {
            None => None,
            Some((mv, s)) => Some(match pol {
                Policy::Minimax => s,
                Policy::Maximax => -s,
                Policy::Minimin => -s,
                Policy::SinglePlayer => s,
            }),
        }
    }
}

/// Left fold of the comparator over a move list. The accumulator holds the
/// best (move, score) so far; the outer `None` marks a deeper give-up.
pub open spec fn fold_moves(
    pol: Policy,
    depth: nat,
    m: BoardModel,
    ms: Seq<Move>,
    acc: Option<(Move, int)>,
) -> Option<Option<(Move, int)>>
    decreases depth, 1int, ms.len(),
{
    if ms.len() == 0 {
        Some(acc)
    } else {
        match eval_rec(pol, depth, child_board(pol, m, ms[0])) {
            None => None,
            Some(s) => {
                let acc2 = match acc {
                    None => Some((ms[0], s)),
                    Some((bmv, bs)) => if prefer(pol, m.turn, bs, s) {
                        Some((ms[0], s))
                    } else {
                        acc
                    },
                };
                fold_moves(pol, depth, m, ms.skip(1), acc2)
            },
        }
    }
}

/// The moves of the first `k` squares of the scan, in scan order.
pub open spec fn moves_prefix(m: BoardModel, k: int) -> Seq<Move>
    decreases k,
{
    if k <= 0 {
        Seq::empty()
    } else {
        moves_prefix(m, k - 1) + spec_gen(m, sq_at(k - 1))
    }
}

/// Every pseudo-legal move on the board, in the order the scan encounters
/// them.
pub open spec fn all_moves(m: BoardModel) -> Seq<Move> {
    moves_prefix(m, 64)
}

pub open spec fn moves_suffix(m: BoardModel, k: int) -> Seq<Move>
    decreases 64 - k,
{
    if k < 0 || k >= 64 {
        Seq::empty()
    } else {
        spec_gen(m, sq_at(k)) + moves_suffix(m, k + 1)
    }
}

/// What a strategy's search returns: the first-encountered most favorable
/// move with its backed-up score, or `None` when this or a deeper decision
/// point has no pseudo-legal moves (where the concrete searches give up).
pub open spec fn search_rec(pol: Policy, depth: nat, m: BoardModel) -> Option<(Move, int)>
    decreases depth, 2int, 0int,
{
    match fold_moves(pol, depth, m, all_moves(m), None) {
        None => None,
        Some(None) => None,
        Some(Some(best)) => Some(best),
    }
}

pub proof fn lemma_fold_append(
    pol: Policy,
    depth: nat,
    m: BoardModel,
    s1: Seq<Move>,
    s2: Seq<Move>,
    acc: Option<(Move, int)>,
)
    ensures
        fold_moves(pol, depth, m, s1 + s2, acc) == (match fold_moves(pol, depth, m, s1, acc) {
            None => None,
            Some(a) => fold_moves(pol, depth, m, s2, a),
        }),
    decreases s1.len(),
{
    if s1.len() == 0 {
        assert(s1 + s2 =~= s2);
    } else {
        assert((s1 + s2).skip(1) =~= s1.skip(1) + s2);
        assert((s1 + s2)[0] == s1[0]);
        match eval_rec(pol, depth, child_board(pol, m, s1[0])) {
            None => {},
            Some(s) => {
                let acc2 = match acc {
                    None => Some((s1[0], s)),
                    Some((bmv, bs)) => if prefer(pol, m.turn, bs, s) {
                        Some((s1[0], s))
                    } else {
                        acc
                    },
                };
                lemma_fold_append(pol, depth, m, s1.skip(1), s2, acc2);
            },
        }
    }
}

proof fn lemma_prefix_suffix(m: BoardModel, k: int)
    requires
        0 <= k <= 64,
    ensures
        all_moves(m) == moves_prefix(m, k) + moves_suffix(m, k),
    decreases 64 - k,
{
    if k == 64 {
        assert(all_moves(m) =~= moves_prefix(m, 64) + moves_suffix(m, 64));
    } else {
        lemma_prefix_suffix(m, k + 1);
        assert(moves_prefix(m, k + 1) == moves_prefix(m, k) + spec_gen(m, sq_at(k)));
        assert(all_moves(m) =~= moves_prefix(m, k) + (spec_gen(m, sq_at(k)) + moves_suffix(
            m,
            k + 1,
        )));
    }
}

/// Mutual step of the cooperative/adversarial bound: the two policies score
/// any board with Maximax at least Minimin, and give up together.
proof fn lemma_mm_eval(depth: nat, b: BoardModel)
    ensures
        match (eval_rec(Policy::Maximax, depth, b), eval_rec(Policy::Minimin, depth, b)) {
            (Some(hi), Some(lo)) => hi >= lo,
            (None, None) => true,
            _ => false,
        },
    decreases depth, 0int, 0int,
{
    if depth == 0 || b.spec_win_state() != WinState::Playing {
    } else {
        lemma_mm_search((depth - 1) as nat, b);
    }
}

proof fn lemma_mm_fold(
    depth: nat,
    m: BoardModel,
    ms: Seq<Move>,
    acc_hi: Option<(Move, int)>,
    acc_lo: Option<(Move, int)>,
)
    requires
        match (acc_hi, acc_lo) {
            (Some((mv1, hi)), Some((mv2, lo))) => hi >= lo,
            (None, None) => true,
            _ => false,
        },
    ensures
        match (fold_moves(Policy::Maximax, depth, m, ms, acc_hi), fold_moves(
            Policy::Minimin,
            depth,
            m,
            ms,
            acc_lo,
        )) {
            (Some(Some((mv1, hi))), Some(Some((mv2, lo)))) => hi >= lo,
            (Some(None), Some(None)) => true,
            (None, None) => true,
            _ => false,
        },
    decreases depth, 1int, ms.len(),
{
    if ms.len() > 0 {
        assert(child_board(Policy::Maximax, m, ms[0]) == child_board(Policy::Minimin, m, ms[0]));
        lemma_mm_eval(depth, child_board(Policy::Maximax, m, ms[0]));
        match (
            eval_rec(Policy::Maximax, depth, child_board(Policy::Maximax, m, ms[0])),
            eval_rec(Policy::Minimin, depth, child_board(Policy::Minimin, m, ms[0])),
        ) {
            (Some(hm), Some(lm)) => {
                let acc_hi2 = match acc_hi {
                    None => Some((ms[0], hm)),
                    Some((bmv, bs)) => if prefer(Policy::Maximax, m.turn, bs, hm) {
                        Some((ms[0], hm))
                    } else {
                        acc_hi
                    },
                };
                let acc_lo2 = match acc_lo {
                    None => Some((ms[0], lm)),
                    Some((bmv, bs)) => if prefer(Policy::Minimin, m.turn, bs, lm) {
                        Some((ms[0], lm))
                    } else {
                        acc_lo
                    },
                };
                lemma_mm_fold(depth, m, ms.skip(1), acc_hi2, acc_lo2);
            },
            _ => {},
        }
    }
}

/// Cooperative upper bound versus adversarial lower bound: on the same
/// board at equal depth, the Maximax search scores at least the Minimin
/// search, and the two searches give up on exactly the same boards.
pub proof fn lemma_mm_search(depth: nat, m: BoardModel)
    ensures
        match (search_rec(Policy::Maximax, depth, m), search_rec(Policy::Minimin, depth, m)) {
            (Some((mv1, hi)), Some((mv2, lo))) => hi >= lo,
            (None, None) => true,
            _ => false,
        },
    decreases depth, 2int, 0int,
{
    lemma_mm_fold(depth, m, all_moves(m), None, None);
}

/// The mathematical value of a concrete scored result.
pub open spec fn opt_score(r: Option<i32>) -> Option<int> {
    match r {
        Some(s) => Some(s as int),
        None => None,
    }
}

pub open spec fn opt_best(r: Option<(Move, i32)>) -> Option<(Move, int)> {
    match r {
        Some((mv, s)) => Some((mv, s as int)),
        None => None,
    }
}

pub fn flip(color: Color) -> (r: Evaluation)
    ensures
        r as int == spec_flip(color),
{
    match color {
        Color::White => 1,
        Color::Black => -1,
    }
}

fn next_policy(pol: Policy) -> (r: Policy)
    ensures
        r == recurse_policy(pol),
{
    match pol {
        Policy::Minimax => Policy::Minimax,
        Policy::Maximax => Policy::Minimin,
        Policy::Minimin => Policy::Maximax,
        Policy::SinglePlayer => Policy::SinglePlayer,
    }
}

impl BasicMinimax {
    /// The shared per-piece material value, signed by color.
    pub fn evaluate_piece(piece: Piece) -> (r: Evaluation)
        ensures
            r as int == piece_score(piece),
            -9 <= r <= 9,
    {
        flip(piece.color) * match piece.kind {
            Kind::Pawn => 1,
            Kind::Rook => 5,
            Kind::Knight => 3,
            Kind::Bishop => 3,
            Kind::Queen => 9,
            Kind::King => 4,
        }
    }

    /// The shared board evaluation: the sum of every occupied square's
    /// signed material and positional contribution.
    pub fn evaluate_board(board: &Board) -> (r: Evaluation)
        requires
            board@.wf(),
        ensures
            r as int == spec_eval(board@),
            -58048 <= r <= 58048,
    {
        let mut score: Evaluation = 0;
        let mut x: isize = 0;
        while x < 8
            invariant
                board@.wf(),
                0 <= x <= 8,
                score as int == eval_upto(board@, 8 * x),
            decreases 8 - x,
        {
            let mut y: isize = 0;
            while y < 8
                invariant
                    board@.wf(),
                    0 <= x < 8,
                    0 <= y <= 8,
                    score as int == eval_upto(board@, 8 * x + y),
                decreases 8 - y,
            {
                proof {
                    assert((8 * x + y) / 8 == x as int && (8 * x + y) % 8 == y as int)
                        by (nonlinear_arith)
                        requires
                            0 <= x < 8,
                            0 <= y < 8,
                    ;
                }
                proof {
                    lemma_eval_upto_bound(board@, 8 * x + y);
                    lemma_sq_term_bound(board@, Loc(x, y));
                }
                match board.at(Loc(x, y)) {
                    Some(piece) => {
                        let base = BasicMinimax::evaluate_piece(piece) * 100;
                        let term = match piece.color {
                            Color::White => base + (y as Evaluation),
                            Color::Black => base - (y as Evaluation),
                        };
                        proof {
                            lemma_sq_term_bound(board@, Loc(x, y));
                            assert(board@.at(Loc(x, y)) == Some(piece));
                            let yv: int = y as int;
                            match piece.color {
                                Color::White => {
                                    assert(spec_flip(piece.color) * yv == yv)
                                        by (nonlinear_arith)
                                        requires
                                            spec_flip(piece.color) == 1,
                                    ;
                                    assert(sq_term(board@, Loc(x, y)) == piece_score(piece) * 100
                                        + y);
                                },
                                Color::Black => {
                                    assert(spec_flip(piece.color) * yv == -yv)
                                        by (nonlinear_arith)
                                        requires
                                            spec_flip(piece.color) == -1,
                                    ;
                                    assert(sq_term(board@, Loc(x, y)) == piece_score(piece) * 100
                                        - y);
                                },
                            }
                            assert(term as int == sq_term(board@, Loc(x, y)));
                        }
                        score = score + term;
                    },
                    None => {},
                }
                y += 1;
            }
            x += 1;
        }
        proof {
            lemma_eval_bound(board@);
        }
        score
    }
}

/// The recursion floor and backed-up score of one policy; leaves the board
/// exactly as it found it.
fn eval_core(pol: Policy, depth: u8, board: &mut Board) -> (r: Option<Evaluation>)
    requires
        old(board)@.wf(),
        old(board)@.moves_since_progress + depth < usize::MAX,
    ensures
        final(board)@ == old(board)@,
        final(board)@.wf(),
        opt_score(r) == eval_rec(pol, depth as nat, old(board)@),
        r matches Some(s) ==> -61000 <= s <= 61000,
    decreases depth as int, 0int,
{
    let ghost m = board@;
    let ws = board.win_state();
    if depth == 0 || !matches!(ws, WinState::Playing) {
        let e = BasicMinimax::evaluate_board(board);
        let d = depth as Evaluation;
        let r = match pol {
            Policy::Minimax => match board.turn {
                Color::White => e + d,
                Color::Black => e - d,
            },
            Policy::Maximax => match board.turn {
                Color::White => -e + 10 * d,
                Color::Black => e + 10 * d,
            },
            Policy::Minimin => match board.turn {
                Color::White => -e - 10 * d,
                Color::Black => e - 10 * d,
            },
            Policy::SinglePlayer => match board.turn {
                Color::White => e + d,
                Color::Black => -e + d,
            },
        };
        proof {
            assert(r as int == leaf_score(pol, depth as nat, m));
        }
        Some(r)
    } else {
        match search_core(next_policy(pol), depth - 1, board) {
            None => None,
            Some((mv, s)) => {
                let v = match pol {
                    Policy::Minimax => s,
                    Policy::Maximax => -s,
                    Policy::Minimin => -s,
                    Policy::SinglePlayer => s,
                };
                Some(v)
            },
        }
    }
}

/// Folds one square's generated moves into the running best by a
/// speculative apply/revert per move; leaves the board exactly as it found
/// it. The outer `None` reports a deeper decision point with no moves.
#[verifier::rlimit(100)]
fn scan_square(
    pol: Policy,
    depth: u8,
    board: &mut Board,
    x: isize,
    y: isize,
    best: Option<(Move, Evaluation)>,
) -> (r: Option<Option<(Move, Evaluation)>>)
    requires
        old(board)@.wf(),
        old(board)@.moves_since_progress + depth + 1 < usize::MAX,
        0 <= x < 8,
        0 <= y < 8,
        best matches Some(p) ==> -61000 <= p.1 <= 61000,
    ensures
        final(board)@ == old(board)@,
        final(board)@.wf(),
        match r {
            None => fold_moves(
                pol,
                depth as nat,
                old(board)@,
                spec_gen(old(board)@, Loc(x, y)),
                opt_best(best),
            ) is None,
            Some(nb) => fold_moves(
                pol,
                depth as nat,
                old(board)@,
                spec_gen(old(board)@, Loc(x, y)),
                opt_best(best),
            ) == Some(opt_best(nb)) && (nb matches Some(p) ==> -61000 <= p.1 <= 61000),
        },
    decreases depth as int, 1int, 0int,
{
    let ghost m = board@;
    let ghost acc0 = opt_best(best);
    let moves = board.get_moves_for(Loc(x, y));
    let mut cur = best;
    let mut j: usize = 0;
    while j < moves.len()
        invariant
            board@.wf(),
            board@ == m,
            m == old(board)@,
            acc0 == opt_best(best),
            m.moves_since_progress + depth + 1 < usize::MAX,
            0 <= x < 8,
            0 <= y < 8,
            j <= moves@.len(),
            moves@ == spec_gen(m, Loc(x, y)),
            forall|i: int| 0 <= i < moves@.len() ==> move_valid(m, #[trigger] moves@[i]),
            fold_moves(pol, depth as nat, m, moves@.take(j as int), acc0) == Some(opt_best(cur)),
            cur matches Some(p) ==> -61000 <= p.1 <= 61000,
        decreases moves@.len() - j,
    {
        let ghost taken = moves@.take(j as int);
        let mv = moves[j];
        let prev = board.consider_move(mv);
        if matches!(pol, Policy::SinglePlayer) {
            board.turn = board.turn.opposite();
            board.en_passant_file = None;
        }
        proof {
            assert(board@ =~= child_board(pol, m, mv));
        }
        let r = eval_core(pol, depth, board);
        if matches!(pol, Policy::SinglePlayer) {
            board.turn = board.turn.opposite();
        }
        let ghost mid = board@;
        board.revert_move(mv, prev);
        proof {
            lemma_apply_then_revert(m, mv, prev, mid);
            assert(board@ == m);
        }
        match r {
            None => {
                proof {
                    assert(moves@ =~= taken + moves@.skip(j as int));
                    lemma_fold_append(pol, depth as nat, m, taken, moves@.skip(j as int), acc0);
                    assert(moves@.skip(j as int)[0] == mv);
                    assert(fold_moves(pol, depth as nat, m, moves@, acc0) is None);
                }
                return None;
            },
            Some(s) => {
                let replace = match cur {
                    None => true,
                    Some((_, bs)) => match pol {
                        Policy::Minimax => match board.turn {
                            Color::White => bs < s,
                            Color::Black => bs > s,
                        },
                        Policy::Maximax => bs < s,
                        Policy::Minimin => bs > s,
                        Policy::SinglePlayer => bs < s,
                    },
                };
                let ghost oldcur = cur;
                if replace {
                    cur = Some((mv, s));
                }
                proof {
                    reveal_with_fuel(fold_moves, 3);
                    lemma_fold_append(pol, depth as nat, m, taken, seq![mv], acc0);
                    assert(seq![mv].skip(1) =~= Seq::<Move>::empty());
                    assert(replace == match opt_best(oldcur) {
                        None => true,
                        Some((bmv, bs)) => prefer(pol, m.turn, bs, s as int),
                    });
                    assert(fold_moves(pol, depth as nat, m, seq![mv], opt_best(oldcur)) == Some(
                        opt_best(cur),
                    ));
                    assert(taken + seq![mv] =~= moves@.take(j as int + 1));
                }
            },
        }
        j = j + 1;
    }
    proof {
        assert(moves@.take(moves@.len() as int) =~= moves@);
    }
    Some(cur)
}

/// One policy's 64-square scan: every pseudo-legal move is tried by a
/// speculative apply/revert and scored by `eval_core`; the board comes back
/// exactly as it went in. Returns `None` when this or a deeper decision
/// point has no pseudo-legal moves: under the engine's error model that
/// situation is a caller error with no move to select, reported here as
/// `None` rather than by failing.
#[verifier::rlimit(100)]
fn search_core(pol: Policy, depth: u8, board: &mut Board) -> (r: Option<(Move, Evaluation)>)
    requires
        old(board)@.wf(),
        old(board)@.moves_since_progress + depth + 1 < usize::MAX,
    ensures
        final(board)@ == old(board)@,
        final(board)@.wf(),
        opt_best(r) == search_rec(pol, depth as nat, old(board)@),
        r matches Some(p) ==> -61000 <= p.1 <= 61000,
    decreases depth as int, 2int,
{
    let ghost m = board@;
    let mut best: Option<(Move, Evaluation)> = None;
    let mut x: isize = 0;
    while x < 8
        invariant
            board@.wf(),
            board@ == m,
            m == old(board)@,
            m.moves_since_progress + depth + 1 < usize::MAX,
            0 <= x <= 8,
            fold_moves(pol, depth as nat, m, moves_prefix(m, 8 * x), None) == Some(
                opt_best(best),
            ),
            best matches Some(p) ==> -61000 <= p.1 <= 61000,
        decreases 8 - x,
    {
        let mut y: isize = 0;
        while y < 8
            invariant
                board@.wf(),
                board@ == m,
                m == old(board)@,
                m.moves_since_progress + depth + 1 < usize::MAX,
                0 <= x < 8,
                0 <= y <= 8,
                fold_moves(pol, depth as nat, m, moves_prefix(m, 8 * x + y), None) == Some(
                    opt_best(best),
                ),
                best matches Some(p) ==> -61000 <= p.1 <= 61000,
            decreases 8 - y,
        {
            let ghost k = 8 * (x as int) + (y as int);
            proof {
                assert(k / 8 == x as int && k % 8 == y as int) by (nonlinear_arith)
                    requires
                        0 <= x < 8,
                        0 <= y < 8,
                        k == 8 * (x as int) + (y as int),
                ;
                assert(sq_at(k) == Loc(x, y));
                assert(moves_prefix(m, k + 1) == moves_prefix(m, k) + spec_gen(m, sq_at(k)));
            }
            let step = scan_square(pol, depth, board, x, y, best);
            proof {
                lemma_fold_append(
                    pol,
                    depth as nat,
                    m,
                    moves_prefix(m, k),
                    spec_gen(m, Loc(x, y)),
                    None,
                );
            }
            match step {
                None => {
                    proof {
                        lemma_prefix_suffix(m, k + 1);
                        assert(all_moves(m) =~= moves_prefix(m, k + 1) + moves_suffix(m, k + 1));
                        lemma_fold_append(
                            pol,
                            depth as nat,
                            m,
                            moves_prefix(m, k + 1),
                            moves_suffix(m, k + 1),
                            None,
                        );
                        assert(fold_moves(pol, depth as nat, m, moves_prefix(m, k + 1), None)
                            is None);
                        assert(fold_moves(pol, depth as nat, m, all_moves(m), None) is None);
                    }
                    return None;
                },
                Some(nb) => {
                    best = nb;
                },
            }
            y += 1;
        }
        x += 1;
    }
    best
}

impl BasicMinimax {
    /// Scores a board for the minimax recursion: the leaf score at depth 0
    /// or on a terminal board, else the result of the deeper search.
    pub fn evaluate_recursive(depth: u8, board: &mut Board) -> (r: Option<Evaluation>)
        requires
            old(board)@.wf(),
            old(board)@.moves_since_progress + depth < usize::MAX,
        ensures
            final(board)@ == old(board)@,
            opt_score(r) == eval_rec(Policy::Minimax, depth as nat, old(board)@),
    {
        eval_core(Policy::Minimax, depth, board)
    }

    /// Picks the first-encountered move whose backed-up score is best for
    /// the side to move, with each side assumed to play its own best.
    pub fn search(depth: u8, board: &mut Board) -> (r: Option<(Move, Evaluation)>)
        requires
            old(board)@.wf(),
            old(board)@.moves_since_progress + depth + 1 < usize::MAX,
        ensures
            final(board)@ == old(board)@,
            opt_best(r) == search_rec(Policy::Minimax, depth as nat, old(board)@),
    {
        search_core(Policy::Minimax, depth, board)
    }
}

impl Strategy for BasicMinimax {
    fn choose_move(&mut self, board: &Board) -> (mv: Option<Move>)
        ensures
            *final(self) == *old(self),
            mv == match search_rec(Policy::Minimax, old(self).depth as nat, board@) {
                Some((m, s)) => Some(m),
                None => None::<Move>,
            },
    {
        let mut b = board.duplicate();
        match BasicMinimax::search(self.depth, &mut b) {
            Some((mv, _)) => Some(mv),
            None => None,
        }
    }
}

impl Maximax {
    /// Scores a board assuming it is the opponent's turn and the opponent
    /// cooperates: the adversarial search below, negated.
    pub fn evaluate(depth: u8, board: &mut Board) -> (r: Option<Evaluation>)
        requires
            old(board)@.wf(),
            old(board)@.moves_since_progress + depth < usize::MAX,
        ensures
            final(board)@ == old(board)@,
            opt_score(r) == eval_rec(Policy::Maximax, depth as nat, old(board)@),
    {
        eval_core(Policy::Maximax, depth, board)
    }

    /// Picks the first-encountered move with the maximum raw backed-up
    /// score: the cooperative upper bound.
    pub fn search(depth: u8, board: &mut Board) -> (r: Option<(Move, Evaluation)>)
        requires
            old(board)@.wf(),
            old(board)@.moves_since_progress + depth + 1 < usize::MAX,
        ensures
            final(board)@ == old(board)@,
            opt_best(r) == search_rec(Policy::Maximax, depth as nat, old(board)@),
    {
        search_core(Policy::Maximax, depth, board)
    }
}

impl Strategy for Maximax {
    fn choose_move(&mut self, board: &Board) -> (mv: Option<Move>)
        ensures
            *final(self) == *old(self),
            mv == match search_rec(Policy::Maximax, old(self).depth as nat, board@) {
                Some((m, s)) => Some(m),
                None => None::<Move>,
            },
    {
        let mut b = board.duplicate();
        match Maximax::search(self.depth, &mut b) {
            Some((mv, _)) => Some(mv),
            None => None,
        }
    }
}

impl Minimin {
    /// Scores a board assuming it is the opponent's turn and the opponent
    /// does its best: the cooperative search below, negated.
    pub fn evaluate(depth: u8, board: &mut Board) -> (r: Option<Evaluation>)
        requires
            old(board)@.wf(),
            old(board)@.moves_since_progress + depth < usize::MAX,
        ensures
            final(board)@ == old(board)@,
            opt_score(r) == eval_rec(Policy::Minimin, depth as nat, old(board)@),
    {
        eval_core(Policy::Minimin, depth, board)
    }

    /// Picks the first-encountered move with the minimum raw backed-up
    /// score: the adversarial lower bound.
    pub fn search(depth: u8, board: &mut Board) -> (r: Option<(Move, Evaluation)>)
        requires
            old(board)@.wf(),
            old(board)@.moves_since_progress + depth + 1 < usize::MAX,
        ensures
            final(board)@ == old(board)@,
            opt_best(r) == search_rec(Policy::Minimin, depth as nat, old(board)@),
    {
        search_core(Policy::Minimin, depth, board)
    }
}

impl Strategy for Minimin {
    fn choose_move(&mut self, board: &Board) -> (mv: Option<Move>)
        ensures
            *final(self) == *old(self),
            mv == match search_rec(Policy::Minimin, old(self).depth as nat, board@) {
                Some((m, s)) => Some(m),
                None => None::<Move>,
            },
    {
        let mut b = board.duplicate();
        match Minimin::search(self.depth, &mut b) {
            Some((mv, _)) => Some(mv),
            None => None,
        }
    }
}

impl SinglePlayer {
    /// Scores a board as if the mover moves again: the turn was handed back
    /// and the en-passant window closed before this is called.
    pub fn evaluate(depth: u8, board: &mut Board) -> (r: Option<Evaluation>)
        requires
            old(board)@.wf(),
            old(board)@.moves_since_progress + depth < usize::MAX,
        ensures
            final(board)@ == old(board)@,
            opt_score(r) == eval_rec(Policy::SinglePlayer, depth as nat, old(board)@),
    {
        eval_core(Policy::SinglePlayer, depth, board)
    }

    /// Picks the first-encountered move with the best signed-for-mover
    /// score, ignoring opponent replies.
    pub fn search(depth: u8, board: &mut Board) -> (r: Option<(Move, Evaluation)>)
        requires
            old(board)@.wf(),
            old(board)@.moves_since_progress + depth + 1 < usize::MAX,
        ensures
            final(board)@ == old(board)@,
            opt_best(r) == search_rec(Policy::SinglePlayer, depth as nat, old(board)@),
    {
        search_core(Policy::SinglePlayer, depth, board)
    }
}

impl Strategy for SinglePlayer {
    fn choose_move(&mut self, board: &Board) -> (mv: Option<Move>)
        ensures
            *final(self) == *old(self),
            mv == match search_rec(Policy::SinglePlayer, old(self).depth as nat, board@) {
                Some((m, s)) => Some(m),
                None => None::<Move>,
            },
    {
        let mut b = board.duplicate();
        match SinglePlayer::search(self.depth, &mut b) {
            Some((mv, _)) => Some(mv),
            None => None,
        }
    }
}

} // verus!
