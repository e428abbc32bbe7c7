//! The legal move generator: built fresh from a position, it stores one
//! destination bitboard per origin square plus the special moves, and answers
//! enumeration, counting and membership queries.
//!
//! `spec_gen_move` is the board-level meaning of "the generator yields this
//! move": king moves that survive the safety simulation; for the other pieces
//! their pattern intersected with the check-evasion mask and the pin line; en
//! passant with its discovered-check tests; castling through empty, safe
//! squares.

use vstd::prelude::*;

use crate::attack::{
    bishop_attack, fill, fill_between, king_mask, knight_mask, pawn_attack_mask, pawn_push_mask,
    pawn_pushes, rook_attack, spec_between, spec_line, step_ok, step_to, try_step, AttackTables,
};
use crate::bit::{bb_has, lemma_bb_empty, lemma_bb_ops, lemma_bb_single, pop64, spec_shift,
    Bitboard, FULL};
use crate::moves::{spec_castling_move, Move, MoveFlag, Side};
use crate::position::Board;
use crate::units::{Color, Direction, PieceType, Square};

verus! {

/// Whether a square holds a pawn of the mover standing one rank before
/// promotion.
pub open spec fn spec_promo_origin(b: Board, f: u64) -> bool {
    bb_has(b.spec_color_bb(b.turn) & b.pawns.0, f) && f / 8 == (match b.turn {
        Color::White => 6u64,
        Color::Black => 1u64,
    })
}

/// The destinations that answer a check: everything when not in check; the
/// checker's square, plus the squares between it and the king when it
/// slides, under single check.
pub open spec fn spec_dest_mask(b: Board) -> u64 {
    if b.checkers.0 == 0 {
        FULL
    } else {
        let c = vstd::std_specs::bits::u64_trailing_zeros(b.checkers.0) as u64;
        if bb_has(b.bishops.0 | b.rooks.0 | b.queens.0, c) {
            b.checkers.0 | spec_between(b.spec_king_sq(b.turn), c)
        } else {
            b.checkers.0
        }
    }
}

/// The pin restriction of an origin: a pinned piece may only move along the
/// line through it and the king.
pub open spec fn spec_pin_filter(b: Board, f: u64) -> u64 {
    if bb_has(b.pinned.0, f) {
        spec_line(f, b.spec_king_sq(b.turn))
    } else {
        FULL
    }
}

/// The generated destinations of a non-king piece of the mover: its movement
/// pattern, intersected with the check-evasion mask and the pin line.
pub open spec fn spec_piece_dests(b: Board, f: u64) -> u64 {
    let own = b.spec_color_bb(b.turn);
    let enemy = b.spec_color_bb(b.turn.spec_opponent());
    let occ = b.spec_occ();
    let base = if bb_has(b.pawns.0, f) {
        (pawn_attack_mask(b.turn, f) & enemy) | pawn_push_mask(b.turn, f, occ)
    } else if bb_has(b.knights.0, f) {
        knight_mask(f) & !own
    } else if bb_has(b.bishops.0, f) {
        bishop_attack(f, own, enemy)
    } else if bb_has(b.rooks.0, f) {
        rook_attack(f, own, enemy)
    } else {
        bishop_attack(f, own, enemy) | rook_attack(f, own, enemy)
    };
    base & spec_dest_mask(b) & spec_pin_filter(b, f)
}

/// Whether the king may step to `t`: a pseudo king move that survives the
/// safety simulation.
pub open spec fn spec_king_dest(b: Board, t: u64) -> bool {
    let k = b.spec_king_sq(b.turn);
    bb_has(king_mask(k) & !b.spec_color_bb(b.turn), t) && b.spec_safe_to_move(k, t)
}

/// Whether capturing en passant would bare the king along its own rank: with
/// both the capturing and the captured pawn lifted off the board, a rook or
/// queen of the opponent reaches the king horizontally. The single-blocker
/// form of this is a pin, but when the two pawns stand side by side between
/// king and slider neither is pinned, so the pair needs its own test.
pub open spec fn spec_ep_bares_rank(b: Board, from: u64, passed: u64) -> bool {
    let k = b.spec_king_sq(b.turn);
    let occ2 = b.spec_occ() & !(1u64 << from) & !(1u64 << passed);
    let enemy_rq = b.spec_color_bb(b.turn.spec_opponent()) & (b.rooks.0 | b.queens.0);
    k / 8 == passed / 8 && (crate::attack::ray_attack(Direction::East, k, occ2)
        | crate::attack::ray_attack(Direction::West, k, occ2)) & enemy_rq != 0
}

/// Whether the generator yields this en passant capture: the target matches
/// the stored square and answers the check, removing the two pawns uncovers
/// no check (neither through the captured pawn's pin line nor, when both
/// pawns sit on the king's rank, through the vacated rank), and the capturing
/// pawn stands adjacent and does not leave its pin line.
pub open spec fn spec_ep_move(b: Board, mv: Move) -> bool {
    match (b.ep_target, mv.flag) {
        (Some(ept), MoveFlag::EnPassant(passed)) => {
            let k = b.spec_king_sq(b.turn);
            let d_back = Direction::spec_of_pawns(b.turn.spec_opponent());
            &&& pop64(b.checkers.0) < 2
            &&& ept.wf()
            &&& mv.to == ept
            &&& step_ok(ept.0 as u64, d_back)
            &&& passed.0 as u64 == step_to(ept.0 as u64, d_back)
            &&& (bb_has(spec_dest_mask(b), ept.0 as u64) || bb_has(
                spec_dest_mask(b),
                passed.0 as u64,
            ))
            &&& !(bb_has(b.pinned.0, passed.0 as u64) && k % 8 != passed.0 as u64 % 8)
            &&& bb_has(
                (spec_shift(1u64 << passed.0, Direction::West) | spec_shift(
                    1u64 << passed.0,
                    Direction::East,
                )) & b.spec_color_bb(b.turn) & b.pawns.0,
                mv.from.0 as u64,
            )
            &&& (!bb_has(b.pinned.0, mv.from.0 as u64) || bb_has(
                spec_line(mv.from.0 as u64, k),
                ept.0 as u64,
            ))
            &&& !spec_ep_bares_rank(b, mv.from.0 as u64, passed.0 as u64)
        },
        _ => false,
    }
}

/// Whether the generator yields this castling: the right is held, the king is
/// not in check, the crossed squares are empty, and neither the crossed nor
/// the landing square is attacked.
pub open spec fn spec_castle_move(b: Board, mv: Move, side: Side) -> bool {
    let k = b.spec_king_sq(b.turn);
    let opp = b.turn.spec_opponent();
    let mid = if side == Side::King {
        k + 1
    } else {
        k - 1
    };
    &&& b.checkers.0 == 0
    &&& b.rights.spec_get(b.turn, side)
    &&& mv == spec_castling_move(b.turn, side)
    &&& 0 <= mid < 64
    &&& !bb_has(b.spec_occ(), mid as u64)
    &&& !bb_has(b.spec_occ(), mv.to.0 as u64)
    &&& (side == Side::Queen ==> mv.to.0 >= 1 && !bb_has(b.spec_occ(), (mv.to.0 - 1) as u64))
    &&& !b.spec_attacked(mid as u64, opp)
    &&& !b.spec_attacked(mv.to.0 as u64, opp)
}

/// Whether the generator yields a special move: en passant or castling.
pub open spec fn spec_special_move(b: Board, mv: Move) -> bool {
    match mv.flag {
        MoveFlag::EnPassant(_) => spec_ep_move(b, mv),
        MoveFlag::Castling(side) => spec_castle_move(b, mv, side),
        _ => false,
    }
}

/// Whether the generator yields this move; the exact set of legal moves the
/// position admits.
pub open spec fn spec_gen_move(b: Board, mv: Move) -> bool {
    let k = b.spec_king_sq(b.turn);
    &&& mv.from.wf()
    &&& mv.to.wf()
    &&& match mv.flag {
        MoveFlag::Quiet => (mv.from.0 as u64 == k && spec_king_dest(b, mv.to.0 as u64)) || (pop64(
            b.checkers.0,
        ) < 2 && bb_has(b.spec_color_bb(b.turn) & !b.kings.0, mv.from.0 as u64)
            && !spec_promo_origin(b, mv.from.0 as u64) && bb_has(
            spec_piece_dests(b, mv.from.0 as u64),
            mv.to.0 as u64,
        )),
        MoveFlag::Promotion(pt) => pop64(b.checkers.0) < 2 && spec_promo_origin(
            b,
            mv.from.0 as u64,
        ) && bb_has(spec_piece_dests(b, mv.from.0 as u64), mv.to.0 as u64)
            && pt.spec_can_be_promotion(),
        MoveFlag::EnPassant(_) => spec_ep_move(b, mv),
        MoveFlag::Castling(side) => spec_castle_move(b, mv, side),
    }
}

/// The number of moves a prefix of the stored entries holds: each promotion
/// origin spreads to the four piece types.
pub open spec fn spec_count_quiets(qs: Seq<(Square, Bitboard)>, pm: u64) -> int
    decreases qs.len(),
{
    if qs.len() == 0 {
        0
    } else {
        spec_count_quiets(qs.drop_last(), pm) + pop64(qs.last().1.0) * (if bb_has(
            pm,
            qs.last().0.0 as u64,
        ) {
            4int
        } else {
            1int
        })
    }
}

/// A container for the legal moves of one position: one destination bitboard
/// per origin, the en passant and castling moves listed apart, the origins
/// that promote marked, and the position itself as a ghost companion.
pub struct MoveGen {
    pub quiets: Vec<(Square, Bitboard)>,
    pub specials: Vec<Move>,
    pub promotion_mask: Bitboard,
    pub board: Ghost<Board>,
}

impl MoveGen {
    /// The number of moves the generator holds.
    pub open spec fn spec_move_count(self) -> int {
        spec_count_quiets(self.quiets@, self.promotion_mask.0) + self.specials@.len()
    }

}

/// The stored entries, against the position: the first entry holds the legal
/// king moves; every further entry holds the full destination set of one
/// distinct non-king origin, nonempty, with promotion origins marked; such
/// entries cover every origin with a move; under double check there is
/// nothing but the king entry.
pub open spec fn quiets_model(qs: Seq<(Square, Bitboard)>, pm: u64, b: Board) -> bool {
    let k = b.spec_king_sq(b.turn);
    &&& 1 <= qs.len() <= 65
    &&& qs[0].0.0 as u64 == k
    &&& qs[0].0.wf()
    &&& forall|t: u64| t < 64 ==> (#[trigger] bb_has(qs[0].1.0, t) == spec_king_dest(b, t))
    &&& !bb_has(pm, k)
    &&& forall|j: int|
        1 <= j < qs.len() ==> {
            let f = (#[trigger] qs[j]).0.0 as u64;
            &&& qs[j].0.wf()
            &&& bb_has(b.spec_color_bb(b.turn) & !b.kings.0, f)
            &&& qs[j].1.0 == spec_piece_dests(b, f)
            &&& qs[j].1.0 != 0
            &&& (bb_has(pm, f) <==> spec_promo_origin(b, f))
        }
    &&& forall|j1: int, j2: int|
        0 <= j1 < j2 < qs.len() ==> (#[trigger] qs[j1]).0.0 != (#[trigger] qs[j2]).0.0
    &&& (pop64(b.checkers.0) < 2 ==> forall|f: u64|
        f < 64 && #[trigger] bb_has(b.spec_color_bb(b.turn) & !b.kings.0, f) && spec_piece_dests(
            b,
            f,
        ) != 0 ==> exists|j: int| 1 <= j < qs.len() && (#[trigger] qs[j]).0.0 as u64 == f)
    &&& (pop64(b.checkers.0) >= 2 ==> qs.len() == 1)
}

/// The stored special moves, against the position: exactly the legal en
/// passant and castling moves, each once.
pub open spec fn specials_model(sp: Seq<Move>, b: Board) -> bool {
    &&& sp.len() <= 66
    &&& (pop64(b.checkers.0) >= 2 ==> sp.len() == 0)
    &&& forall|j: int| 0 <= j < sp.len() ==> spec_special_move(b, #[trigger] sp[j])
    &&& forall|mv: Move|
        #[trigger] spec_special_move(b, mv) ==> exists|j: int| 0 <= j < sp.len() && sp[j] == mv
    &&& forall|j1: int, j2: int|
        0 <= j1 < j2 < sp.len() ==> #[trigger] sp[j1] != #[trigger] sp[j2]
}

impl MoveGen {
    /// What the stored data means, against the position it was built from.
    pub open spec fn models(self, b: Board) -> bool {
        &&& b.wf()
        &&& b.has_kings()
        &&& b.cache_ok()
        &&& self.board@ == b
        &&& quiets_model(self.quiets@, self.promotion_mask.0, b)
        &&& specials_model(self.specials@, b)
    }
}

impl Board {
    /// The legal king destinations, as a bitboard.
    fn king_legals(&self, t: &AttackTables, ksq: Square) -> (r: Bitboard)
        requires
            t.wf(),
            self.wf(),
            self.has_kings(),
            ksq.wf(),
            ksq.0 as u64 == self.spec_king_sq(self.turn),
        ensures
            forall|t2: u64| t2 < 64 ==> (#[trigger] bb_has(r.0, t2) == spec_king_dest(*self, t2)),
    {
        let own = self.own_color();
        let cand0 = t.of_king(ksq, own);
        let mut cand = cand0;
        let mut legals = Bitboard(0);
        proof {
            lemma_bb_empty();
            lemma_bb_ops(cand0.0, !cand0.0);
            lemma_bb_ops(cand0.0, 0);
        }
        while cand.0 != 0
            invariant
                t.wf(),
                self.wf(),
                self.has_kings(),
                ksq.wf(),
                ksq.0 as u64 == self.spec_king_sq(self.turn),
                cand0.0 == king_mask(ksq.0 as u64) & !self.spec_color_bb(self.turn),
                forall|i: u64| i < 64 ==> #[trigger] bb_has(cand.0, i) ==> bb_has(cand0.0, i),
                forall|i: u64|
                    i < 64 ==> #[trigger] bb_has(legals.0, i) == (bb_has(cand0.0 & !cand.0, i)
                        && self.spec_safe_to_move(ksq.0 as u64, i)),
            decreases pop64(cand.0),
        {
            let ghost old_cand = cand.0;
            let ghost old_legals = legals.0;
            let to = match cand.next_square() {
                Some(p) => p,
                None => {
                    proof {
                        assert(false);
                    }
                    Square(0)
                },
            };
            proof {
                lemma_bb_single(to.0 as u64);
                lemma_bb_ops(old_cand, !(1u64 << to.0));
                lemma_bb_ops(cand0.0, !old_cand);
                lemma_bb_ops(cand0.0, !cand.0);
                lemma_bb_ops(cand.0, 0);
                lemma_bb_ops(1u64 << to.0, 0);
                assert(bb_has(self.kings.0 & self.spec_color_bb(self.turn), ksq.0 as u64));
                crate::state::lemma_piece_members(*self);
                assert(bb_has(
                    self.spec_ptype_bb(PieceType::King) & self.spec_color_bb(self.turn),
                    ksq.0 as u64,
                ) == (self.spec_piece_at(ksq.0 as u64) == Some(
                    crate::units::Piece { color: self.turn, ptype: PieceType::King },
                )));
            }
            if self.is_safe_to_move(t, ksq, to) {
                legals.add(to);
            }
            proof {
                assert forall|i: u64| i < 64 implies #[trigger] bb_has(legals.0, i) == (bb_has(
                    cand0.0 & !cand.0,
                    i,
                ) && self.spec_safe_to_move(ksq.0 as u64, i)) by {
                    if i != to.0 as u64 {
                        assert(bb_has(legals.0, i) == bb_has(old_legals, i));
                        assert(bb_has(cand0.0 & !cand.0, i) == bb_has(cand0.0 & !old_cand, i));
                    }
                }
            }
        }
        proof {
            lemma_bb_ops(cand0.0, !cand.0);
            lemma_bb_ops(cand.0, 0);
        }
        legals
    }
}


impl Board {
    /// The check-evasion destination mask of the position.
    fn dest_mask(&self, t: &AttackTables, ksq: Square) -> (r: Bitboard)
        requires
            t.wf(),
            self.wf(),
            self.has_kings(),
            ksq.wf(),
            ksq.0 as u64 == self.spec_king_sq(self.turn),
        ensures
            r.0 == spec_dest_mask(*self),
    {
        if self.checkers.0 == 0 {
            Bitboard(FULL)
        } else {
            let c = self.checkers.scan_forward();
            if Bitboard(self.bishops.0 | self.rooks.0 | self.queens.0).get(c) {
                Bitboard(self.checkers.0 | fill_between(ksq, c).0)
            } else {
                self.checkers
            }
        }
    }

    /// The generated destinations of one non-king piece of the mover.
    fn piece_dests(&self, t: &AttackTables, from: Square, dmask: Bitboard, ksq: Square) -> (r:
        Bitboard)
        requires
            t.wf(),
            self.wf(),
            self.has_kings(),
            from.wf(),
            ksq.wf(),
            ksq.0 as u64 == self.spec_king_sq(self.turn),
            dmask.0 == spec_dest_mask(*self),
            bb_has(self.spec_color_bb(self.turn) & !self.kings.0, from.0 as u64),
        ensures
            r.0 == spec_piece_dests(*self, from.0 as u64),
    {
        let own = self.own_color();
        let enemy = self.opponent_color();
        let occ = self.occupied();
        proof {
            lemma_bb_ops(own.0, !self.kings.0);
        }
        let base = if self.pawns.get(from) {
            Bitboard(t.of_pawn(self.turn, from, enemy).0 | pawn_pushes(self.turn, from, occ).0)
        } else if self.knights.get(from) {
            t.of_knight(from, own)
        } else if self.bishops.get(from) {
            t.of_bishop(from, own, enemy)
        } else if self.rooks.get(from) {
            t.of_rook(from, own, enemy)
        } else {
            t.of_queen(from, own, enemy)
        };
        let masked = Bitboard(base.0 & dmask.0);
        if self.pinned.get(from) {
            Bitboard(masked.0 & t.fill_line(from, ksq).0)
        } else {
            proof {
                let x = masked.0;
                assert(x & 0xffff_ffff_ffff_ffffu64 == x) by (bit_vector);
            }
            Bitboard(masked.0 & FULL)
        }
    }

    /// Builds the legal moves of this position into a fresh generator.
    pub fn legal_moves(&self, t: &AttackTables) -> (g: MoveGen)
        requires
            t.wf(),
            self.wf(),
            self.has_kings(),
            self.cache_ok(),
        ensures
            g.models(*self),
    {
        let ksq = self.king_square();
        let (quiets, promotion_mask) = self.build_quiets(t, ksq);
        let specials: Vec<Move> = if self.checkers.pop_count() < 2 {
            let dmask = self.dest_mask(t, ksq);
            self.build_specials(t, dmask, ksq)
        } else {
            let sp: Vec<Move> = Vec::new();
            proof {
                assert forall|mv: Move| #[trigger] spec_special_move(*self, mv) implies exists|
                    j: int,
                |
                    0 <= j < sp@.len() && sp@[j] == mv by {
                    crate::bit::lemma_pop_zero(self.checkers.0);
                    match mv.flag {
                        MoveFlag::Castling(side) => {
                            assert(!spec_castle_move(*self, mv, side));
                        },
                        _ => {},
                    }
                }
                assert(specials_model(sp@, *self));
            }
            sp
        };
        MoveGen { quiets, specials, promotion_mask, board: Ghost(*self) }
    }

    /// Builds the per-origin destination entries and the promotion marks.
    #[verifier::spinoff_prover]
    #[verifier::rlimit(100)]
    fn build_quiets(&self, t: &AttackTables, ksq: Square) -> (r: (Vec<(Square, Bitboard)>, Bitboard))
        requires
            t.wf(),
            self.wf(),
            self.has_kings(),
            self.cache_ok(),
            ksq.wf(),
            ksq.0 as u64 == self.spec_king_sq(self.turn),
        ensures
            quiets_model(r.0@, r.1.0, *self),
    {
        let mut quiets: Vec<(Square, Bitboard)> = Vec::new();
        let mut promotion_mask = Bitboard(0);
        let legals = self.king_legals(t, ksq);
        quiets.push((ksq, legals));
        proof {
            lemma_bb_empty();
        }
        let two_checks = self.checkers.pop_count() >= 2;
        if !two_checks {
            let dmask = self.dest_mask(t, ksq);
            let origins0 = Bitboard(self.own_color().0 & !self.kings.0);
            let mut origins = origins0;
            proof {
                lemma_bb_ops(origins0.0, !origins0.0);
                lemma_bb_ops(origins0.0, 0);
                crate::bit::lemma_pop_bound(origins0.0);
            }
            let promo_rank: u8 = match self.turn {
                Color::White => 6,
                Color::Black => 1,
            };
            while origins.0 != 0
                invariant
                    t.wf(),
                    self.wf(),
                    self.has_kings(),
                    self.cache_ok(),
                    ksq.wf(),
                    ksq.0 as u64 == self.spec_king_sq(self.turn),
                    dmask.0 == spec_dest_mask(*self),
                    origins0.0 == self.spec_color_bb(self.turn) & !self.kings.0,
                    promo_rank == (match self.turn {
                        Color::White => 6u8,
                        Color::Black => 1u8,
                    }),
                    quiets@.len() >= 1,
                    quiets@.len() + pop64(origins.0) <= 1 + pop64(origins0.0),
                    pop64(origins0.0) <= 64,
                    quiets@[0] == (ksq, legals),
                    forall|i: u64|
                        i < 64 ==> #[trigger] bb_has(origins.0, i) ==> bb_has(origins0.0, i),
                    !bb_has(promotion_mask.0, ksq.0 as u64),
                    forall|j: int|
                        1 <= j < quiets@.len() ==> {
                            let f = (#[trigger] quiets@[j]).0.0 as u64;
                            &&& quiets@[j].0.wf()
                            &&& bb_has(origins0.0, f)
                            &&& bb_has(origins0.0 & !origins.0, f)
                            &&& quiets@[j].1.0 == spec_piece_dests(*self, f)
                            &&& quiets@[j].1.0 != 0
                            &&& (bb_has(promotion_mask.0, f) <==> spec_promo_origin(*self, f))
                        },
                    forall|i: u64|
                        i < 64 ==> #[trigger] bb_has(promotion_mask.0, i) ==> exists|j: int|
                            1 <= j < quiets@.len() && (#[trigger] quiets@[j]).0.0 as u64 == i,
                    forall|j1: int, j2: int|
                        0 <= j1 < j2 < quiets@.len() ==> (#[trigger] quiets@[j1]).0.0 != (
                        #[trigger] quiets@[j2]).0.0,
                    forall|f: u64|
                        f < 64 && #[trigger] bb_has(origins0.0 & !origins.0, f)
                            && spec_piece_dests(*self, f) != 0 ==> exists|j: int|
                            1 <= j < quiets@.len() && (#[trigger] quiets@[j]).0.0 as u64 == f,
                decreases pop64(origins.0),
            {
                let ghost old_origins = origins.0;
                let ghost old_quiets = quiets@;
                let ghost old_pm = promotion_mask.0;
                let from = match origins.next_square() {
                    Some(p) => p,
                    None => {
                        proof {
                            assert(false);
                        }
                        Square(0)
                    },
                };
                proof {
                    lemma_bb_single(from.0 as u64);
                    lemma_bb_ops(old_origins, !(1u64 << from.0));
                    lemma_bb_ops(origins0.0, !old_origins);
                    lemma_bb_ops(origins0.0, !origins.0);
                    lemma_bb_ops(origins.0, 0);
                    lemma_bb_ops(1u64 << from.0, 0);
                    lemma_bb_ops(self.spec_color_bb(self.turn), !self.kings.0);
                    lemma_bb_ops(self.spec_color_bb(self.turn), self.pawns.0);
                    assert forall|i: u64| i < 64 implies #[trigger] bb_has(
                        origins0.0 & !origins.0,
                        i,
                    ) == (bb_has(origins0.0 & !old_origins, i) || i == from.0) by {
                        assert(bb_has(origins0.0, i) == (bb_has(origins0.0 & !old_origins, i)
                            || bb_has(origins.0, i) || i == from.0) || !bb_has(origins0.0, i));
                    }
                }
                let dests = self.piece_dests(t, from, dmask, ksq);
                proof {
                    lemma_bb_ops(self.kings.0, self.spec_color_bb(self.turn));
                    assert(bb_has(self.kings.0 & self.spec_color_bb(self.turn), ksq.0 as u64));
                    assert(from.0 != ksq.0);
                    crate::position::lemma_wf_unfold(*self);
                    assert(crate::position::wf_at(*self, from.0 as u64));
                }
                if dests.0 != 0 {
                    let is_promo = self.pawns.get(from) && from.0 / 8 == promo_rank;
                    quiets.push((from, dests));
                    if is_promo {
                        promotion_mask.add(from);
                    }
                    proof {
                        assert(is_promo == spec_promo_origin(*self, from.0 as u64));
                        assert(quiets@[quiets@.len() - 1].0.0 as u64 == from.0 as u64);
                        assert forall|j: int| 1 <= j < quiets@.len() implies {
                            let f = (#[trigger] quiets@[j]).0.0 as u64;
                            &&& quiets@[j].0.wf()
                            &&& bb_has(origins0.0, f)
                            &&& bb_has(origins0.0 & !origins.0, f)
                            &&& quiets@[j].1.0 == spec_piece_dests(*self, f)
                            &&& quiets@[j].1.0 != 0
                            &&& (bb_has(promotion_mask.0, f) <==> spec_promo_origin(*self, f))
                        } by {
                            if j < old_quiets.len() {
                                assert(quiets@[j] == old_quiets[j]);
                                let f = quiets@[j].0.0 as u64;
                                assert(bb_has(origins0.0 & !old_origins, f));
                                assert(f != from.0 as u64);
                                assert(bb_has(promotion_mask.0, f) == bb_has(old_pm, f));
                            }
                        }
                        assert forall|i: u64|
                            i < 64 && #[trigger] bb_has(promotion_mask.0, i) implies exists|j: int|
                            1 <= j < quiets@.len() && (#[trigger] quiets@[j]).0.0 as u64 == i by {
                            if i == from.0 as u64 {
                                assert(quiets@[quiets@.len() - 1].0.0 as u64 == i);
                            } else {
                                assert(bb_has(old_pm, i));
                                let j = choose|j: int|
                                    1 <= j < old_quiets.len() && old_quiets[j].0.0 as u64 == i;
                                assert(quiets@[j].0.0 as u64 == i);
                            }
                        }
                        assert forall|j1: int, j2: int|
                            0 <= j1 < j2 < quiets@.len() implies (#[trigger] quiets@[j1]).0.0 != (
                        #[trigger] quiets@[j2]).0.0 by {
                            if j2 == quiets@.len() - 1 {
                                if j1 >= 1 {
                                    assert(bb_has(origins0.0 & !old_origins, old_quiets[j1].0.0 as u64));
                                }
                            }
                        }
                        assert forall|f: u64|
                            f < 64 && #[trigger] bb_has(origins0.0 & !origins.0, f)
                                && spec_piece_dests(*self, f) != 0 implies exists|j: int|
                            1 <= j < quiets@.len() && (#[trigger] quiets@[j]).0.0 as u64 == f by {
                            if f == from.0 as u64 {
                                assert(quiets@[quiets@.len() - 1].0.0 as u64 == f);
                            } else {
                                assert(bb_has(origins0.0 & !old_origins, f));
                                let j = choose|j: int|
                                    1 <= j < old_quiets.len() && old_quiets[j].0.0 as u64 == f;
                                assert(quiets@[j].0.0 as u64 == f);
                            }
                        }
                    }
                } else {
                    proof {
                        assert forall|f: u64|
                            f < 64 && #[trigger] bb_has(origins0.0 & !origins.0, f)
                                && spec_piece_dests(*self, f) != 0 implies exists|j: int|
                            1 <= j < quiets@.len() && (#[trigger] quiets@[j]).0.0 as u64 == f by {
                            if f != from.0 as u64 {
                                assert(bb_has(origins0.0 & !old_origins, f));
                            }
                        }
                    }
                }
            }
            proof {
                lemma_bb_ops(origins0.0, !origins.0);
                lemma_bb_ops(origins.0, 0);
                lemma_bb_ops(self.spec_color_bb(self.turn), !self.kings.0);
                assert forall|f: u64|
                    f < 64 && #[trigger] bb_has(self.spec_color_bb(self.turn) & !self.kings.0, f)
                        && spec_piece_dests(*self, f) != 0 implies exists|j: int|
                    1 <= j < quiets@.len() && (#[trigger] quiets@[j]).0.0 as u64 == f by {
                    assert(bb_has(origins0.0 & !origins.0, f));
                }
            }
        }
        proof {
            assert(quiets_model(quiets@, promotion_mask.0, *self));
        }
        (quiets, promotion_mask)
    }

    /// Builds the special moves of the position: en passant then castling.
    fn build_specials(&self, t: &AttackTables, dmask: Bitboard, ksq: Square) -> (sp: Vec<Move>)
        requires
            t.wf(),
            self.wf(),
            self.has_kings(),
            ksq.wf(),
            ksq.0 as u64 == self.spec_king_sq(self.turn),
            dmask.0 == spec_dest_mask(*self),
            pop64(self.checkers.0) < 2,
        ensures
            sp@.len() <= 66,
            forall|j: int| 0 <= j < sp@.len() ==> spec_special_move(*self, #[trigger] sp@[j]),
            forall|mv: Move|
                #[trigger] spec_special_move(*self, mv) ==> exists|j: int|
                    0 <= j < sp@.len() && sp@[j] == mv,
            forall|j1: int, j2: int|
                0 <= j1 < j2 < sp@.len() ==> #[trigger] sp@[j1] != #[trigger] sp@[j2],
    {
        let mut specials: Vec<Move> = Vec::new();
        self.add_en_passant(t, &mut specials, dmask, ksq);
        let ghost sp_ep = specials@;
        self.add_castlings(t, &mut specials, ksq);
        proof {
            assert forall|mv: Move| #[trigger] spec_special_move(*self, mv) implies exists|j: int|
                0 <= j < specials@.len() && specials@[j] == mv by {
                match mv.flag {
                    MoveFlag::EnPassant(_) => {
                        let j = choose|j: int| 0 <= j < sp_ep.len() && sp_ep[j] == mv;
                        assert(specials@[j] == mv);
                    },
                    _ => {},
                }
            }
        }
        specials
    }

    /// Adds the legal en passant captures to the special list.
    fn add_en_passant(
        &self,
        t: &AttackTables,
        specials: &mut Vec<Move>,
        dmask: Bitboard,
        ksq: Square,
    )
        requires
            t.wf(),
            self.wf(),
            self.has_kings(),
            ksq.wf(),
            ksq.0 as u64 == self.spec_king_sq(self.turn),
            dmask.0 == spec_dest_mask(*self),
            pop64(self.checkers.0) < 2,
            old(specials)@.len() == 0,
        ensures
            final(specials)@.len() <= 64,
            forall|j: int|
                0 <= j < final(specials)@.len() ==> spec_ep_move(
                    *self,
                    #[trigger] final(specials)@[j],
                ),
            forall|mv: Move|
                (mv.flag is EnPassant && #[trigger] spec_special_move(*self, mv)) ==> exists|
                    j: int,
                | 0 <= j < final(specials)@.len() && final(specials)@[j] == mv,
            forall|j: int|
                0 <= j < final(specials)@.len() ==> (#[trigger] final(specials)@[j]).flag
                    is EnPassant,
            forall|j1: int, j2: int|
                0 <= j1 < j2 < final(specials)@.len() ==> #[trigger] final(specials)@[j1]
                    != #[trigger] final(specials)@[j2],
    {
        let ept = match self.ep_target {
            Some(s) => s,
            None => {
                return ;
            },
        };
        let d_back = Direction::of_pawns(self.turn.opponent());
        let passed = match try_step(ept, d_back) {
            Some(s) => s,
            None => {
                return ;
            },
        };
        if !dmask.get(ept) && !dmask.get(passed) {
            return ;
        }
        if self.pinned.get(passed) && ksq.0 % 8 != passed.0 % 8 {
            return ;
        }
        let adj = Bitboard(
            (Bitboard::single(passed).shift(Direction::West).0 | Bitboard::single(passed).shift(
                Direction::East,
            ).0) & self.own_color().0 & self.pawns.0,
        );
        let mut rest = adj;
        proof {
            lemma_bb_ops(adj.0, !adj.0);
            lemma_bb_ops(adj.0, 0);
            lemma_bb_empty();
            crate::bit::lemma_pop_bound(adj.0);
        }
        while rest.0 != 0
            invariant
                t.wf(),
                self.wf(),
                self.has_kings(),
                ksq.wf(),
                ksq.0 as u64 == self.spec_king_sq(self.turn),
                self.ep_target == Some(ept),
                ept.wf(),
                step_ok(ept.0 as u64, Direction::spec_of_pawns(self.turn.spec_opponent())),
                passed.wf(),
                passed.0 as u64 == step_to(
                    ept.0 as u64,
                    Direction::spec_of_pawns(self.turn.spec_opponent()),
                ),
                dmask.0 == spec_dest_mask(*self),
                bb_has(spec_dest_mask(*self), ept.0 as u64) || bb_has(
                    spec_dest_mask(*self),
                    passed.0 as u64,
                ),
                !(bb_has(self.pinned.0, passed.0 as u64) && ksq.0 as u64 % 8 != passed.0 as u64
                    % 8),
                pop64(self.checkers.0) < 2,
                adj.0 == (spec_shift(1u64 << passed.0, Direction::West) | spec_shift(
                    1u64 << passed.0,
                    Direction::East,
                )) & self.spec_color_bb(self.turn) & self.pawns.0,
                forall|i: u64| i < 64 ==> #[trigger] bb_has(rest.0, i) ==> bb_has(adj.0, i),
                forall|j: int|
                    0 <= j < specials@.len() ==> spec_ep_move(*self, #[trigger] specials@[j]),
                forall|j: int|
                    0 <= j < specials@.len() ==> (#[trigger] specials@[j]).flag is EnPassant,
                forall|mv: Move|
                    (mv.flag is EnPassant && #[trigger] spec_special_move(*self, mv) && bb_has(
                        adj.0 & !rest.0,
                        mv.from.0 as u64,
                    )) ==> exists|j: int| 0 <= j < specials@.len() && specials@[j] == mv,
                forall|j: int|
                    0 <= j < specials@.len() ==> bb_has(
                        adj.0 & !rest.0,
                        (#[trigger] specials@[j]).from.0 as u64,
                    ),
                specials@.len() + pop64(rest.0) <= pop64(adj.0),
                pop64(adj.0) <= 64,
                forall|j1: int, j2: int|
                    0 <= j1 < j2 < specials@.len() ==> #[trigger] specials@[j1]
                        != #[trigger] specials@[j2],
            decreases pop64(rest.0),
        {
            let ghost old_rest = rest.0;
            let ghost old_sp = specials@;
            let from = match rest.next_square() {
                Some(p) => p,
                None => {
                    proof {
                        assert(false);
                    }
                    Square(0)
                },
            };
            proof {
                lemma_bb_single(from.0 as u64);
                lemma_bb_ops(old_rest, !(1u64 << from.0));
                lemma_bb_ops(adj.0, !old_rest);
                lemma_bb_ops(adj.0, !rest.0);
                lemma_bb_ops(rest.0, 0);
                lemma_bb_ops(1u64 << from.0, 0);
                assert forall|i: u64| i < 64 implies #[trigger] bb_has(adj.0 & !rest.0, i) == (
                bb_has(adj.0 & !old_rest, i) || i == from.0) by {
                    assert(bb_has(adj.0, i) == (bb_has(adj.0 & !old_rest, i) || bb_has(rest.0, i)
                        || i == from.0) || !bb_has(adj.0, i));
                }
            }
            let pin_ok = if self.pinned.get(from) {
                t.fill_line(from, ksq).get(ept)
            } else {
                true
            };
            let rank_safe = if ksq.0 / 8 == passed.0 / 8 {
                let occ2 = Bitboard(
                    self.occupied().0 & !Bitboard::single(from).0 & !Bitboard::single(passed).0,
                );
                let enemy_rq = self.opponent_color().0 & (self.rooks.0 | self.queens.0);
                let horiz = fill(Direction::East, ksq, Bitboard(0), occ2).0 | fill(
                    Direction::West,
                    ksq,
                    Bitboard(0),
                    occ2,
                ).0;
                proof {
                    let o = occ2.0;
                    let e = crate::attack::ray_attack(Direction::East, ksq.0 as u64, o);
                    let w = crate::attack::ray_attack(Direction::West, ksq.0 as u64, o);
                    assert(0u64 | o == o) by (bit_vector);
                    assert((e & !0u64) | (w & !0u64) == e | w) by (bit_vector);
                }
                horiz & enemy_rq == 0
            } else {
                true
            };
            proof {
                assert(rank_safe == !spec_ep_bares_rank(*self, from.0 as u64, passed.0 as u64));
            }
            if pin_ok && rank_safe {
                let mv = Move::en_passant(from, ept, passed);
                specials.push(mv);
                proof {
                    assert(spec_ep_move(*self, mv));
                    assert forall|m2: Move|
                        (m2.flag is EnPassant && #[trigger] spec_special_move(*self, m2) && bb_has(
                            adj.0 & !rest.0,
                            m2.from.0 as u64,
                        )) implies exists|j: int|
                        0 <= j < specials@.len() && specials@[j] == m2 by {
                        if m2.from.0 as u64 == from.0 as u64 {
                            assert(m2 == mv);
                            assert(specials@[specials@.len() - 1] == m2);
                        } else {
                            assert(bb_has(adj.0 & !old_rest, m2.from.0 as u64));
                            let j = choose|j: int|
                                0 <= j < old_sp.len() && old_sp[j] == m2;
                            assert(specials@[j] == m2);
                        }
                    }
                }
            } else {
                proof {
                    assert forall|m2: Move|
                        (m2.flag is EnPassant && #[trigger] spec_special_move(*self, m2) && bb_has(
                            adj.0 & !rest.0,
                            m2.from.0 as u64,
                        )) implies exists|j: int|
                        0 <= j < specials@.len() && specials@[j] == m2 by {
                        if m2.from.0 as u64 != from.0 as u64 {
                            assert(bb_has(adj.0 & !old_rest, m2.from.0 as u64));
                        }
                    }
                }
            }
        }
        proof {
            lemma_bb_ops(adj.0, !rest.0);
            lemma_bb_ops(rest.0, 0);
            assert forall|mv: Move|
                (mv.flag is EnPassant && #[trigger] spec_special_move(*self, mv)) implies exists|
                j: int,
            |
                0 <= j < specials@.len() && specials@[j] == mv by {
                assert(bb_has(adj.0, mv.from.0 as u64));
                assert(bb_has(adj.0 & !rest.0, mv.from.0 as u64));
            }
        }
    }

    /// Adds the legal castlings to the special list.
    fn add_castlings(&self, t: &AttackTables, specials: &mut Vec<Move>, ksq: Square)
        requires
            t.wf(),
            self.wf(),
            self.has_kings(),
            ksq.wf(),
            ksq.0 as u64 == self.spec_king_sq(self.turn),
            forall|j: int|
                0 <= j < old(specials)@.len() ==> (#[trigger] old(specials)@[j]).flag
                    is EnPassant,
            forall|j: int|
                0 <= j < old(specials)@.len() ==> spec_special_move(
                    *self,
                    #[trigger] old(specials)@[j],
                ),
            forall|j1: int, j2: int|
                0 <= j1 < j2 < old(specials)@.len() ==> #[trigger] old(specials)@[j1]
                    != #[trigger] old(specials)@[j2],
        ensures
            final(specials)@.len() <= old(specials)@.len() + 2,
            forall|j: int|
                0 <= j < final(specials)@.len() ==> spec_special_move(
                    *self,
                    #[trigger] final(specials)@[j],
                ),
            forall|mv: Move|
                (mv.flag is Castling && #[trigger] spec_special_move(*self, mv)) ==> exists|
                    j: int,
                | 0 <= j < final(specials)@.len() && final(specials)@[j] == mv,
            final(specials)@.len() >= old(specials)@.len(),
            forall|j: int|
                0 <= j < old(specials)@.len() ==> final(specials)@[j] == #[trigger] old(
                    specials,
                )@[j],
            forall|j1: int, j2: int|
                0 <= j1 < j2 < final(specials)@.len() ==> #[trigger] final(specials)@[j1]
                    != #[trigger] final(specials)@[j2],
    {
        if self.checkers.0 != 0 {
            proof {
                assert forall|mv: Move|
                    (mv.flag is Castling && #[trigger] spec_special_move(*self, mv)) implies
                    exists|j: int| 0 <= j < specials@.len() && specials@[j] == mv by {
                    match mv.flag {
                        MoveFlag::Castling(side) => {
                            assert(!spec_castle_move(*self, mv, side));
                        },
                        _ => {},
                    }
                }
            }
            return ;
        }
        let occ = self.occupied();
        let mvk = Move::castling(self.turn, Side::King);
        let ok_king = if self.has_right(self.turn, Side::King) {
            let middle = ksq.shift(Direction::East);
            middle.is_on_board() && !occ.get(middle) && !occ.get(mvk.to) && self.is_safe(
                t,
                middle,
                self.turn,
            ) && self.is_safe(t, mvk.to, self.turn)
        } else {
            false
        };
        proof {
            assert(ok_king == spec_castle_move(*self, mvk, Side::King));
        }
        let ghost jk = specials@.len() as int;
        if ok_king {
            specials.push(mvk);
        }
        let mvq = Move::castling(self.turn, Side::Queen);
        let ok_queen = if self.has_right(self.turn, Side::Queen) {
            let middle = ksq.shift(Direction::West);
            let beside = Square(mvq.to.0 - 1);
            middle.is_on_board() && !occ.get(middle) && !occ.get(mvq.to) && !occ.get(beside)
                && self.is_safe(t, middle, self.turn) && self.is_safe(t, mvq.to, self.turn)
        } else {
            false
        };
        proof {
            assert(ok_queen == spec_castle_move(*self, mvq, Side::Queen));
        }
        let ghost jq = specials@.len() as int;
        if ok_queen {
            specials.push(mvq);
        }
        proof {
            assert forall|mv: Move|
                (mv.flag is Castling && #[trigger] spec_special_move(*self, mv)) implies exists|
                j: int,
            |
                0 <= j < specials@.len() && specials@[j] == mv by {
                match mv.flag {
                    MoveFlag::Castling(side) => {
                        if side == Side::King {
                            assert(mv == mvk);
                            assert(ok_king);
                            assert(specials@[jk] == mv);
                        } else {
                            assert(mv == mvq);
                            assert(ok_queen);
                            assert(specials@[jq] == mv);
                        }
                    },
                    _ => {},
                }
            }
        }
    }
}

impl MoveGen {
    /// The entry holding the given origin, if any.
    fn find_entry(&self, from: Square) -> (r: Option<usize>)
        ensures
            match r {
                Some(j) => j < self.quiets@.len() && self.quiets@[j as int].0.0 == from.0,
                None => forall|j: int|
                    0 <= j < self.quiets@.len() ==> (#[trigger] self.quiets@[j]).0.0 != from.0,
            },
    {
        let mut j: usize = 0;
        while j < self.quiets.len()
            invariant
                j <= self.quiets@.len(),
                forall|i: int| 0 <= i < j ==> (#[trigger] self.quiets@[i]).0.0 != from.0,
            decreases self.quiets@.len() - j,
        {
            if self.quiets[j].0.0 == from.0 {
                return Some(j);
            }
            j = j + 1;
        }
        None
    }

    /// Whether the generator yields this move, exactly the position's
    /// legality of it.
    #[verifier::spinoff_prover]
    #[verifier::rlimit(100)]
    pub fn contains(&self, mv: Move) -> (r: bool)
        requires
            self.models(self.board@),
        ensures
            r == spec_gen_move(self.board@, mv),
    {
        let ghost b = self.board@;
        if mv.from.0 >= 64 || mv.to.0 >= 64 {
            proof {
                lemma_gen_move_wf(b, mv);
            }
            return false;
        }
        match mv.flag {
            MoveFlag::Quiet | MoveFlag::Promotion(_) => {
                let want_promo = match mv.flag {
                    MoveFlag::Promotion(pt) => {
                        if !pt.can_be_promotion() {
                            proof {
                                assert(!spec_gen_move(b, mv));
                            }
                            return false;
                        }
                        true
                    },
                    _ => false,
                };
                proof {
                    lemma_king_facts(b);
                }
                match self.find_entry(mv.from) {
                    Some(j) => {
                        let promo_here = self.promotion_mask.get(mv.from);
                        if promo_here != want_promo {
                            proof {
                                if j == 0 {
                                    assert(!spec_gen_move(b, mv));
                                } else {
                                    assert(self.quiets@[0].0.0 != mv.from.0);
                                    assert(mv.from.0 as u64 != b.spec_king_sq(b.turn));
                                    assert(self.quiets@[j as int].0.0 == mv.from.0);
                                    assert(bb_has(self.promotion_mask.0, mv.from.0 as u64)
                                        <==> spec_promo_origin(b, mv.from.0 as u64));
                                }
                            }
                            proof {
                                assert(!spec_gen_move(b, mv));
                            }
                            return false;
                        }
                        proof {
                            if j != 0 {
                                assert(self.quiets@[0].0.0 != mv.from.0);
                                assert(mv.from.0 as u64 != b.spec_king_sq(b.turn));
                                assert(pop64(b.checkers.0) < 2) by {
                                    if pop64(b.checkers.0) >= 2 {
                                        assert(self.quiets@.len() == 1);
                                    }
                                }
                            }
                        }
                        let r = self.quiets[j].1.get(mv.to);
                        proof {
                            if j == 0 {
                                assert(r == spec_king_dest(b, mv.to.0 as u64));
                                assert(!bb_has(
                                    b.spec_color_bb(b.turn) & !b.kings.0,
                                    mv.from.0 as u64,
                                ));
                            } else {
                                assert(self.quiets@[j as int].1.0 == spec_piece_dests(
                                    b,
                                    self.quiets@[j as int].0.0 as u64,
                                ));
                                assert(r == bb_has(
                                    spec_piece_dests(b, mv.from.0 as u64),
                                    mv.to.0 as u64,
                                ));
                                assert(bb_has(
                                    b.spec_color_bb(b.turn) & !b.kings.0,
                                    mv.from.0 as u64,
                                ));
                            }
                            assert(r == spec_gen_move(b, mv));
                        }
                        r
                    },
                    None => {
                        proof {
                            assert(self.quiets@[0].0.0 != mv.from.0);
                            assert(mv.from.0 as u64 != b.spec_king_sq(b.turn));
                            lemma_bb_ops(b.spec_color_bb(b.turn), b.pawns.0);
                            lemma_bb_ops(b.spec_color_bb(b.turn), !b.kings.0);
                            lemma_bb_ops(b.kings.0, 0);
                            crate::position::lemma_wf_unfold(b);
                            assert(crate::position::wf_at(b, mv.from.0 as u64));
                            if spec_promo_origin(b, mv.from.0 as u64) {
                                assert(bb_has(
                                    b.spec_color_bb(b.turn) & !b.kings.0,
                                    mv.from.0 as u64,
                                ));
                            }
                            if pop64(b.checkers.0) < 2 && bb_has(
                                b.spec_color_bb(b.turn) & !b.kings.0,
                                mv.from.0 as u64,
                            ) && spec_piece_dests(b, mv.from.0 as u64) != 0 {
                                let j = choose|j: int|
                                    1 <= j < self.quiets@.len() && (
                                    #[trigger] self.quiets@[j]).0.0 as u64 == mv.from.0 as u64;
                                assert(false);
                            }
                            if spec_piece_dests(b, mv.from.0 as u64) == 0 {
                                assert(!bb_has(
                                    spec_piece_dests(b, mv.from.0 as u64),
                                    mv.to.0 as u64,
                                )) by {
                                    crate::bit::lemma_bb_empty();
                                    assert(!bb_has(0u64, mv.to.0 as u64));
                                }
                            }
                            assert(!spec_gen_move(b, mv));
                        }
                        false
                    },
                }
            },
            _ => {
                let mut j: usize = 0;
                while j < self.specials.len()
                    invariant
                        self.models(self.board@),
                        j <= self.specials@.len(),
                        forall|i: int| 0 <= i < j ==> #[trigger] self.specials@[i] != mv,
                    decreases self.specials@.len() - j,
                {
                    let cur = self.specials[j];
                    if cur == mv {
                        return true;
                    }
                    j = j + 1;
                }
                proof {
                    if spec_special_move(b, mv) {
                        let i = choose|i: int|
                            0 <= i < self.specials@.len() && self.specials@[i] == mv;
                        assert(false);
                    }
                }
                false
            },
        }
    }

    /// The number of moves the generator holds; promotions count once per
    /// piece type.
    pub fn len(&self) -> (r: usize)
        requires
            self.models(self.board@),
        ensures
            r == self.spec_move_count(),
    {
        let mut n: usize = 0;
        let mut j: usize = 0;
        proof {
            assert(self.quiets@.take(0).len() == 0);
        }
        while j < self.quiets.len()
            invariant
                self.models(self.board@),
                j <= self.quiets@.len(),
                n == spec_count_quiets(self.quiets@.take(j as int), self.promotion_mask.0),
                n <= j * 256,
            decreases self.quiets@.len() - j,
        {
            let e = self.quiets[j];
            proof {
                if j == 0 {
                    assert(self.quiets@[0].0.wf());
                } else {
                    assert(self.quiets@[j as int].0.wf());
                }
            }
            let c = e.1.pop_count();
            proof {
                crate::bit::lemma_pop_bound(e.1.0);
                assert(self.quiets@.take(j + 1 as int).drop_last() =~= self.quiets@.take(
                    j as int,
                ));
                assert(self.quiets@.take(j + 1 as int).last() == self.quiets@[j as int]);
            }
            if self.promotion_mask.get(e.0) {
                n = n + (c as usize) * 4;
            } else {
                n = n + c as usize;
            }
            j = j + 1;
        }
        proof {
            assert(self.quiets@.take(self.quiets@.len() as int) =~= self.quiets@);
        }
        n + self.specials.len()
    }

    /// Every move the generator holds, the king's and each piece's in origin
    /// order with ascending destinations, promotions spread over their four
    /// piece types, then the special moves: exactly the moves the position
    /// admits, each once.
    #[verifier::spinoff_prover]
    #[verifier::rlimit(100)]
    pub fn to_moves(&self) -> (r: Vec<Move>)
        requires
            self.models(self.board@),
        ensures
            forall|mv: Move|
                #[trigger] r@.contains(mv) == spec_gen_move(self.board@, mv),
    {
        let ghost b = self.board@;
        let mut out: Vec<Move> = Vec::new();
        let mut j: usize = 0;
        while j < self.quiets.len()
            invariant
                self.models(self.board@),
                b == self.board@,
                j <= self.quiets@.len(),
                forall|mv: Move|
                    #[trigger] out@.contains(mv) ==> spec_gen_move(b, mv) && (mv.flag is Quiet
                        || mv.flag is Promotion),
                forall|mv: Move|
                    (mv.flag is Quiet || mv.flag is Promotion) && #[trigger] spec_gen_move(b, mv)
                        && (exists|i: int|
                        0 <= i < j && (#[trigger] self.quiets@[i]).0.0 == mv.from.0)
                        ==> out@.contains(mv),
            decreases self.quiets@.len() - j,
        {
            let e = self.quiets[j];
            let is_promo = self.promotion_mask.get(e.0);
            let dests = e.1.squares();
            let mut d: usize = 0;
            proof {
                if j != 0 {
                    assert(self.quiets@[0].0.0 != e.0.0);
                    assert(e.0.0 as u64 != b.spec_king_sq(b.turn));
                    assert(pop64(b.checkers.0) < 2) by {
                        if pop64(b.checkers.0) >= 2 {
                            assert(self.quiets@.len() == 1);
                        }
                    }
                }
                lemma_king_facts(b);
            }
            while d < dests.len()
                invariant
                    self.models(self.board@),
                    b == self.board@,
                    j < self.quiets@.len(),
                    e == self.quiets@[j as int],
                    is_promo == bb_has(self.promotion_mask.0, e.0.0 as u64),
                    d <= dests@.len(),
                    forall|k2: int|
                        0 <= k2 < dests@.len() ==> (#[trigger] dests@[k2]).wf() && bb_has(
                            e.1.0,
                            dests@[k2].0 as u64,
                        ),
                    forall|i: u64|
                        #[trigger] bb_has(e.1.0, i) ==> exists|k2: int|
                            0 <= k2 < dests@.len() && dests@[k2].0 == i,
                    forall|mv: Move|
                        #[trigger] out@.contains(mv) ==> spec_gen_move(b, mv) && (mv.flag is Quiet
                            || mv.flag is Promotion),
                    forall|mv: Move|
                        (mv.flag is Quiet || mv.flag is Promotion) && #[trigger] spec_gen_move(
                            b,
                            mv,
                        ) && (exists|i: int|
                            0 <= i < j && (#[trigger] self.quiets@[i]).0.0 == mv.from.0)
                            ==> out@.contains(mv),
                    forall|mv: Move|
                        (mv.flag is Quiet || mv.flag is Promotion) && #[trigger] spec_gen_move(
                            b,
                            mv,
                        ) && mv.from.0 == e.0.0 && (exists|k2: int|
                            0 <= k2 < d && (#[trigger] dests@[k2]).0 == mv.to.0) ==> out@.contains(
                            mv,
                        ),
                decreases dests@.len() - d,
            {
                let to = dests[d];
                let ghost old_out = out@;
                if is_promo {
                    out.push(Move::promotion(e.0, to, PieceType::Knight));
                    out.push(Move::promotion(e.0, to, PieceType::Bishop));
                    out.push(Move::promotion(e.0, to, PieceType::Rook));
                    out.push(Move::promotion(e.0, to, PieceType::Queen));
                    proof {
                        assert(out@[out@.len() - 4] == (Move {
                            from: e.0,
                            to,
                            flag: MoveFlag::Promotion(PieceType::Knight),
                        }));
                        assert(out@[out@.len() - 3] == (Move {
                            from: e.0,
                            to,
                            flag: MoveFlag::Promotion(PieceType::Bishop),
                        }));
                        assert(out@[out@.len() - 2] == (Move {
                            from: e.0,
                            to,
                            flag: MoveFlag::Promotion(PieceType::Rook),
                        }));
                        assert(out@[out@.len() - 1] == (Move {
                            from: e.0,
                            to,
                            flag: MoveFlag::Promotion(PieceType::Queen),
                        }));
                    }
                } else {
                    out.push(Move::quiet(e.0, to));
                    proof {
                        assert(out@[out@.len() - 1] == (Move { from: e.0, to, flag: MoveFlag::Quiet }));
                    }
                }
                proof {
                    assert forall|mv: Move| #[trigger] out@.contains(mv) implies spec_gen_move(
                        b,
                        mv,
                    ) && (mv.flag is Quiet || mv.flag is Promotion) by {
                        if !old_out.contains(mv) {
                            assert(mv.from == e.0 && mv.to == to);
                            if j == 0 {
                                assert(e.0.0 as u64 == b.spec_king_sq(b.turn));
                                assert(bb_has(e.1.0, to.0 as u64));
                                assert(spec_king_dest(b, to.0 as u64));
                            }
                        }
                    }
                    assert forall|mv: Move|
                        (mv.flag is Quiet || mv.flag is Promotion) && #[trigger] spec_gen_move(
                            b,
                            mv,
                        ) && (exists|i: int|
                            0 <= i < j && (#[trigger] self.quiets@[i]).0.0 == mv.from.0)
                            implies out@.contains(mv) by {
                        assert(old_out.contains(mv));
                        lemma_prefix_contains(old_out, out@, mv);
                    }
                    assert forall|mv: Move|
                        (mv.flag is Quiet || mv.flag is Promotion) && #[trigger] spec_gen_move(
                            b,
                            mv,
                        ) && mv.from.0 == e.0.0 && (exists|k2: int|
                            0 <= k2 < d + 1 && (#[trigger] dests@[k2]).0 == mv.to.0) implies out@.contains(
                        mv,
                    ) by {
                        if mv.to.0 == to.0 {
                            match mv.flag {
                                MoveFlag::Quiet => {
                                    assert(mv == (Move { from: e.0, to, flag: MoveFlag::Quiet }));
                                    if !is_promo {
                                        assert(out@[out@.len() - 1] == mv);
                                    } else {
                                        assert(spec_promo_origin(b, mv.from.0 as u64));
                                    }
                                },
                                MoveFlag::Promotion(pt) => {
                                    assert(spec_promo_origin(b, mv.from.0 as u64));
                                    assert(e == self.quiets@[j as int]);
                                    if j != 0 {
                                        assert(bb_has(self.promotion_mask.0, e.0.0 as u64)
                                            == spec_promo_origin(b, e.0.0 as u64));
                                    } else {
                                        assert(e.0.0 as u64 == b.spec_king_sq(b.turn));
                                        lemma_king_facts(b);
                                        assert(!spec_promo_origin(b, e.0.0 as u64));
                                    }
                                    assert(is_promo);
                                    match pt {
                                        PieceType::Knight => {
                                            assert(out@[out@.len() - 4] == mv);
                                        },
                                        PieceType::Bishop => {
                                            assert(out@[out@.len() - 3] == mv);
                                        },
                                        PieceType::Rook => {
                                            assert(out@[out@.len() - 2] == mv);
                                        },
                                        PieceType::Queen => {
                                            assert(out@[out@.len() - 1] == mv);
                                        },
                                        _ => {},
                                    }
                                },
                                _ => {},
                            }
                        } else {
                            let k2 = choose|k2: int|
                                0 <= k2 < d && (#[trigger] dests@[k2]).0 == mv.to.0;
                            assert(old_out.contains(mv));
                            lemma_prefix_contains(old_out, out@, mv);
                        }
                    }
                }
                d = d + 1;
            }
            proof {
                assert forall|mv: Move|
                    (mv.flag is Quiet || mv.flag is Promotion) && #[trigger] spec_gen_move(b, mv)
                        && (exists|i: int|
                        0 <= i < j + 1 && (#[trigger] self.quiets@[i]).0.0 == mv.from.0)
                        implies out@.contains(mv) by {
                    let i = choose|i: int|
                        0 <= i < j + 1 && (#[trigger] self.quiets@[i]).0.0 == mv.from.0;
                    if i == j {
                        assert(mv.from.0 == e.0.0);
                        if j == 0 {
                            assert(bb_has(e.1.0, mv.to.0 as u64));
                        } else {
                            assert(bb_has(e.1.0, mv.to.0 as u64));
                        }
                        let k2 = choose|k2: int|
                            0 <= k2 < dests@.len() && (#[trigger] dests@[k2]).0 as u64 == mv.to.0
                                as u64;
                        assert(dests@[k2].0 == mv.to.0);
                    }
                }
            }
            j = j + 1;
        }
        let mut sj: usize = 0;
        while sj < self.specials.len()
            invariant
                self.models(self.board@),
                b == self.board@,
                sj <= self.specials@.len(),
                forall|mv: Move| #[trigger] out@.contains(mv) ==> spec_gen_move(b, mv),
                forall|mv: Move|
                    (mv.flag is Quiet || mv.flag is Promotion) && #[trigger] spec_gen_move(b, mv)
                        && (exists|i: int|
                        0 <= i < self.quiets@.len() && (#[trigger] self.quiets@[i]).0.0
                            == mv.from.0) ==> out@.contains(mv),
                forall|i: int|
                    0 <= i < sj ==> out@.contains(#[trigger] self.specials@[i]),
            decreases self.specials@.len() - sj,
        {
            let mv = self.specials[sj];
            let ghost old_out = out@;
            proof {
                lemma_special_is_gen(b, mv);
            }
            out.push(mv);
            proof {
                assert(out@[out@.len() - 1] == mv);
                assert forall|m2: Move| #[trigger] old_out.contains(m2) implies out@.contains(
                    m2,
                ) by {
                    lemma_prefix_contains(old_out, out@, m2);
                }
                assert forall|m2: Move| #[trigger] out@.contains(m2) implies spec_gen_move(
                    b,
                    m2,
                ) by {
                    let i = choose|i: int| 0 <= i < out@.len() && out@[i] == m2;
                    if i < out@.len() - 1 {
                        assert(old_out[i] == m2);
                        assert(old_out.contains(m2));
                    } else {
                        assert(m2 == mv);
                    }
                }
                assert forall|m2: Move|
                    (m2.flag is Quiet || m2.flag is Promotion) && #[trigger] spec_gen_move(b, m2)
                        && (exists|i: int|
                        0 <= i < self.quiets@.len() && (#[trigger] self.quiets@[i]).0.0
                            == m2.from.0) implies out@.contains(m2) by {
                    assert(old_out.contains(m2));
                    lemma_prefix_contains(old_out, out@, m2);
                }
                assert forall|i: int| 0 <= i < sj + 1 implies out@.contains(
                    #[trigger] self.specials@[i],
                ) by {
                    if i < sj {
                        assert(old_out.contains(self.specials@[i]));
                    } else {
                        assert(out@[out@.len() - 1] == self.specials@[i]);
                    }
                }
            }
            sj = sj + 1;
        }
        proof {
            lemma_out_complete(*self, b, out@);
        }
        out
    }
}

/// The enumeration covers every generated move: a quiet or promoting move
/// from a stored origin is among the emitted ones, a special move is in the
/// emitted tail.
#[verifier::spinoff_prover]
#[verifier::rlimit(100)]
proof fn lemma_out_complete(gen: MoveGen, b: Board, out: Seq<Move>)
    requires
        gen.models(b),
        forall|mv: Move|
            (mv.flag is Quiet || mv.flag is Promotion) && #[trigger] spec_gen_move(b, mv) && (
            exists|i: int| 0 <= i < gen.quiets@.len() && (#[trigger] gen.quiets@[i]).0.0
                == mv.from.0) ==> out.contains(mv),
        forall|i: int| 0 <= i < gen.specials@.len() ==> out.contains(#[trigger] gen.specials@[i]),
    ensures
        forall|mv: Move| #[trigger] spec_gen_move(b, mv) ==> out.contains(mv),
{
    assert(quiets_model(gen.quiets@, gen.promotion_mask.0, b));
    assert forall|mv: Move| #[trigger] spec_gen_move(b, mv) implies out.contains(mv) by {
        match mv.flag {
            MoveFlag::Quiet | MoveFlag::Promotion(_) => {
                lemma_king_facts(b);
                lemma_bb_ops(b.spec_color_bb(b.turn), !b.kings.0);
                lemma_bb_ops(b.spec_color_bb(b.turn), b.pawns.0);
                crate::position::lemma_wf_unfold(b);
                assert(crate::position::wf_at(b, mv.from.0 as u64));
                assert(mv.flag is Quiet || mv.flag is Promotion);
                if mv.flag is Promotion {
                    lemma_bb_ops(b.kings.0, 0);
                    assert(bb_has(b.spec_color_bb(b.turn) & b.pawns.0, mv.from.0 as u64));
                    assert(bb_has(b.spec_color_bb(b.turn) & !b.kings.0, mv.from.0 as u64));
                }
                if mv.from.0 as u64 == b.spec_king_sq(b.turn) {
                    assert(gen.quiets@[0].0.0 as u64 == b.spec_king_sq(b.turn));
                    assert(gen.quiets@[0].0.0 == mv.from.0);
                    assert(exists|i: int|
                        0 <= i < gen.quiets@.len() && (#[trigger] gen.quiets@[i]).0.0
                            == mv.from.0);
                    assert(out.contains(mv));
                } else {
                    assert(spec_piece_dests(b, mv.from.0 as u64) != 0) by {
                        crate::bit::lemma_bb_empty();
                        assert(!bb_has(0u64, mv.to.0 as u64));
                    }
                    let j = choose|j: int|
                        1 <= j < gen.quiets@.len() && (#[trigger] gen.quiets@[j]).0.0 as u64
                            == mv.from.0 as u64;
                    assert(gen.quiets@[j].0.0 == mv.from.0);
                    assert(exists|i: int|
                        0 <= i < gen.quiets@.len() && (#[trigger] gen.quiets@[i]).0.0
                            == mv.from.0);
                    assert(out.contains(mv));
                }
            },
            _ => {
                assert(spec_special_move(b, mv));
                let i = choose|i: int|
                    0 <= i < gen.specials@.len() && gen.specials@[i] == mv;
                assert(out.contains(gen.specials@[i]));
                assert(out.contains(mv));
            },
        }
    }
}

/// A move contained in a prefix of a longer sequence is contained in it too.
proof fn lemma_prefix_contains(s1: Seq<Move>, s2: Seq<Move>, mv: Move)
    requires
        s2.len() >= s1.len(),
        forall|i: int| 0 <= i < s1.len() ==> s2[i] == s1[i],
        s1.contains(mv),
    ensures
        s2.contains(mv),
{
    let i = choose|i: int| 0 <= i < s1.len() && s1[i] == mv;
    assert(s2[i] == mv);
}

/// A generated move has both its squares on the board.
proof fn lemma_gen_move_wf(b: Board, mv: Move)
    ensures
        spec_gen_move(b, mv) ==> mv.from.wf() && mv.to.wf(),
{
}

/// Every listed special move is a generated move.
proof fn lemma_special_is_gen(b: Board, mv: Move)
    requires
        spec_special_move(b, mv),
    ensures
        spec_gen_move(b, mv),
{
    match mv.flag {
        MoveFlag::EnPassant(passed) => {
            match b.ep_target {
                Some(ept) => {
                    assert(bb_has(
                        (spec_shift(1u64 << passed.0, Direction::West) | spec_shift(
                            1u64 << passed.0,
                            Direction::East,
                        )) & b.spec_color_bb(b.turn) & b.pawns.0,
                        mv.from.0 as u64,
                    ));
                },
                None => {},
            }
        },
        MoveFlag::Castling(side) => {
            assert(mv == spec_castling_move(b.turn, side));
        },
        _ => {},
    }
}

/// The king square of the mover holds its king: no pawn promotes from it and
/// it is not an ordinary own piece square.
proof fn lemma_king_facts(b: Board)
    requires
        b.wf_placement(),
        b.has_kings(),
    ensures
        !spec_promo_origin(b, b.spec_king_sq(b.turn)),
        !bb_has(
            b.spec_color_bb(b.turn) & !b.kings.0,
            b.spec_king_sq(b.turn),
        ),
{
    let own = b.spec_color_bb(b.turn);
    let kb = b.kings.0 & own;
    crate::bit::lemma_pop_zero(kb);
    vstd::std_specs::bits::axiom_u64_trailing_zeros(kb);
    let k = b.spec_king_sq(b.turn);
    assert(bb_has(kb, k));
    lemma_bb_ops(b.kings.0, own);
    lemma_bb_ops(own, !b.kings.0);
    lemma_bb_ops(own, b.pawns.0);
    crate::position::lemma_wf_unfold(b);
    assert(crate::position::wf_at(b, k));
}

/// A generator that counts no move holds no move: every destination set is
/// empty and no special move is listed.
proof fn lemma_count_zero_prefix(qs: Seq<(Square, Bitboard)>, pm: u64)
    requires
        spec_count_quiets(qs, pm) == 0,
        forall|j: int| 0 <= j < qs.len() ==> pop64((#[trigger] qs[j]).1.0) >= 0,
    ensures
        forall|j: int| 0 <= j < qs.len() ==> pop64((#[trigger] qs[j]).1.0) == 0,
    decreases qs.len(),
{
    if qs.len() > 0 {
        assert(spec_count_quiets(qs.drop_last(), pm) >= 0) by {
            lemma_count_nonneg(qs.drop_last(), pm);
        }
        lemma_count_zero_prefix(qs.drop_last(), pm);
        assert forall|j: int| 0 <= j < qs.len() implies pop64((#[trigger] qs[j]).1.0) == 0 by {
            if j < qs.len() - 1 {
                assert(qs.drop_last()[j] == qs[j]);
            } else {
                assert(qs.last() == qs[j]);
            }
        }
    }
}

/// A store of empty destination sets counts no move.
proof fn lemma_count_all_zero(qs: Seq<(Square, Bitboard)>, pm: u64)
    requires
        forall|j: int| 0 <= j < qs.len() ==> pop64((#[trigger] qs[j]).1.0) == 0,
    ensures
        spec_count_quiets(qs, pm) == 0,
    decreases qs.len(),
{
    if qs.len() > 0 {
        assert forall|j: int| 0 <= j < qs.drop_last().len() implies pop64(
            (#[trigger] qs.drop_last()[j]).1.0,
        ) == 0 by {
            assert(qs.drop_last()[j] == qs[j]);
        }
        lemma_count_all_zero(qs.drop_last(), pm);
        assert(qs.last() == qs[qs.len() - 1]);
    }
}

/// The stored move count is never negative.
proof fn lemma_count_nonneg(qs: Seq<(Square, Bitboard)>, pm: u64)
    ensures
        spec_count_quiets(qs, pm) >= 0,
    decreases qs.len(),
{
    if qs.len() > 0 {
        lemma_count_nonneg(qs.drop_last(), pm);
    }
}

/// A generator whose count is zero admits no generated move at all.
pub proof fn lemma_no_moves(gen: MoveGen, b: Board)
    requires
        gen.models(b),
        gen.spec_move_count() == 0,
    ensures
        forall|mv: Move| !spec_gen_move(b, mv),
{
    lemma_count_nonneg(gen.quiets@, gen.promotion_mask.0);
    assert(spec_count_quiets(gen.quiets@, gen.promotion_mask.0) == 0 && gen.specials@.len() == 0);
    lemma_count_zero_prefix(gen.quiets@, gen.promotion_mask.0);
    assert forall|mv: Move| !spec_gen_move(b, mv) by {
        if spec_gen_move(b, mv) {
            lemma_king_facts(b);
            match mv.flag {
                MoveFlag::Quiet | MoveFlag::Promotion(_) => {
                    lemma_bb_ops(b.spec_color_bb(b.turn), b.pawns.0);
                    lemma_bb_ops(b.spec_color_bb(b.turn), !b.kings.0);
                    lemma_bb_ops(b.kings.0, 0);
                    crate::position::lemma_wf_unfold(b);
                    assert(crate::position::wf_at(b, mv.from.0 as u64));
                    if mv.flag is Promotion {
                        assert(bb_has(b.spec_color_bb(b.turn) & !b.kings.0, mv.from.0 as u64));
                    }
                    if mv.from.0 as u64 == b.spec_king_sq(b.turn) {
                        assert(pop64(gen.quiets@[0].1.0) == 0);
                        crate::bit::lemma_pop_zero(gen.quiets@[0].1.0);
                        assert(gen.quiets@[0].1.0 == 0);
                        crate::bit::lemma_bb_empty();
                        assert(!bb_has(0u64, mv.to.0 as u64));
                        assert(!bb_has(gen.quiets@[0].1.0, mv.to.0 as u64));
                        assert(!bb_has(
                            b.spec_color_bb(b.turn) & !b.kings.0,
                            b.spec_king_sq(b.turn),
                        ));
                        assert(!spec_promo_origin(b, b.spec_king_sq(b.turn)));
                        assert(false);
                    } else {
                        assert(spec_piece_dests(b, mv.from.0 as u64) != 0) by {
                            crate::bit::lemma_bb_empty();
                            assert(!bb_has(0u64, mv.to.0 as u64));
                        }
                        let j = choose|j: int|
                            1 <= j < gen.quiets@.len() && (#[trigger] gen.quiets@[j]).0.0 as u64
                                == mv.from.0 as u64;
                        assert(pop64(gen.quiets@[j].1.0) == 0);
                        crate::bit::lemma_pop_zero(gen.quiets@[j].1.0);
                        assert(false);
                    }
                },
                _ => {
                    assert(spec_special_move(b, mv));
                    let i = choose|i: int|
                        0 <= i < gen.specials@.len() && gen.specials@[i] == mv;
                    assert(false);
                },
            }
        }
    }
}

impl Board {
    /// Whether a move is legal in this position: exactly membership of the
    /// generated set.
    pub fn is_move_legal(&self, t: &AttackTables, mv: Move) -> (r: bool)
        requires
            t.wf(),
            self.wf(),
            self.has_kings(),
            self.cache_ok(),
        ensures
            r == spec_gen_move(*self, mv),
    {
        self.legal_moves(t).contains(mv)
    }

    /// The number of legal moves, counted as the generator counts them:
    /// promotions once per piece type; zero exactly when no legal move
    /// exists.
    pub fn num_moves(&self, t: &AttackTables) -> (r: usize)
        requires
            t.wf(),
            self.wf(),
            self.has_kings(),
            self.cache_ok(),
        ensures
            (r == 0) == !(exists|mv: Move| spec_gen_move(*self, mv)),
            exists|g: MoveGen| #[trigger] g.models(*self) && r == g.spec_move_count(),
    {
        let g = self.legal_moves(t);
        let n = g.len();
        proof {
            if n == 0 {
                lemma_no_moves(g, *self);
            } else {
                lemma_count_nonneg(g.quiets@, g.promotion_mask.0);
                if g.specials@.len() > 0 {
                    lemma_special_is_gen(*self, g.specials@[0]);
                    assert(spec_gen_move(*self, g.specials@[0]));
                } else {
                    assert(exists|j: int|
                        0 <= j < g.quiets@.len() && pop64((#[trigger] g.quiets@[j]).1.0) != 0) by {
                        if forall|j: int|
                            0 <= j < g.quiets@.len() ==> pop64((#[trigger] g.quiets@[j]).1.0)
                                == 0 {
                            lemma_count_all_zero(g.quiets@, g.promotion_mask.0);
                        }
                    }
                    let j = choose|j: int|
                        0 <= j < g.quiets@.len() && pop64((#[trigger] g.quiets@[j]).1.0) != 0;
                    crate::bit::lemma_pop_zero(g.quiets@[j].1.0);
                    crate::bit::lemma_bb_nonzero(g.quiets@[j].1.0);
                    let i = choose|i: u64| i < 64 && bb_has(g.quiets@[j].1.0, i);
                    if j == 0 {
                        assert(spec_gen_move(
                            *self,
                            Move { from: g.quiets@[0].0, to: Square(i as u8), flag: MoveFlag::Quiet },
                        ));
                    } else {
                        assert(pop64(self.checkers.0) < 2) by {
                            if pop64(self.checkers.0) >= 2 {
                                assert(g.quiets@.len() == 1);
                            }
                        }
                        let f = g.quiets@[j].0.0 as u64;
                        if spec_promo_origin(*self, f) {
                            assert(spec_gen_move(
                                *self,
                                Move {
                                    from: g.quiets@[j].0,
                                    to: Square(i as u8),
                                    flag: MoveFlag::Promotion(PieceType::Queen),
                                },
                            ));
                        } else {
                            assert(spec_gen_move(
                                *self,
                                Move {
                                    from: g.quiets@[j].0,
                                    to: Square(i as u8),
                                    flag: MoveFlag::Quiet,
                                },
                            ));
                        }
                    }
                }
            }
        }
        n
    }

    /// Whether the game is over for the player to move: no legal move exists,
    /// which is checkmate under check and stalemate otherwise.
    pub fn is_finished(&self, t: &AttackTables) -> (r: bool)
        requires
            t.wf(),
            self.wf(),
            self.has_kings(),
            self.cache_ok(),
        ensures
            r == !(exists|mv: Move| spec_gen_move(*self, mv)),
    {
        self.num_moves(t) == 0
    }

    /// Whether the player to move is checkmated: in check with no legal move.
    pub fn in_checkmate(&self, t: &AttackTables) -> (r: bool)
        requires
            t.wf(),
            self.wf(),
            self.has_kings(),
            self.cache_ok(),
        ensures
            r == (!(exists|mv: Move| spec_gen_move(*self, mv)) && self.checkers.0 != 0),
    {
        let fin = self.is_finished(t);
        fin && self.in_check()
    }

    /// Whether the player to move is stalemated: no legal move and no check.
    pub fn in_stalemate(&self, t: &AttackTables) -> (r: bool)
        requires
            t.wf(),
            self.wf(),
            self.has_kings(),
            self.cache_ok(),
        ensures
            r == (!(exists|mv: Move| spec_gen_move(*self, mv)) && self.checkers.0 == 0),
    {
        let fin = self.is_finished(t);
        fin && !self.in_check()
    }

    /// What `get_result` returns.
    pub open spec fn spec_result(self) -> crate::state::GameResult {
        if !(exists|mv: Move| spec_gen_move(self, mv)) {
            if self.checkers.0 != 0 {
                crate::state::GameResult::Win(
                    self.turn.spec_opponent(),
                    crate::state::WinType::Checkmate,
                )
            } else {
                crate::state::GameResult::Draw(crate::state::DrawType::Stalemate)
            }
        } else if self.spec_can_claim(crate::state::DrawType::FiftyMoveRule) {
            crate::state::GameResult::Draw(crate::state::DrawType::FiftyMoveRule)
        } else if self.spec_can_claim(crate::state::DrawType::InsufficientMaterial) {
            crate::state::GameResult::Draw(crate::state::DrawType::InsufficientMaterial)
        } else {
            crate::state::GameResult::NoResult
        }
    }

    /// The result visible from this position alone: a win by checkmate or a
    /// stalemate when no move exists, else a claimable draw, else none.
    pub fn get_result(&self, t: &AttackTables) -> (r: crate::state::GameResult)
        requires
            t.wf(),
            self.wf(),
            self.has_kings(),
            self.cache_ok(),
        ensures
            r == self.spec_result(),
    {
        if self.is_finished(t) {
            if self.in_check() {
                crate::state::GameResult::Win(
                    self.turn.opponent(),
                    crate::state::WinType::Checkmate,
                )
            } else {
                crate::state::GameResult::Draw(crate::state::DrawType::Stalemate)
            }
        } else if self.can_claim_draw_with(crate::state::DrawType::FiftyMoveRule) {
            crate::state::GameResult::Draw(crate::state::DrawType::FiftyMoveRule)
        } else if self.can_claim_draw_with(crate::state::DrawType::InsufficientMaterial) {
            crate::state::GameResult::Draw(crate::state::DrawType::InsufficientMaterial)
        } else {
            crate::state::GameResult::NoResult
        }
    }
}

/// Whether the masks keep a generated move: its origin and destination must
/// both lie in the respective mask.
pub open spec fn spec_masked_move(b: Board, mv: Move, om: u64, dm: u64) -> bool {
    spec_gen_move(b, mv) && bb_has(om, mv.from.0 as u64) && bb_has(dm, mv.to.0 as u64)
}

/// A generator together with an origin and a destination mask: iteration is
/// restricted to the masks, membership is not.
pub struct MoveGenMasked {
    pub inner: MoveGen,
    pub orig_mask: Bitboard,
    pub dest_mask: Bitboard,
}

impl MoveGenMasked {
    /// Wraps a generator with both masks full.
    pub fn from_gen(g: MoveGen) -> (r: MoveGenMasked)
        ensures
            r.inner == g,
            r.orig_mask.0 == FULL,
            r.dest_mask.0 == FULL,
    {
        MoveGenMasked { inner: g, orig_mask: Bitboard(FULL), dest_mask: Bitboard(FULL) }
    }

    /// Restricts iteration to moves leaving from the given squares.
    pub fn set_origin_mask(&mut self, froms: Bitboard)
        ensures
            *final(self) == (MoveGenMasked { orig_mask: froms, ..*old(self) }),
    {
        self.orig_mask = froms;
    }

    /// Restricts iteration to moves landing on the given squares.
    pub fn set_destination_mask(&mut self, dests: Bitboard)
        ensures
            *final(self) == (MoveGenMasked { dest_mask: dests, ..*old(self) }),
    {
        self.dest_mask = dests;
    }

    /// Whether the masks cover a move.
    pub fn is_covered(&self, mv: Move) -> (r: bool)
        ensures
            r == (mv.from.wf() && mv.to.wf() && bb_has(self.orig_mask.0, mv.from.0 as u64)
                && bb_has(self.dest_mask.0, mv.to.0 as u64)),
    {
        mv.from.0 < 64 && mv.to.0 < 64 && self.orig_mask.get(mv.from) && self.dest_mask.get(mv.to)
    }

    /// Whether the underlying generator yields the move: the masks play no
    /// part in membership.
    pub fn contains(&self, mv: Move) -> (r: bool)
        requires
            self.inner.models(self.inner.board@),
        ensures
            r == spec_gen_move(self.inner.board@, mv),
    {
        self.inner.contains(mv)
    }

    /// The moves the masks keep.
    pub fn to_moves(&self) -> (r: Vec<Move>)
        requires
            self.inner.models(self.inner.board@),
        ensures
            forall|mv: Move|
                #[trigger] r@.contains(mv) == spec_masked_move(
                    self.inner.board@,
                    mv,
                    self.orig_mask.0,
                    self.dest_mask.0,
                ),
    {
        let all = self.inner.to_moves();
        let mut out: Vec<Move> = Vec::new();
        let mut i: usize = 0;
        while i < all.len()
            invariant
                i <= all@.len(),
                self.inner.models(self.inner.board@),
                forall|mv: Move|
                    #[trigger] all@.contains(mv) == spec_gen_move(self.inner.board@, mv),
                forall|mv: Move|
                    #[trigger] out@.contains(mv) ==> spec_masked_move(
                        self.inner.board@,
                        mv,
                        self.orig_mask.0,
                        self.dest_mask.0,
                    ),
                forall|k: int|
                    0 <= k < i && spec_masked_move(
                        self.inner.board@,
                        #[trigger] all@[k],
                        self.orig_mask.0,
                        self.dest_mask.0,
                    ) ==> out@.contains(all@[k]),
            decreases all@.len() - i,
        {
            let mv = all[i];
            let ghost old_out = out@;
            if self.is_covered(mv) {
                proof {
                    assert(all@.contains(all@[i as int]));
                }
                out.push(mv);
                proof {
                    assert(out@[out@.len() - 1] == mv);
                }
            }
            proof {
                assert forall|k: int|
                    0 <= k < i + 1 && spec_masked_move(
                        self.inner.board@,
                        #[trigger] all@[k],
                        self.orig_mask.0,
                        self.dest_mask.0,
                    ) implies out@.contains(all@[k]) by {
                    if k < i {
                        assert(old_out.contains(all@[k]));
                        lemma_prefix_contains(old_out, out@, all@[k]);
                    }
                }
                assert forall|mv2: Move| #[trigger] out@.contains(mv2) implies spec_masked_move(
                    self.inner.board@,
                    mv2,
                    self.orig_mask.0,
                    self.dest_mask.0,
                ) by {
                    let k = choose|k: int| 0 <= k < out@.len() && out@[k] == mv2;
                    if k < out@.len() - 1 || old_out.len() == out@.len() {
                        assert(old_out[k] == mv2);
                        assert(old_out.contains(mv2));
                    } else {
                        assert(mv2 == mv);
                        assert(all@.contains(all@[i as int]));
                    }
                }
            }
            i = i + 1;
        }
        proof {
            assert forall|mv: Move|
                #[trigger] spec_masked_move(
                    self.inner.board@,
                    mv,
                    self.orig_mask.0,
                    self.dest_mask.0,
                ) implies out@.contains(mv) by {
                assert(all@.contains(mv));
                let k = choose|k: int| 0 <= k < all@.len() && all@[k] == mv;
                assert(spec_masked_move(
                    self.inner.board@,
                    all@[k],
                    self.orig_mask.0,
                    self.dest_mask.0,
                ));
            }
        }
        out
    }

    /// The number of moves the masks keep; zero exactly when they keep none.
    pub fn len(&self) -> (r: usize)
        requires
            self.inner.models(self.inner.board@),
        ensures
            (r == 0) == !(exists|mv: Move|
                spec_masked_move(
                    self.inner.board@,
                    mv,
                    self.orig_mask.0,
                    self.dest_mask.0,
                )),
    {
        let kept = self.to_moves();
        let n = kept.len();
        proof {
            if n != 0 {
                assert(kept@.contains(kept@[0]));
            } else {
                assert forall|mv: Move|
                    !spec_masked_move(
                        self.inner.board@,
                        mv,
                        self.orig_mask.0,
                        self.dest_mask.0,
                    ) by {
                    assert(!kept@.contains(mv));
                }
            }
        }
        n
    }
}

impl Board {
    /// The legal moves leaving from one square, as a masked generator.
    pub fn legal_moves_from(&self, t: &AttackTables, sq: Square) -> (r: MoveGenMasked)
        requires
            t.wf(),
            self.wf(),
            self.has_kings(),
            self.cache_ok(),
            sq.wf(),
        ensures
            r.inner.models(*self),
            r.orig_mask.0 == (1u64 << sq.0),
            r.dest_mask.0 == FULL,
    {
        let mut g = MoveGenMasked::from_gen(self.legal_moves(t));
        g.set_origin_mask(Bitboard::single(sq));
        g
    }

    /// The legal moves that capture on the destination square, as a masked
    /// generator over the opponent's pieces. En passant, whose prey is not on
    /// the destination square, needs the unmasked generator.
    pub fn legal_captures(&self, t: &AttackTables) -> (r: MoveGenMasked)
        requires
            t.wf(),
            self.wf(),
            self.has_kings(),
            self.cache_ok(),
        ensures
            r.inner.models(*self),
            r.orig_mask.0 == FULL,
            r.dest_mask.0 == self.spec_color_bb(self.turn.spec_opponent()),
    {
        let mut g = MoveGenMasked::from_gen(self.legal_moves(t));
        g.set_destination_mask(self.opponent_color());
        g
    }

    /// The legal moves of one piece type of the mover, as a masked generator.
    pub fn legal_moves_of(&self, t: &AttackTables, ptype: PieceType) -> (r: MoveGenMasked)
        requires
            t.wf(),
            self.wf(),
            self.has_kings(),
            self.cache_ok(),
        ensures
            r.inner.models(*self),
            r.orig_mask.0 == (self.spec_color_bb(self.turn) & self.spec_ptype_bb(ptype)),
            r.dest_mask.0 == FULL,
    {
        let mut g = MoveGenMasked::from_gen(self.legal_moves(t));
        g.set_origin_mask(self.own_piece_type(ptype));
        g
    }
}
} // verus!
