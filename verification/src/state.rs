//! Move application and game status: applying one move while maintaining
//! every invariant, and the draw conditions a single position can witness.

use vstd::prelude::*;

use crate::bit::{bb_has, lemma_bb_ext, lemma_bb_ops, lemma_bb_single, pop64, Bitboard};
use crate::moves::{spec_castling_coords, spec_castling_move, Move, MoveFlag, Side};
use crate::position::{wf_at, Board, CastlingRights};
use crate::attack::AttackTables;
use crate::units::{Color, Direction, Piece, PieceType, Square};

verus! {

/// A win is either a checkmate or the opponent resigning.
#[derive(PartialEq, Eq, Structural, Clone, Copy, Debug)]
pub enum WinType {
    Resign,
    Checkmate,
}

/// The kinds of draw; only agreement cannot be detected from the position.
#[derive(PartialEq, Eq, Structural, Clone, Copy, Debug)]
pub enum DrawType {
    Agreement,
    Stalemate,
    ThreefoldRepetition,
    FiftyMoveRule,
    InsufficientMaterial,
}

/// The result of the game: none yet, a win, or a draw.
#[derive(PartialEq, Eq, Structural, Clone, Copy, Debug)]
pub enum GameResult {
    NoResult,
    Win(Color, WinType),
    Draw(DrawType),
}

/// What the castling rights become when a move touches a square: leaving or
/// landing on a rook home square revokes that side, touching a king home
/// square revokes both sides of its player.
pub open spec fn spec_revoke(r: CastlingRights, s: u64) -> CastlingRights {
    if s == 7 {
        CastlingRights { white_king: false, ..r }
    } else if s == 4 {
        CastlingRights { white_king: false, white_queen: false, ..r }
    } else if s == 0 {
        CastlingRights { white_queen: false, ..r }
    } else if s == 63 {
        CastlingRights { black_king: false, ..r }
    } else if s == 60 {
        CastlingRights { black_king: false, black_queen: false, ..r }
    } else if s == 56 {
        CastlingRights { black_queen: false, ..r }
    } else {
        r
    }
}

/// The castling rights after a move: its origin revokes first, then its
/// destination.
pub open spec fn spec_rights_after(r: CastlingRights, mv: Move) -> CastlingRights {
    spec_revoke(spec_revoke(r, mv.from.0 as u64), mv.to.0 as u64)
}

/// The en passant target after a move: the square passed over by a pawn
/// double push, and nothing after any other move.
pub open spec fn spec_ep_after(b: Board, mv: Move) -> Option<Square> {
    if b.spec_piece_at(mv.from.0 as u64)->Some_0.ptype == PieceType::Pawn
        && mv.spec_is_double_push(b.turn) {
        Some(Square((mv.from.0 + Direction::spec_of_pawns(b.turn).spec_delta()) as u8))
    } else {
        None
    }
}

/// Whether a move captures or pushes a pawn: the two events that reset the
/// half-move clock.
pub open spec fn spec_cap_or_pawn(b: Board, mv: Move) -> bool {
    b.spec_captured_by(mv) is Some || b.spec_piece_at(mv.from.0 as u64)->Some_0.ptype
        == PieceType::Pawn
}

/// The piece placement after a move, square by square: the origin empties,
/// the destination takes the moved piece or the promotion, an en passant
/// capture empties the passed square, a castling also moves the rook.
pub open spec fn spec_apply_at(b: Board, mv: Move, i: u64) -> Option<Piece> {
    let moved = b.spec_piece_at(mv.from.0 as u64)->Some_0;
    match mv.flag {
        MoveFlag::Quiet => if i == mv.from.0 {
            None
        } else if i == mv.to.0 {
            Some(moved)
        } else {
            b.spec_piece_at(i)
        },
        MoveFlag::EnPassant(passed) => if i == mv.from.0 || i == passed.0 {
            None
        } else if i == mv.to.0 {
            Some(moved)
        } else {
            b.spec_piece_at(i)
        },
        MoveFlag::Promotion(pt) => if i == mv.from.0 {
            None
        } else if i == mv.to.0 {
            Some(Piece { color: b.turn, ptype: pt })
        } else {
            b.spec_piece_at(i)
        },
        MoveFlag::Castling(side) => {
            let rf = spec_castling_coords(b.turn, side, PieceType::Rook).0;
            let rt = spec_castling_coords(b.turn, side, PieceType::Rook).1;
            if i == mv.from.0 || i == rf.0 {
                None
            } else if i == mv.to.0 {
                Some(moved)
            } else if i == rt.0 {
                Some(Piece { color: b.turn, ptype: PieceType::Rook })
            } else {
                b.spec_piece_at(i)
            }
        },
    }
}

/// What a move must satisfy for `apply_move` to accept it: the mechanical
/// part of legality, which the move generator guarantees of everything it
/// yields. The origin holds a piece of the mover, the destination no friend
/// and no king, and each flag's own squares are as the flag promises.
pub open spec fn spec_applyable(b: Board, mv: Move) -> bool {
    &&& mv.from.wf()
    &&& mv.to.wf()
    &&& mv.from.0 != mv.to.0
    &&& b.spec_piece_at(mv.from.0 as u64) is Some
    &&& b.spec_piece_at(mv.from.0 as u64)->Some_0.color == b.turn
    &&& match b.spec_piece_at(mv.to.0 as u64) {
        Some(cap) => cap.color == b.turn.spec_opponent() && cap.ptype != PieceType::King,
        None => true,
    }
    &&& b.full_move_number < 0x7fff_ffff
    &&& b.half_move_clock < 0xffff_ffff
    &&& match mv.flag {
        MoveFlag::Quiet => true,
        MoveFlag::EnPassant(passed) => passed.wf() && passed.0 != mv.from.0 && passed.0 != mv.to.0
            && b.spec_piece_at(passed.0 as u64) == Some(
            Piece { color: b.turn.spec_opponent(), ptype: PieceType::Pawn },
        ) && b.spec_piece_at(mv.to.0 as u64) is None && b.spec_piece_at(
            mv.from.0 as u64,
        )->Some_0.ptype == PieceType::Pawn,
        MoveFlag::Promotion(pt) => pt.spec_can_be_promotion() && b.spec_piece_at(
            mv.from.0 as u64,
        )->Some_0.ptype == PieceType::Pawn,
        MoveFlag::Castling(side) => mv == spec_castling_move(b.turn, side) && b.spec_piece_at(
            mv.from.0 as u64,
        )->Some_0.ptype == PieceType::King && b.spec_piece_at(mv.to.0 as u64) is None
            && b.spec_piece_at(
            spec_castling_coords(b.turn, side, PieceType::Rook).0.0 as u64,
        ) == Some(Piece { color: b.turn, ptype: PieceType::Rook }) && b.spec_piece_at(
            spec_castling_coords(b.turn, side, PieceType::Rook).1.0 as u64,
        ) is None,
    }
}

/// A bitboard with one set bit is the singleton of its lowest member.
proof fn lemma_pop_one_single(x: u64)
    requires
        pop64(x) == 1,
    ensures
        x == 1u64 << (vstd::std_specs::bits::u64_trailing_zeros(x) as u64),
        bb_has(x, vstd::std_specs::bits::u64_trailing_zeros(x) as u64),
    decreases x,
{
    crate::bit::lemma_pop_zero(x);
    vstd::std_specs::bits::axiom_u64_trailing_zeros(x);
    let t = vstd::std_specs::bits::u64_trailing_zeros(x) as u64;
    crate::bit::lemma_pop_remove(x, t);
    crate::bit::lemma_pop_zero(x & !(1u64 << t));
    assert(x & !(1u64 << t) == 0 && (x >> t) & 1u64 == 1u64 && t < 64 ==> x == 1u64
        << t) by (bit_vector);
}

/// Under a sound partition, membership of a piece's own bitboard pair says
/// exactly which piece stands on the square.
pub proof fn lemma_piece_members(b: Board)
    requires
        b.wf_placement(),
    ensures
        forall|i: u64, c: Color, pt: PieceType|
            i < 64 ==> (#[trigger] bb_has(b.spec_ptype_bb(pt) & b.spec_color_bb(c), i) == (
            b.spec_piece_at(i) == Some(Piece { color: c, ptype: pt }))),
{
    crate::position::lemma_wf_unfold(b);
    assert forall|i: u64, c: Color, pt: PieceType| i < 64 implies (#[trigger] bb_has(
        b.spec_ptype_bb(pt) & b.spec_color_bb(c),
        i,
    ) == (b.spec_piece_at(i) == Some(Piece { color: c, ptype: pt }))) by {
        lemma_bb_ops(b.spec_ptype_bb(pt), b.spec_color_bb(c));
        assert(wf_at(b, i));
    }
}

/// After a change that leaves one king of each color on the board, the king
/// count stays one each.
proof fn lemma_has_kings_after(b1: Board, b2: Board, w: u64, bl: u64)
    requires
        b1.wf_placement(),
        b2.wf_placement(),
        b1.has_kings(),
        w < 64,
        bl < 64,
        forall|i: u64|
            i < 64 ==> ((b2.spec_piece_at(i) == Some(
                Piece { color: Color::White, ptype: PieceType::King },
            )) <==> i == w),
        forall|i: u64|
            i < 64 ==> ((b2.spec_piece_at(i) == Some(
                Piece { color: Color::Black, ptype: PieceType::King },
            )) <==> i == bl),
    ensures
        b2.has_kings(),
{
    lemma_piece_members(b2);
    lemma_bb_single(w);
    lemma_bb_single(bl);
    assert(b2.spec_ptype_bb(PieceType::King) == b2.kings.0);
    assert(b2.spec_color_bb(Color::White) == b2.white.0);
    assert(b2.spec_color_bb(Color::Black) == b2.black.0);
    assert forall|i: u64| i < 64 implies (bb_has(b2.kings.0 & b2.white.0, i) == bb_has(
        1u64 << w,
        i,
    )) by {
        assert(bb_has(b2.spec_ptype_bb(PieceType::King) & b2.spec_color_bb(Color::White), i) == (
        b2.spec_piece_at(i) == Some(Piece { color: Color::White, ptype: PieceType::King })));
    }
    assert forall|i: u64| i < 64 implies (bb_has(b2.kings.0 & b2.black.0, i) == bb_has(
        1u64 << bl,
        i,
    )) by {
        assert(bb_has(b2.spec_ptype_bb(PieceType::King) & b2.spec_color_bb(Color::Black), i) == (
        b2.spec_piece_at(i) == Some(Piece { color: Color::Black, ptype: PieceType::King })));
    }
    lemma_bb_ext(b2.kings.0 & b2.white.0, 1u64 << w);
    lemma_bb_ext(b2.kings.0 & b2.black.0, 1u64 << bl);
    crate::bit::lemma_pop_single(w);
    crate::bit::lemma_pop_single(bl);
}

/// After an applyable move the two kings stand each on exactly one square:
/// the destination for the mover's own king move, the old square otherwise.
#[verifier::spinoff_prover]
#[verifier::rlimit(100)]
proof fn lemma_kings_located(b0: Board, bf: Board, mv: Move)
    requires
        b0.wf_placement(),
        b0.has_kings(),
        bf.wf_placement(),
        spec_applyable(b0, mv),
        forall|i: u64| i < 64 ==> bf.spec_piece_at(i) == spec_apply_at(b0, mv, i),
    ensures
        bf.has_kings(),
{
    let moved = b0.spec_piece_at(mv.from.0 as u64)->Some_0;
    let wk = if b0.turn == Color::White && moved.ptype == PieceType::King {
        mv.to.0 as u64
    } else {
        b0.spec_king_at(Color::White)
    };
    let bk = if b0.turn == Color::Black && moved.ptype == PieceType::King {
        mv.to.0 as u64
    } else {
        b0.spec_king_at(Color::Black)
    };
    lemma_pop_one_single(b0.kings.0 & b0.white.0);
    lemma_pop_one_single(b0.kings.0 & b0.black.0);
    lemma_piece_members(b0);
    lemma_bb_single(b0.spec_king_at(Color::White));
    lemma_bb_single(b0.spec_king_at(Color::Black));
    assert(b0.spec_ptype_bb(PieceType::King) == b0.kings.0);
    assert(b0.spec_color_bb(Color::White) == b0.white.0);
    assert(b0.spec_color_bb(Color::Black) == b0.black.0);
    assert(bb_has(b0.spec_ptype_bb(PieceType::King) & b0.spec_color_bb(Color::White), b0.spec_king_at(Color::White)));
    assert(bb_has(b0.spec_ptype_bb(PieceType::King) & b0.spec_color_bb(Color::Black), b0.spec_king_at(Color::Black)));
    assert(b0.spec_piece_at(b0.spec_king_at(Color::White)) == Some(
        Piece { color: Color::White, ptype: PieceType::King },
    ));
    assert(b0.spec_piece_at(b0.spec_king_at(Color::Black)) == Some(
        Piece { color: Color::Black, ptype: PieceType::King },
    ));
    let wk0 = b0.spec_king_at(Color::White);
    let bk0 = b0.spec_king_at(Color::Black);
    if moved.ptype == PieceType::King {
        assert(bb_has(
            b0.spec_ptype_bb(PieceType::King) & b0.spec_color_bb(moved.color),
            mv.from.0 as u64,
        ) == (b0.spec_piece_at(mv.from.0 as u64) == Some(moved)));
        if b0.turn == Color::White {
            assert(b0.kings.0 & b0.white.0 == 1u64 << wk0);
            assert(bb_has(1u64 << wk0, mv.from.0 as u64) == (mv.from.0 as u64 == wk0));
            assert(mv.from.0 as u64 == wk0);
        } else {
            assert(b0.kings.0 & b0.black.0 == 1u64 << bk0);
            assert(bb_has(1u64 << bk0, mv.from.0 as u64) == (mv.from.0 as u64 == bk0));
            assert(mv.from.0 as u64 == bk0);
        }
    }
    assert forall|i: u64| i < 64 implies ((bf.spec_piece_at(i) == Some(
        Piece { color: Color::White, ptype: PieceType::King },
    )) <==> i == wk) by {
        assert(bf.spec_piece_at(i) == spec_apply_at(b0, mv, i));
        assert(bb_has(b0.spec_ptype_bb(PieceType::King) & b0.spec_color_bb(Color::White), i) == (
        b0.spec_piece_at(i) == Some(Piece { color: Color::White, ptype: PieceType::King })));
        assert(bb_has(1u64 << wk0, i) == (i == wk0));
        assert(b0.kings.0 & b0.white.0 == 1u64 << wk0);
        if bf.spec_piece_at(i) == Some(Piece { color: Color::White, ptype: PieceType::King }) {
            if i != mv.to.0 as u64 {
                assert(b0.spec_piece_at(i) == Some(
                    Piece { color: Color::White, ptype: PieceType::King },
                ));
                assert(i == wk0);
            }
        }
    }
    assert forall|i: u64| i < 64 implies ((bf.spec_piece_at(i) == Some(
        Piece { color: Color::Black, ptype: PieceType::King },
    )) <==> i == bk) by {
        assert(bf.spec_piece_at(i) == spec_apply_at(b0, mv, i));
        assert(bb_has(b0.spec_ptype_bb(PieceType::King) & b0.spec_color_bb(Color::Black), i) == (
        b0.spec_piece_at(i) == Some(Piece { color: Color::Black, ptype: PieceType::King })));
        assert(bb_has(1u64 << bk0, i) == (i == bk0));
        assert(b0.kings.0 & b0.black.0 == 1u64 << bk0);
        if bf.spec_piece_at(i) == Some(Piece { color: Color::Black, ptype: PieceType::King }) {
            if i != mv.to.0 as u64 {
                assert(b0.spec_piece_at(i) == Some(
                    Piece { color: Color::Black, ptype: PieceType::King },
                ));
                assert(i == bk0);
            }
        }
    }
    lemma_has_kings_after(b0, bf, wk, bk);
}

impl Board {
    /// The square of the one king of a color, spoken of through the piece
    /// placement.
    pub open spec fn spec_king_at(self, c: Color) -> u64 {
        self.spec_king_sq(c)
    }

    /// Applies a move in place. The caller must only apply moves returned by
    /// the generator, or validate them first: `requires` holds the mechanical
    /// part of that obligation. Every invariant is maintained and every field
    /// changes exactly as the rules say.
    #[verifier::spinoff_prover]
    #[verifier::rlimit(100)]
    pub fn apply_move(&mut self, t: &AttackTables, mv: Move)
        requires
            t.wf(),
            old(self).wf(),
            old(self).has_kings(),
            spec_applyable(*old(self), mv),
        ensures
            final(self).wf(),
            final(self).has_kings(),
            final(self).cache_ok(),
            final(self).turn == old(self).turn.spec_opponent(),
            final(self).rights == spec_rights_after(old(self).rights, mv),
            final(self).ep_target == spec_ep_after(*old(self), mv),
            final(self).half_move_clock == if spec_cap_or_pawn(*old(self), mv) {
                0u32
            } else {
                (old(self).half_move_clock + 1) as u32
            },
            final(self).full_move_number == if old(self).turn == Color::Black {
                (old(self).full_move_number + 1) as u32
            } else {
                old(self).full_move_number
            },
            forall|i: u64| i < 64 ==> final(self).spec_piece_at(i) == spec_apply_at(*old(self), mv, i),
    {
        let ghost b0 = *self;
        proof {
            lemma_piece_members(b0);
        }
        let moved = self.moved_by(mv);
        let captured = self.captured_by(mv);
        // Castling rights: squares touched revoke them.
        self.revoke_rights_for(mv.from);
        self.revoke_rights_for(mv.to);
        // The en passant target of the successor.
        let is_dp = moved.ptype == PieceType::Pawn && mv.is_double_push(self.turn);
        let new_ep: Option<Square> = if is_dp {
            let d = Direction::of_pawns(self.turn);
            let delta = d.delta();
            Some(Square((mv.from.0 as i16 + delta as i16) as u8))
        } else {
            None
        };
        self.ep_target = new_ep;
        proof {
            assert(self.ep_target == spec_ep_after(b0, mv));
        }
        // Clocks.
        let cap_or_pawn = captured.is_some() || moved.ptype == PieceType::Pawn;
        if cap_or_pawn {
            self.half_move_clock = 0;
        } else {
            self.half_move_clock = self.half_move_clock + 1;
        }
        if matches!(self.turn, Color::Black) {
            self.full_move_number = self.full_move_number + 1;
        }
        let ghost b_meta = *self;
        proof {
            crate::position::lemma_ph_same(b0, *self, 64);
        }
        // The capture on the destination square, if any.
        match self.piece_at(mv.to) {
            Some(cap) => {
                self.remove_piece(cap, mv.to);
            },
            None => {},
        }
        // The piece moves.
        self.move_piece(moved, mv.from, mv.to);
        let ghost b_moved = *self;
        // The flag's own work.
        match mv.flag {
            MoveFlag::Quiet => {},
            MoveFlag::EnPassant(passed) => {
                let pawn = Piece { color: self.turn.opponent(), ptype: PieceType::Pawn };
                self.remove_piece(pawn, passed);
            },
            MoveFlag::Promotion(new_type) => {
                self.remove_piece(moved, mv.to);
                self.add_piece(Piece { color: self.turn, ptype: new_type }, mv.to);
            },
            MoveFlag::Castling(side) => {
                let (rfrom, rto) = Move::rook_castling_coords(self.turn, side);
                self.move_piece(Piece { color: self.turn, ptype: PieceType::Rook }, rfrom, rto);
            },
        }
        proof {
            assert forall|i: u64| i < 64 implies self.spec_piece_at(i) == spec_apply_at(
                b0,
                mv,
                i,
            ) by {
                match mv.flag {
                    MoveFlag::Quiet => {},
                    MoveFlag::EnPassant(passed) => {
                        if i != mv.from.0 && i != mv.to.0 && i != passed.0 {
                            assert(self.spec_piece_at(i) == b0.spec_piece_at(i));
                        }
                    },
                    MoveFlag::Promotion(pt) => {},
                    MoveFlag::Castling(side) => {
                        let rf = spec_castling_coords(b0.turn, side, PieceType::Rook).0;
                        let rt = spec_castling_coords(b0.turn, side, PieceType::Rook).1;
                        if i != mv.from.0 && i != mv.to.0 && i != rf.0 && i != rt.0 {
                            assert(self.spec_piece_at(i) == b0.spec_piece_at(i));
                        }
                    },
                }
            }
        }
        // The turn passes; the caches follow the new mover.
        let ghost b3 = *self;
        self.turn = self.turn.opponent();
        proof {
            assert(forall|i: u64| i < 64 ==> self.spec_piece_at(i) == b3.spec_piece_at(i));
            crate::position::lemma_ph_same(b3, *self, 64);
            lemma_kings_located(b0, *self, mv);
        }
        let ghost b4 = *self;
        self.update_attacks(t);
        proof {
            crate::position::lemma_ph_same(b4, *self, 64);
        }
    }

    /// Revokes the castling rights a touched square costs.
    fn revoke_rights_for(&mut self, sq: Square)
        ensures
            final(self).rights == spec_revoke(old(self).rights, sq.0 as u64),
            *final(self) == (Board { rights: final(self).rights, ..*old(self) }),
    {
        if sq.0 == 7 {
            self.rights.white_king = false;
        } else if sq.0 == 4 {
            self.rights.white_king = false;
            self.rights.white_queen = false;
        } else if sq.0 == 0 {
            self.rights.white_queen = false;
        } else if sq.0 == 63 {
            self.rights.black_king = false;
        } else if sq.0 == 60 {
            self.rights.black_king = false;
            self.rights.black_queen = false;
        } else if sq.0 == 56 {
            self.rights.black_queen = false;
        }
    }

    /// The successor position after a move, the move applied to a copy.
    pub fn play_move(&self, t: &AttackTables, mv: Move) -> (r: Board)
        requires
            t.wf(),
            self.wf(),
            self.has_kings(),
            spec_applyable(*self, mv),
        ensures
            r.wf(),
            r.has_kings(),
            r.cache_ok(),
            r.turn == self.turn.spec_opponent(),
            r.rights == spec_rights_after(self.rights, mv),
            r.ep_target == spec_ep_after(*self, mv),
            r.half_move_clock == if spec_cap_or_pawn(*self, mv) {
                0u32
            } else {
                (self.half_move_clock + 1) as u32
            },
            r.full_move_number == if self.turn == Color::Black {
                (self.full_move_number + 1) as u32
            } else {
                self.full_move_number
            },
            forall|i: u64| i < 64 ==> r.spec_piece_at(i) == spec_apply_at(*self, mv, i),
    {
        let mut next = self.clone();
        proof {
            assert(next == *self);
        }
        next.apply_move(t, mv);
        next
    }

    /// Whether the king of the player to move stands in check.
    pub fn in_check(&self) -> (r: bool)
        ensures
            r == (self.checkers.0 != 0),
    {
        self.checkers.0 != 0
    }

    /// What `is_material_insufficient` returns: two bare kings, the two kings
    /// and one minor piece, or one bishop each on squares of the same shade.
    pub open spec fn spec_insufficient(self) -> bool {
        let occ = pop64(self.spec_occ());
        if occ == 2 {
            true
        } else if occ == 3 {
            pop64(self.knights.0) == 1 || pop64(self.bishops.0) == 1
        } else if occ == 4 {
            let wb = self.bishops.0 & self.white.0;
            let bb = self.bishops.0 & self.black.0;
            let ws = vstd::std_specs::bits::u64_trailing_zeros(wb) as u64;
            let bs = vstd::std_specs::bits::u64_trailing_zeros(bb) as u64;
            pop64(wb) == 1 && pop64(bb) == 1 && ((ws as int / 8) % 2 == (ws as int % 8) % 2) == ((
            bs as int / 8) % 2 == (bs as int % 8) % 2)
        } else {
            false
        }
    }

    /// A theoretical evaluation of whether either player could still win:
    /// two bare kings, king against king and minor piece, and same-shade
    /// lone bishops are all insufficient.
    pub fn is_material_insufficient(&self) -> (r: bool)
        ensures
            r == self.spec_insufficient(),
    {
        let n = self.occupied().pop_count();
        if n == 2 {
            true
        } else if n == 3 {
            self.knights.pop_count() == 1 || self.bishops.pop_count() == 1
        } else if n == 4 {
            let wb = Bitboard(self.bishops.0 & self.white.0);
            let bb = Bitboard(self.bishops.0 & self.black.0);
            if wb.pop_count() == 1 && bb.pop_count() == 1 {
                proof {
                    crate::bit::lemma_pop_zero(wb.0);
                    crate::bit::lemma_pop_zero(bb.0);
                    vstd::std_specs::bits::axiom_u64_trailing_zeros(wb.0);
                    vstd::std_specs::bits::axiom_u64_trailing_zeros(bb.0);
                }
                wb.scan_forward().is_dark() == bb.scan_forward().is_dark()
            } else {
                false
            }
        } else {
            false
        }
    }

    /// What `can_claim_draw_with` returns for each kind of draw.
    pub open spec fn spec_can_claim(self, dt: DrawType) -> bool {
        match dt {
            DrawType::Agreement => true,
            DrawType::FiftyMoveRule => self.half_move_clock > 100,
            DrawType::InsufficientMaterial => self.spec_insufficient(),
            DrawType::Stalemate => false,
            DrawType::ThreefoldRepetition => false,
        }
    }

    /// Whether a draw of a kind can be claimed from this position alone:
    /// agreement always can, the fifty-move rule once more than fifty full
    /// moves passed without a capture or pawn push, insufficient material by
    /// the material test; stalemate is no claim, and repetition needs the
    /// game history, which a position cannot see.
    pub fn can_claim_draw_with(&self, dt: DrawType) -> (r: bool)
        ensures
            r == self.spec_can_claim(dt),
    {
        match dt {
            DrawType::Agreement => true,
            DrawType::FiftyMoveRule => self.half_move_clock > 100,
            DrawType::InsufficientMaterial => self.is_material_insufficient(),
            DrawType::Stalemate => false,
            DrawType::ThreefoldRepetition => false,
        }
    }

    /// Whether any automatically visible draw can be claimed: the fifty-move
    /// rule or insufficient material.
    pub fn can_claim_draw(&self) -> (r: bool)
        ensures
            r == (self.spec_can_claim(DrawType::FiftyMoveRule) || self.spec_can_claim(
                DrawType::InsufficientMaterial,
            )),
    {
        self.can_claim_draw_with(DrawType::FiftyMoveRule) || self.can_claim_draw_with(
            DrawType::InsufficientMaterial,
        )
    }
}

/// A position holding nothing but the two kings is insufficient material.
pub proof fn law_kings_only_insufficient(b: Board)
    requires
        b.wf_placement(),
        b.has_kings(),
        b.spec_occ() == b.kings.0,
    ensures
        b.spec_insufficient(),
{
    lemma_kings_pop_two(b);
}

/// A position holding the two kings and one knight or bishop, and nothing
/// else, is insufficient material.
pub proof fn law_kings_and_minor_insufficient(b: Board, m: u64)
    requires
        b.wf_placement(),
        b.has_kings(),
        m < 64,
        bb_has(b.knights.0, m) || bb_has(b.bishops.0, m),
        b.spec_occ() == b.kings.0 | (1u64 << m),
    ensures
        b.spec_insufficient(),
{
    crate::position::lemma_wf_unfold(b);
    lemma_bb_single(m);
    let kw = b.kings.0 & b.white.0;
    let kb = b.kings.0 & b.black.0;
    lemma_pop_one_single(kw);
    lemma_pop_one_single(kb);
    let w = vstd::std_specs::bits::u64_trailing_zeros(kw) as u64;
    let bl = vstd::std_specs::bits::u64_trailing_zeros(kb) as u64;
    lemma_bb_single(w);
    lemma_bb_single(bl);
    lemma_bb_ops(b.kings.0, b.white.0);
    lemma_bb_ops(b.kings.0, b.black.0);
    lemma_bb_ops(b.kings.0, 1u64 << m);
    lemma_bb_ops(b.white.0, b.black.0);
    // The occupied set is the three distinct squares.
    assert(w != bl) by {
        assert(bb_has(kw, w) && bb_has(kb, bl));
        assert(wf_at(b, w) && wf_at(b, bl));
    }
    assert(m != w && m != bl) by {
        assert(wf_at(b, m));
        assert(bb_has(b.kings.0, w) && bb_has(b.kings.0, bl));
        assert(!bb_has(b.kings.0, m));
    }
    assert(b.kings.0 == kw | kb) by {
        assert forall|i: u64| i < 64 implies (bb_has(b.kings.0, i) == bb_has(kw | kb, i)) by {
            lemma_bb_ops(kw, kb);
            assert(wf_at(b, i));
            if bb_has(b.kings.0, i) {
                assert(bb_has(b.spec_occ(), i)) by {
                    lemma_bb_ops(
                        b.pawns.0 | b.knights.0 | b.bishops.0 | b.rooks.0 | b.queens.0,
                        b.kings.0,
                    );
                }
            }
        }
        lemma_bb_ext(b.kings.0, kw | kb);
    }
    assert(kw & kb == 0) by {
        crate::position::lemma_disjoint_from_members(kw, kb);
    }
    crate::bit::lemma_pop_disjoint(kw, kb);
    crate::bit::lemma_pop_single(w);
    crate::bit::lemma_pop_single(bl);
    assert(pop64(b.kings.0) == 2);
    assert(b.kings.0 & (1u64 << m) == 0) by {
        assert forall|i: u64| i < 64 implies !(bb_has(b.kings.0, i) && bb_has(1u64 << m, i)) by {
            assert(wf_at(b, i));
        }
        crate::position::lemma_disjoint_from_members(b.kings.0, 1u64 << m);
    }
    crate::bit::lemma_pop_disjoint(b.kings.0, 1u64 << m);
    crate::bit::lemma_pop_single(m);
    assert(pop64(b.spec_occ()) == 3);
    // The one minor piece is alone on its board.
    if bb_has(b.knights.0, m) {
        assert(b.knights.0 == 1u64 << m) by {
            assert forall|i: u64| i < 64 implies (bb_has(b.knights.0, i) == bb_has(
                1u64 << m,
                i,
            )) by {
                assert(wf_at(b, i));
                if bb_has(b.knights.0, i) {
                    assert(bb_has(b.spec_occ(), i)) by {
                        lemma_bb_ops(b.pawns.0, b.knights.0);
                        lemma_bb_ops(b.pawns.0 | b.knights.0, b.bishops.0);
                        lemma_bb_ops(b.pawns.0 | b.knights.0 | b.bishops.0, b.rooks.0);
                        lemma_bb_ops(
                            b.pawns.0 | b.knights.0 | b.bishops.0 | b.rooks.0,
                            b.queens.0,
                        );
                        lemma_bb_ops(
                            b.pawns.0 | b.knights.0 | b.bishops.0 | b.rooks.0 | b.queens.0,
                            b.kings.0,
                        );
                    }
                    assert(i == m || bb_has(kw | kb, i));
                    lemma_bb_ops(kw, kb);
                }
            }
            lemma_bb_ext(b.knights.0, 1u64 << m);
        }
        crate::bit::lemma_pop_single(m);
    } else {
        assert(b.bishops.0 == 1u64 << m) by {
            assert forall|i: u64| i < 64 implies (bb_has(b.bishops.0, i) == bb_has(
                1u64 << m,
                i,
            )) by {
                assert(wf_at(b, i));
                if bb_has(b.bishops.0, i) {
                    assert(bb_has(b.spec_occ(), i)) by {
                        lemma_bb_ops(b.pawns.0, b.knights.0);
                        lemma_bb_ops(b.pawns.0 | b.knights.0, b.bishops.0);
                        lemma_bb_ops(b.pawns.0 | b.knights.0 | b.bishops.0, b.rooks.0);
                        lemma_bb_ops(
                            b.pawns.0 | b.knights.0 | b.bishops.0 | b.rooks.0,
                            b.queens.0,
                        );
                        lemma_bb_ops(
                            b.pawns.0 | b.knights.0 | b.bishops.0 | b.rooks.0 | b.queens.0,
                            b.kings.0,
                        );
                    }
                    assert(i == m || bb_has(kw | kb, i));
                    lemma_bb_ops(kw, kb);
                }
            }
            lemma_bb_ext(b.bishops.0, 1u64 << m);
        }
        crate::bit::lemma_pop_single(m);
    }
}

/// Two kings alone make an occupancy of two.
proof fn lemma_kings_pop_two(b: Board)
    requires
        b.wf_placement(),
        b.has_kings(),
        b.spec_occ() == b.kings.0,
    ensures
        pop64(b.spec_occ()) == 2,
{
    let kw = b.kings.0 & b.white.0;
    let kb = b.kings.0 & b.black.0;
    crate::position::lemma_wf_unfold(b);
    assert(b.kings.0 == kw | kb) by {
        assert forall|i: u64| i < 64 implies (bb_has(b.kings.0, i) == bb_has(kw | kb, i)) by {
            lemma_bb_ops(kw, kb);
            lemma_bb_ops(b.kings.0, b.white.0);
            lemma_bb_ops(b.kings.0, b.black.0);
            assert(wf_at(b, i));
            if bb_has(b.kings.0, i) {
                assert(bb_has(b.spec_occ(), i)) by {
                    lemma_bb_ops(
                        b.pawns.0 | b.knights.0 | b.bishops.0 | b.rooks.0 | b.queens.0,
                        b.kings.0,
                    );
                    lemma_bb_ops(b.pawns.0, b.knights.0);
                    lemma_bb_ops(b.pawns.0 | b.knights.0, b.bishops.0);
                    lemma_bb_ops(b.pawns.0 | b.knights.0 | b.bishops.0, b.rooks.0);
                    lemma_bb_ops(b.pawns.0 | b.knights.0 | b.bishops.0 | b.rooks.0, b.queens.0);
                }
            }
        }
        lemma_bb_ext(b.kings.0, kw | kb);
    }
    assert(kw & kb == 0) by {
        assert forall|i: u64| i < 64 implies !(bb_has(kw, i) && bb_has(kb, i)) by {
            lemma_bb_ops(b.kings.0, b.white.0);
            lemma_bb_ops(b.kings.0, b.black.0);
            assert(wf_at(b, i));
        }
        crate::position::lemma_disjoint_from_members(kw, kb);
    }
    crate::bit::lemma_pop_disjoint(kw, kb);
}

/// The fifty-move rule is claimable exactly when the half-move clock passed
/// one hundred: more than fifty full moves without a capture or a pawn push.
pub proof fn law_fifty_move_claimable(b: Board)
    ensures
        b.spec_can_claim(DrawType::FiftyMoveRule) <==> b.half_move_clock > 100,
{
}

} // verus!
