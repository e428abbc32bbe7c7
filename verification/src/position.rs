//! The board state: piece placement as bitboards, side to move, castling
//! rights, en passant target, clocks, an incrementally maintained Zobrist
//! hash, and the cached checker and pinned sets.

use vstd::prelude::*;

use crate::attack::{
    bishop_attack, fill_between, king_mask, knight_mask, pawn_attack_mask, ray, rook_attack,
    spec_between, AttackTables,
};
use crate::bit::{
    bb_has, lemma_bb_empty, lemma_bb_ops, lemma_bb_single, lemma_xor_algebra, pop64, Bitboard,
};
use crate::moves::{Move, MoveFlag, Side};
use crate::units::{Color, Direction, Piece, PieceType, Square};

verus! {

/// The seed of the key stream every hash value is drawn from.
pub const Z_SEED: u64 = 0x428a_2f98_d728_ae22;

/// The odd increment that separates consecutive keys of the stream.
pub const Z_GAMMA: u64 = 0x9e37_79b9_7f4a_7c15;

/// What the key mixer returns: two xor-shift-multiply rounds and a final
/// xor-shift, each multiplication wrapping.
pub open spec fn spec_zmix(x: u64) -> u64 {
    let a = vstd::wrapping::u64_specs::wrapping_mul(x ^ (x >> 30), 0xbf58_476d_1ce4_e5b9);
    let b = vstd::wrapping::u64_specs::wrapping_mul(a ^ (a >> 27), 0x94d0_49bb_1331_11eb);
    b ^ (b >> 31)
}

/// The `k`-th key of the stream.
pub open spec fn spec_zkey(k: u64) -> u64 {
    spec_zmix(
        vstd::wrapping::u64_specs::wrapping_add(
            Z_SEED,
            vstd::wrapping::u64_specs::wrapping_mul(k, Z_GAMMA),
        ),
    )
}

/// The hash key of a piece standing on a square.
pub open spec fn spec_zpiece(pc: Piece, sq: u64) -> u64 {
    spec_zkey((pc.spec_index() * 64 + sq) as u64)
}

/// The `k`-th key of the pseudorandom stream the hash is built from.
fn zkey(k: u64) -> (r: u64)
    ensures
        r == spec_zkey(k),
{
    let x = Z_SEED.wrapping_add(k.wrapping_mul(Z_GAMMA));
    let a = (x ^ (x >> 30)).wrapping_mul(0xbf58_476d_1ce4_e5b9);
    let b = (a ^ (a >> 27)).wrapping_mul(0x94d0_49bb_1331_11eb);
    b ^ (b >> 31)
}

/// The hash contribution of a piece standing on a square.
pub fn hash_piece(pc: Piece, sq: Square) -> (r: u64)
    requires
        sq.wf(),
    ensures
        r == spec_zpiece(pc, sq.0 as u64),
{
    zkey((pc.index() * 64) as u64 + sq.0 as u64)
}

/// The hash contribution of an en passant target square.
pub fn hash_square(sq: Square) -> (r: u64)
    requires
        sq.wf(),
    ensures
        r == spec_zkey((800 + sq.0) as u64),
{
    zkey(800 + sq.0 as u64)
}

/// The hash contribution of the side to move.
pub fn hash_color(col: Color) -> (r: u64)
    ensures
        r == spec_zkey((768 + col.spec_index()) as u64),
{
    zkey(768 + col.index() as u64)
}

/// The per-player castling rights: one boolean per player and side.
#[derive(PartialEq, Eq, Structural, Clone, Copy, Debug)]
pub struct CastlingRights {
    pub white_king: bool,
    pub white_queen: bool,
    pub black_king: bool,
    pub black_queen: bool,
}

impl CastlingRights {
    /// Both rights for both players.
    pub fn all() -> (r: CastlingRights)
        ensures
            r.white_king && r.white_queen && r.black_king && r.black_queen,
    {
        CastlingRights { white_king: true, white_queen: true, black_king: true, black_queen: true }
    }

    /// No right for either player.
    pub fn none() -> (r: CastlingRights)
        ensures
            !r.white_king && !r.white_queen && !r.black_king && !r.black_queen,
    {
        CastlingRights {
            white_king: false,
            white_queen: false,
            black_king: false,
            black_queen: false,
        }
    }

    /// What `index` returns: the rights packed into four bits.
    pub open spec fn spec_rights_index(self) -> int {
        (if self.white_king {
            1int
        } else {
            0int
        }) + (if self.white_queen {
            2int
        } else {
            0int
        }) + (if self.black_king {
            4int
        } else {
            0int
        }) + (if self.black_queen {
            8int
        } else {
            0int
        })
    }

    /// The rights packed into four bits, for table lookups.
    pub fn index(self) -> (r: usize)
        ensures
            r == self.spec_rights_index(),
            r < 16,
    {
        (if self.white_king {
            1usize
        } else {
            0usize
        }) + (if self.white_queen {
            2usize
        } else {
            0usize
        }) + (if self.black_king {
            4usize
        } else {
            0usize
        }) + (if self.black_queen {
            8usize
        } else {
            0usize
        })
    }

    /// What `get` returns.
    pub open spec fn spec_get(self, player: Color, side: Side) -> bool {
        match (player, side) {
            (Color::White, Side::King) => self.white_king,
            (Color::White, Side::Queen) => self.white_queen,
            (Color::Black, Side::King) => self.black_king,
            (Color::Black, Side::Queen) => self.black_queen,
        }
    }

    /// Whether a player holds the right to castle on a side.
    pub fn get(self, player: Color, side: Side) -> (r: bool)
        ensures
            r == self.spec_get(player, side),
    {
        match (player, side) {
            (Color::White, Side::King) => self.white_king,
            (Color::White, Side::Queen) => self.white_queen,
            (Color::Black, Side::King) => self.black_king,
            (Color::Black, Side::Queen) => self.black_queen,
        }
    }
}

/// The hash contribution of the castling rights.
pub fn hash_rights(rights: CastlingRights) -> (r: u64)
    ensures
        r == spec_zkey((770 + rights.spec_rights_index()) as u64),
{
    zkey(770 + rights.index() as u64)
}

/// A `Board` is the full position: six piece-type bitboards shared by both
/// colors, one bitboard per color, the side to move, the castling rights, the
/// optional en passant target, the two FEN clocks, the running placement hash
/// and the cached checker and pinned sets.
#[derive(Clone, Copy, Debug)]
pub struct Board {
    pub pawns: Bitboard,
    pub knights: Bitboard,
    pub bishops: Bitboard,
    pub rooks: Bitboard,
    pub queens: Bitboard,
    pub kings: Bitboard,
    pub white: Bitboard,
    pub black: Bitboard,
    pub turn: Color,
    pub rights: CastlingRights,
    pub ep_target: Option<Square>,
    pub half_move_clock: u32,
    pub full_move_number: u32,
    pub hash: u64,
    pub checkers: Bitboard,
    pub pinned: Bitboard,
}

impl Board {
    /// The bitboard of a piece type, regardless of color.
    pub open spec fn spec_ptype_bb(self, pt: PieceType) -> u64 {
        match pt {
            PieceType::Pawn => self.pawns.0,
            PieceType::Knight => self.knights.0,
            PieceType::Bishop => self.bishops.0,
            PieceType::Rook => self.rooks.0,
            PieceType::Queen => self.queens.0,
            PieceType::King => self.kings.0,
        }
    }

    /// The bitboard of a player's pieces.
    pub open spec fn spec_color_bb(self, c: Color) -> u64 {
        match c {
            Color::White => self.white.0,
            Color::Black => self.black.0,
        }
    }

    /// The bitboard of every occupied square.
    pub open spec fn spec_occ(self) -> u64 {
        self.white.0 | self.black.0
    }

    /// The piece type standing on a square; meaningful on occupied squares.
    pub open spec fn spec_type_at(self, i: u64) -> PieceType {
        if bb_has(self.pawns.0, i) {
            PieceType::Pawn
        } else if bb_has(self.knights.0, i) {
            PieceType::Knight
        } else if bb_has(self.bishops.0, i) {
            PieceType::Bishop
        } else if bb_has(self.rooks.0, i) {
            PieceType::Rook
        } else if bb_has(self.queens.0, i) {
            PieceType::Queen
        } else {
            PieceType::King
        }
    }

    /// The piece standing on a square, if any: the mathematical content of
    /// the eight bitboards.
    pub open spec fn spec_piece_at(self, i: u64) -> Option<Piece> {
        if bb_has(self.white.0, i) {
            Some(Piece { color: Color::White, ptype: self.spec_type_at(i) })
        } else if bb_has(self.black.0, i) {
            Some(Piece { color: Color::Black, ptype: self.spec_type_at(i) })
        } else {
            None
        }
    }

    /// The placement invariant: the two color sets are disjoint, the six
    /// piece-type sets are pairwise disjoint, and both partitions cover
    /// exactly the occupied squares.
    pub open spec fn wf_placement(self) -> bool {
        &&& self.white.0 & self.black.0 == 0
        &&& self.pawns.0 & self.knights.0 == 0
        &&& self.pawns.0 & self.bishops.0 == 0
        &&& self.pawns.0 & self.rooks.0 == 0
        &&& self.pawns.0 & self.queens.0 == 0
        &&& self.pawns.0 & self.kings.0 == 0
        &&& self.knights.0 & self.bishops.0 == 0
        &&& self.knights.0 & self.rooks.0 == 0
        &&& self.knights.0 & self.queens.0 == 0
        &&& self.knights.0 & self.kings.0 == 0
        &&& self.bishops.0 & self.rooks.0 == 0
        &&& self.bishops.0 & self.queens.0 == 0
        &&& self.bishops.0 & self.kings.0 == 0
        &&& self.rooks.0 & self.queens.0 == 0
        &&& self.rooks.0 & self.kings.0 == 0
        &&& self.queens.0 & self.kings.0 == 0
        &&& (self.pawns.0 | self.knights.0 | self.bishops.0 | self.rooks.0 | self.queens.0
            | self.kings.0) == (self.white.0 | self.black.0)
    }

    /// Whether the en passant field, if set, names a board square.
    pub open spec fn wf_ep(self) -> bool {
        match self.ep_target {
            Some(s) => s.wf(),
            None => true,
        }
    }

    /// Each side has exactly one king.
    pub open spec fn has_kings(self) -> bool {
        pop64(self.kings.0 & self.white.0) == 1 && pop64(self.kings.0 & self.black.0) == 1
    }

    /// The hash contribution of one square of a placement.
    pub open spec fn spec_contrib(self, i: u64) -> u64 {
        match self.spec_piece_at(i) {
            Some(pc) => spec_zpiece(pc, i),
            None => 0,
        }
    }

    /// The exclusive-or of the hash contributions of the first `n` squares.
    pub open spec fn spec_ph_n(self, n: nat) -> u64
        decreases n,
    {
        if n == 0 {
            0
        } else {
            self.spec_ph_n((n - 1) as nat) ^ self.spec_contrib((n - 1) as u64)
        }
    }

    /// The placement hash: the exclusive-or of the hash key of every piece on
    /// its square.
    pub open spec fn spec_placement_hash(self) -> u64 {
        self.spec_ph_n(64)
    }

    /// The stored hash field equals the placement hash.
    pub open spec fn hash_ok(self) -> bool {
        self.hash == self.spec_placement_hash()
    }

    /// The well-formed board: sound placement, a board en passant square, and
    /// a faithful stored hash.
    pub open spec fn wf(self) -> bool {
        self.wf_placement() && self.wf_ep() && self.hash_ok()
    }
}

/// Two placements that agree on every square but one have placement hashes
/// that differ exactly by the two contributions of that square.
#[verifier::spinoff_prover]
#[verifier::rlimit(100)]
proof fn lemma_ph_update(b1: Board, b2: Board, sq: u64, n: nat)
    requires
        n <= 64,
        sq < 64,
        forall|i: u64| i < 64 && i != sq ==> b1.spec_piece_at(i) == b2.spec_piece_at(i),
    ensures
        n <= sq ==> b2.spec_ph_n(n) == b1.spec_ph_n(n),
        n > sq ==> b2.spec_ph_n(n) == b1.spec_ph_n(n) ^ b1.spec_contrib(sq) ^ b2.spec_contrib(sq),
    decreases n,
{
    if n > 0 {
        let m = (n - 1) as nat;
        let i = (n - 1) as u64;
        lemma_ph_update(b1, b2, sq, m);
        if n <= sq {
            assert(b1.spec_contrib(i) == b2.spec_contrib(i));
        } else if i == sq {
            // The two prefixes agree; the last contribution changes.
            assert(b2.spec_ph_n(n) == b1.spec_ph_n(m) ^ b2.spec_contrib(sq));
            lemma_xor_algebra(b1.spec_ph_n(m), b1.spec_contrib(sq), b2.spec_contrib(sq));
            lemma_xor_algebra(b1.spec_contrib(sq), b1.spec_contrib(sq), b2.spec_contrib(sq));
            // ph1(m) ^ c2 == ph1(m) ^ (c1 ^ c1) ^ c2 == (ph1(m) ^ c1) ^ c1 ^ c2
            assert(b1.spec_contrib(sq) ^ b1.spec_contrib(sq) == 0);
            assert((b1.spec_ph_n(m) ^ b1.spec_contrib(sq)) ^ b1.spec_contrib(sq) == b1.spec_ph_n(m)
                ^ (b1.spec_contrib(sq) ^ b1.spec_contrib(sq))) by {
                lemma_xor_algebra(b1.spec_ph_n(m), b1.spec_contrib(sq), b1.spec_contrib(sq));
            }
            assert(b1.spec_ph_n(m) ^ 0 == b1.spec_ph_n(m)) by {
                lemma_xor_algebra(b1.spec_ph_n(m), 0, 0);
            }
            assert(((b1.spec_ph_n(m) ^ b1.spec_contrib(sq)) ^ b1.spec_contrib(sq))
                ^ b2.spec_contrib(sq) == (b1.spec_ph_n(m) ^ b1.spec_contrib(sq)) ^ (
            b1.spec_contrib(sq) ^ b2.spec_contrib(sq))) by {
                lemma_xor_algebra(
                    b1.spec_ph_n(m) ^ b1.spec_contrib(sq),
                    b1.spec_contrib(sq),
                    b2.spec_contrib(sq),
                );
            }
        } else {
            // i != sq: the step contribution is shared; shuffle the xors.
            let h1 = b1.spec_ph_n(m);
            let c1 = b1.spec_contrib(sq);
            let c2 = b2.spec_contrib(sq);
            let c = b1.spec_contrib(i);
            assert(b2.spec_contrib(i) == c);
            assert(b2.spec_ph_n(n) == ((h1 ^ c1) ^ c2) ^ c);
            assert(((h1 ^ c1) ^ c2) ^ c == (h1 ^ c1) ^ (c2 ^ c)) by {
                lemma_xor_algebra(h1 ^ c1, c2, c);
            }
            assert(c2 ^ c == c ^ c2) by {
                lemma_xor_algebra(c2, c, 0);
            }
            assert((h1 ^ c1) ^ (c ^ c2) == ((h1 ^ c1) ^ c) ^ c2) by {
                lemma_xor_algebra(h1 ^ c1, c, c2);
            }
            assert((h1 ^ c1) ^ c == (h1 ^ c) ^ c1) by {
                lemma_xor_algebra(h1, c1, c);
                lemma_xor_algebra(c1, c, 0);
                lemma_xor_algebra(h1, c, c1);
            }
            assert(((h1 ^ c) ^ c1) ^ c2 == (h1 ^ c) ^ (c1 ^ c2)) by {
                lemma_xor_algebra(h1 ^ c, c1, c2);
            }
            assert(b2.spec_ph_n(n) == (h1 ^ c) ^ c1 ^ c2) by {
                lemma_xor_algebra(h1 ^ c, c1, c2);
            }
        }
    }
}

/// Two boards with the same placement have the same placement hash.
pub proof fn lemma_ph_same(b1: Board, b2: Board, n: nat)
    requires
        n <= 64,
        forall|i: u64| i < 64 ==> b1.spec_piece_at(i) == b2.spec_piece_at(i),
    ensures
        b2.spec_ph_n(n) == b1.spec_ph_n(n),
    decreases n,
{
    if n > 0 {
        lemma_ph_same(b1, b2, (n - 1) as nat);
        assert(b1.spec_contrib((n - 1) as u64) == b2.spec_contrib((n - 1) as u64));
    }
}

impl Board {
    /// The bitboard of a player.
    pub fn color(&self, col: Color) -> (r: Bitboard)
        ensures
            r.0 == self.spec_color_bb(col),
    {
        match col {
            Color::White => self.white,
            Color::Black => self.black,
        }
    }

    /// The bitboard of a piece type, regardless of color.
    pub fn piece_type(&self, ptype: PieceType) -> (r: Bitboard)
        ensures
            r.0 == self.spec_ptype_bb(ptype),
    {
        match ptype {
            PieceType::Pawn => self.pawns,
            PieceType::Knight => self.knights,
            PieceType::Bishop => self.bishops,
            PieceType::Rook => self.rooks,
            PieceType::Queen => self.queens,
            PieceType::King => self.kings,
        }
    }

    /// The bitboard of the pieces of the player to move.
    pub fn own_color(&self) -> (r: Bitboard)
        ensures
            r.0 == self.spec_color_bb(self.turn),
    {
        self.color(self.turn)
    }

    /// The bitboard of the opponent's pieces.
    pub fn opponent_color(&self) -> (r: Bitboard)
        ensures
            r.0 == self.spec_color_bb(self.turn.spec_opponent()),
    {
        self.color(self.turn.opponent())
    }

    /// The bitboard of a piece type owned by the player to move.
    pub fn own_piece_type(&self, ptype: PieceType) -> (r: Bitboard)
        ensures
            r.0 == self.spec_color_bb(self.turn) & self.spec_ptype_bb(ptype),
    {
        Bitboard(self.own_color().0 & self.piece_type(ptype).0)
    }

    /// The bitboard of a piece type owned by the opponent.
    pub fn opponent_piece_type(&self, ptype: PieceType) -> (r: Bitboard)
        ensures
            r.0 == self.spec_color_bb(self.turn.spec_opponent()) & self.spec_ptype_bb(ptype),
    {
        Bitboard(self.opponent_color().0 & self.piece_type(ptype).0)
    }

    /// The bitboard of one piece.
    pub fn piece(&self, pc: Piece) -> (r: Bitboard)
        ensures
            r.0 == self.spec_color_bb(pc.color) & self.spec_ptype_bb(pc.ptype),
    {
        Bitboard(self.color(pc.color).0 & self.piece_type(pc.ptype).0)
    }

    /// The bitboard of one piece, named by color and type.
    pub fn of_color_and_type(&self, col: Color, ptype: PieceType) -> (r: Bitboard)
        ensures
            r.0 == self.spec_color_bb(col) & self.spec_ptype_bb(ptype),
    {
        Bitboard(self.color(col).0 & self.piece_type(ptype).0)
    }

    /// The bitboard of every occupied square.
    pub fn occupied(&self) -> (r: Bitboard)
        ensures
            r.0 == self.spec_occ(),
    {
        Bitboard(self.white.0 | self.black.0)
    }

    /// The bitboard of every empty square.
    pub fn empty(&self) -> (r: Bitboard)
        ensures
            r.0 == !self.spec_occ(),
            forall|i: u64| i < 64 ==> (#[trigger] bb_has(r.0, i) == !bb_has(self.spec_occ(), i)),
    {
        proof {
            lemma_bb_ops(self.spec_occ(), 0);
        }
        Bitboard(!(self.white.0 | self.black.0))
    }

    /// Whether a square is vacant.
    pub fn is_empty(&self, sq: Square) -> (r: bool)
        requires
            sq.wf(),
        ensures
            r == (self.spec_piece_at(sq.0 as u64) is None),
    {
        proof {
            lemma_bb_ops(self.white.0, self.black.0);
        }
        !self.occupied().get(sq)
    }

    /// Whether a square is occupied by a piece.
    pub fn is_occupied(&self, sq: Square) -> (r: bool)
        requires
            sq.wf(),
        ensures
            r == (self.spec_piece_at(sq.0 as u64) is Some),
    {
        proof {
            lemma_bb_ops(self.white.0, self.black.0);
        }
        self.occupied().get(sq)
    }

    /// The color of the piece at a square, if any.
    pub fn color_at(&self, sq: Square) -> (r: Option<Color>)
        requires
            sq.wf(),
        ensures
            r == match self.spec_piece_at(sq.0 as u64) {
                Some(pc) => Some(pc.color),
                None => None::<Color>,
            },
    {
        if self.white.get(sq) {
            Some(Color::White)
        } else if self.black.get(sq) {
            Some(Color::Black)
        } else {
            None
        }
    }

    /// The piece type at a square, if any.
    pub fn piece_type_at(&self, sq: Square) -> (r: Option<PieceType>)
        requires
            sq.wf(),
        ensures
            r == match self.spec_piece_at(sq.0 as u64) {
                Some(pc) => Some(pc.ptype),
                None => None::<PieceType>,
            },
    {
        proof {
            lemma_bb_ops(self.white.0, self.black.0);
        }
        if !self.occupied().get(sq) {
            None
        } else if self.pawns.get(sq) {
            Some(PieceType::Pawn)
        } else if self.knights.get(sq) {
            Some(PieceType::Knight)
        } else if self.bishops.get(sq) {
            Some(PieceType::Bishop)
        } else if self.rooks.get(sq) {
            Some(PieceType::Rook)
        } else if self.queens.get(sq) {
            Some(PieceType::Queen)
        } else {
            Some(PieceType::King)
        }
    }

    /// The piece at a square, if any.
    pub fn piece_at(&self, sq: Square) -> (r: Option<Piece>)
        requires
            sq.wf(),
        ensures
            r == self.spec_piece_at(sq.0 as u64),
    {
        match self.color_at(sq) {
            None => None,
            Some(color) => match self.piece_type_at(sq) {
                None => None,
                Some(ptype) => Some(Piece { color, ptype }),
            },
        }
    }

    /// Adds a piece on an empty square, maintaining the hash.
    pub fn add_piece(&mut self, pc: Piece, sq: Square)
        requires
            sq.wf(),
            old(self).wf_placement(),
            old(self).hash_ok(),
            old(self).spec_piece_at(sq.0 as u64) is None,
        ensures
            final(self).wf_placement(),
            final(self).hash_ok(),
            final(self).spec_piece_at(sq.0 as u64) == Some(pc),
            forall|i: u64|
                i < 64 && i != sq.0 ==> final(self).spec_piece_at(i) == old(self).spec_piece_at(i),
            final(self).turn == old(self).turn,
            final(self).rights == old(self).rights,
            final(self).ep_target == old(self).ep_target,
            final(self).half_move_clock == old(self).half_move_clock,
            final(self).full_move_number == old(self).full_move_number,
            final(self).checkers == old(self).checkers,
            final(self).pinned == old(self).pinned,
            final(self).spec_color_bb(pc.color) == old(self).spec_color_bb(pc.color) | (1u64
                << sq.0),
            final(self).spec_ptype_bb(pc.ptype) == old(self).spec_ptype_bb(pc.ptype) | (1u64
                << sq.0),
            final(self).spec_color_bb(pc.color.spec_opponent()) == old(self).spec_color_bb(
                pc.color.spec_opponent(),
            ),
            forall|pt: PieceType|
                pt != pc.ptype ==> final(self).spec_ptype_bb(pt) == old(self).spec_ptype_bb(pt),
    {
        let ghost before = *self;
        let s = sq.0 as u64;
        proof {
            lemma_bb_single(s);
            lemma_bb_ops(self.pawns.0, 1u64 << s);
            lemma_bb_ops(self.knights.0, 1u64 << s);
            lemma_bb_ops(self.bishops.0, 1u64 << s);
            lemma_bb_ops(self.rooks.0, 1u64 << s);
            lemma_bb_ops(self.queens.0, 1u64 << s);
            lemma_bb_ops(self.kings.0, 1u64 << s);
            lemma_bb_ops(self.white.0, 1u64 << s);
            lemma_bb_ops(self.black.0, 1u64 << s);
        }
        match pc.ptype {
            PieceType::Pawn => self.pawns.add(sq),
            PieceType::Knight => self.knights.add(sq),
            PieceType::Bishop => self.bishops.add(sq),
            PieceType::Rook => self.rooks.add(sq),
            PieceType::Queen => self.queens.add(sq),
            PieceType::King => self.kings.add(sq),
        }
        match pc.color {
            Color::White => self.white.add(sq),
            Color::Black => self.black.add(sq),
        }
        let h = hash_piece(pc, sq);
        self.hash = self.hash ^ h;
        proof {
            lemma_add_remove_wf(before, *self, pc, sq.0 as u64, true);
            lemma_ph_update(before, *self, s, 64);
            assert(before.spec_contrib(s) == 0);
            assert(self.spec_contrib(s) == spec_zpiece(pc, s));
            lemma_xor_algebra(before.spec_placement_hash(), 0, spec_zpiece(pc, s));
            assert(before.spec_placement_hash() ^ 0 == before.spec_placement_hash());
        }
    }

    /// Removes the given piece from its square, maintaining the hash.
    pub fn remove_piece(&mut self, pc: Piece, sq: Square)
        requires
            sq.wf(),
            old(self).wf_placement(),
            old(self).hash_ok(),
            old(self).spec_piece_at(sq.0 as u64) == Some(pc),
        ensures
            final(self).wf_placement(),
            final(self).hash_ok(),
            final(self).spec_piece_at(sq.0 as u64) is None,
            forall|i: u64|
                i < 64 && i != sq.0 ==> final(self).spec_piece_at(i) == old(self).spec_piece_at(i),
            final(self).turn == old(self).turn,
            final(self).rights == old(self).rights,
            final(self).ep_target == old(self).ep_target,
            final(self).half_move_clock == old(self).half_move_clock,
            final(self).full_move_number == old(self).full_move_number,
            final(self).checkers == old(self).checkers,
            final(self).pinned == old(self).pinned,
            final(self).spec_color_bb(pc.color) == old(self).spec_color_bb(pc.color) & !(1u64
                << sq.0),
            final(self).spec_ptype_bb(pc.ptype) == old(self).spec_ptype_bb(pc.ptype) & !(1u64
                << sq.0),
            final(self).spec_color_bb(pc.color.spec_opponent()) == old(self).spec_color_bb(
                pc.color.spec_opponent(),
            ),
    {
        let ghost before = *self;
        let s = sq.0 as u64;
        proof {
            lemma_bb_single(s);
            lemma_bb_ops(self.pawns.0, !(1u64 << s));
            lemma_bb_ops(self.knights.0, !(1u64 << s));
            lemma_bb_ops(self.bishops.0, !(1u64 << s));
            lemma_bb_ops(self.rooks.0, !(1u64 << s));
            lemma_bb_ops(self.queens.0, !(1u64 << s));
            lemma_bb_ops(self.kings.0, !(1u64 << s));
            lemma_bb_ops(self.white.0, !(1u64 << s));
            lemma_bb_ops(self.black.0, !(1u64 << s));
            lemma_bb_ops(1u64 << s, 0);
        }
        match pc.ptype {
            PieceType::Pawn => self.pawns.remove(sq),
            PieceType::Knight => self.knights.remove(sq),
            PieceType::Bishop => self.bishops.remove(sq),
            PieceType::Rook => self.rooks.remove(sq),
            PieceType::Queen => self.queens.remove(sq),
            PieceType::King => self.kings.remove(sq),
        }
        match pc.color {
            Color::White => self.white.remove(sq),
            Color::Black => self.black.remove(sq),
        }
        let h = hash_piece(pc, sq);
        self.hash = self.hash ^ h;
        proof {
            lemma_add_remove_wf(before, *self, pc, sq.0 as u64, false);
            lemma_ph_update(before, *self, s, 64);
            assert(before.spec_contrib(s) == spec_zpiece(pc, s));
            assert(self.spec_contrib(s) == 0);
            lemma_xor_algebra(
                before.spec_placement_hash() ^ spec_zpiece(pc, s),
                0,
                spec_zpiece(pc, s),
            );
        }
    }

    /// Moves a piece to an empty square, maintaining the hash.
    pub fn move_piece(&mut self, pc: Piece, from: Square, to: Square)
        requires
            from.wf(),
            to.wf(),
            from.0 != to.0,
            old(self).wf_placement(),
            old(self).hash_ok(),
            old(self).spec_piece_at(from.0 as u64) == Some(pc),
            old(self).spec_piece_at(to.0 as u64) is None,
        ensures
            final(self).wf_placement(),
            final(self).hash_ok(),
            final(self).spec_piece_at(from.0 as u64) is None,
            final(self).spec_piece_at(to.0 as u64) == Some(pc),
            forall|i: u64|
                i < 64 && i != from.0 && i != to.0 ==> final(self).spec_piece_at(i) == old(
                    self,
                ).spec_piece_at(i),
            final(self).turn == old(self).turn,
            final(self).rights == old(self).rights,
            final(self).ep_target == old(self).ep_target,
            final(self).half_move_clock == old(self).half_move_clock,
            final(self).full_move_number == old(self).full_move_number,
            final(self).checkers == old(self).checkers,
            final(self).pinned == old(self).pinned,
    {
        self.remove_piece(pc, from);
        self.add_piece(pc, to);
    }
}

/// The placement partition, stated at one square: no square is both white
/// and black, no square holds two piece types, and a square is typed exactly
/// when it is colored.
pub open spec fn wf_at(b: Board, i: u64) -> bool {
    &&& !(bb_has(b.white.0, i) && bb_has(b.black.0, i))
    &&& !(bb_has(b.pawns.0, i) && bb_has(b.knights.0, i))
    &&& !(bb_has(b.pawns.0, i) && bb_has(b.bishops.0, i))
    &&& !(bb_has(b.pawns.0, i) && bb_has(b.rooks.0, i))
    &&& !(bb_has(b.pawns.0, i) && bb_has(b.queens.0, i))
    &&& !(bb_has(b.pawns.0, i) && bb_has(b.kings.0, i))
    &&& !(bb_has(b.knights.0, i) && bb_has(b.bishops.0, i))
    &&& !(bb_has(b.knights.0, i) && bb_has(b.rooks.0, i))
    &&& !(bb_has(b.knights.0, i) && bb_has(b.queens.0, i))
    &&& !(bb_has(b.knights.0, i) && bb_has(b.kings.0, i))
    &&& !(bb_has(b.bishops.0, i) && bb_has(b.rooks.0, i))
    &&& !(bb_has(b.bishops.0, i) && bb_has(b.queens.0, i))
    &&& !(bb_has(b.bishops.0, i) && bb_has(b.kings.0, i))
    &&& !(bb_has(b.rooks.0, i) && bb_has(b.queens.0, i))
    &&& !(bb_has(b.rooks.0, i) && bb_has(b.kings.0, i))
    &&& !(bb_has(b.queens.0, i) && bb_has(b.kings.0, i))
    &&& (bb_has(b.pawns.0, i) || bb_has(b.knights.0, i) || bb_has(b.bishops.0, i) || bb_has(
        b.rooks.0,
        i,
    ) || bb_has(b.queens.0, i) || bb_has(b.kings.0, i)) == (bb_has(b.white.0, i) || bb_has(
        b.black.0,
        i,
    ))
}

/// Unions and intersections of the eight boards, memberwise; the glue between
/// the partition equations and `wf_at`.
proof fn lemma_board_members(b: Board)
    ensures
        forall|i: u64|
            i < 64 ==> #[trigger] bb_has(
                b.pawns.0 | b.knights.0 | b.bishops.0 | b.rooks.0 | b.queens.0 | b.kings.0,
                i,
            ) == (bb_has(b.pawns.0, i) || bb_has(b.knights.0, i) || bb_has(b.bishops.0, i)
                || bb_has(b.rooks.0, i) || bb_has(b.queens.0, i) || bb_has(b.kings.0, i)),
        forall|i: u64|
            i < 64 ==> #[trigger] bb_has(b.white.0 | b.black.0, i) == (bb_has(b.white.0, i)
                || bb_has(b.black.0, i)),
{
    lemma_bb_ops(b.pawns.0, b.knights.0);
    lemma_bb_ops(b.pawns.0 | b.knights.0, b.bishops.0);
    lemma_bb_ops(b.pawns.0 | b.knights.0 | b.bishops.0, b.rooks.0);
    lemma_bb_ops(b.pawns.0 | b.knights.0 | b.bishops.0 | b.rooks.0, b.queens.0);
    lemma_bb_ops(b.pawns.0 | b.knights.0 | b.bishops.0 | b.rooks.0 | b.queens.0, b.kings.0);
    lemma_bb_ops(b.white.0, b.black.0);
}

/// Disjoint bitboards share no member.
proof fn lemma_members_from_disjoint(x: u64, y: u64)
    by (bit_vector)
    requires
        x & y == 0,
    ensures
        forall|i: u64| i < 64 ==> !(#[trigger] bb_has(x, i) && bb_has(y, i)),
{
}

/// Two boards with no common member are disjoint as bitboards.
pub proof fn lemma_disjoint_from_members(x: u64, y: u64)
    requires
        forall|i: u64| i < 64 ==> !(bb_has(x, i) && bb_has(y, i)),
    ensures
        x & y == 0,
{
    lemma_bb_ops(x, y);
    lemma_bb_empty();
    crate::bit::lemma_bb_ext(x & y, 0);
}

/// The partition equations hold exactly when they hold at every square.
pub proof fn lemma_wf_unfold(b: Board)
    requires
        b.wf_placement(),
    ensures
        forall|i: u64| i < 64 ==> #[trigger] wf_at(b, i),
{
    lemma_board_members(b);
    lemma_members_from_disjoint(b.white.0, b.black.0);
    lemma_members_from_disjoint(b.pawns.0, b.knights.0);
    lemma_members_from_disjoint(b.pawns.0, b.bishops.0);
    lemma_members_from_disjoint(b.pawns.0, b.rooks.0);
    lemma_members_from_disjoint(b.pawns.0, b.queens.0);
    lemma_members_from_disjoint(b.pawns.0, b.kings.0);
    lemma_members_from_disjoint(b.knights.0, b.bishops.0);
    lemma_members_from_disjoint(b.knights.0, b.rooks.0);
    lemma_members_from_disjoint(b.knights.0, b.queens.0);
    lemma_members_from_disjoint(b.knights.0, b.kings.0);
    lemma_members_from_disjoint(b.bishops.0, b.rooks.0);
    lemma_members_from_disjoint(b.bishops.0, b.queens.0);
    lemma_members_from_disjoint(b.bishops.0, b.kings.0);
    lemma_members_from_disjoint(b.rooks.0, b.queens.0);
    lemma_members_from_disjoint(b.rooks.0, b.kings.0);
    lemma_members_from_disjoint(b.queens.0, b.kings.0);
    assert forall|i: u64| i < 64 implies #[trigger] wf_at(b, i) by {
        assert(bb_has(
            b.pawns.0 | b.knights.0 | b.bishops.0 | b.rooks.0 | b.queens.0 | b.kings.0,
            i,
        ) == bb_has(b.white.0 | b.black.0, i));
    }
}

/// The converse: per-square soundness folds back into the equations.
pub proof fn lemma_wf_fold(b: Board)
    requires
        forall|i: u64| i < 64 ==> #[trigger] wf_at(b, i),
    ensures
        b.wf_placement(),
{
    lemma_board_members(b);
    assert forall|i: u64| i < 64 implies !(bb_has(b.white.0, i) && bb_has(b.black.0, i)) by {
        assert(wf_at(b, i));
    }
    lemma_disjoint_from_members(b.white.0, b.black.0);
    assert forall|i: u64| i < 64 implies !(bb_has(b.pawns.0, i) && bb_has(b.knights.0, i)) by {
        assert(wf_at(b, i));
    }
    lemma_disjoint_from_members(b.pawns.0, b.knights.0);
    assert forall|i: u64| i < 64 implies !(bb_has(b.pawns.0, i) && bb_has(b.bishops.0, i)) by {
        assert(wf_at(b, i));
    }
    lemma_disjoint_from_members(b.pawns.0, b.bishops.0);
    assert forall|i: u64| i < 64 implies !(bb_has(b.pawns.0, i) && bb_has(b.rooks.0, i)) by {
        assert(wf_at(b, i));
    }
    lemma_disjoint_from_members(b.pawns.0, b.rooks.0);
    assert forall|i: u64| i < 64 implies !(bb_has(b.pawns.0, i) && bb_has(b.queens.0, i)) by {
        assert(wf_at(b, i));
    }
    lemma_disjoint_from_members(b.pawns.0, b.queens.0);
    assert forall|i: u64| i < 64 implies !(bb_has(b.pawns.0, i) && bb_has(b.kings.0, i)) by {
        assert(wf_at(b, i));
    }
    lemma_disjoint_from_members(b.pawns.0, b.kings.0);
    assert forall|i: u64| i < 64 implies !(bb_has(b.knights.0, i) && bb_has(b.bishops.0, i)) by {
        assert(wf_at(b, i));
    }
    lemma_disjoint_from_members(b.knights.0, b.bishops.0);
    assert forall|i: u64| i < 64 implies !(bb_has(b.knights.0, i) && bb_has(b.rooks.0, i)) by {
        assert(wf_at(b, i));
    }
    lemma_disjoint_from_members(b.knights.0, b.rooks.0);
    assert forall|i: u64| i < 64 implies !(bb_has(b.knights.0, i) && bb_has(b.queens.0, i)) by {
        assert(wf_at(b, i));
    }
    lemma_disjoint_from_members(b.knights.0, b.queens.0);
    assert forall|i: u64| i < 64 implies !(bb_has(b.knights.0, i) && bb_has(b.kings.0, i)) by {
        assert(wf_at(b, i));
    }
    lemma_disjoint_from_members(b.knights.0, b.kings.0);
    assert forall|i: u64| i < 64 implies !(bb_has(b.bishops.0, i) && bb_has(b.rooks.0, i)) by {
        assert(wf_at(b, i));
    }
    lemma_disjoint_from_members(b.bishops.0, b.rooks.0);
    assert forall|i: u64| i < 64 implies !(bb_has(b.bishops.0, i) && bb_has(b.queens.0, i)) by {
        assert(wf_at(b, i));
    }
    lemma_disjoint_from_members(b.bishops.0, b.queens.0);
    assert forall|i: u64| i < 64 implies !(bb_has(b.bishops.0, i) && bb_has(b.kings.0, i)) by {
        assert(wf_at(b, i));
    }
    lemma_disjoint_from_members(b.bishops.0, b.kings.0);
    assert forall|i: u64| i < 64 implies !(bb_has(b.rooks.0, i) && bb_has(b.queens.0, i)) by {
        assert(wf_at(b, i));
    }
    lemma_disjoint_from_members(b.rooks.0, b.queens.0);
    assert forall|i: u64| i < 64 implies !(bb_has(b.rooks.0, i) && bb_has(b.kings.0, i)) by {
        assert(wf_at(b, i));
    }
    lemma_disjoint_from_members(b.rooks.0, b.kings.0);
    assert forall|i: u64| i < 64 implies !(bb_has(b.queens.0, i) && bb_has(b.kings.0, i)) by {
        assert(wf_at(b, i));
    }
    lemma_disjoint_from_members(b.queens.0, b.kings.0);
    assert forall|i: u64| i < 64 implies (bb_has(
        b.pawns.0 | b.knights.0 | b.bishops.0 | b.rooks.0 | b.queens.0 | b.kings.0,
        i,
    ) == bb_has(b.white.0 | b.black.0, i)) by {
        assert(wf_at(b, i));
    }
    crate::bit::lemma_bb_ext(
        b.pawns.0 | b.knights.0 | b.bishops.0 | b.rooks.0 | b.queens.0 | b.kings.0,
        b.white.0 | b.black.0,
    );
}

/// Adding or removing one piece keeps the placement partition sound, leaves
/// every other square as it was, and sets the changed square.
#[verifier::spinoff_prover]
#[verifier::rlimit(100)]
proof fn lemma_add_remove_wf(b1: Board, b2: Board, pc: Piece, s: u64, adding: bool)
    requires
        s < 64,
        b1.wf_placement(),
        adding ==> b1.spec_piece_at(s) is None,
        !adding ==> b1.spec_piece_at(s) == Some(pc),
        adding ==> b2.spec_ptype_bb(pc.ptype) == b1.spec_ptype_bb(pc.ptype) | (1u64 << s),
        adding ==> b2.spec_color_bb(pc.color) == b1.spec_color_bb(pc.color) | (1u64 << s),
        !adding ==> b2.spec_ptype_bb(pc.ptype) == b1.spec_ptype_bb(pc.ptype) & !(1u64 << s),
        !adding ==> b2.spec_color_bb(pc.color) == b1.spec_color_bb(pc.color) & !(1u64 << s),
        forall|pt: PieceType| pt != pc.ptype ==> b2.spec_ptype_bb(pt) == b1.spec_ptype_bb(pt),
        forall|c: Color| c != pc.color ==> b2.spec_color_bb(c) == b1.spec_color_bb(c),
    ensures
        b2.wf_placement(),
        forall|i: u64| i < 64 && i != s ==> b2.spec_piece_at(i) == b1.spec_piece_at(i),
        adding ==> b2.spec_piece_at(s) == Some(pc),
        !adding ==> b2.spec_piece_at(s) is None,
{
    lemma_wf_unfold(b1);
    lemma_bb_single(s);
    let m = 1u64 << s;
    lemma_bb_ops(b1.spec_ptype_bb(pc.ptype), m);
    lemma_bb_ops(b1.spec_ptype_bb(pc.ptype), !m);
    lemma_bb_ops(b1.spec_color_bb(pc.color), m);
    lemma_bb_ops(b1.spec_color_bb(pc.color), !m);
    lemma_bb_ops(m, 0);
    assert forall|i: u64| i < 64 implies #[trigger] wf_at(b2, i) by {
        assert(wf_at(b1, i));
        assert(b2.spec_ptype_bb(PieceType::Pawn) == b2.pawns.0);
        assert(b2.spec_ptype_bb(PieceType::Knight) == b2.knights.0);
        assert(b2.spec_ptype_bb(PieceType::Bishop) == b2.bishops.0);
        assert(b2.spec_ptype_bb(PieceType::Rook) == b2.rooks.0);
        assert(b2.spec_ptype_bb(PieceType::Queen) == b2.queens.0);
        assert(b2.spec_ptype_bb(PieceType::King) == b2.kings.0);
        assert(b2.spec_color_bb(Color::White) == b2.white.0);
        assert(b2.spec_color_bb(Color::Black) == b2.black.0);
        assert(b1.spec_ptype_bb(PieceType::Pawn) == b1.pawns.0);
        assert(b1.spec_ptype_bb(PieceType::Knight) == b1.knights.0);
        assert(b1.spec_ptype_bb(PieceType::Bishop) == b1.bishops.0);
        assert(b1.spec_ptype_bb(PieceType::Rook) == b1.rooks.0);
        assert(b1.spec_ptype_bb(PieceType::Queen) == b1.queens.0);
        assert(b1.spec_ptype_bb(PieceType::King) == b1.kings.0);
        assert(b1.spec_color_bb(Color::White) == b1.white.0);
        assert(b1.spec_color_bb(Color::Black) == b1.black.0);
    }
    lemma_wf_fold(b2);
    assert forall|i: u64| i < 64 && i != s implies b2.spec_piece_at(i) == b1.spec_piece_at(i) by {
        assert(wf_at(b1, i));
        lemma_bb_bridge(b1);
        lemma_bb_bridge(b2);
    }
    assert(wf_at(b1, s));
    lemma_bb_bridge(b1);
    lemma_bb_bridge(b2);
    if adding {
        assert(b2.spec_piece_at(s) == Some(pc));
    } else {
        assert(b2.spec_piece_at(s) is None);
    }
}

/// Names each board's bitboard through its selector, so that facts phrased
/// over the selectors meet facts phrased over the fields.
proof fn lemma_bb_bridge(b: Board)
    ensures
        b.spec_ptype_bb(PieceType::Pawn) == b.pawns.0,
        b.spec_ptype_bb(PieceType::Knight) == b.knights.0,
        b.spec_ptype_bb(PieceType::Bishop) == b.bishops.0,
        b.spec_ptype_bb(PieceType::Rook) == b.rooks.0,
        b.spec_ptype_bb(PieceType::Queen) == b.queens.0,
        b.spec_ptype_bb(PieceType::King) == b.kings.0,
        b.spec_color_bb(Color::White) == b.white.0,
        b.spec_color_bb(Color::Black) == b.black.0,
{
}


impl Board {
    /// The empty board: no pieces, White to move, both players holding both
    /// castling rights, no en passant target, fresh clocks.
    pub fn default() -> (r: Board)
        ensures
            r.wf(),
            forall|i: u64| i < 64 ==> r.spec_piece_at(i) is None,
            r.spec_occ() == 0,
            r.pawns.0 == 0,
            r.knights.0 == 0,
            r.bishops.0 == 0,
            r.rooks.0 == 0,
            r.queens.0 == 0,
            r.kings.0 == 0,
            r.white.0 == 0,
            r.black.0 == 0,
            r.turn == Color::White,
            r.rights.white_king && r.rights.white_queen && r.rights.black_king
                && r.rights.black_queen,
            r.ep_target is None,
            r.half_move_clock == 0,
            r.full_move_number == 1,
            r.checkers.0 == 0,
            r.pinned.0 == 0,
    {
        let b = Board {
            pawns: Bitboard(0),
            knights: Bitboard(0),
            bishops: Bitboard(0),
            rooks: Bitboard(0),
            queens: Bitboard(0),
            kings: Bitboard(0),
            white: Bitboard(0),
            black: Bitboard(0),
            turn: Color::White,
            rights: CastlingRights::all(),
            ep_target: None,
            half_move_clock: 0,
            full_move_number: 1,
            hash: 0,
            checkers: Bitboard(0),
            pinned: Bitboard(0),
        };
        proof {
            lemma_bb_empty();
            assert(0u64 & 0u64 == 0 && (0u64 | 0u64) == 0u64) by (bit_vector);
            lemma_ph_none(b, 64);
        }
        b
    }

    /// Recomputes the stored hash from the placement alone.
    fn rehash(&mut self)
        requires
            old(self).wf_placement(),
        ensures
            *final(self) == (Board { hash: final(self).hash, ..*old(self) }),
            final(self).hash_ok(),
    {
        let mut h: u64 = 0;
        let mut i: usize = 0;
        while i < 64
            invariant
                i <= 64,
                h == self.spec_ph_n(i as nat),
                *self == *old(self),
            decreases 64 - i,
        {
            match self.piece_at(Square(i as u8)) {
                Some(pc) => {
                    h = h ^ hash_piece(pc, Square(i as u8));
                },
                None => {
                    proof {
                        lemma_xor_algebra(h, 0, 0);
                    }
                },
            }
            i = i + 1;
        }
        let ghost before = *self;
        self.hash = h;
        proof {
            lemma_ph_same(before, *self, 64);
        }
    }

    /// The square of a player's king, assuming the player has exactly one.
    pub fn king_square_of(&self, player: Color) -> (r: Square)
        requires
            self.has_kings(),
        ensures
            r.wf(),
            r.0 as u64 == self.spec_king_sq(player),
            bb_has(self.kings.0 & self.spec_color_bb(player), r.0 as u64),
    {
        let bb = Bitboard(self.kings.0 & self.color(player).0);
        proof {
            crate::bit::lemma_pop_zero(bb.0);
            vstd::std_specs::bits::axiom_u64_trailing_zeros(bb.0);
        }
        bb.scan_forward()
    }

    /// The square of the king standing on the board, whose square the caches
    /// are computed from.
    pub open spec fn spec_king_sq(self, player: Color) -> u64 {
        vstd::std_specs::bits::u64_trailing_zeros(self.kings.0 & self.spec_color_bb(player)) as u64
    }

    /// The square of the king of the player to move.
    pub fn king_square(&self) -> (r: Square)
        requires
            self.has_kings(),
        ensures
            r.wf(),
            r.0 as u64 == self.spec_king_sq(self.turn),
    {
        self.king_square_of(self.turn)
    }

    /// The cached set of pieces giving check to the player to move.
    pub fn checkers(&self) -> (r: Bitboard)
        ensures
            r == self.checkers,
    {
        self.checkers
    }

    /// The cached set of pinned pieces.
    pub fn pinned(&self) -> (r: Bitboard)
        ensures
            r == self.pinned,
    {
        self.pinned
    }

    /// The square an en passant capture would land on, if any.
    pub fn en_passant_target(&self) -> (r: Option<Square>)
        ensures
            r == self.ep_target,
    {
        self.ep_target
    }

    /// Whether a player holds the right to castle on a side.
    pub fn has_right(&self, player: Color, side: Side) -> (r: bool)
        ensures
            r == self.rights.spec_get(player, side),
    {
        self.rights.get(player, side)
    }

    /// Grants a player the right to castle on a side.
    pub fn add_right(&mut self, player: Color, side: Side)
        ensures
            final(self).rights.spec_get(player, side),
            forall|p: Color, sd: Side|
                !(p == player && sd == side) ==> final(self).rights.spec_get(p, sd) == old(
                    self,
                ).rights.spec_get(p, sd),
            *final(self) == (Board { rights: final(self).rights, ..*old(self) }),
    {
        match (player, side) {
            (Color::White, Side::King) => self.rights.white_king = true,
            (Color::White, Side::Queen) => self.rights.white_queen = true,
            (Color::Black, Side::King) => self.rights.black_king = true,
            (Color::Black, Side::Queen) => self.rights.black_queen = true,
        }
    }

    /// Revokes a player's right to castle on a side.
    pub fn remove_right(&mut self, player: Color, side: Side)
        ensures
            !final(self).rights.spec_get(player, side),
            forall|p: Color, sd: Side|
                !(p == player && sd == side) ==> final(self).rights.spec_get(p, sd) == old(
                    self,
                ).rights.spec_get(p, sd),
            *final(self) == (Board { rights: final(self).rights, ..*old(self) }),
    {
        match (player, side) {
            (Color::White, Side::King) => self.rights.white_king = false,
            (Color::White, Side::Queen) => self.rights.white_queen = false,
            (Color::Black, Side::King) => self.rights.black_king = false,
            (Color::Black, Side::Queen) => self.rights.black_queen = false,
        }
    }

    /// Revokes both castling rights of a player.
    pub fn remove_rights(&mut self, player: Color)
        ensures
            !final(self).rights.spec_get(player, Side::King),
            !final(self).rights.spec_get(player, Side::Queen),
            forall|p: Color, sd: Side|
                p != player ==> final(self).rights.spec_get(p, sd) == old(self).rights.spec_get(
                    p,
                    sd,
                ),
            *final(self) == (Board { rights: final(self).rights, ..*old(self) }),
    {
        self.remove_right(player, Side::King);
        self.remove_right(player, Side::Queen);
    }

    /// What `is_attacked` returns: some piece of `by` reaches `sq` by its own
    /// movement pattern under the current occupancy, computed with the roles
    /// swapped from `sq` outward.
    pub open spec fn spec_attacked(self, sq: u64, by: Color) -> bool {
        let me = by.spec_opponent();
        let ours = self.spec_color_bb(me);
        let enemy = self.spec_color_bb(by);
        ||| bishop_attack(sq, ours, enemy) & (enemy & (self.bishops.0 | self.queens.0)) != 0
        ||| rook_attack(sq, ours, enemy) & (enemy & (self.rooks.0 | self.queens.0)) != 0
        ||| knight_mask(sq) & !ours & (enemy & self.knights.0) != 0
        ||| pawn_attack_mask(me, sq) & enemy & (enemy & self.pawns.0) != 0
        ||| king_mask(sq) & !ours & (enemy & self.kings.0) != 0
    }

    /// Whether a square is directly threatened by pieces of a color, whether
    /// or not a legal move could take advantage of it.
    pub fn is_attacked(&self, t: &AttackTables, sq: Square, by: Color) -> (r: bool)
        requires
            t.wf(),
            sq.wf(),
        ensures
            r == self.spec_attacked(sq.0 as u64, by),
    {
        let me = by.opponent();
        let ours = self.color(me);
        let enemy = self.color(by);
        let bq = enemy.0 & (self.bishops.0 | self.queens.0);
        let rq = enemy.0 & (self.rooks.0 | self.queens.0);
        t.of_bishop(sq, ours, enemy).0 & bq != 0 || t.of_rook(sq, ours, enemy).0 & rq != 0
            || t.of_knight(sq, ours).0 & (enemy.0 & self.knights.0) != 0 || t.of_pawn(
            me,
            sq,
            enemy,
        ).0 & (enemy.0 & self.pawns.0) != 0 || t.of_king(sq, ours).0 & (enemy.0 & self.kings.0)
            != 0
    }

    /// Whether a square is safe for a color: not attacked by its opponent.
    pub fn is_safe(&self, t: &AttackTables, sq: Square, for_player: Color) -> (r: bool)
        requires
            t.wf(),
            sq.wf(),
        ensures
            r == !self.spec_attacked(sq.0 as u64, for_player.spec_opponent()),
    {
        !self.is_attacked(t, sq, for_player.opponent())
    }

    /// What `is_safe_to_move` returns: after lifting the moving piece off
    /// `from` and capturing whatever stands on `to`, no enemy piece reaches
    /// `to`.
    pub open spec fn spec_safe_to_move(self, from: u64, to: u64) -> bool {
        let me = self.spec_piece_at(from)->Some_0.color;
        let ours = self.spec_color_bb(me) ^ (1u64 << from);
        let enemy = self.spec_color_bb(me.spec_opponent()) & !(1u64 << to);
        &&& bishop_attack(to, ours, enemy) & (enemy & (self.bishops.0 | self.queens.0)) == 0
        &&& rook_attack(to, ours, enemy) & (enemy & (self.rooks.0 | self.queens.0)) == 0
        &&& knight_mask(to) & !ours & (enemy & self.knights.0) == 0
        &&& pawn_attack_mask(me, to) & enemy & (enemy & self.pawns.0) == 0
        &&& king_mask(to) & !ours & (enemy & self.kings.0) == 0
    }

    /// Whether the piece on `from` may stand on `to` without being captured
    /// at once: simulates the move and asks whether `to` would be attacked.
    /// Used for king moves, where `to` attacked means an illegal move.
    pub fn is_safe_to_move(&self, t: &AttackTables, from: Square, to: Square) -> (r: bool)
        requires
            t.wf(),
            from.wf(),
            to.wf(),
            self.spec_piece_at(from.0 as u64) is Some,
        ensures
            r == self.spec_safe_to_move(from.0 as u64, to.0 as u64),
    {
        let me = match self.color_at(from) {
            Some(c) => c,
            None => Color::White,
        };
        let ours = Bitboard(self.color(me).0 ^ Bitboard::single(from).0);
        let enemy = Bitboard(self.color(me.opponent()).0 & !Bitboard::single(to).0);
        let bq = enemy.0 & (self.bishops.0 | self.queens.0);
        let rq = enemy.0 & (self.rooks.0 | self.queens.0);
        let a = t.of_bishop(to, ours, enemy).0 & bq;
        let b = t.of_rook(to, ours, enemy).0 & rq;
        let c = t.of_knight(to, ours).0 & (enemy.0 & self.knights.0);
        let d = t.of_pawn(me, to, enemy).0 & (enemy.0 & self.pawns.0);
        let e = t.of_king(to, ours).0 & (enemy.0 & self.kings.0);
        let attackers = a | b | c | d | e;
        proof {
            assert((a | b | c | d | e == 0) == (a == 0 && b == 0 && c == 0 && d == 0 && e
                == 0)) by (bit_vector);
        }
        attackers == 0
    }

    /// The moving piece of a move.
    pub fn moved_by(&self, mv: Move) -> (r: Piece)
        requires
            mv.from.wf(),
            self.spec_piece_at(mv.from.0 as u64) is Some,
        ensures
            Some(r) == self.spec_piece_at(mv.from.0 as u64),
    {
        match self.piece_at(mv.from) {
            Some(pc) => pc,
            None => Piece { color: Color::White, ptype: PieceType::Pawn },
        }
    }

    /// The type of the moving piece of a move.
    pub fn type_moved_by(&self, mv: Move) -> (r: PieceType)
        requires
            mv.from.wf(),
            self.spec_piece_at(mv.from.0 as u64) is Some,
        ensures
            r == self.spec_piece_at(mv.from.0 as u64)->Some_0.ptype,
    {
        self.moved_by(mv).ptype
    }

    /// What `captured_by` returns: the piece on the destination, or on the
    /// passed square for an en passant move.
    pub open spec fn spec_captured_by(self, mv: Move) -> Option<Piece> {
        match mv.flag {
            MoveFlag::EnPassant(passed) => self.spec_piece_at(passed.0 as u64),
            _ => self.spec_piece_at(mv.to.0 as u64),
        }
    }

    /// The piece a move captures, if any.
    pub fn captured_by(&self, mv: Move) -> (r: Option<Piece>)
        requires
            mv.to.wf(),
            match mv.flag {
                MoveFlag::EnPassant(passed) => passed.wf(),
                _ => true,
            },
        ensures
            r == self.spec_captured_by(mv),
    {
        match mv.flag {
            MoveFlag::EnPassant(passed) => self.piece_at(passed),
            _ => self.piece_at(mv.to),
        }
    }

    /// The number of half-moves played since the beginning of the game.
    pub fn num_moves_played(&self) -> (r: u32)
        requires
            1 <= self.full_move_number < 0x8000_0000,
        ensures
            r == (self.full_move_number - 1) * 2 + self.turn.spec_index(),
    {
        (self.full_move_number - 1) * 2 + match self.turn {
            Color::White => 0,
            Color::Black => 1,
        }
    }

    /// What `zobrist_hash` returns: the placement hash combined with the keys
    /// of the side to move, the castling rights, and the en passant target or
    /// its absence. A function of the primary fields alone: the clocks and
    /// the caches play no part.
    pub open spec fn spec_zobrist(self) -> u64 {
        self.spec_placement_hash() ^ spec_zkey((768 + self.turn.spec_index()) as u64) ^ spec_zkey(
            (770 + self.rights.spec_rights_index()) as u64,
        ) ^ (match self.ep_target {
            Some(s) => spec_zkey((800 + s.0) as u64),
            None => spec_zkey(864),
        })
    }

    /// The position hash: pieces, side to move, castling rights and en
    /// passant target all contribute; the clocks and the caches do not.
    pub fn zobrist_hash(&self) -> (r: u64)
        requires
            self.hash_ok(),
            self.wf_ep(),
        ensures
            r == self.spec_zobrist(),
    {
        self.hash ^ hash_color(self.turn) ^ hash_rights(self.rights) ^ (match self.ep_target {
            Some(s) => hash_square(s),
            None => zkey(864),
        })
    }
}

/// The placement hash of a board without pieces is zero.
proof fn lemma_ph_none(b: Board, n: nat)
    requires
        n <= 64,
        forall|i: u64| i < 64 ==> b.spec_piece_at(i) is None,
    ensures
        b.spec_ph_n(n) == 0,
    decreases n,
{
    if n > 0 {
        lemma_ph_none(b, (n - 1) as nat);
        lemma_xor_algebra(0, 0, 0);
    }
}

/// The position hash is a function of the primary state alone: two boards
/// with the same placement, side to move, castling rights and en passant
/// target hash alike, whatever their clocks, caches or history.
pub proof fn law_hash_of_state(a: Board, b: Board)
    requires
        forall|i: u64| i < 64 ==> a.spec_piece_at(i) == b.spec_piece_at(i),
        a.turn == b.turn,
        a.rights == b.rights,
        a.ep_target == b.ep_target,
    ensures
        a.spec_zobrist() == b.spec_zobrist(),
{
    lemma_ph_same(a, b, 64);
}


impl Board {
    /// The enemy sliders whose ray reaches the king of the player to move:
    /// every such piece either checks the king or pins what stands between.
    pub open spec fn spec_pinner_candidates(self) -> u64 {
        let k = self.spec_king_sq(self.turn);
        let enemy = self.spec_color_bb(self.turn.spec_opponent());
        ((ray(Direction::NorthWest, k) | ray(Direction::NorthEast, k) | ray(
            Direction::SouthWest,
            k,
        ) | ray(Direction::SouthEast, k)) & (enemy & (self.bishops.0 | self.queens.0))) | ((ray(
            Direction::North,
            k,
        ) | ray(Direction::South, k) | ray(Direction::East, k) | ray(Direction::West, k)) & (enemy
            & (self.rooks.0 | self.queens.0)))
    }

    /// What membership of the checker cache means: a sliding candidate with
    /// nothing between it and the king, a knight a knight's move away, or a
    /// pawn a pawn capture away.
    pub open spec fn spec_is_checker(self, p: u64) -> bool {
        let k = self.spec_king_sq(self.turn);
        let own = self.spec_color_bb(self.turn);
        let enemy = self.spec_color_bb(self.turn.spec_opponent());
        ||| (bb_has(self.spec_pinner_candidates(), p) && pop64(
            spec_between(k, p) & self.spec_occ(),
        ) == 0)
        ||| bb_has(knight_mask(k) & !own & (enemy & self.knights.0), p)
        ||| bb_has(pawn_attack_mask(self.turn, k) & enemy & (enemy & self.pawns.0), p)
    }

    /// What membership of the pinned cache means: the single occupied square
    /// between the king and some sliding candidate.
    pub open spec fn spec_is_pinned(self, i: u64) -> bool {
        let k = self.spec_king_sq(self.turn);
        exists|p: u64|
            #[trigger] bb_has(self.spec_pinner_candidates(), p) && pop64(
                spec_between(k, p) & self.spec_occ(),
            ) == 1 && bb_has(spec_between(k, p) & self.spec_occ(), i)
    }

    /// The cached checker and pinned sets hold exactly what their meanings
    /// say.
    pub open spec fn cache_ok(self) -> bool {
        &&& forall|i: u64|
            i < 64 ==> #[trigger] bb_has(self.checkers.0, i) == self.spec_is_checker(i)
        &&& forall|i: u64| i < 64 ==> #[trigger] bb_has(self.pinned.0, i) == self.spec_is_pinned(i)
    }

    /// Whether the king of the player to move stands in check.
    pub fn is_king_checked(&self) -> (r: bool)
        ensures
            r == (self.checkers.0 != 0),
    {
        self.checkers.0 != 0
    }

    /// Whether the piece on a square is pinned to the king of the player to
    /// move.
    pub fn is_pinned(&self, sq: Square) -> (r: bool)
        requires
            sq.wf(),
        ensures
            r == bb_has(self.pinned.0, sq.0 as u64),
    {
        self.pinned.get(sq)
    }

    /// Recomputes the checker and pinned caches for the player to move: walks
    /// the enemy sliders on the king's rays, counting the pieces between, and
    /// adds the knight and pawn checkers by direct pattern intersection.
    pub fn update_attacks(&mut self, t: &AttackTables)
        requires
            old(self).wf(),
            old(self).has_kings(),
            t.wf(),
        ensures
            *final(self) == (Board {
                checkers: final(self).checkers,
                pinned: final(self).pinned,
                ..*old(self)
            }),
            final(self).cache_ok(),
    {
        let ksq = self.king_square();
        let own = self.own_color();
        let enemy = self.opponent_color();
        let occ = self.occupied();
        let bq = enemy.0 & (self.bishops.0 | self.queens.0);
        let rq = enemy.0 & (self.rooks.0 | self.queens.0);
        let cands = Bitboard((t.bishop_rays(ksq).0 & bq) | (t.rook_rays(ksq).0 & rq));
        proof {
            assert(cands.0 == self.spec_pinner_candidates());
        }
        let mut checkers = Bitboard(0);
        let mut pinned = Bitboard(0);
        let mut rest = cands;
        proof {
            lemma_bb_empty();
            lemma_bb_ops(cands.0, !cands.0);
            lemma_bb_ops(cands.0, 0);
        }
        while rest.0 != 0
            invariant
                t.wf(),
                *self == *old(self),
                self.wf(),
                self.has_kings(),
                ksq.wf(),
                ksq.0 as u64 == self.spec_king_sq(self.turn),
                own.0 == self.spec_color_bb(self.turn),
                enemy.0 == self.spec_color_bb(self.turn.spec_opponent()),
                occ.0 == self.spec_occ(),
                cands.0 == self.spec_pinner_candidates(),
                forall|i: u64| i < 64 ==> #[trigger] bb_has(rest.0, i) ==> bb_has(cands.0, i),
                forall|i: u64|
                    i < 64 ==> #[trigger] bb_has(checkers.0, i) == (bb_has(cands.0 & !rest.0, i)
                        && pop64(spec_between(ksq.0 as u64, i) & occ.0) == 0),
                forall|i: u64|
                    i < 64 ==> #[trigger] bb_has(pinned.0, i) == exists|p: u64|
                        #[trigger] bb_has(cands.0 & !rest.0, p) && pop64(
                            spec_between(ksq.0 as u64, p) & occ.0,
                        ) == 1 && bb_has(spec_between(ksq.0 as u64, p) & occ.0, i),
            decreases pop64(rest.0),
        {
            let ghost old_rest = rest.0;
            let ghost old_pinned = pinned.0;
            let ghost old_checkers = checkers.0;
            let p = match rest.next_square() {
                Some(p) => p,
                None => {
                    proof {
                        assert(false);
                    }
                    Square(0)
                },
            };
            let btw = Bitboard(fill_between(ksq, p).0 & occ.0);
            proof {
                lemma_bb_single(p.0 as u64);
                lemma_bb_ops(old_rest, !(1u64 << p.0));
                lemma_bb_ops(cands.0, !old_rest);
                lemma_bb_ops(cands.0, !rest.0);
                lemma_bb_ops(rest.0, 0);
                lemma_bb_ops(1u64 << p.0, 0);
                assert forall|i: u64| i < 64 implies #[trigger] bb_has(cands.0 & !rest.0, i) == (
                bb_has(cands.0 & !old_rest, i) || i == p.0) by {
                    assert(bb_has(cands.0, i) == (bb_has(cands.0 & !old_rest, i) || bb_has(
                        rest.0,
                        i,
                    ) || i == p.0));
                }
            }
            let n = btw.pop_count();
            if n == 1 {
                proof {
                    lemma_bb_ops(old_pinned, btw.0);
                }
                pinned = Bitboard(pinned.0 | btw.0);
            } else if n == 0 {
                checkers.add(p);
            }
            proof {
                // The checker set matches its meaning over the grown prefix.
                assert forall|i: u64| i < 64 implies #[trigger] bb_has(checkers.0, i) == (bb_has(
                    cands.0 & !rest.0,
                    i,
                ) && pop64(spec_between(ksq.0 as u64, i) & occ.0) == 0) by {
                    if i != p.0 {
                        assert(bb_has(checkers.0, i) == bb_has(old_checkers, i));
                    }
                }
                // So does the pinned set, witness by witness.
                assert forall|i: u64| i < 64 implies #[trigger] bb_has(pinned.0, i) == exists|
                    q: u64,
                |
                    #[trigger] bb_has(cands.0 & !rest.0, q) && pop64(
                        spec_between(ksq.0 as u64, q) & occ.0,
                    ) == 1 && bb_has(spec_between(ksq.0 as u64, q) & occ.0, i) by {
                    if bb_has(pinned.0, i) {
                        if bb_has(old_pinned, i) {
                            let q = choose|q: u64|
                                #[trigger] bb_has(cands.0 & !old_rest, q) && pop64(
                                    spec_between(ksq.0 as u64, q) & occ.0,
                                ) == 1 && bb_has(spec_between(ksq.0 as u64, q) & occ.0, i);
                            assert(bb_has(cands.0 & !rest.0, q));
                        } else {
                            assert(bb_has(cands.0 & !rest.0, p.0 as u64));
                            assert(bb_has(spec_between(ksq.0 as u64, p.0 as u64) & occ.0, i));
                        }
                    } else {
                        assert forall|q: u64|
                            #[trigger] bb_has(cands.0 & !rest.0, q) && pop64(
                                spec_between(ksq.0 as u64, q) & occ.0,
                            ) == 1 implies !bb_has(spec_between(ksq.0 as u64, q) & occ.0, i) by {
                            if q != p.0 as u64 {
                                assert(bb_has(cands.0 & !old_rest, q));
                            } else {
                                assert(pop64(btw.0) == 1);
                                assert(bb_has(old_pinned | btw.0, i) == (bb_has(old_pinned, i)
                                    || bb_has(btw.0, i)));
                            }
                        }
                    }
                }
            }
        }
        let kn = t.of_knight(ksq, own).0 & (enemy.0 & self.knights.0);
        let pw = t.of_pawn(self.turn, ksq, enemy).0 & (enemy.0 & self.pawns.0);
        let all_checkers = Bitboard(checkers.0 | (kn | pw));
        proof {
            lemma_bb_ops(checkers.0, kn | pw);
            lemma_bb_ops(kn, pw);
            lemma_bb_ops(cands.0, !rest.0);
            lemma_bb_ops(rest.0, 0);
            lemma_bb_empty();
        }
        self.checkers = all_checkers;
        self.pinned = pinned;
        proof {
            assert(self.spec_pinner_candidates() == cands.0);
            assert(self.spec_king_sq(self.turn) == ksq.0 as u64);
            assert(self.spec_occ() == occ.0);
            assert forall|i: u64| i < 64 implies #[trigger] bb_has(self.checkers.0, i)
                == self.spec_is_checker(i) by {
                assert(bb_has(cands.0 & !rest.0, i) == bb_has(cands.0, i));
            }
            assert forall|i: u64| i < 64 implies #[trigger] bb_has(self.pinned.0, i)
                == self.spec_is_pinned(i) by {
                if bb_has(self.pinned.0, i) {
                    let q = choose|q: u64|
                        #[trigger] bb_has(cands.0 & !rest.0, q) && pop64(
                            spec_between(ksq.0 as u64, q) & occ.0,
                        ) == 1 && bb_has(spec_between(ksq.0 as u64, q) & occ.0, i);
                    assert(bb_has(cands.0, q));
                } else {
                    assert forall|q: u64|
                        #[trigger] bb_has(self.spec_pinner_candidates(), q) && pop64(
                            spec_between(ksq.0 as u64, q) & self.spec_occ(),
                        ) == 1 implies !bb_has(spec_between(ksq.0 as u64, q) & self.spec_occ(), i) by {
                        assert(bb_has(cands.0 & !rest.0, q) == bb_has(cands.0, q));
                    }
                }
            }
        }
    }

    /// What `is_valid` returns: per-color piece counts within physical
    /// bounds with exactly one king each, a sound partition, the opponent's
    /// king out of reach of the mover, the two kings not adjacent, a present
    /// en passant target backed by an enemy pawn one step beyond it, and each
    /// held castling right backed by the king and rook on their home squares.
    pub open spec fn spec_is_valid(self) -> bool {
        let opp = self.turn.spec_opponent();
        let own_k = self.spec_king_sq(self.turn);
        let opp_k = self.spec_king_sq(opp);
        &&& pop64(self.pawns.0 & self.white.0) <= 8
        &&& pop64(self.knights.0 & self.white.0) <= 10
        &&& pop64(self.bishops.0 & self.white.0) <= 10
        &&& pop64(self.rooks.0 & self.white.0) <= 10
        &&& pop64(self.queens.0 & self.white.0) <= 9
        &&& pop64(self.kings.0 & self.white.0) == 1
        &&& pop64(self.pawns.0 & self.black.0) <= 8
        &&& pop64(self.knights.0 & self.black.0) <= 10
        &&& pop64(self.bishops.0 & self.black.0) <= 10
        &&& pop64(self.rooks.0 & self.black.0) <= 10
        &&& pop64(self.queens.0 & self.black.0) <= 9
        &&& pop64(self.kings.0 & self.black.0) == 1
        &&& self.wf_placement()
        &&& !self.spec_attacked(opp_k, self.turn)
        &&& !bb_has(king_mask(own_k) & !self.spec_color_bb(self.turn), opp_k)
        &&& match self.ep_target {
            Some(s) => crate::attack::step_ok(s.0 as u64, Direction::spec_of_pawns(opp)) && bb_has(
                self.spec_color_bb(opp) & self.pawns.0,
                crate::attack::step_to(s.0 as u64, Direction::spec_of_pawns(opp)),
            ),
            None => true,
        }
        &&& forall|c: Color, sd: Side|
            #[trigger] self.rights.spec_get(c, sd) ==> bb_has(
                self.kings.0 & self.spec_color_bb(c),
                crate::moves::spec_castling_coords(c, sd, PieceType::King).0.0 as u64,
            ) && bb_has(
                self.rooks.0 & self.spec_color_bb(c),
                crate::moves::spec_castling_coords(c, sd, PieceType::Rook).0.0 as u64,
            )
    }

    /// Whether this position may theoretically occur in a game.
    pub fn is_valid(&self, t: &AttackTables) -> (r: bool)
        requires
            t.wf(),
            self.wf_placement(),
            self.wf_ep(),
        ensures
            r == self.spec_is_valid(),
    {
        let ok_counts = Bitboard(self.pawns.0 & self.white.0).pop_count() <= 8 && Bitboard(
            self.knights.0 & self.white.0,
        ).pop_count() <= 10 && Bitboard(self.bishops.0 & self.white.0).pop_count() <= 10
            && Bitboard(self.rooks.0 & self.white.0).pop_count() <= 10 && Bitboard(
            self.queens.0 & self.white.0,
        ).pop_count() <= 9 && Bitboard(self.kings.0 & self.white.0).pop_count() == 1 && Bitboard(
            self.pawns.0 & self.black.0,
        ).pop_count() <= 8 && Bitboard(self.knights.0 & self.black.0).pop_count() <= 10 && Bitboard(
            self.bishops.0 & self.black.0,
        ).pop_count() <= 10 && Bitboard(self.rooks.0 & self.black.0).pop_count() <= 10 && Bitboard(
            self.queens.0 & self.black.0,
        ).pop_count() <= 9 && Bitboard(self.kings.0 & self.black.0).pop_count() == 1;
        if !ok_counts {
            return false;
        }
        let opp = self.turn.opponent();
        let own_k = self.king_square_of(self.turn);
        let opp_k = self.king_square_of(opp);
        if self.is_attacked(t, opp_k, self.turn) {
            return false;
        }
        if t.of_king(own_k, self.own_color()).get(opp_k) {
            return false;
        }
        let ep_ok = match self.ep_target {
            Some(s) => {
                match crate::attack::try_step(s, Direction::of_pawns(opp)) {
                    Some(passed) => Bitboard(self.color(opp).0 & self.pawns.0).get(passed),
                    None => false,
                }
            },
            None => true,
        };
        if !ep_ok {
            return false;
        }
        let mut rights_ok = true;
        if self.rights.get(Color::White, Side::King) {
            let (kh, _) = Move::castling_coords(Color::White, Side::King, PieceType::King);
            let (rh, _) = Move::castling_coords(Color::White, Side::King, PieceType::Rook);
            rights_ok = rights_ok && Bitboard(self.kings.0 & self.white.0).get(kh) && Bitboard(
                self.rooks.0 & self.white.0,
            ).get(rh);
        }
        if self.rights.get(Color::White, Side::Queen) {
            let (kh, _) = Move::castling_coords(Color::White, Side::Queen, PieceType::King);
            let (rh, _) = Move::castling_coords(Color::White, Side::Queen, PieceType::Rook);
            rights_ok = rights_ok && Bitboard(self.kings.0 & self.white.0).get(kh) && Bitboard(
                self.rooks.0 & self.white.0,
            ).get(rh);
        }
        if self.rights.get(Color::Black, Side::King) {
            let (kh, _) = Move::castling_coords(Color::Black, Side::King, PieceType::King);
            let (rh, _) = Move::castling_coords(Color::Black, Side::King, PieceType::Rook);
            rights_ok = rights_ok && Bitboard(self.kings.0 & self.black.0).get(kh) && Bitboard(
                self.rooks.0 & self.black.0,
            ).get(rh);
        }
        if self.rights.get(Color::Black, Side::Queen) {
            let (kh, _) = Move::castling_coords(Color::Black, Side::Queen, PieceType::King);
            let (rh, _) = Move::castling_coords(Color::Black, Side::Queen, PieceType::Rook);
            rights_ok = rights_ok && Bitboard(self.kings.0 & self.black.0).get(kh) && Bitboard(
                self.rooks.0 & self.black.0,
            ).get(rh);
        }
        proof {
            if rights_ok {
                assert forall|c: Color, sd: Side| #[trigger] self.rights.spec_get(c, sd) implies
                    bb_has(
                    self.kings.0 & self.spec_color_bb(c),
                    crate::moves::spec_castling_coords(c, sd, PieceType::King).0.0 as u64,
                ) && bb_has(
                    self.rooks.0 & self.spec_color_bb(c),
                    crate::moves::spec_castling_coords(c, sd, PieceType::Rook).0.0 as u64,
                ) by {}
            }
        }
        rights_ok
    }

    /// The initial chess position, its caches freshly computed.
    pub fn new(t: &AttackTables) -> (r: Board)
        requires
            t.wf(),
        ensures
            r.wf(),
            r.has_kings(),
            r.cache_ok(),
            r.turn == Color::White,
            r.rights.white_king && r.rights.white_queen && r.rights.black_king
                && r.rights.black_queen,
            r.ep_target is None,
            r.half_move_clock == 0,
            r.full_move_number == 1,
            r.pawns.0 == 0x00ff_0000_0000_ff00u64,
            r.knights.0 == 0x4200_0000_0000_0042u64,
            r.bishops.0 == 0x2400_0000_0000_0024u64,
            r.rooks.0 == 0x8100_0000_0000_0081u64,
            r.queens.0 == 0x0800_0000_0000_0008u64,
            r.kings.0 == 0x1000_0000_0000_0010u64,
            r.white.0 == 0x0000_0000_0000_ffffu64,
            r.black.0 == 0xffff_0000_0000_0000u64,
    {
        let mut b = Board {
            pawns: Bitboard(0x00ff_0000_0000_ff00),
            knights: Bitboard(0x4200_0000_0000_0042),
            bishops: Bitboard(0x2400_0000_0000_0024),
            rooks: Bitboard(0x8100_0000_0000_0081),
            queens: Bitboard(0x0800_0000_0000_0008),
            kings: Bitboard(0x1000_0000_0000_0010),
            white: Bitboard(0x0000_0000_0000_ffff),
            black: Bitboard(0xffff_0000_0000_0000),
            turn: Color::White,
            rights: CastlingRights::all(),
            ep_target: None,
            half_move_clock: 0,
            full_move_number: 1,
            hash: 0,
            checkers: Bitboard(0),
            pinned: Bitboard(0),
        };
        proof {
            lemma_initial_wf();
            assert(pop64(b.kings.0 & b.white.0) == 1 && pop64(b.kings.0 & b.black.0) == 1) by {
                assert(0x1000_0000_0000_0010u64 & 0x0000_0000_0000_ffffu64 == 1u64 << 4
                    && 0x1000_0000_0000_0010u64 & 0xffff_0000_0000_0000u64 == 1u64
                    << 60) by (bit_vector);
                crate::bit::lemma_pop_single(4);
                crate::bit::lemma_pop_single(60);
            }
        }
        b.rehash();
        let ghost pre = b;
        b.update_attacks(t);
        proof {
            lemma_ph_same(pre, b, 64);
        }
        b
    }
}

/// The partition equations of the initial placement, on its constants.
proof fn lemma_initial_wf()
    by (bit_vector)
    ensures
        0x0000_0000_0000_ffffu64 & 0xffff_0000_0000_0000u64 == 0,
        0x00ff_0000_0000_ff00u64 & 0x4200_0000_0000_0042u64 == 0,
        0x00ff_0000_0000_ff00u64 & 0x2400_0000_0000_0024u64 == 0,
        0x00ff_0000_0000_ff00u64 & 0x8100_0000_0000_0081u64 == 0,
        0x00ff_0000_0000_ff00u64 & 0x0800_0000_0000_0008u64 == 0,
        0x00ff_0000_0000_ff00u64 & 0x1000_0000_0000_0010u64 == 0,
        0x4200_0000_0000_0042u64 & 0x2400_0000_0000_0024u64 == 0,
        0x4200_0000_0000_0042u64 & 0x8100_0000_0000_0081u64 == 0,
        0x4200_0000_0000_0042u64 & 0x0800_0000_0000_0008u64 == 0,
        0x4200_0000_0000_0042u64 & 0x1000_0000_0000_0010u64 == 0,
        0x2400_0000_0000_0024u64 & 0x8100_0000_0000_0081u64 == 0,
        0x2400_0000_0000_0024u64 & 0x0800_0000_0000_0008u64 == 0,
        0x2400_0000_0000_0024u64 & 0x1000_0000_0000_0010u64 == 0,
        0x8100_0000_0000_0081u64 & 0x0800_0000_0000_0008u64 == 0,
        0x8100_0000_0000_0081u64 & 0x1000_0000_0000_0010u64 == 0,
        0x0800_0000_0000_0008u64 & 0x1000_0000_0000_0010u64 == 0,
        (0x00ff_0000_0000_ff00u64 | 0x4200_0000_0000_0042u64 | 0x2400_0000_0000_0024u64
            | 0x8100_0000_0000_0081u64 | 0x0800_0000_0000_0008u64 | 0x1000_0000_0000_0010u64) == (
        0x0000_0000_0000_ffffu64 | 0xffff_0000_0000_0000u64),
{
}


impl PartialEq for Board {
    /// Two boards are equal when every primary field agrees: the placement,
    /// the side to move, the castling rights, the en passant target and the
    /// clocks. The hash and the caches are derived and play no part.
    fn eq(&self, other: &Board) -> (r: bool) {
        self.pawns.0 == other.pawns.0 && self.knights.0 == other.knights.0 && self.bishops.0
            == other.bishops.0 && self.rooks.0 == other.rooks.0 && self.queens.0 == other.queens.0
            && self.kings.0 == other.kings.0 && self.white.0 == other.white.0 && self.black.0
            == other.black.0 && self.turn == other.turn && self.rights == other.rights && (match (
            self.ep_target,
            other.ep_target,
        ) {
            (Some(a), Some(b)) => a.0 == b.0,
            (None, None) => true,
            _ => false,
        }) && self.half_move_clock == other.half_move_clock && self.full_move_number
            == other.full_move_number
    }
}

impl vstd::std_specs::cmp::PartialEqSpecImpl for Board {
    open spec fn obeys_eq_spec() -> bool {
        true
    }

    open spec fn eq_spec(&self, other: &Board) -> bool {
        self.pawns.0 == other.pawns.0 && self.knights.0 == other.knights.0 && self.bishops.0
            == other.bishops.0 && self.rooks.0 == other.rooks.0 && self.queens.0 == other.queens.0
            && self.kings.0 == other.kings.0 && self.white.0 == other.white.0 && self.black.0
            == other.black.0 && self.turn == other.turn && self.rights == other.rights
            && self.ep_target == other.ep_target && self.half_move_clock == other.half_move_clock
            && self.full_move_number == other.full_move_number
    }
}


/// The placement partition, as a law of every well-formed position: the six
/// piece-type sets are pairwise disjoint, the two color sets are disjoint,
/// and both partitions cover exactly the occupied squares — stated by the
/// equations of `wf_placement` and, square by square, by `wf_at`. Every
/// public constructor establishes `wf_placement` and every move application
/// preserves it, so the law holds of every reachable position.
pub proof fn law_placement_partition(b: Board)
    requires
        b.wf_placement(),
    ensures
        (b.pawns.0 | b.knights.0 | b.bishops.0 | b.rooks.0 | b.queens.0 | b.kings.0) == b.spec_occ(),
        b.white.0 & b.black.0 == 0,
        forall|i: u64| i < 64 ==> #[trigger] wf_at(b, i),
{
    lemma_wf_unfold(b);
}

} // verus!
