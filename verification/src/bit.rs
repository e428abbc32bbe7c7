//! The 64-bit set-of-squares primitive `Bitboard` and its bit-level lemmas.
//!
//! Bit `i` of a bitboard is set exactly when square `i` is a member, with the
//! fixed rank-major numbering of `Square`.

use vstd::prelude::*;

use crate::units::{Direction, Square};

verus! {

/// Whether bit `i` of `bb` is set; the membership predicate every bitboard
/// contract is stated over.
pub open spec fn bb_has(bb: u64, i: u64) -> bool {
    i < 64 && (bb >> i) & 1u64 == 1u64
}

/// The number of set bits of `x`.
pub open spec fn pop64(x: u64) -> nat
    decreases x,
{
    if x == 0 {
        0
    } else {
        (pop64(x / 2) + (x % 2) as nat) as nat
    }
}

/// Relies on u64::count_ones: it returns the number of one bits in the binary
/// representation, which is `pop64`.
pub assume_specification[ u64::count_ones ](x: u64) -> (r: u32)
    ensures
        r == pop64(x),
;

/// Membership of unions, intersections, differences and complements.
pub proof fn lemma_bb_ops(a: u64, b: u64)
    by (bit_vector)
    ensures
        forall|i: u64| i < 64 ==> #[trigger] bb_has(a | b, i) == (bb_has(a, i) || bb_has(b, i)),
        forall|i: u64| i < 64 ==> #[trigger] bb_has(a & b, i) == (bb_has(a, i) && bb_has(b, i)),
        forall|i: u64| i < 64 ==> #[trigger] bb_has(a ^ b, i) == (bb_has(a, i) != bb_has(b, i)),
        forall|i: u64| i < 64 ==> #[trigger] bb_has(!a, i) == !bb_has(a, i),
{
}

/// Membership of a one-square bitboard.
pub proof fn lemma_bb_single(s: u64)
    by (bit_vector)
    requires
        s < 64,
    ensures
        forall|i: u64| i < 64 ==> (#[trigger] bb_has(1u64 << s, i) == (i == s)),
        bb_has(1u64 << s, s),
        1u64 << s != 0,
{
}

/// Two bitboards with the same members are equal.
pub proof fn lemma_bb_ext(a: u64, b: u64)
    requires
        forall|i: u64| i < 64 ==> (bb_has(a, i) == bb_has(b, i)),
    ensures
        a == b,
{
    if a != b {
        let c = a ^ b;
        assert(c != 0) by (bit_vector)
            requires
                a != b && c == (a ^ b),
        ;
        lemma_bb_nonzero(c);
        let i = choose|i: u64| i < 64 && bb_has(c, i);
        lemma_bb_ops(a, b);
        assert(bb_has(a, i) == bb_has(b, i));
    }
}

/// The empty bitboard has no member.
pub proof fn lemma_bb_empty()
    by (bit_vector)
    ensures
        forall|i: u64| i < 64 ==> !bb_has(0u64, i),
{
}

/// Exclusive-or on bitboards: neutral element, self-inverse, commutative and
/// associative.
pub proof fn lemma_xor_algebra(a: u64, b: u64, c: u64)
    by (bit_vector)
    ensures
        a ^ 0 == a,
        0 ^ a == a,
        a ^ a == 0,
        a ^ b == b ^ a,
        a ^ (b ^ c) == (a ^ b) ^ c,
{
}

/// A populated bitboard has a member.
pub proof fn lemma_bb_nonzero(a: u64)
    requires
        a != 0,
    ensures
        exists|i: u64| i < 64 && bb_has(a, i),
{
    vstd::std_specs::bits::axiom_u64_trailing_zeros(a);
    let t = vstd::std_specs::bits::u64_trailing_zeros(a) as u64;
    assert(bb_has(a, t));
}

/// Unfolding facts that drive inductions over bit positions: how division by
/// two shifts membership, clears, and the first bit.
proof fn lemma_bb_halving(x: u64, i: u64)
    by (bit_vector)
    requires
        i < 64,
    ensures
        i == 0 ==> ((x & !(1u64 << i)) / 2 == x / 2 && (x & !(1u64 << i)) % 2 == 0),
        i > 0 ==> (x & !(1u64 << i)) / 2 == (x / 2) & !(1u64 << vstd::prelude::sub(i, 1)),
        i > 0 ==> (x & !(1u64 << i)) % 2 == x % 2,
        i > 0 ==> (bb_has(x, i) == bb_has(x / 2, vstd::prelude::sub(i, 1))),
        bb_has(x, 0) == (x % 2 == 1),
        (x & !(1u64 << i)) == x || bb_has(x, i),
        bb_has(x & !(1u64 << i), i) == false,
{
}

/// Removing a present member lowers the population count by one.
pub proof fn lemma_pop_remove(x: u64, i: u64)
    requires
        bb_has(x, i),
    ensures
        pop64(x) == pop64(x & !(1u64 << i)) + 1,
    decreases i,
{
    lemma_bb_halving(x, i);
    if i == 0 {
        assert(x % 2 == 1);
        assert(pop64(x) == pop64(x / 2) + 1);
        let y = x & !(1u64 << i);
        assert(y / 2 == x / 2 && y % 2 == 0);
        assert(y != 0 ==> pop64(y) == pop64(y / 2));
        if y == 0 {
            assert(pop64(x / 2) == 0) by {
                assert(y / 2 == 0) by (bit_vector)
                    requires
                        y == 0,
                ;
            }
        }
    } else {
        let y = x & !(1u64 << i);
        lemma_pop_remove(x / 2, (i - 1) as u64);
        assert(x != 0) by (bit_vector)
            requires
                bb_has(x, i),
        ;
        if y == 0 {
            assert(y / 2 == 0 && y % 2 == 0) by (bit_vector)
                requires
                    y == 0,
            ;
        }
        assert(pop64(y) == pop64(y / 2) + (y % 2) as nat);
        assert(pop64(x) == pop64(x / 2) + (x % 2) as nat);
    }
}

/// The population count of a one-square bitboard is one.
pub proof fn lemma_pop_single(s: u64)
    requires
        s < 64,
    ensures
        pop64(1u64 << s) == 1,
{
    lemma_bb_single(s);
    lemma_pop_remove(1u64 << s, s);
    assert((1u64 << s) & !(1u64 << s) == 0) by (bit_vector);
}

/// The population count of a union of disjoint bitboards is the sum of the
/// two counts.
pub proof fn lemma_pop_disjoint(a: u64, b: u64)
    requires
        a & b == 0,
    ensures
        pop64(a | b) == pop64(a) + pop64(b),
    decreases a | b,
{
    if a == 0 {
        assert(a | b == b) by (bit_vector)
            requires
                a == 0,
        ;
    } else if b == 0 {
        assert(a | b == a) by (bit_vector)
            requires
                b == 0,
        ;
    } else {
        assert((a | b) / 2 == (a / 2) | (b / 2) && (a / 2) & (b / 2) == 0 && ((a | b) % 2) == (a
            % 2) + (b % 2) && (a | b) != 0 && (a | b) / 2 < (a | b) || ((a | b) % 2 == 1 && (a | b)
            == 1)) by (bit_vector)
            requires
                a & b == 0 && a != 0 && b != 0,
        ;
        if (a | b) == 1 {
            assert(false) by (bit_vector)
                requires
                    a & b == 0 && a != 0 && b != 0 && (a | b) == 1,
            ;
        }
        lemma_pop_disjoint(a / 2, b / 2);
    }
}

/// A bitboard whose population count is zero is empty.
pub proof fn lemma_pop_zero(x: u64)
    ensures
        pop64(x) == 0 <==> x == 0,
    decreases x,
{
    if x != 0 {
        if x / 2 != 0 {
            lemma_pop_zero(x / 2);
        } else {
            assert(x % 2 == 1) by (bit_vector)
                requires
                    x != 0 && x / 2 == 0,
            ;
        }
    }
}

/// An opaque 64-bit set of squares.
#[derive(PartialEq, Eq, Structural, Clone, Copy, Debug, Hash)]
pub struct Bitboard(pub u64);

/// The empty set of squares.
pub const EMPTY: u64 = 0;

/// Every square of the board.
pub const FULL: u64 = 0xffff_ffff_ffff_ffff;

/// The squares of the first rank.
pub const RANK_1: u64 = 0xff;

/// The squares of the second rank.
pub const RANK_2: u64 = 0xff00;

/// The squares of the seventh rank.
pub const RANK_7: u64 = 0x00ff_0000_0000_0000;

/// The squares of the last rank.
pub const RANK_8: u64 = 0xff00_0000_0000_0000;

/// The squares of file a.
pub const FILE_A: u64 = 0x0101_0101_0101_0101;

/// The squares of file h.
pub const FILE_H: u64 = 0x8080_8080_8080_8080;

/// The dark squares of the board.
pub const DARK_SQUARES: u64 = 0xaa55_aa55_aa55_aa55;

/// The squares of the long a1 to h8 diagonal.
pub const DIAG_A1_H8: u64 = 0x8040_2010_0804_0201;

/// The squares of the long a8 to h1 diagonal.
pub const DIAG_A8_H1: u64 = 0x0102_0408_1020_4080;

/// What `Bitboard::shift` returns: the mask-then-shift formula of each
/// direction, with the wrap-around files cleared before shifting.
pub open spec fn spec_shift(bb: u64, dir: Direction) -> u64 {
    match dir {
        Direction::North => bb << 8,
        Direction::South => bb >> 8,
        Direction::East => (bb & !FILE_H) << 1,
        Direction::NorthEast => (bb & !FILE_H) << 9,
        Direction::SouthEast => (bb & !FILE_H) >> 7,
        Direction::West => (bb & !FILE_A) >> 1,
        Direction::NorthWest => (bb & !FILE_A) << 7,
        Direction::SouthWest => (bb & !FILE_A) >> 9,
        Direction::NoDir => bb,
    }
}

impl Bitboard {
    /// Returns a bitboard that contains a single square.
    pub fn single(sq: Square) -> (r: Bitboard)
        requires
            sq.wf(),
        ensures
            r.0 == (1u64 << sq.0),
            forall|i: u64| i < 64 ==> (bb_has(r.0, i) == (i == sq.0)),
    {
        proof {
            lemma_bb_single(sq.0 as u64);
        }
        Bitboard(1u64 << (sq.0 as u64))
    }

    /// Whether the set is populated.
    pub fn is_populated(self) -> (r: bool)
        ensures
            r == (self.0 != 0),
    {
        self.0 != 0
    }

    /// Whether the set is empty.
    pub fn is_empty(self) -> (r: bool)
        ensures
            r == (self.0 == 0),
    {
        self.0 == 0
    }

    /// Whether a square belongs to the set.
    pub fn get(self, sq: Square) -> (r: bool)
        requires
            sq.wf(),
        ensures
            r == bb_has(self.0, sq.0 as u64),
    {
        (self.0 >> (sq.0 as u64)) & 1u64 == 1u64
    }

    /// Adds a square to the set, present or not.
    pub fn add(&mut self, sq: Square)
        requires
            sq.wf(),
        ensures
            final(self).0 == old(self).0 | (1u64 << sq.0),
            forall|i: u64|
                i < 64 ==> (#[trigger] bb_has(final(self).0, i) == (bb_has(old(self).0, i) || i
                    == sq.0)),
    {
        proof {
            lemma_bb_ops(self.0, 1u64 << (sq.0 as u64));
            lemma_bb_single(sq.0 as u64);
        }
        self.0 = self.0 | (1u64 << (sq.0 as u64));
    }

    /// Removes a square from the set, present or not.
    pub fn remove(&mut self, sq: Square)
        requires
            sq.wf(),
        ensures
            final(self).0 == old(self).0 & !(1u64 << sq.0),
            forall|i: u64|
                i < 64 ==> (#[trigger] bb_has(final(self).0, i) == (bb_has(old(self).0, i) && i
                    != sq.0)),
    {
        proof {
            lemma_bb_ops(self.0, !(1u64 << (sq.0 as u64)));
            lemma_bb_ops(1u64 << (sq.0 as u64), 0);
            lemma_bb_single(sq.0 as u64);
        }
        self.0 = self.0 & !(1u64 << (sq.0 as u64));
    }

    /// Whether both sets have squares in common.
    pub fn intersects(self, bb: Bitboard) -> (r: bool)
        ensures
            r == (self.0 & bb.0 != 0),
    {
        self.0 & bb.0 != 0
    }

    /// The number of squares in the set.
    pub fn pop_count(self) -> (r: u32)
        ensures
            r == pop64(self.0),
    {
        self.0.count_ones()
    }

    /// The lowest member square, or the off-board sentinel on the empty set.
    pub fn scan_forward(self) -> (r: Square)
        ensures
            r.0 as u32 == vstd::std_specs::bits::u64_trailing_zeros(self.0),
            self.0 == 0 ==> r.0 == 64,
            self.0 != 0 ==> r.wf() && bb_has(self.0, r.0 as u64),
            self.0 != 0 ==> forall|j: u64| j < r.0 ==> !#[trigger] bb_has(self.0, j),
    {
        proof {
            vstd::std_specs::bits::axiom_u64_trailing_zeros(self.0);
        }
        Square(self.0.trailing_zeros() as u8)
    }

    /// The highest member square, or the off-board sentinel on the empty set.
    pub fn scan_reverse(self) -> (r: Square)
        ensures
            self.0 == 0 ==> r.0 == 64,
            self.0 != 0 ==> r.wf() && bb_has(self.0, r.0 as u64),
            self.0 != 0 ==> forall|j: u64| r.0 < j < 64 ==> !#[trigger] bb_has(self.0, j),
    {
        proof {
            vstd::std_specs::bits::axiom_u64_leading_zeros(self.0);
            if self.0 != 0 {
                let x = self.0;
                let lz = vstd::std_specs::bits::u64_leading_zeros(x) as u64;
                assert(lz < 64 ==> ((x >> vstd::prelude::sub(63u64, lz)) & 1u64 != 0 ==> (x
                    >> vstd::prelude::sub(63u64, lz)) & 1u64 == 1u64)) by (bit_vector);
            }
        }
        if self.0 != 0 {
            Square((63 - self.0.leading_zeros()) as u8)
        } else {
            Square(64)
        }
    }

    /// The set shifted one step towards a direction; squares that would wrap
    /// around a board edge fall off instead.
    pub fn shift(self, dir: Direction) -> (r: Bitboard)
        ensures
            r.0 == spec_shift(self.0, dir),
    {
        match dir {
            Direction::North => Bitboard(self.0 << 8),
            Direction::South => Bitboard(self.0 >> 8),
            Direction::East => Bitboard((self.0 & !FILE_H) << 1),
            Direction::NorthEast => Bitboard((self.0 & !FILE_H) << 9),
            Direction::SouthEast => Bitboard((self.0 & !FILE_H) >> 7),
            Direction::West => Bitboard((self.0 & !FILE_A) >> 1),
            Direction::NorthWest => Bitboard((self.0 & !FILE_A) << 7),
            Direction::SouthWest => Bitboard((self.0 & !FILE_A) >> 9),
            Direction::NoDir => Bitboard(self.0),
        }
    }

    /// The set with the two player views swapped: square (r, f) becomes
    /// square (7 - r, f).
    pub fn flip_vertical(self) -> (r: Bitboard)
        ensures
            forall|i: u64|
                i < 64 ==> (#[trigger] bb_has(r.0, i) == bb_has(self.0, (i ^ 56) as u64)),
    {
        let x = self.0;
        let r = (x << 56) | ((x & 0xff00) << 40) | ((x & 0x00ff_0000) << 24) | ((x
            & 0xff00_0000) << 8) | ((x >> 8) & 0xff00_0000) | ((x >> 24) & 0x00ff_0000) | ((x
            >> 40) & 0xff00) | (x >> 56);
        proof {
            assert(forall|i: u64|
                i < 64 ==> (#[trigger] bb_has(
                    (x << 56) | ((x & 0xff00) << 40) | ((x & 0x00ff_0000) << 24) | ((x
                        & 0xff00_0000) << 8) | ((x >> 8) & 0xff00_0000) | ((x >> 24) & 0x00ff_0000)
                        | ((x >> 40) & 0xff00) | (x >> 56),
                    i,
                ) == bb_has(x, (i ^ 56) as u64))) by (bit_vector);
        }
        Bitboard(r)
    }

    /// The set mirrored on the vertical middle axis: square (r, f) becomes
    /// square (r, 7 - f).
    pub fn mirror_horizontal(self) -> (r: Bitboard)
        ensures
            forall|i: u64| i < 64 ==> (#[trigger] bb_has(r.0, i) == bb_has(self.0, (i ^ 7) as u64)),
    {
        let x = self.0;
        let k1: u64 = 0x5555_5555_5555_5555;
        let k2: u64 = 0x3333_3333_3333_3333;
        let k4: u64 = 0x0f0f_0f0f_0f0f_0f0f;
        let a = ((x >> 1) & k1) | ((x & k1) << 1);
        let b = ((a >> 2) & k2) | ((a & k2) << 2);
        let c = ((b >> 4) & k4) | ((b & k4) << 4);
        proof {
            assert(forall|i: u64|
                i < 64 ==> (#[trigger] bb_has(c, i) == bb_has(x, (i ^ 7) as u64))) by (bit_vector)
                requires
                    a == ((x >> 1) & 0x5555_5555_5555_5555u64) | ((x & 0x5555_5555_5555_5555u64)
                        << 1),
                    b == ((a >> 2) & 0x3333_3333_3333_3333u64) | ((a & 0x3333_3333_3333_3333u64)
                        << 2),
                    c == ((b >> 4) & 0x0f0f_0f0f_0f0f_0f0fu64) | ((b & 0x0f0f_0f0f_0f0f_0f0fu64)
                        << 4),
            ;
        }
        Bitboard(c)
    }

    /// The set rotated a half turn: square (r, f) becomes square
    /// (7 - r, 7 - f).
    pub fn rotate180(self) -> (r: Bitboard)
        ensures
            forall|i: u64|
                i < 64 ==> (#[trigger] bb_has(r.0, i) == bb_has(self.0, (i ^ 63) as u64)),
    {
        let r = self.flip_vertical().mirror_horizontal();
        proof {
            assert(forall|i: u64| i < 64 ==> ((i ^ 7) ^ 56) == (i ^ 63)) by (bit_vector);
            assert(forall|i: u64| i < 64 ==> (i ^ 7) < 64) by (bit_vector);
        }
        r
    }

    /// Removes and returns the lowest member square, or nothing on the empty
    /// set: members come out in ascending order under repeated calls.
    pub fn next_square(&mut self) -> (r: Option<Square>)
        ensures
            old(self).0 == 0 ==> r is None && final(self).0 == 0,
            old(self).0 != 0 ==> r is Some && final(self).0 == old(self).0 & !(1u64
                << r->Some_0.0),
            old(self).0 != 0 ==> {
                let s = r->Some_0;
                s.wf() && bb_has(old(self).0, s.0 as u64) && (forall|j: u64|
                    j < s.0 ==> !#[trigger] bb_has(old(self).0, j)) && pop64(final(self).0) == pop64(
                    old(self).0,
                ) - 1
            },
            final(self).0 & old(self).0 == final(self).0,
            forall|i: u64|
                i < 64 ==> #[trigger] bb_has(final(self).0, i) ==> bb_has(old(self).0, i),
    {
        if self.0 == 0 {
            proof {
                let x = self.0;
                assert(x == 0 ==> x & x == x) by (bit_vector);
            }
            return None;
        }
        let sq = self.scan_forward();
        proof {
            lemma_pop_remove(self.0, sq.0 as u64);
            lemma_bb_ops(self.0, !(1u64 << (sq.0 as u64)));
            lemma_bb_ops(1u64 << (sq.0 as u64), 0);
            lemma_bb_single(sq.0 as u64);
            let x = self.0;
            let s = sq.0 as u64;
            assert((x & !(1u64 << s)) & x == (x & !(1u64 << s))) by (bit_vector);
        }
        self.remove(sq);
        Some(sq)
    }

    /// The member squares in ascending order.
    pub fn squares(self) -> (r: Vec<Square>)
        ensures
            r@.len() == pop64(self.0),
            forall|k: int| 0 <= k < r@.len() ==> r@[k].wf() && bb_has(self.0, r@[k].0 as u64),
            forall|k1: int, k2: int| 0 <= k1 < k2 < r@.len() ==> r@[k1].0 < r@[k2].0,
            forall|i: u64|
                #[trigger] bb_has(self.0, i) ==> exists|k: int| 0 <= k < r@.len() && r@[k].0 == i,
    {
        let mut out: Vec<Square> = Vec::new();
        let mut rest = self;
        proof {
            lemma_pop_bound(self.0);
        }
        loop
            invariant
                out@.len() + pop64(rest.0) == pop64(self.0),
                pop64(rest.0) <= 64,
                forall|k: int| 0 <= k < out@.len() ==> out@[k].wf() && bb_has(self.0, out@[k].0 as u64),
                forall|k1: int, k2: int| 0 <= k1 < k2 < out@.len() ==> out@[k1].0 < out@[k2].0,
                forall|i: u64| i < 64 ==> #[trigger] bb_has(rest.0, i) ==> bb_has(self.0, i),
                forall|i: u64|
                    #[trigger] bb_has(self.0, i) ==> bb_has(rest.0, i) || exists|k: int|
                        0 <= k < out@.len() && out@[k].0 == i,
                forall|k: int, i: u64|
                    0 <= k < out@.len() && #[trigger] bb_has(rest.0, i) ==> #[trigger] out@[k].0
                        < i,
            decreases pop64(rest.0),
        {
            let ghost prev = rest.0;
            match rest.next_square() {
                None => {
                    proof {
                        lemma_pop_zero(prev);
                        assert(forall|i: u64| i < 64 ==> !bb_has(0u64, i)) by (bit_vector);
                    }
                    return out;
                },
                Some(sq) => {
                    let ghost old_out = out@;
                    proof {
                        lemma_bb_ops(prev, !(1u64 << (sq.0 as u64)));
                        lemma_bb_ops(1u64 << (sq.0 as u64), 0);
                        lemma_bb_single(sq.0 as u64);
                    }
                    out.push(sq);
                    proof {
                        assert forall|i: u64| #[trigger] bb_has(self.0, i) implies bb_has(rest.0, i)
                            || exists|k: int| 0 <= k < out@.len() && out@[k].0 == i by {
                            if !bb_has(rest.0, i) {
                                if i == sq.0 {
                                    assert(out@[out@.len() - 1].0 == i);
                                } else if !bb_has(prev, i) {
                                    let k = choose|k: int|
                                        0 <= k < old_out.len() && old_out[k].0 == i;
                                    assert(out@[k].0 == i);
                                }
                            }
                        };
                    }
                },
            }
        }
    }
}

/// The population count never exceeds the width.
pub proof fn lemma_pop_bound(x: u64)
    ensures
        pop64(x) <= 64,
{
    lemma_pop_width(x, 64);
}

/// A value below two to the `w` has at most `w` set bits.
proof fn lemma_pop_width(x: u64, w: nat)
    requires
        w <= 64,
        x < (1u64 << 63) || w == 64,
        w < 64 ==> x < (1u64 << w),
    ensures
        pop64(x) <= w,
    decreases w,
{
    let wu = w as u64;
    if x == 0 {
    } else if w == 0 {
        assert(x < (1u64 << 0u64) ==> x == 0) by (bit_vector);
    } else {
        assert((wu < 64 && x < (1u64 << wu) ==> (x / 2 < (1u64 << vstd::prelude::sub(wu, 1)) && x
            / 2 < (1u64 << 63u64))) && (wu == 64 ==> x / 2 < (1u64 << 63u64))) by (bit_vector)
            requires
                0 < wu <= 64,
        ;
        lemma_pop_width(x / 2, (w - 1) as nat);
    }
}


impl Bitboard {
    /// The set as eight bytes, lowest rank first.
    pub fn to_bytes(self) -> (r: [u8; 8])
        ensures
            r[0] == (self.0 & 0xff) as u8,
            r[1] == ((self.0 >> 8u64) & 0xff) as u8,
            r[2] == ((self.0 >> 16u64) & 0xff) as u8,
            r[3] == ((self.0 >> 24u64) & 0xff) as u8,
            r[4] == ((self.0 >> 32u64) & 0xff) as u8,
            r[5] == ((self.0 >> 40u64) & 0xff) as u8,
            r[6] == ((self.0 >> 48u64) & 0xff) as u8,
            r[7] == ((self.0 >> 56u64) & 0xff) as u8,
    {
        [
            (self.0 & 0xff) as u8,
            ((self.0 >> 8) & 0xff) as u8,
            ((self.0 >> 16) & 0xff) as u8,
            ((self.0 >> 24) & 0xff) as u8,
            ((self.0 >> 32) & 0xff) as u8,
            ((self.0 >> 40) & 0xff) as u8,
            ((self.0 >> 48) & 0xff) as u8,
            ((self.0 >> 56) & 0xff) as u8,
        ]
    }
}

} // verus!
