//! FEN import and export: six space-separated fields describing placement,
//! side to move, castling rights, en passant target and the two clocks.

use vstd::prelude::*;
use vstd::string::StringSliceAdditionalSpecFns;

use crate::attack::AttackTables;
use crate::bit::{bb_has, pop64, Bitboard};
use crate::position::{Board, CastlingRights};
use crate::units::{Color, File, Piece, PieceType, Rank, Square};

verus! {

/// The first index at or after `i` that ends the current field: the first
/// space, or the end of the text.
pub open spec fn spec_run_end(s: Seq<u8>, i: int) -> int
    decreases s.len() - i,
{
    if i < 0 || i >= s.len() || s[i] == 32 {
        i
    } else {
        spec_run_end(s, i + 1)
    }
}

/// The first index at or after `i` holding something besides a space.
pub open spec fn spec_skip_spaces(s: Seq<u8>, i: int) -> int
    decreases s.len() - i,
{
    if i < 0 || i >= s.len() || s[i] != 32 {
        i
    } else {
        spec_skip_spaces(s, i + 1)
    }
}

/// A field scan never moves backwards.
proof fn lemma_run_end_lb(s: Seq<u8>, i: int)
    ensures
        spec_run_end(s, i) >= i,
    decreases s.len() - i,
{
    if !(i < 0 || i >= s.len() || s[i] == 32) {
        lemma_run_end_lb(s, i + 1);
    }
}

/// A run ends exactly at the first space: everything before `j` is no space
/// and `j` is a space or the end.
proof fn lemma_run_end_to(s: Seq<u8>, i: int, j: int)
    requires
        0 <= i <= j <= s.len(),
        forall|k: int| i <= k < j ==> s[k] != 32,
        j == s.len() || s[j] == 32,
    ensures
        spec_run_end(s, i) == j,
    decreases j - i,
{
    if i < j {
        lemma_run_end_to(s, i + 1, j);
    }
}

/// The piece a FEN letter byte denotes, if any.
pub open spec fn spec_piece_of_byte(b: u8) -> Option<Piece> {
    if b == 80 {
        Some(Piece { color: Color::White, ptype: PieceType::Pawn })
    } else if b == 78 {
        Some(Piece { color: Color::White, ptype: PieceType::Knight })
    } else if b == 66 {
        Some(Piece { color: Color::White, ptype: PieceType::Bishop })
    } else if b == 82 {
        Some(Piece { color: Color::White, ptype: PieceType::Rook })
    } else if b == 81 {
        Some(Piece { color: Color::White, ptype: PieceType::Queen })
    } else if b == 75 {
        Some(Piece { color: Color::White, ptype: PieceType::King })
    } else if b == 112 {
        Some(Piece { color: Color::Black, ptype: PieceType::Pawn })
    } else if b == 110 {
        Some(Piece { color: Color::Black, ptype: PieceType::Knight })
    } else if b == 98 {
        Some(Piece { color: Color::Black, ptype: PieceType::Bishop })
    } else if b == 114 {
        Some(Piece { color: Color::Black, ptype: PieceType::Rook })
    } else if b == 113 {
        Some(Piece { color: Color::Black, ptype: PieceType::Queen })
    } else if b == 107 {
        Some(Piece { color: Color::Black, ptype: PieceType::King })
    } else {
        None
    }
}

/// The running state of the placement scan: the rank and file about to be
/// filled and the eight partial bitboards read so far.
pub struct PlaceState {
    pub rank: int,
    pub file: int,
    pub pawns: u64,
    pub knights: u64,
    pub bishops: u64,
    pub rooks: u64,
    pub queens: u64,
    pub kings: u64,
    pub white: u64,
    pub black: u64,
}

/// The scan starts at the top left corner of an empty board.
pub open spec fn place_init() -> PlaceState {
    PlaceState {
        rank: 7,
        file: 0,
        pawns: 0,
        knights: 0,
        bishops: 0,
        rooks: 0,
        queens: 0,
        kings: 0,
        white: 0,
        black: 0,
    }
}

/// One piece dropped on the square under the scan head.
pub open spec fn place_add(st: PlaceState, pc: Piece, s: u64) -> PlaceState {
    let st1 = match pc.ptype {
        PieceType::Pawn => PlaceState { pawns: st.pawns | (1u64 << s), ..st },
        PieceType::Knight => PlaceState { knights: st.knights | (1u64 << s), ..st },
        PieceType::Bishop => PlaceState { bishops: st.bishops | (1u64 << s), ..st },
        PieceType::Rook => PlaceState { rooks: st.rooks | (1u64 << s), ..st },
        PieceType::Queen => PlaceState { queens: st.queens | (1u64 << s), ..st },
        PieceType::King => PlaceState { kings: st.kings | (1u64 << s), ..st },
    };
    match pc.color {
        Color::White => PlaceState { white: st1.white | (1u64 << s), file: st.file + 1, ..st1 },
        Color::Black => PlaceState { black: st1.black | (1u64 << s), file: st.file + 1, ..st1 },
    }
}

/// One byte of the placement field: a slash closes a full rank, a digit skips
/// empty squares, a piece letter drops a piece on a free square.
pub open spec fn place_step(st: PlaceState, b: u8) -> Option<PlaceState> {
    if b == 47 {
        if st.rank == 0 || st.file != 8 {
            None
        } else {
            Some(PlaceState { rank: st.rank - 1, file: 0, ..st })
        }
    } else if 49 <= b && b <= 56 {
        if st.file + (b - 48) > 8 {
            None
        } else {
            Some(PlaceState { file: st.file + (b - 48), ..st })
        }
    } else {
        match spec_piece_of_byte(b) {
            None => None,
            Some(pc) => {
                let s = (st.rank * 8 + st.file) as u64;
                if st.file >= 8 || bb_has(st.white, s) || bb_has(st.black, s) {
                    None
                } else {
                    Some(place_add(st, pc, s))
                }
            },
        }
    }
}

/// The placement scan over a whole byte sequence.
pub open spec fn place_fold(st: PlaceState, s: Seq<u8>) -> Option<PlaceState>
    decreases s.len(),
{
    if s.len() == 0 {
        Some(st)
    } else {
        match place_step(st, s[0]) {
            None => None,
            Some(st2) => place_fold(st2, s.subrange(1, s.len() as int)),
        }
    }
}

/// The placement scan splits over concatenation.
proof fn lemma_place_fold_app(st: PlaceState, a: Seq<u8>, b: Seq<u8>)
    ensures
        place_fold(st, a + b) == (match place_fold(st, a) {
            None => None::<PlaceState>,
            Some(m) => place_fold(m, b),
        }),
    decreases a.len(),
{
    if a.len() == 0 {
        assert(a + b =~= b);
    } else {
        assert((a + b)[0] == a[0]);
        assert((a + b).subrange(1, (a + b).len() as int) =~= a.subrange(1, a.len() as int) + b);
        match place_step(st, a[0]) {
            None => {},
            Some(m) => {
                lemma_place_fold_app(m, a.subrange(1, a.len() as int), b);
            },
        }
    }
}

/// What the placement field denotes: the scan must end having filled all
/// eight ranks.
pub open spec fn spec_placement_field(s: Seq<u8>) -> Option<PlaceState> {
    match place_fold(place_init(), s) {
        None => None,
        Some(st) => if st.rank == 0 && st.file == 8 {
            Some(st)
        } else {
            None
        },
    }
}

/// What the side-to-move field denotes.
pub open spec fn spec_turn_field(s: Seq<u8>) -> Option<Color> {
    if s.len() == 1 && s[0] == 119 {
        Some(Color::White)
    } else if s.len() == 1 && s[0] == 98 {
        Some(Color::Black)
    } else {
        None
    }
}

/// One castling-right letter.
pub open spec fn rights_step(r: CastlingRights, b: u8) -> Option<CastlingRights> {
    if b == 75 {
        Some(CastlingRights { white_king: true, ..r })
    } else if b == 81 {
        Some(CastlingRights { white_queen: true, ..r })
    } else if b == 107 {
        Some(CastlingRights { black_king: true, ..r })
    } else if b == 113 {
        Some(CastlingRights { black_queen: true, ..r })
    } else {
        None
    }
}

/// The castling-rights letters over a whole byte sequence.
pub open spec fn rights_fold(r: CastlingRights, s: Seq<u8>) -> Option<CastlingRights>
    decreases s.len(),
{
    if s.len() == 0 {
        Some(r)
    } else {
        match rights_step(r, s[0]) {
            None => None,
            Some(r2) => rights_fold(r2, s.subrange(1, s.len() as int)),
        }
    }
}

/// The rights scan splits over concatenation.
proof fn lemma_rights_fold_app(r: CastlingRights, a: Seq<u8>, b: Seq<u8>)
    ensures
        rights_fold(r, a + b) == (match rights_fold(r, a) {
            None => None::<CastlingRights>,
            Some(m) => rights_fold(m, b),
        }),
    decreases a.len(),
{
    if a.len() == 0 {
        assert(a + b =~= b);
    } else {
        assert((a + b)[0] == a[0]);
        assert((a + b).subrange(1, (a + b).len() as int) =~= a.subrange(1, a.len() as int) + b);
        match rights_step(r, a[0]) {
            None => {},
            Some(m) => {
                lemma_rights_fold_app(m, a.subrange(1, a.len() as int), b);
            },
        }
    }
}

/// What the castling field denotes: a bare dash means no right, otherwise
/// each letter grants one.
pub open spec fn spec_rights_field(s: Seq<u8>) -> Option<CastlingRights> {
    if s.len() == 0 {
        None
    } else if s.len() == 1 && s[0] == 45 {
        Some(spec_no_rights())
    } else {
        rights_fold(spec_no_rights(), s)
    }
}

/// What the en passant field denotes: a dash or a lower-case square name.
pub open spec fn spec_ep_field(s: Seq<u8>) -> Option<Option<Square>> {
    if s.len() == 1 && s[0] == 45 {
        Some(None)
    } else if s.len() == 2 && 97 <= s[0] <= 104 && 49 <= s[1] <= 56 {
        Some(Some(Square((((s[1] - 49) * 8 + (s[0] - 97))) as u8)))
    } else {
        None
    }
}

/// One decimal digit onto a running value; the running value is capped so
/// that seven digits always fit.
pub open spec fn dec_step(acc: int, b: u8) -> Option<int> {
    if b < 48 || b > 57 {
        None
    } else if acc >= 1_000_000 {
        None
    } else {
        Some(acc * 10 + (b - 48))
    }
}

/// The digits of a clock field over a whole byte sequence.
pub open spec fn dec_fold(acc: int, s: Seq<u8>) -> Option<int>
    decreases s.len(),
{
    if s.len() == 0 {
        Some(acc)
    } else {
        match dec_step(acc, s[0]) {
            None => None,
            Some(a2) => dec_fold(a2, s.subrange(1, s.len() as int)),
        }
    }
}

/// The digit scan splits over concatenation.
proof fn lemma_dec_fold_app(acc: int, a: Seq<u8>, b: Seq<u8>)
    ensures
        dec_fold(acc, a + b) == (match dec_fold(acc, a) {
            None => None::<int>,
            Some(m) => dec_fold(m, b),
        }),
    decreases a.len(),
{
    if a.len() == 0 {
        assert(a + b =~= b);
    } else {
        assert((a + b)[0] == a[0]);
        assert((a + b).subrange(1, (a + b).len() as int) =~= a.subrange(1, a.len() as int) + b);
        match dec_step(acc, a[0]) {
            None => {},
            Some(m) => {
                lemma_dec_fold_app(m, a.subrange(1, a.len() as int), b);
            },
        }
    }
}

/// What a clock field denotes: one to seven digits.
pub open spec fn spec_clock_field(s: Seq<u8>) -> Option<int> {
    if s.len() < 1 || s.len() > 7 {
        None
    } else {
        dec_fold(0, s)
    }
}

/// No castling right for either player, as the rights scan starts.
pub open spec fn spec_no_rights() -> CastlingRights {
    CastlingRights { white_king: false, white_queen: false, black_king: false, black_queen: false }
}

/// A scan that has already failed on a prefix fails on the whole field.
proof fn lemma_place_prefix_none(s: Seq<u8>, k: int)
    requires
        0 <= k <= s.len(),
        place_fold(place_init(), s.subrange(0, k)) is None,
    ensures
        place_fold(place_init(), s) is None,
{
    assert(s.subrange(0, k) + s.subrange(k, s.len() as int) =~= s);
    lemma_place_fold_app(place_init(), s.subrange(0, k), s.subrange(k, s.len() as int));
}

/// The same, for the castling-rights scan.
proof fn lemma_rights_prefix_none(s: Seq<u8>, k: int)
    requires
        0 <= k <= s.len(),
        rights_fold(spec_no_rights(), s.subrange(0, k)) is None,
    ensures
        rights_fold(spec_no_rights(), s) is None,
{
    assert(s.subrange(0, k) + s.subrange(k, s.len() as int) =~= s);
    lemma_rights_fold_app(spec_no_rights(), s.subrange(0, k), s.subrange(k, s.len() as int));
}


/// One emitted byte extends the placement scan by one step.
proof fn lemma_emit_step(v: Seq<u8>, st0: PlaceState, b: u8, st1: PlaceState)
    requires
        v.len() >= 1,
        place_fold(place_init(), v.subrange(0, v.len() - 1)) == Some(st0),
        v[v.len() - 1] == b,
        place_step(st0, b) == Some(st1),
    ensures
        place_fold(place_init(), v) == Some(st1),
{
    let done = v.subrange(0, v.len() - 1);
    let one = seq![b];
    assert(v =~= done + one);
    lemma_place_fold_app(place_init(), done, one);
    assert(one[0] == b && one.subrange(1, 1) =~= Seq::<u8>::empty());
    assert(place_fold(st1, one.subrange(1, 1)) == Some(st1));
    assert(place_fold(st0, one) == Some(st1));
}

/// One emitted piece letter drops that piece in the scan.
proof fn lemma_emit_piece(v: Seq<u8>, st0: PlaceState, pc: Piece, s: u64, b: Board)
    requires
        v.len() >= 1,
        place_fold(place_init(), v.subrange(0, v.len() - 1)) == Some(st0),
        v[v.len() - 1] == spec_piece_byte(pc),
        0 <= st0.rank < 8,
        0 <= st0.file < 8,
        s == st0.rank * 8 + st0.file,
        !bb_has(st0.white, s),
        !bb_has(st0.black, s),
    ensures
        place_fold(place_init(), v) == Some(place_add(st0, pc, s)),
{
    assert(spec_piece_of_byte(spec_piece_byte(pc)) == Some(pc));
    assert(place_step(st0, spec_piece_byte(pc)) == Some(place_add(st0, pc, s)));
    lemma_emit_step(v, st0, spec_piece_byte(pc), place_add(st0, pc, s));
}

/// The FEN letter byte of a piece.
pub open spec fn spec_piece_byte(pc: Piece) -> u8 {
    match (pc.color, pc.ptype) {
        (Color::White, PieceType::Pawn) => 80,
        (Color::White, PieceType::Knight) => 78,
        (Color::White, PieceType::Bishop) => 66,
        (Color::White, PieceType::Rook) => 82,
        (Color::White, PieceType::Queen) => 81,
        (Color::White, PieceType::King) => 75,
        (Color::Black, PieceType::Pawn) => 112,
        (Color::Black, PieceType::Knight) => 110,
        (Color::Black, PieceType::Bishop) => 98,
        (Color::Black, PieceType::Rook) => 114,
        (Color::Black, PieceType::Queen) => 113,
        (Color::Black, PieceType::King) => 107,
    }
}

/// The primary fields a FEN text denotes.
pub struct FenFields {
    pub pawns: u64,
    pub knights: u64,
    pub bishops: u64,
    pub rooks: u64,
    pub queens: u64,
    pub kings: u64,
    pub white: u64,
    pub black: u64,
    pub turn: Color,
    pub rights: CastlingRights,
    pub ep: Option<Square>,
    pub half: u32,
    pub full: u32,
}

/// What a whole FEN text denotes: exactly six space-separated fields, each
/// well formed, a full-move number of at least one, and one king per side;
/// nothing on any other text.
pub open spec fn spec_parse_fen(s: Seq<u8>) -> Option<FenFields> {
    let a0 = spec_skip_spaces(s, 0);
    let b0 = spec_run_end(s, a0);
    let a1 = spec_skip_spaces(s, b0);
    let b1 = spec_run_end(s, a1);
    let a2 = spec_skip_spaces(s, b1);
    let b2 = spec_run_end(s, a2);
    let a3 = spec_skip_spaces(s, b2);
    let b3 = spec_run_end(s, a3);
    let a4 = spec_skip_spaces(s, b3);
    let b4 = spec_run_end(s, a4);
    let a5 = spec_skip_spaces(s, b4);
    let b5 = spec_run_end(s, a5);
    if a5 >= s.len() || spec_skip_spaces(s, b5) < s.len() {
        None
    } else {
        match spec_placement_field(s.subrange(a0, b0)) {
            None => None,
            Some(pl) => match spec_turn_field(s.subrange(a1, b1)) {
                None => None,
                Some(turn) => match spec_rights_field(s.subrange(a2, b2)) {
                    None => None,
                    Some(rights) => match spec_ep_field(s.subrange(a3, b3)) {
                        None => None,
                        Some(ep) => match spec_clock_field(s.subrange(a4, b4)) {
                            None => None,
                            Some(half) => match spec_clock_field(s.subrange(a5, b5)) {
                                None => None,
                                Some(full) => if full == 0 || pop64(pl.kings & pl.white) != 1
                                    || pop64(pl.kings & pl.black) != 1 {
                                    None
                                } else {
                                    Some(
                                        FenFields {
                                            pawns: pl.pawns,
                                            knights: pl.knights,
                                            bishops: pl.bishops,
                                            rooks: pl.rooks,
                                            queens: pl.queens,
                                            kings: pl.kings,
                                            white: pl.white,
                                            black: pl.black,
                                            turn,
                                            rights,
                                            ep,
                                            half: half as u32,
                                            full: full as u32,
                                        },
                                    )
                                },
                            },
                        },
                    },
                },
            },
        }
    }
}

/// The characters of a text, read as bytes; faithful below code point 128.
pub open spec fn bytes_of_chars(s: Seq<char>) -> Seq<u8> {
    Seq::new(s.len(), |i: int| s[i] as u8)
}

/// Relies on String::from_utf8: a vector of bytes below 128 is valid UTF-8
/// and decodes one-to-one to the characters with those code points, which are
/// also the string's own bytes.
#[verifier::external_body]
fn ascii_string(v: Vec<u8>) -> (r: String)
    requires
        forall|i: int| 0 <= i < v@.len() ==> v@[i] < 128,
    ensures
        r@.len() == v@.len(),
        forall|i: int| 0 <= i < v@.len() ==> r@[i] as u32 == v@[i] as u32,
        bytes_of_chars(r@) == v@,
{
    String::from_utf8(v).unwrap()
}

/// The decimal digits of a number, most significant first.
pub open spec fn spec_digits(n: int) -> Seq<u8>
    decreases n,
{
    if n < 0 {
        Seq::empty()
    } else if n < 10 {
        seq![(48 + n) as u8]
    } else {
        spec_digits(n / 10) + seq![(48 + n % 10) as u8]
    }
}

/// Digits are digit bytes, and at most seven of them print a clock value.
proof fn lemma_digits_shape(n: int)
    requires
        0 <= n < 10_000_000,
    ensures
        1 <= spec_digits(n).len() <= 7,
        forall|j: int|
            0 <= j < spec_digits(n).len() ==> 48 <= #[trigger] spec_digits(n)[j] <= 57,
    decreases n,
{
    if n >= 10 {
        lemma_digits_shape(n / 10);
        assert(spec_digits(n / 10).len() <= 6) by {
            assert(spec_pow10(0nat) == 1 && spec_pow10(1nat) == 10 && spec_pow10(2nat) == 100
                && spec_pow10(3nat) == 1000 && spec_pow10(4nat) == 10000 && spec_pow10(5nat)
                == 100000 && spec_pow10(6nat) == 1_000_000);
            lemma_digits_len_below(n / 10, 1_000_000, 6);
        }
        assert forall|j: int| 0 <= j < spec_digits(n).len() implies 48 <= #[trigger] spec_digits(
            n,
        )[j] <= 57 by {
            if j < spec_digits(n / 10).len() {
                assert(spec_digits(n)[j] == spec_digits(n / 10)[j]);
            }
        }
    }
}

/// A value below ten to the `k` prints at most `k` digits.
proof fn lemma_digits_len_below(n: int, bound: int, k: nat)
    requires
        0 <= n < bound,
        1 <= k,
        bound == spec_pow10(k),
    ensures
        spec_digits(n).len() <= k,
    decreases n,
{
    if n >= 10 {
        assert(spec_pow10(k) == 10 * spec_pow10((k - 1) as nat));
        assert(n / 10 < spec_pow10((k - 1) as nat)) by (nonlinear_arith)
            requires
                n < 10 * spec_pow10((k - 1) as nat) && n >= 10,
        ;
        assert(k >= 2) by {
            if k == 1 {
                assert(spec_pow10(1nat) == 10 * spec_pow10(0nat));
            }
        }
        lemma_digits_len_below(n / 10, spec_pow10((k - 1) as nat), (k - 1) as nat);
    }
}

/// Ten to the `k`.
pub open spec fn spec_pow10(k: nat) -> int
    decreases k,
{
    if k == 0 {
        1
    } else {
        10 * spec_pow10((k - 1) as nat)
    }
}

/// Parsing the printed digits of a clock value gives the value back.
proof fn lemma_digits_parse(n: int)
    requires
        0 <= n < 10_000_000,
    ensures
        dec_fold(0, spec_digits(n)) == Some(n),
    decreases n,
{
    if n < 10 {
        let one = spec_digits(n);
        assert(one.len() == 1 && one[0] == (48 + n) as u8);
        assert(dec_step(0, one[0]) == Some(n));
        assert(one.subrange(1, 1) =~= Seq::<u8>::empty());
        assert(dec_fold(n, one.subrange(1, 1)) == Some(n));
    } else {
        lemma_digits_parse(n / 10);
        let one = seq![(48 + n % 10) as u8];
        lemma_dec_fold_app(0, spec_digits(n / 10), one);
        assert(dec_step(n / 10, one[0]) == Some(n));
        assert(one.subrange(1, 1) =~= Seq::<u8>::empty());
        assert(dec_fold(n, one.subrange(1, 1)) == Some(n));
        assert(dec_fold(n / 10, one) == Some(n));
    }
}

/// Appends the decimal digits of a number, most significant first.
fn push_decimal(out: &mut Vec<u8>, n: u32)
    requires
        n < 10_000_000,
    ensures
        final(out)@ == old(out)@ + spec_digits(n as int),
    decreases n,
{
    let ghost base = out@;
    if n >= 10 {
        push_decimal(out, n / 10);
        out.push(48 + (n % 10) as u8);
        proof {
            assert(final(out)@ =~= base + spec_digits(n as int));
        }
    } else {
        out.push(48 + n as u8);
        proof {
            assert(final(out)@ =~= base + spec_digits(n as int));
        }
    }
}

/// The end of the field starting at `i`.
fn scan_field(bytes: &[u8], i: usize) -> (r: usize)
    requires
        i <= bytes@.len(),
    ensures
        r == spec_run_end(bytes@, i as int),
        i <= r <= bytes@.len(),
{
    let n = bytes.len();
    let mut j = i;
    while j < n && bytes[j] != 32
        invariant
            i <= j <= n,
            n == bytes@.len(),
            spec_run_end(bytes@, i as int) == spec_run_end(bytes@, j as int),
        decreases n - j,
    {
        j = j + 1;
    }
    j
}

/// The start of the next field at or after `i`.
fn scan_spaces(bytes: &[u8], i: usize) -> (r: usize)
    requires
        i <= bytes@.len(),
    ensures
        r == spec_skip_spaces(bytes@, i as int),
        i <= r <= bytes@.len(),
        r < bytes@.len() ==> bytes@[r as int] != 32,
{
    let n = bytes.len();
    let mut j = i;
    while j < n && bytes[j] == 32
        invariant
            i <= j <= n,
            n == bytes@.len(),
            spec_skip_spaces(bytes@, i as int) == spec_skip_spaces(bytes@, j as int),
        decreases n - j,
    {
        j = j + 1;
    }
    j
}

/// The piece a FEN letter byte denotes, if any.
fn piece_of_byte(b: u8) -> (r: Option<Piece>)
    ensures
        r == spec_piece_of_byte(b),
{
    let color = if b == 80 || b == 78 || b == 66 || b == 82 || b == 81 || b == 75 {
        Color::White
    } else {
        Color::Black
    };
    let ptype = if b == 80 || b == 112 {
        PieceType::Pawn
    } else if b == 78 || b == 110 {
        PieceType::Knight
    } else if b == 66 || b == 98 {
        PieceType::Bishop
    } else if b == 82 || b == 114 {
        PieceType::Rook
    } else if b == 81 || b == 113 {
        PieceType::Queen
    } else if b == 75 || b == 107 {
        PieceType::King
    } else {
        return None;
    };
    Some(Piece { color, ptype })
}

/// Parses a clock field; the result is exactly what the field denotes.
fn parse_clock(bytes: &[u8], start: usize, end: usize) -> (r: Result<u32, String>)
    requires
        start <= end <= bytes@.len(),
    ensures
        r is Ok <==> spec_clock_field(bytes@.subrange(start as int, end as int)) is Some,
        r is Ok ==> r->Ok_0 == spec_clock_field(
            bytes@.subrange(start as int, end as int),
        )->Some_0 && r->Ok_0 < 10_000_000,
{
    let ghost field = bytes@.subrange(start as int, end as int);
    if end - start < 1 || end - start > 7 {
        return Err("a clock field holds one to seven digits".to_owned());
    }
    let mut acc: u32 = 0;
    let mut i = start;
    proof {
        assert(field.subrange(0, 0) =~= Seq::<u8>::empty());
    }
    while i < end
        invariant
            start <= i <= end <= bytes@.len(),
            field == bytes@.subrange(start as int, end as int),
            acc < 10_000_000,
            dec_fold(0, field.subrange(0, i - start)) == Some(acc as int),
        decreases end - i,
    {
        let b = bytes[i];
        let ghost done = field.subrange(0, i - start);
        let ghost one = seq![b];
        let ghost acc0 = acc;
        proof {
            assert(field[i - start] == b);
            assert(field.subrange(0, i + 1 - start) =~= done + one);
            lemma_dec_fold_app(0, done, one);
            assert(one[0] == b && one.subrange(1, 1) =~= Seq::<u8>::empty());
        }
        if b < 48 || b > 57 {
            proof {
                assert(dec_fold(0, field.subrange(0, i + 1 - start)) is None);
                lemma_dec_prefix_none(field, i + 1 - start);
            }
            return Err("invalid digit".to_owned());
        }
        if acc >= 1_000_000 {
            proof {
                assert(dec_fold(0, field.subrange(0, i + 1 - start)) is None);
                lemma_dec_prefix_none(field, i + 1 - start);
            }
            return Err("number too large".to_owned());
        }
        acc = acc * 10 + (b - 48) as u32;
        proof {
            assert(48 <= b <= 57);
            assert(acc0 < 1_000_000);
            assert(acc as int == acc0 as int * 10 + (b as int - 48));
            assert(dec_step(acc0 as int, b) == Some(acc as int));
            assert(dec_fold(acc as int, one.subrange(1, 1)) == Some(acc as int));
            assert(dec_fold(acc0 as int, one) == Some(acc as int));
            assert(dec_fold(0, field.subrange(0, i + 1 - start)) == Some(acc as int));
        }
        i = i + 1;
    }
    proof {
        assert(field.subrange(0, end - start) =~= field);
    }
    Ok(acc)
}

/// A digit scan that has already failed on a prefix fails on the whole field.
proof fn lemma_dec_prefix_none(s: Seq<u8>, k: int)
    requires
        0 <= k <= s.len(),
        dec_fold(0, s.subrange(0, k)) is None,
    ensures
        dec_fold(0, s) is None,
{
    assert(s.subrange(0, k) + s.subrange(k, s.len() as int) =~= s);
    lemma_dec_fold_app(0, s.subrange(0, k), s.subrange(k, s.len() as int));
}


impl Board {
    /// Builds a board from FEN notation: the result is exactly the position
    /// the text denotes, with every invariant established and the caches
    /// freshly computed, and an error exactly on the texts that denote none —
    /// a field count other than six, a malformed field, a full-move number of
    /// zero, or a side without exactly one king.
    pub fn from_fen(t: &AttackTables, fen: &str) -> (r: Result<Board, String>)
        requires
            t.wf(),
        ensures
            r is Ok <==> spec_parse_fen(fen.spec_bytes()) is Some,
            r is Ok ==> {
                let p = spec_parse_fen(fen.spec_bytes())->Some_0;
                let b = r->Ok_0;
                &&& b.pawns.0 == p.pawns
                &&& b.knights.0 == p.knights
                &&& b.bishops.0 == p.bishops
                &&& b.rooks.0 == p.rooks
                &&& b.queens.0 == p.queens
                &&& b.kings.0 == p.kings
                &&& b.white.0 == p.white
                &&& b.black.0 == p.black
                &&& b.turn == p.turn
                &&& b.rights == p.rights
                &&& b.ep_target == p.ep
                &&& b.half_move_clock == p.half
                &&& b.full_move_number == p.full
            },
            r is Ok ==> {
                let b = r->Ok_0;
                &&& b.wf()
                &&& b.has_kings()
                &&& b.cache_ok()
                &&& 1 <= b.full_move_number < 0x7fff_ffff
                &&& b.half_move_clock < 0x7fff_ffff
            },
    {
        let bytes = fen.as_bytes();
        let ghost sq8 = bytes@;
        let n = bytes.len();
        let a0 = scan_spaces(bytes, 0);
        let b0 = scan_field(bytes, a0);
        let a1 = scan_spaces(bytes, b0);
        let b1 = scan_field(bytes, a1);
        let a2 = scan_spaces(bytes, b1);
        let b2 = scan_field(bytes, a2);
        let a3 = scan_spaces(bytes, b2);
        let b3 = scan_field(bytes, a3);
        let a4 = scan_spaces(bytes, b3);
        let b4 = scan_field(bytes, a4);
        let a5 = scan_spaces(bytes, b4);
        let b5 = scan_field(bytes, a5);
        if a5 >= n {
            return Err("a FEN holds exactly six fields".to_owned());
        }
        if scan_spaces(bytes, b5) < n {
            return Err("a FEN holds exactly six fields".to_owned());
        }
        // Field 1: the placement, rank 8 down to rank 1.
        let ghost pfield = sq8.subrange(a0 as int, b0 as int);
        let mut board = Board::default();
        let mut rank: u8 = 7;
        let mut file: u8 = 0;
        let mut i = a0;
        proof {
            assert(pfield.subrange(0, 0) =~= Seq::<u8>::empty());
            assert(place_fold(place_init(), pfield.subrange(0, 0)) == Some(place_init()));
        }
        while i < b0
            invariant
                a0 <= i <= b0 <= n,
                n == sq8.len(),
                sq8 == bytes@,
                sq8 == fen.spec_bytes(),
                a0 == spec_skip_spaces(sq8, 0),
                b0 == spec_run_end(sq8, a0 as int),
                a5 == spec_skip_spaces(sq8, b4 as int),
                b5 == spec_run_end(sq8, a5 as int),
                a5 < n,
                spec_skip_spaces(sq8, b5 as int) == n,
                pfield == sq8.subrange(a0 as int, b0 as int),
                rank < 8,
                file <= 8,
                board.wf_placement(),
                board.hash_ok(),
                board.wf_ep(),
                board.turn == Color::White,
                board.ep_target is None,
                board.half_move_clock == 0,
                board.full_move_number == 1,
                place_fold(place_init(), pfield.subrange(0, i - a0)) == Some(
                    PlaceState {
                        rank: rank as int,
                        file: file as int,
                        pawns: board.pawns.0,
                        knights: board.knights.0,
                        bishops: board.bishops.0,
                        rooks: board.rooks.0,
                        queens: board.queens.0,
                        kings: board.kings.0,
                        white: board.white.0,
                        black: board.black.0,
                    },
                ),
            decreases b0 - i,
        {
            let b = bytes[i];
            let ghost st = PlaceState {
                rank: rank as int,
                file: file as int,
                pawns: board.pawns.0,
                knights: board.knights.0,
                bishops: board.bishops.0,
                rooks: board.rooks.0,
                queens: board.queens.0,
                kings: board.kings.0,
                white: board.white.0,
                black: board.black.0,
            };
            proof {
                let done = pfield.subrange(0, i - a0);
                let one = seq![b];
                assert(pfield[i - a0] == b);
                assert(pfield.subrange(0, i + 1 - a0) =~= done + one);
                lemma_place_fold_app(place_init(), done, one);
                assert(one[0] == b && one.subrange(1, 1) =~= Seq::<u8>::empty());
                match place_step(st, b) {
                    None => {
                        assert(place_fold(st, one) == None::<PlaceState>);
                    },
                    Some(st2) => {
                        assert(place_fold(st2, one.subrange(1, 1)) == Some(st2));
                        assert(place_fold(st, one) == Some(st2));
                    },
                }
                assert(place_fold(place_init(), pfield.subrange(0, i + 1 - a0)) == place_step(
                    st,
                    b,
                ));
            }
            if b == 47 {
                if rank == 0 || file != 8 {
                    proof {
                        assert(place_step(st, b) is None);
                        assert(place_fold(place_init(), pfield.subrange(0, i + 1 - a0)) is None);
                        lemma_place_prefix_none(pfield, i + 1 - a0);
                        assert(place_fold(place_init(), pfield) is None);
                        assert(spec_placement_field(sq8.subrange(a0 as int, b0 as int)) is None);
                        assert(spec_parse_fen(sq8) is None);
                    }
                    return Err("malformed rank in placement".to_owned());
                }
                rank = rank - 1;
                file = 0;
            } else if 49 <= b && b <= 56 {
                let skip = b - 48;
                if file + skip > 8 {
                    proof {
                        lemma_place_prefix_none(pfield, i + 1 - a0);
                    }
                    return Err("rank overflows the board".to_owned());
                }
                file = file + skip;
            } else {
                let pc = match piece_of_byte(b) {
                    Some(pc) => pc,
                    None => {
                        proof {
                            lemma_place_prefix_none(pfield, i + 1 - a0);
                        }
                        return Err("invalid piece letter".to_owned());
                    },
                };
                if file >= 8 {
                    proof {
                        lemma_place_prefix_none(pfield, i + 1 - a0);
                    }
                    return Err("rank overflows the board".to_owned());
                }
                let sq = Square(rank * 8 + file);
                if !board.is_empty(sq) {
                    proof {
                        crate::bit::lemma_bb_ops(board.white.0, board.black.0);
                        lemma_place_prefix_none(pfield, i + 1 - a0);
                    }
                    return Err("square occupied twice".to_owned());
                }
                proof {
                    crate::bit::lemma_bb_ops(board.white.0, board.black.0);
                }
                let ghost b_before = board;
                board.add_piece(pc, sq);
                file = file + 1;
                proof {
                    assert(b_before.spec_ptype_bb(PieceType::Pawn) == b_before.pawns.0
                        && b_before.spec_ptype_bb(PieceType::Knight) == b_before.knights.0
                        && b_before.spec_ptype_bb(PieceType::Bishop) == b_before.bishops.0
                        && b_before.spec_ptype_bb(PieceType::Rook) == b_before.rooks.0
                        && b_before.spec_ptype_bb(PieceType::Queen) == b_before.queens.0
                        && b_before.spec_ptype_bb(PieceType::King) == b_before.kings.0
                        && b_before.spec_color_bb(Color::White) == b_before.white.0
                        && b_before.spec_color_bb(Color::Black) == b_before.black.0);
                    assert(board.spec_ptype_bb(PieceType::Pawn) == board.pawns.0
                        && board.spec_ptype_bb(PieceType::Knight) == board.knights.0
                        && board.spec_ptype_bb(PieceType::Bishop) == board.bishops.0
                        && board.spec_ptype_bb(PieceType::Rook) == board.rooks.0
                        && board.spec_ptype_bb(PieceType::Queen) == board.queens.0
                        && board.spec_ptype_bb(PieceType::King) == board.kings.0
                        && board.spec_color_bb(Color::White) == board.white.0
                        && board.spec_color_bb(Color::Black) == board.black.0);
                    assert(place_fold(place_init(), pfield.subrange(0, i + 1 - a0)) == Some(
                        place_add(st, pc, sq.0 as u64),
                    ));
                }
            }
            i = i + 1;
        }
        let ghost st_done = PlaceState {
            rank: rank as int,
            file: file as int,
            pawns: board.pawns.0,
            knights: board.knights.0,
            bishops: board.bishops.0,
            rooks: board.rooks.0,
            queens: board.queens.0,
            kings: board.kings.0,
            white: board.white.0,
            black: board.black.0,
        };
        proof {
            assert(pfield.subrange(0, b0 - a0) =~= pfield);
        }
        if rank != 0 || file != 8 {
            return Err("the placement must hold eight ranks".to_owned());
        }
        let ghost b_placed = board;
        // Field 2: the side to move.
        let ghost tfield = sq8.subrange(a1 as int, b1 as int);
        if b1 - a1 != 1 {
            return Err("invalid side to move".to_owned());
        }
        let tb = bytes[a1];
        proof {
            assert(tfield[0] == tb && tfield.len() == 1);
        }
        let turn = if tb == 119 {
            Color::White
        } else if tb == 98 {
            Color::Black
        } else {
            return Err("invalid side to move".to_owned());
        };
        board.turn = turn;
        // Field 3: the castling rights.
        let ghost rfield = sq8.subrange(a2 as int, b2 as int);
        let mut rights = CastlingRights::none();
        proof {
            assert(rights == spec_no_rights());
        }
        if b2 - a2 == 1 && bytes[a2] == 45 {
            proof {
                assert(rfield[0] == 45 && rfield.len() == 1);
            }
        } else {
            let mut k = a2;
            proof {
                assert(rfield.subrange(0, 0) =~= Seq::<u8>::empty());
                assert(rights_fold(spec_no_rights(), rfield.subrange(0, 0)) == Some(rights));
                assert(spec_placement_field(sq8.subrange(a0 as int, b0 as int)) is Some);
                assert(spec_turn_field(sq8.subrange(a1 as int, b1 as int)) is Some);
                assert(a2 < n && sq8[a2 as int] != 32);
                lemma_run_end_lb(sq8, a2 + 1);
                assert(b2 > a2);
            }
            while k < b2
                invariant
                    a2 <= k <= b2 <= n,
                    n == sq8.len(),
                    sq8 == bytes@,
                    sq8 == fen.spec_bytes(),
                    a0 == spec_skip_spaces(sq8, 0),
                    b0 == spec_run_end(sq8, a0 as int),
                    a1 == spec_skip_spaces(sq8, b0 as int),
                    b1 == spec_run_end(sq8, a1 as int),
                    a2 == spec_skip_spaces(sq8, b1 as int),
                    b2 == spec_run_end(sq8, a2 as int),
                    a3 == spec_skip_spaces(sq8, b2 as int),
                    b3 == spec_run_end(sq8, a3 as int),
                    a4 == spec_skip_spaces(sq8, b3 as int),
                    b4 == spec_run_end(sq8, a4 as int),
                    a5 == spec_skip_spaces(sq8, b4 as int),
                    b5 == spec_run_end(sq8, a5 as int),
                    a5 < n,
                    spec_skip_spaces(sq8, b5 as int) == n,
                    spec_placement_field(sq8.subrange(a0 as int, b0 as int)) is Some,
                    spec_turn_field(sq8.subrange(a1 as int, b1 as int)) is Some,
                    b2 > a2,
                    !(b2 - a2 == 1 && sq8[a2 as int] == 45),
                    rfield == sq8.subrange(a2 as int, b2 as int),
                    rights_fold(spec_no_rights(), rfield.subrange(0, k - a2)) == Some(
                        rights,
                    ),
                decreases b2 - k,
            {
                let c = bytes[k];
                proof {
                    let done = rfield.subrange(0, k - a2);
                    let one = seq![c];
                    assert(rfield[k - a2] == c);
                    assert(rfield.subrange(0, k + 1 - a2) =~= done + one);
                    lemma_rights_fold_app(spec_no_rights(), done, one);
                    assert(one[0] == c && one.subrange(1, 1) =~= Seq::<u8>::empty());
                    match rights_step(rights, c) {
                        None => {
                            assert(rights_fold(rights, one) == None::<CastlingRights>);
                        },
                        Some(r2) => {
                            assert(rights_fold(r2, one.subrange(1, 1)) == Some(r2));
                            assert(rights_fold(rights, one) == Some(r2));
                        },
                    }
                    assert(rights_fold(spec_no_rights(), rfield.subrange(0, k + 1 - a2))
                        == rights_step(rights, c));
                }
                if c == 75 {
                    rights.white_king = true;
                } else if c == 81 {
                    rights.white_queen = true;
                } else if c == 107 {
                    rights.black_king = true;
                } else if c == 113 {
                    rights.black_queen = true;
                } else {
                    proof {
                        lemma_rights_prefix_none(rfield, k + 1 - a2);
                    }
                    return Err("invalid castling right letter".to_owned());
                }
                k = k + 1;
            }
            proof {
                assert(rfield.subrange(0, b2 - a2) =~= rfield);
            }
            if b2 == a2 {
                return Err("empty castling field".to_owned());
            }
        }
        board.rights = rights;
        // Field 4: the en passant target.
        let ghost efield = sq8.subrange(a3 as int, b3 as int);
        if b3 - a3 == 1 && bytes[a3] == 45 {
            board.ep_target = None;
            proof {
                assert(efield[0] == 45 && efield.len() == 1);
            }
        } else if b3 - a3 == 2 {
            let fb = bytes[a3];
            let rb = bytes[a3 + 1];
            proof {
                assert(efield[0] == fb && efield[1] == rb && efield.len() == 2);
            }
            if 97 <= fb && fb <= 104 && 49 <= rb && rb <= 56 {
                board.ep_target = Some(Square((rb - 49) * 8 + (fb - 97)));
            } else {
                return Err("invalid en passant field".to_owned());
            }
        } else {
            return Err("invalid en passant field".to_owned());
        }
        // Fields 5 and 6: the clocks.
        let half = match parse_clock(bytes, a4, b4) {
            Ok(v) => v,
            Err(e) => {
                return Err(e);
            },
        };
        let full = match parse_clock(bytes, a5, b5) {
            Ok(v) => v,
            Err(e) => {
                return Err(e);
            },
        };
        if full == 0 {
            return Err("the full move number starts at one".to_owned());
        }
        board.half_move_clock = half;
        board.full_move_number = full;
        // The position must hold one king per side before anything else may
        // be asked of it.
        if Bitboard(board.kings.0 & board.white.0).pop_count() != 1 || Bitboard(
            board.kings.0 & board.black.0,
        ).pop_count() != 1 {
            return Err("each side needs exactly one king".to_owned());
        }
        proof {
            crate::position::lemma_ph_same(b_placed, board, 64);
            assert(spec_parse_fen(sq8) is Some);
        }
        let ghost b_pre = board;
        board.update_attacks(t);
        proof {
            crate::position::lemma_ph_same(b_pre, board, 64);
        }
        Ok(board)
    }

    /// The placement field of a FEN: scanning its bytes back recovers exactly
    /// this placement.
    #[verifier::spinoff_prover]
    #[verifier::rlimit(100)]
    fn fen_placement(&self) -> (v: Vec<u8>)
        requires
            self.wf_placement(),
        ensures
            v@.len() >= 1,
            forall|j: int| 0 <= j < v@.len() ==> #[trigger] v@[j] != 32 && v@[j] < 128,
            ({
                let o = spec_placement_field(v@);
                &&& o is Some
                &&& o->Some_0.pawns == self.pawns.0
                &&& o->Some_0.knights == self.knights.0
                &&& o->Some_0.bishops == self.bishops.0
                &&& o->Some_0.rooks == self.rooks.0
                &&& o->Some_0.queens == self.queens.0
                &&& o->Some_0.kings == self.kings.0
                &&& o->Some_0.white == self.white.0
                &&& o->Some_0.black == self.black.0
            }),
    {
        let mut v: Vec<u8> = Vec::new();
        let ghost mut st = place_init();
        proof {
            crate::position::lemma_wf_unfold(*self);
            assert(place_fold(place_init(), v@) == Some(st));
            crate::bit::lemma_bb_empty();
        }
        let mut r: u8 = 8;
        while r > 0
            invariant
                r <= 8,
                self.wf_placement(),
                forall|i: u64| i < 64 ==> #[trigger] crate::position::wf_at(*self, i),
                forall|j: int| 0 <= j < v@.len() ==> #[trigger] v@[j] != 32 && v@[j] < 128,
                place_fold(place_init(), v@) == Some(st),
                st.rank == (if r > 0 {
                    r - 1
                } else {
                    0int
                }),
                st.file == (if r > 0 {
                    0int
                } else {
                    8int
                }),
                forall|i: u64|
                    #![trigger bb_has(st.pawns, i)] #![trigger bb_has(st.knights, i)] #![trigger bb_has(st.bishops, i)] #![trigger bb_has(st.rooks, i)] #![trigger bb_has(st.queens, i)] #![trigger bb_has(st.kings, i)] #![trigger bb_has(st.white, i)] #![trigger bb_has(st.black, i)]
                    i < 64 ==> (bb_has(st.pawns, i) == (bb_has(self.pawns.0, i) && (i
                        / 8 > st.rank || (i / 8 == st.rank && i % 8 < st.file))) && bb_has(
                        st.knights,
                        i,
                    ) == (bb_has(self.knights.0, i) && (i / 8 > st.rank || (i / 8 == st.rank && i
                        % 8 < st.file))) && bb_has(st.bishops, i) == (bb_has(self.bishops.0, i) && (
                    i / 8 > st.rank || (i / 8 == st.rank && i % 8 < st.file))) && bb_has(
                        st.rooks,
                        i,
                    ) == (bb_has(self.rooks.0, i) && (i / 8 > st.rank || (i / 8 == st.rank && i % 8
                        < st.file))) && bb_has(st.queens, i) == (bb_has(self.queens.0, i) && (i / 8
                        > st.rank || (i / 8 == st.rank && i % 8 < st.file))) && bb_has(
                        st.kings,
                        i,
                    ) == (bb_has(self.kings.0, i) && (i / 8 > st.rank || (i / 8 == st.rank && i % 8
                        < st.file))) && bb_has(st.white, i) == (bb_has(self.white.0, i) && (i / 8
                        > st.rank || (i / 8 == st.rank && i % 8 < st.file))) && bb_has(
                        st.black,
                        i,
                    ) == (bb_has(self.black.0, i) && (i / 8 > st.rank || (i / 8 == st.rank && i % 8
                        < st.file)))),
            decreases r,
        {
            r = r - 1;
            let mut f: u8 = 0;
            let mut empty_run: u8 = 0;
            while f < 8
                invariant
                    r < 8,
                    f <= 8,
                    empty_run <= f,
                    self.wf_placement(),
                    forall|i: u64| i < 64 ==> #[trigger] crate::position::wf_at(*self, i),
                    forall|j: int| 0 <= j < v@.len() ==> #[trigger] v@[j] != 32 && v@[j] < 128,
                    place_fold(place_init(), v@) == Some(st),
                    st.rank == r as int,
                    st.file == f - empty_run,
                    forall|k: u64|
                        f - empty_run <= k < f ==> #[trigger] self.spec_piece_at(
                            (r * 8 + k) as u64,
                        ) is None,
                    forall|i: u64|
                        #![trigger bb_has(st.pawns, i)] #![trigger bb_has(st.knights, i)] #![trigger bb_has(st.bishops, i)] #![trigger bb_has(st.rooks, i)] #![trigger bb_has(st.queens, i)] #![trigger bb_has(st.kings, i)] #![trigger bb_has(st.white, i)] #![trigger bb_has(st.black, i)]
                        i < 64 ==> (bb_has(st.pawns, i) == (bb_has(self.pawns.0, i) && (
                        i / 8 > st.rank || (i / 8 == st.rank && i % 8 < st.file))) && bb_has(
                            st.knights,
                            i,
                        ) == (bb_has(self.knights.0, i) && (i / 8 > st.rank || (i / 8 == st.rank
                            && i % 8 < st.file))) && bb_has(st.bishops, i) == (bb_has(
                            self.bishops.0,
                            i,
                        ) && (i / 8 > st.rank || (i / 8 == st.rank && i % 8 < st.file))) && bb_has(
                            st.rooks,
                            i,
                        ) == (bb_has(self.rooks.0, i) && (i / 8 > st.rank || (i / 8 == st.rank && i
                            % 8 < st.file))) && bb_has(st.queens, i) == (bb_has(self.queens.0, i)
                            && (i / 8 > st.rank || (i / 8 == st.rank && i % 8 < st.file)))
                            && bb_has(st.kings, i) == (bb_has(self.kings.0, i) && (i / 8 > st.rank
                            || (i / 8 == st.rank && i % 8 < st.file))) && bb_has(st.white, i) == (
                        bb_has(self.white.0, i) && (i / 8 > st.rank || (i / 8 == st.rank && i % 8
                            < st.file))) && bb_has(st.black, i) == (bb_has(self.black.0, i) && (i
                            / 8 > st.rank || (i / 8 == st.rank && i % 8 < st.file)))),
                decreases 8 - f,
            {
                let sq = Square(r * 8 + f);
                match self.piece_at(sq) {
                    Some(pc) => {
                        if empty_run > 0 {
                            let ghost st0 = st;
                            let ghost v0 = v@;
                            let d = empty_run;
                            v.push(48 + d);
                            empty_run = 0;
                            proof {
                                assert(v@.subrange(0, v@.len() - 1) =~= v0);
                                st = PlaceState { file: st0.file + d, ..st0 };
                                lemma_emit_step(v@, st0, (48 + d) as u8, st);
                                assert forall|i: u64|
                                    #![trigger bb_has(st.pawns, i)] #![trigger bb_has(st.knights, i)] #![trigger bb_has(st.bishops, i)] #![trigger bb_has(st.rooks, i)] #![trigger bb_has(st.queens, i)] #![trigger bb_has(st.kings, i)] #![trigger bb_has(st.white, i)] #![trigger bb_has(st.black, i)]
                                i < 64 implies (bb_has(
                                    st.pawns,
                                    i,
                                ) == (bb_has(self.pawns.0, i) && (i / 8 > st.rank || (i / 8
                                    == st.rank && i % 8 < st.file))) && bb_has(st.knights, i) == (
                                bb_has(self.knights.0, i) && (i / 8 > st.rank || (i / 8 == st.rank
                                    && i % 8 < st.file))) && bb_has(st.bishops, i) == (bb_has(
                                    self.bishops.0,
                                    i,
                                ) && (i / 8 > st.rank || (i / 8 == st.rank && i % 8 < st.file)))
                                    && bb_has(st.rooks, i) == (bb_has(self.rooks.0, i) && (i / 8
                                    > st.rank || (i / 8 == st.rank && i % 8 < st.file))) && bb_has(
                                    st.queens,
                                    i,
                                ) == (bb_has(self.queens.0, i) && (i / 8 > st.rank || (i / 8
                                    == st.rank && i % 8 < st.file))) && bb_has(st.kings, i) == (
                                bb_has(self.kings.0, i) && (i / 8 > st.rank || (i / 8 == st.rank
                                    && i % 8 < st.file))) && bb_has(st.white, i) == (bb_has(
                                    self.white.0,
                                    i,
                                ) && (i / 8 > st.rank || (i / 8 == st.rank && i % 8 < st.file)))
                                    && bb_has(st.black, i) == (bb_has(self.black.0, i) && (i / 8
                                    > st.rank || (i / 8 == st.rank && i % 8 < st.file)))) by {
                                    if i / 8 == st.rank && st0.file <= i % 8 < st.file {
                                        assert(self.spec_piece_at(i) is None) by {
                                            assert(self.spec_piece_at(
                                                (r * 8 + (i % 8)) as u64,
                                            ) is None);
                                            assert((r * 8 + (i % 8)) as u64 == i);
                                        }
                                        assert(crate::position::wf_at(*self, i));
                                    }
                                }
                            }
                        }
                        proof {
                            crate::state::lemma_piece_members(*self);
                            assert(bb_has(
                                self.spec_ptype_bb(pc.ptype) & self.spec_color_bb(pc.color),
                                sq.0 as u64,
                            ));
                            crate::bit::lemma_bb_ops(
                                self.spec_ptype_bb(pc.ptype),
                                self.spec_color_bb(pc.color),
                            );
                            assert(bb_has(st.pawns, sq.0 as u64) == (bb_has(
                                self.pawns.0,
                                sq.0 as u64,
                            ) && (sq.0 as u64 / 8 > st.rank || (sq.0 as u64 / 8 == st.rank && sq.0
                                as u64 % 8 < st.file))));
                            assert(!bb_has(st.white, sq.0 as u64) && !bb_has(
                                st.black,
                                sq.0 as u64,
                            ));
                        }
                        let ghost st0 = st;
                        let ghost v0 = v@;
                        v.push(piece_byte(pc));
                        proof {
                            assert(v@.subrange(0, v@.len() - 1) =~= v0);
                            st = place_add(st0, pc, sq.0 as u64);
                            lemma_emit_piece(v@, st0, pc, sq.0 as u64, *self);
                            let s2 = sq.0 as u64;
                            crate::bit::lemma_bb_single(s2);
                            crate::bit::lemma_bb_ops(st0.pawns, 1u64 << s2);
                            crate::bit::lemma_bb_ops(st0.knights, 1u64 << s2);
                            crate::bit::lemma_bb_ops(st0.bishops, 1u64 << s2);
                            crate::bit::lemma_bb_ops(st0.rooks, 1u64 << s2);
                            crate::bit::lemma_bb_ops(st0.queens, 1u64 << s2);
                            crate::bit::lemma_bb_ops(st0.kings, 1u64 << s2);
                            crate::bit::lemma_bb_ops(st0.white, 1u64 << s2);
                            crate::bit::lemma_bb_ops(st0.black, 1u64 << s2);
                            assert forall|i: u64|
                                #![trigger bb_has(st.pawns, i)] #![trigger bb_has(st.knights, i)] #![trigger bb_has(st.bishops, i)] #![trigger bb_has(st.rooks, i)] #![trigger bb_has(st.queens, i)] #![trigger bb_has(st.kings, i)] #![trigger bb_has(st.white, i)] #![trigger bb_has(st.black, i)]
                            i < 64 implies (bb_has(st.pawns, i)
                                == (bb_has(self.pawns.0, i) && (i / 8 > st.rank || (i / 8
                                == st.rank && i % 8 < st.file))) && bb_has(st.knights, i) == (
                            bb_has(self.knights.0, i) && (i / 8 > st.rank || (i / 8 == st.rank && i
                                % 8 < st.file))) && bb_has(st.bishops, i) == (bb_has(
                                self.bishops.0,
                                i,
                            ) && (i / 8 > st.rank || (i / 8 == st.rank && i % 8 < st.file)))
                                && bb_has(st.rooks, i) == (bb_has(self.rooks.0, i) && (i / 8
                                > st.rank || (i / 8 == st.rank && i % 8 < st.file))) && bb_has(
                                st.queens,
                                i,
                            ) == (bb_has(self.queens.0, i) && (i / 8 > st.rank || (i / 8 == st.rank
                                && i % 8 < st.file))) && bb_has(st.kings, i) == (bb_has(
                                self.kings.0,
                                i,
                            ) && (i / 8 > st.rank || (i / 8 == st.rank && i % 8 < st.file)))
                                && bb_has(st.white, i) == (bb_has(self.white.0, i) && (i / 8
                                > st.rank || (i / 8 == st.rank && i % 8 < st.file))) && bb_has(
                                st.black,
                                i,
                            ) == (bb_has(self.black.0, i) && (i / 8 > st.rank || (i / 8 == st.rank
                                && i % 8 < st.file)))) by {
                                assert(bb_has(st0.pawns, i) == (bb_has(self.pawns.0, i) && (i / 8
                                    > st0.rank || (i / 8 == st0.rank && i % 8 < st0.file))));
                                assert(s2 / 8 == r as int && s2 % 8 == f as int) by (nonlinear_arith)
                                    requires
                                        s2 == r as int * 8 + f as int,
                                        f < 8,
                                        r < 8,
                                ;
                                if i == s2 {
                                    assert(crate::position::wf_at(*self, i));
                                    assert(self.spec_piece_at(i) == Some(pc));
                                }
                            }
                        }
                        proof {
                            assert(forall|i: u64|
                                i < 64 ==> (#[trigger] bb_has(st.pawns, i) == (bb_has(
                                    self.pawns.0,
                                    i,
                                ) && (i / 8 > st.rank || (i / 8 == st.rank && i % 8
                                    < st.file)))));
                            assert(st.rank == r as int);
                            assert(st.file == (f + 1) - 0);
                            assert(place_fold(place_init(), v@) == Some(st));
                        }
                    },
                    None => {
                        empty_run = empty_run + 1;
                        proof {
                            assert(st.file == (f + 1) - empty_run);
                            assert(self.spec_piece_at((r * 8 + f) as u64) is None) by {
                                assert(sq.0 as u64 == (r * 8 + f) as u64);
                            }
                            assert forall|k: u64|
                                (f + 1) - empty_run <= k < f + 1 implies #[trigger] self.spec_piece_at(
                                (r * 8 + k) as u64,
                            ) is None by {
                                if k < f {
                                    assert(self.spec_piece_at((r * 8 + k) as u64) is None);
                                }
                            }
                        }
                    },
                }
                f = f + 1;
            }
            if empty_run > 0 {
                let ghost st0 = st;
                let ghost v0 = v@;
                let d = empty_run;
                v.push(48 + d);
                proof {
                    assert(v@.subrange(0, v@.len() - 1) =~= v0);
                    st = PlaceState { file: st0.file + d, ..st0 };
                    lemma_emit_step(v@, st0, (48 + d) as u8, st);
                    assert forall|i: u64|
                        #![trigger bb_has(st.pawns, i)] #![trigger bb_has(st.knights, i)] #![trigger bb_has(st.bishops, i)] #![trigger bb_has(st.rooks, i)] #![trigger bb_has(st.queens, i)] #![trigger bb_has(st.kings, i)] #![trigger bb_has(st.white, i)] #![trigger bb_has(st.black, i)]
                    i < 64 implies (bb_has(st.pawns, i) == (
                    bb_has(self.pawns.0, i) && (i / 8 > st.rank || (i / 8 == st.rank && i % 8
                        < st.file))) && bb_has(st.knights, i) == (bb_has(self.knights.0, i) && (i
                        / 8 > st.rank || (i / 8 == st.rank && i % 8 < st.file))) && bb_has(
                        st.bishops,
                        i,
                    ) == (bb_has(self.bishops.0, i) && (i / 8 > st.rank || (i / 8 == st.rank && i
                        % 8 < st.file))) && bb_has(st.rooks, i) == (bb_has(self.rooks.0, i) && (i
                        / 8 > st.rank || (i / 8 == st.rank && i % 8 < st.file))) && bb_has(
                        st.queens,
                        i,
                    ) == (bb_has(self.queens.0, i) && (i / 8 > st.rank || (i / 8 == st.rank && i
                        % 8 < st.file))) && bb_has(st.kings, i) == (bb_has(self.kings.0, i) && (i
                        / 8 > st.rank || (i / 8 == st.rank && i % 8 < st.file))) && bb_has(
                        st.white,
                        i,
                    ) == (bb_has(self.white.0, i) && (i / 8 > st.rank || (i / 8 == st.rank && i % 8
                        < st.file))) && bb_has(st.black, i) == (bb_has(self.black.0, i) && (i / 8
                        > st.rank || (i / 8 == st.rank && i % 8 < st.file)))) by {
                        assert(bb_has(st0.pawns, i) == (bb_has(self.pawns.0, i) && (i / 8
                            > st0.rank || (i / 8 == st0.rank && i % 8 < st0.file))));
                        if i / 8 == st.rank && st0.file <= i % 8 < st.file {
                            assert(self.spec_piece_at((r * 8 + (i % 8)) as u64) is None);
                            assert((r * 8 + (i % 8)) as u64 == i);
                            assert(crate::position::wf_at(*self, i));
                        }
                    }
                }
            }
            if r > 0 {
                let ghost st0 = st;
                let ghost v0 = v@;
                v.push(47);
                proof {
                    assert(v@.subrange(0, v@.len() - 1) =~= v0);
                    st = PlaceState { rank: st0.rank - 1, file: 0, ..st0 };
                    lemma_emit_step(v@, st0, 47, st);
                    assert forall|i: u64|
                        #![trigger bb_has(st.pawns, i)] #![trigger bb_has(st.knights, i)] #![trigger bb_has(st.bishops, i)] #![trigger bb_has(st.rooks, i)] #![trigger bb_has(st.queens, i)] #![trigger bb_has(st.kings, i)] #![trigger bb_has(st.white, i)] #![trigger bb_has(st.black, i)]
                    i < 64 implies (bb_has(st.pawns, i) == (
                    bb_has(self.pawns.0, i) && (i / 8 > st.rank || (i / 8 == st.rank && i % 8
                        < st.file))) && bb_has(st.knights, i) == (bb_has(self.knights.0, i) && (i
                        / 8 > st.rank || (i / 8 == st.rank && i % 8 < st.file))) && bb_has(
                        st.bishops,
                        i,
                    ) == (bb_has(self.bishops.0, i) && (i / 8 > st.rank || (i / 8 == st.rank && i
                        % 8 < st.file))) && bb_has(st.rooks, i) == (bb_has(self.rooks.0, i) && (i
                        / 8 > st.rank || (i / 8 == st.rank && i % 8 < st.file))) && bb_has(
                        st.queens,
                        i,
                    ) == (bb_has(self.queens.0, i) && (i / 8 > st.rank || (i / 8 == st.rank && i
                        % 8 < st.file))) && bb_has(st.kings, i) == (bb_has(self.kings.0, i) && (i
                        / 8 > st.rank || (i / 8 == st.rank && i % 8 < st.file))) && bb_has(
                        st.white,
                        i,
                    ) == (bb_has(self.white.0, i) && (i / 8 > st.rank || (i / 8 == st.rank && i % 8
                        < st.file))) && bb_has(st.black, i) == (bb_has(self.black.0, i) && (i / 8
                        > st.rank || (i / 8 == st.rank && i % 8 < st.file)))) by {
                        assert(bb_has(st0.pawns, i) == (bb_has(self.pawns.0, i) && (i / 8
                            > st0.rank || (i / 8 == st0.rank && i % 8 < st0.file))));
                    }
                }
            }
        }
        proof {
            assert(v@.len() >= 1) by {
                if v@.len() == 0 {
                    assert(place_fold(place_init(), v@) == Some(place_init()));
                }
            }
            assert forall|i: u64|
                #![trigger bb_has(st.pawns, i)] #![trigger bb_has(st.knights, i)] #![trigger bb_has(st.bishops, i)] #![trigger bb_has(st.rooks, i)] #![trigger bb_has(st.queens, i)] #![trigger bb_has(st.kings, i)] #![trigger bb_has(st.white, i)] #![trigger bb_has(st.black, i)]
            i < 64 implies (bb_has(st.pawns, i) == bb_has(
                self.pawns.0,
                i,
            ) && bb_has(st.knights, i) == bb_has(self.knights.0, i) && bb_has(st.bishops, i)
                == bb_has(self.bishops.0, i) && bb_has(st.rooks, i) == bb_has(self.rooks.0, i)
                && bb_has(st.queens, i) == bb_has(self.queens.0, i) && bb_has(st.kings, i)
                == bb_has(self.kings.0, i) && bb_has(st.white, i) == bb_has(self.white.0, i)
                && bb_has(st.black, i) == bb_has(self.black.0, i)) by {
                assert(bb_has(st.pawns, i) == (bb_has(self.pawns.0, i) && (i / 8 > st.rank || (i
                    / 8 == st.rank && i % 8 < st.file))));
            }
            crate::bit::lemma_bb_ext(st.pawns, self.pawns.0);
            crate::bit::lemma_bb_ext(st.knights, self.knights.0);
            crate::bit::lemma_bb_ext(st.bishops, self.bishops.0);
            crate::bit::lemma_bb_ext(st.rooks, self.rooks.0);
            crate::bit::lemma_bb_ext(st.queens, self.queens.0);
            crate::bit::lemma_bb_ext(st.kings, self.kings.0);
            crate::bit::lemma_bb_ext(st.white, self.white.0);
            crate::bit::lemma_bb_ext(st.black, self.black.0);
        }
        v
    }

    /// The castling field of a FEN: scanning its bytes back recovers exactly
    /// these rights.
    fn fen_rights(&self) -> (v: Vec<u8>)
        ensures
            v@.len() >= 1,
            forall|j: int| 0 <= j < v@.len() ==> #[trigger] v@[j] != 32 && v@[j] < 128,
            spec_rights_field(v@) == Some(self.rights),
    {
        let mut v: Vec<u8> = Vec::new();
        let r = self.rights;
        if !r.white_king && !r.white_queen && !r.black_king && !r.black_queen {
            v.push(45);
            proof {
                assert(v@.len() == 1 && v@[0] == 45);
                assert(spec_no_rights() == self.rights);
            }
            return v;
        }
        let ghost mut g = spec_no_rights();
        proof {
            assert(rights_fold(spec_no_rights(), v@) == Some(g));
        }
        if r.white_king {
            let ghost v0 = v@;
            let ghost g0 = g;
            v.push(75);
            proof {
                g = CastlingRights { white_king: true, ..g0 };
                lemma_rights_emit(v@, v0, g0, 75, g);
            }
        }
        if r.white_queen {
            let ghost v0 = v@;
            let ghost g0 = g;
            v.push(81);
            proof {
                g = CastlingRights { white_queen: true, ..g0 };
                lemma_rights_emit(v@, v0, g0, 81, g);
            }
        }
        if r.black_king {
            let ghost v0 = v@;
            let ghost g0 = g;
            v.push(107);
            proof {
                g = CastlingRights { black_king: true, ..g0 };
                lemma_rights_emit(v@, v0, g0, 107, g);
            }
        }
        if r.black_queen {
            let ghost v0 = v@;
            let ghost g0 = g;
            v.push(113);
            proof {
                g = CastlingRights { black_queen: true, ..g0 };
                lemma_rights_emit(v@, v0, g0, 113, g);
            }
        }
        proof {
            assert(g == self.rights);
            assert(v@.len() >= 1);
            assert(!(v@.len() == 1 && v@[0] == 45));
        }
        v
    }

    /// The FEN notation of this position: placement, side to move, castling
    /// rights, en passant target and the two clocks. The text denotes exactly
    /// this position: scanning it back with the FEN meaning recovers every
    /// primary field, which is the lossless round trip — parsing the exported
    /// text rebuilds the position field for field.
    #[verifier::spinoff_prover]
    #[verifier::rlimit(100)]
    pub fn to_fen(&self) -> (r: String)
        requires
            self.wf_placement(),
            self.wf_ep(),
            self.has_kings(),
            1 <= self.full_move_number < 10_000_000,
            self.half_move_clock < 10_000_000,
        ensures
            ({
                let o = spec_parse_fen(bytes_of_chars(r@));
                &&& o is Some
                &&& o->Some_0.pawns == self.pawns.0
                &&& o->Some_0.knights == self.knights.0
                &&& o->Some_0.bishops == self.bishops.0
                &&& o->Some_0.rooks == self.rooks.0
                &&& o->Some_0.queens == self.queens.0
                &&& o->Some_0.kings == self.kings.0
                &&& o->Some_0.white == self.white.0
                &&& o->Some_0.black == self.black.0
                &&& o->Some_0.turn == self.turn
                &&& o->Some_0.rights == self.rights
                &&& o->Some_0.ep == self.ep_target
                &&& o->Some_0.half == self.half_move_clock
                &&& o->Some_0.full == self.full_move_number
            }),
    {
        let mut out = self.fen_placement();
        let ghost pl = out@;
        out.push(32);
        let tb: u8 = match self.turn {
            Color::White => 119,
            Color::Black => 98,
        };
        out.push(tb);
        out.push(32);
        let mut rt = self.fen_rights();
        let ghost rts = rt@;
        out.append(&mut rt);
        out.push(32);
        let ghost ep_start = out@.len();
        match self.ep_target {
            Some(sq) => {
                out.push(97 + sq.0 % 8);
                out.push(49 + sq.0 / 8);
            },
            None => {
                out.push(45);
            },
        }
        let ghost eps = out@.subrange(ep_start as int, out@.len() as int);
        proof {
            assert(eps =~= (match self.ep_target {
                Some(sq) => seq![(97 + sq.0 % 8) as u8, (49 + sq.0 / 8) as u8],
                None => seq![45u8],
            }));
        }
        out.push(32);
        let ghost h_start = out@.len();
        push_decimal(&mut out, self.half_move_clock);
        let ghost hs = out@.subrange(h_start as int, out@.len() as int);
        proof {
            assert(hs =~= spec_digits(self.half_move_clock as int));
        }
        out.push(32);
        let ghost f_start = out@.len();
        push_decimal(&mut out, self.full_move_number);
        let ghost fs = out@.subrange(f_start as int, out@.len() as int);
        proof {
            assert(fs =~= spec_digits(self.full_move_number as int));
            assert(out@ =~= pl + seq![32u8] + seq![tb] + seq![32u8] + rts + seq![32u8] + eps
                + seq![32u8] + hs + seq![32u8] + fs);
            lemma_fen_assembly(out@, pl, tb, rts, eps, hs, fs, *self);
            lemma_digits_shape(self.half_move_clock as int);
            lemma_digits_shape(self.full_move_number as int);
            let e0 = pl.len() as int;
            let a2 = e0 + 3;
            let e2 = a2 + rts.len() as int;
            let a3 = e2 + 1;
            let e3 = a3 + eps.len() as int;
            let a4 = e3 + 1;
            let e4 = a4 + hs.len() as int;
            let a5 = e4 + 1;
            assert forall|i: int| 0 <= i < out@.len() implies out@[i] < 128 by {
                if i < e0 {
                    assert(out@[i] == pl[i]);
                } else if a2 <= i < e2 {
                    assert(out@[i] == rts[i - a2]);
                } else if a3 <= i < e3 {
                    assert(out@[i] == eps[i - a3]);
                    match self.ep_target {
                        Some(sq) => {
                            assert(sq.wf());
                        },
                        None => {},
                    }
                } else if a4 <= i < e4 {
                    assert(out@[i] == hs[i - a4] && 48 <= hs[i - a4] <= 57);
                } else if a5 <= i {
                    assert(out@[i] == fs[i - a5] && 48 <= fs[i - a5] <= 57);
                }
            }
        }
        ascii_string(out)
    }
}

/// The FEN letter of a piece, as a byte.
fn piece_byte(pc: Piece) -> (r: u8)
    ensures
        r == spec_piece_byte(pc),
        r < 128,
        r != 32,
        r != 47,
        !(49 <= r <= 56),
{
    match (pc.color, pc.ptype) {
        (Color::White, crate::units::PieceType::Pawn) => 80,
        (Color::White, crate::units::PieceType::Knight) => 78,
        (Color::White, crate::units::PieceType::Bishop) => 66,
        (Color::White, crate::units::PieceType::Rook) => 82,
        (Color::White, crate::units::PieceType::Queen) => 81,
        (Color::White, crate::units::PieceType::King) => 75,
        (Color::Black, crate::units::PieceType::Pawn) => 112,
        (Color::Black, crate::units::PieceType::Knight) => 110,
        (Color::Black, crate::units::PieceType::Bishop) => 98,
        (Color::Black, crate::units::PieceType::Rook) => 114,
        (Color::Black, crate::units::PieceType::Queen) => 113,
        (Color::Black, crate::units::PieceType::King) => 107,
    }
}


impl Square {
    /// The lower-case algebraic name of the square, file letter then rank
    /// digit.
    pub fn san(self) -> (r: String)
        requires
            self.wf(),
        ensures
            r@.len() == 2,
            r@[0] as u32 == 97 + self.spec_file(),
            r@[1] as u32 == 49 + self.spec_rank(),
    {
        let mut out: Vec<u8> = Vec::new();
        out.push(97 + self.0 % 8);
        out.push(49 + self.0 / 8);
        ascii_string(out)
    }

    /// Parses a two-character algebraic square name, lower or upper case;
    /// exactly a file letter then a rank digit succeeds, anything else is an
    /// error, and `san` of the result gives the lower-case name back.
    pub fn from_san(san: &str) -> (r: Result<Square, String>)
        ensures
            r is Ok <==> {
                let s = san.spec_bytes();
                s.len() == 2 && (97 <= s[0] <= 104 || 65 <= s[0] <= 72) && 49 <= s[1] <= 56
            },
            r is Ok ==> {
                let s = san.spec_bytes();
                let f = if s[0] >= 97 {
                    (s[0] - 97) as u64
                } else {
                    (s[0] - 65) as u64
                };
                &&& r->Ok_0.wf()
                &&& r->Ok_0.spec_file() == f
                &&& r->Ok_0.spec_rank() == s[1] - 49
            },
    {
        let bytes = san.as_bytes();
        if bytes.len() != 2 {
            return Err("a square name holds two characters".to_owned());
        }
        let fb = if 65 <= bytes[0] && bytes[0] <= 72 {
            bytes[0] + 32
        } else {
            bytes[0]
        };
        let f = match File::from_char(fb as char) {
            Ok(f) => f,
            Err(e) => {
                return Err(e);
            },
        };
        let r2 = match Rank::from_char(bytes[1] as char) {
            Ok(r2) => r2,
            Err(e) => {
                return Err(e);
            },
        };
        Ok(Square::new(r2, f))
    }
}

/// One emitted castling letter extends the rights scan by one step.
proof fn lemma_rights_emit(v: Seq<u8>, v0: Seq<u8>, g0: CastlingRights, b: u8, g1: CastlingRights)
    requires
        v.len() == v0.len() + 1,
        forall|j: int| 0 <= j < v0.len() ==> v[j] == v0[j],
        v[v.len() - 1] == b,
        rights_fold(spec_no_rights(), v0) == Some(g0),
        rights_step(g0, b) == Some(g1),
    ensures
        rights_fold(spec_no_rights(), v) == Some(g1),
{
    let one = seq![b];
    assert(v =~= v0 + one);
    lemma_rights_fold_app(spec_no_rights(), v0, one);
    assert(one[0] == b && one.subrange(1, 1) =~= Seq::<u8>::empty());
    assert(rights_fold(g1, one.subrange(1, 1)) == Some(g1));
    assert(rights_fold(g0, one) == Some(g1));
}

/// The assembled FEN text scans back to exactly the position's fields.
#[verifier::spinoff_prover]
#[verifier::rlimit(100)]
proof fn lemma_fen_assembly(
    s: Seq<u8>,
    pl: Seq<u8>,
    tb: u8,
    rts: Seq<u8>,
    eps: Seq<u8>,
    hs: Seq<u8>,
    fs: Seq<u8>,
    b: Board,
)
    requires
        s =~= pl + seq![32u8] + seq![tb] + seq![32u8] + rts + seq![32u8] + eps + seq![32u8] + hs
            + seq![32u8] + fs,
        pl.len() >= 1,
        forall|j: int| 0 <= j < pl.len() ==> #[trigger] pl[j] != 32,
        ({
            let o = spec_placement_field(pl);
            &&& o is Some
            &&& o->Some_0.pawns == b.pawns.0
            &&& o->Some_0.knights == b.knights.0
            &&& o->Some_0.bishops == b.bishops.0
            &&& o->Some_0.rooks == b.rooks.0
            &&& o->Some_0.queens == b.queens.0
            &&& o->Some_0.kings == b.kings.0
            &&& o->Some_0.white == b.white.0
            &&& o->Some_0.black == b.black.0
        }),
        tb == (match b.turn {
            Color::White => 119u8,
            Color::Black => 98u8,
        }),
        rts.len() >= 1,
        forall|j: int| 0 <= j < rts.len() ==> #[trigger] rts[j] != 32,
        spec_rights_field(rts) == Some(b.rights),
        b.wf_ep(),
        eps == (match b.ep_target {
            Some(sq) => seq![(97 + sq.0 % 8) as u8, (49 + sq.0 / 8) as u8],
            None => seq![45u8],
        }),
        hs == spec_digits(b.half_move_clock as int),
        fs == spec_digits(b.full_move_number as int),
        b.half_move_clock < 10_000_000,
        1 <= b.full_move_number < 10_000_000,
        b.has_kings(),
    ensures
        ({
            let o = spec_parse_fen(s);
            &&& o is Some
            &&& o->Some_0.pawns == b.pawns.0
            &&& o->Some_0.knights == b.knights.0
            &&& o->Some_0.bishops == b.bishops.0
            &&& o->Some_0.rooks == b.rooks.0
            &&& o->Some_0.queens == b.queens.0
            &&& o->Some_0.kings == b.kings.0
            &&& o->Some_0.white == b.white.0
            &&& o->Some_0.black == b.black.0
            &&& o->Some_0.turn == b.turn
            &&& o->Some_0.rights == b.rights
            &&& o->Some_0.ep == b.ep_target
            &&& o->Some_0.half == b.half_move_clock
            &&& o->Some_0.full == b.full_move_number
        }),
{
    lemma_digits_shape(b.half_move_clock as int);
    lemma_digits_shape(b.full_move_number as int);
    lemma_digits_parse(b.half_move_clock as int);
    lemma_digits_parse(b.full_move_number as int);
    let e0 = pl.len() as int;
    let a1 = e0 + 1;
    let e1 = a1 + 1;
    let a2 = e1 + 1;
    let e2 = a2 + rts.len() as int;
    let a3 = e2 + 1;
    let e3 = a3 + eps.len() as int;
    let a4 = e3 + 1;
    let e4 = a4 + hs.len() as int;
    let a5 = e4 + 1;
    let e5 = a5 + fs.len() as int;
    assert(s.len() == e5);
    assert(eps.len() >= 1);
    // Every separator is a space and every field byte is not.
    assert(s[e0] == 32 && s[e1] == 32 && s[e2] == 32 && s[e3] == 32 && s[e4] == 32);
    assert(forall|j: int| 0 <= j < e0 ==> s[j] == pl[j] && s[j] != 32);
    assert(s[a1] == tb && tb != 32);
    assert(forall|j: int| a2 <= j < e2 ==> s[j] == rts[j - a2] && s[j] != 32);
    assert forall|j: int| a3 <= j < e3 implies s[j] == eps[j - a3] && s[j] != 32 by {
        match b.ep_target {
            Some(sq) => {
                assert(sq.wf());
            },
            None => {},
        }
    }
    assert forall|j: int| a4 <= j < e4 implies s[j] == hs[j - a4] && s[j] != 32 by {
        assert(48 <= hs[j - a4] <= 57);
    }
    assert forall|j: int| a5 <= j < e5 implies s[j] == fs[j - a5] && s[j] != 32 by {
        assert(48 <= fs[j - a5] <= 57);
    }
    // The scan boundaries land on exactly these fields.
    assert(spec_skip_spaces(s, 0) == 0);
    lemma_run_end_to(s, 0, e0);
    assert(spec_skip_spaces(s, e0) == spec_skip_spaces(s, a1));
    assert(spec_skip_spaces(s, a1) == a1);
    lemma_run_end_to(s, a1, e1);
    assert(spec_skip_spaces(s, e1) == spec_skip_spaces(s, a2));
    assert(spec_skip_spaces(s, a2) == a2);
    lemma_run_end_to(s, a2, e2);
    assert(spec_skip_spaces(s, e2) == spec_skip_spaces(s, a3));
    assert(spec_skip_spaces(s, a3) == a3);
    lemma_run_end_to(s, a3, e3);
    assert(spec_skip_spaces(s, e3) == spec_skip_spaces(s, a4));
    assert(spec_skip_spaces(s, a4) == a4);
    lemma_run_end_to(s, a4, e4);
    assert(spec_skip_spaces(s, e4) == spec_skip_spaces(s, a5));
    assert(spec_skip_spaces(s, a5) == a5);
    lemma_run_end_to(s, a5, e5);
    assert(spec_skip_spaces(s, e5) == e5);
    // The fields themselves.
    assert(s.subrange(0, e0) =~= pl);
    assert(s.subrange(a1, e1) =~= seq![tb]);
    assert(s.subrange(a2, e2) =~= rts);
    assert(s.subrange(a3, e3) =~= eps);
    assert(s.subrange(a4, e4) =~= hs);
    assert(s.subrange(a5, e5) =~= fs);
    assert(spec_turn_field(seq![tb]) == Some(b.turn));
    assert(spec_ep_field(eps) == Some(b.ep_target)) by {
        match b.ep_target {
            Some(sq) => {
                assert(sq.wf());
                assert(eps.len() == 2 && eps[0] == 97 + sq.0 % 8 && eps[1] == 49 + sq.0 / 8);
                assert((((eps[1] - 49) * 8 + (eps[0] - 97))) as u8 == sq.0);
            },
            None => {
                assert(eps.len() == 1 && eps[0] == 45);
            },
        }
    }
    assert(spec_clock_field(hs) == Some(b.half_move_clock as int));
    assert(spec_clock_field(fs) == Some(b.full_move_number as int));
}

} // verus!