//! The basic coordinate and piece types of chess: `Color`, `PieceType`,
//! `Piece`, `Rank`, `File`, `Square` and `Direction`.

use vstd::prelude::*;

verus! {

/// The designation of a player.
#[derive(PartialEq, Eq, Structural, Clone, Copy, Debug)]
pub enum Color {
    White,
    Black,
}

/// There are two players.
pub const NUM_PLAYERS: usize = 2;

impl Color {
    /// What `opponent` returns.
    pub open spec fn spec_opponent(self) -> Color {
        match self {
            Color::White => Color::Black,
            Color::Black => Color::White,
        }
    }

    /// The opponent of the player.
    pub fn opponent(self) -> (r: Color)
        ensures
            r == self.spec_opponent(),
    {
        match self {
            Color::White => Color::Black,
            Color::Black => Color::White,
        }
    }

    /// What `index` returns.
    pub open spec fn spec_index(self) -> int {
        match self {
            Color::White => 0,
            Color::Black => 1,
        }
    }

    /// A stable index for table lookups: White is 0, Black is 1.
    pub fn index(self) -> (r: usize)
        ensures
            r == self.spec_index(),
    {
        match self {
            Color::White => 0,
            Color::Black => 1,
        }
    }

    /// The FEN letter of the side to move.
    pub fn to_char(self) -> (r: char)
        ensures
            r == self.spec_char(),
    {
        match self {
            Color::White => 'w',
            Color::Black => 'b',
        }
    }

    /// What `to_char` returns.
    pub open spec fn spec_char(self) -> char {
        match self {
            Color::White => 'w',
            Color::Black => 'b',
        }
    }

    /// Parses a side-to-move letter; inverse of `to_char`, and an error on
    /// every other character.
    pub fn from_char(c: char) -> (r: Result<Color, String>)
        ensures
            r is Ok <==> (c == 'w' || c == 'b'),
            r is Ok ==> r->Ok_0.spec_char() == c,
    {
        if c == 'w' {
            Ok(Color::White)
        } else if c == 'b' {
            Ok(Color::Black)
        } else {
            Err("invalid color letter".to_owned())
        }
    }
}

/// The role of a piece, which determines its moves, ordered by relative
/// material value.
#[derive(PartialEq, Eq, Structural, Clone, Copy, Debug)]
pub enum PieceType {
    Pawn,
    Knight,
    Bishop,
    Rook,
    Queen,
    King,
}

/// The number of piece types.
pub const NUM_PIECE_TYPES: usize = 6;

impl PieceType {
    /// What `index` returns.
    pub open spec fn spec_index(self) -> int {
        match self {
            PieceType::Pawn => 0,
            PieceType::Knight => 1,
            PieceType::Bishop => 2,
            PieceType::Rook => 3,
            PieceType::Queen => 4,
            PieceType::King => 5,
        }
    }

    /// A stable index for table lookups, in value order starting at `Pawn` = 0.
    pub fn index(self) -> (r: usize)
        ensures
            r == self.spec_index(),
    {
        match self {
            PieceType::Pawn => 0,
            PieceType::Knight => 1,
            PieceType::Bishop => 2,
            PieceType::Rook => 3,
            PieceType::Queen => 4,
            PieceType::King => 5,
        }
    }

    /// The piece type of a table index; inverse of `index`.
    pub fn from_index(i: usize) -> (r: PieceType)
        requires
            i < 6,
        ensures
            r.spec_index() == i,
    {
        if i == 0 {
            PieceType::Pawn
        } else if i == 1 {
            PieceType::Knight
        } else if i == 2 {
            PieceType::Bishop
        } else if i == 3 {
            PieceType::Rook
        } else if i == 4 {
            PieceType::Queen
        } else {
            PieceType::King
        }
    }

    /// The relative piece value: 1, 3, 3, 5, 9 for the ordinary types and 255
    /// for the king.
    pub fn value(self) -> (r: u8)
        ensures
            r == (match self {
                PieceType::Pawn => 1u8,
                PieceType::Knight => 3u8,
                PieceType::Bishop => 3u8,
                PieceType::Rook => 5u8,
                PieceType::Queen => 9u8,
                PieceType::King => 255u8,
            }),
    {
        match self {
            PieceType::Pawn => 1,
            PieceType::Knight => 3,
            PieceType::Bishop => 3,
            PieceType::Rook => 5,
            PieceType::Queen => 9,
            PieceType::King => 255,
        }
    }

    /// What `can_be_promotion` returns: exactly knight, bishop, rook and queen.
    pub open spec fn spec_can_be_promotion(self) -> bool {
        self == PieceType::Knight || self == PieceType::Bishop || self == PieceType::Rook
            || self == PieceType::Queen
    }

    /// Whether a pawn can promote into this piece type.
    pub fn can_be_promotion(self) -> (r: bool)
        ensures
            r == self.spec_can_be_promotion(),
    {
        match self {
            PieceType::Pawn => false,
            PieceType::King => false,
            _ => true,
        }
    }

    /// What `to_char` returns.
    pub open spec fn spec_char(self) -> char {
        match self {
            PieceType::Pawn => 'P',
            PieceType::Knight => 'N',
            PieceType::Bishop => 'B',
            PieceType::Rook => 'R',
            PieceType::Queen => 'Q',
            PieceType::King => 'K',
        }
    }

    /// The SAN letter of the piece type, upper case.
    pub fn to_char(self) -> (r: char)
        ensures
            r == self.spec_char(),
    {
        match self {
            PieceType::Pawn => 'P',
            PieceType::Knight => 'N',
            PieceType::Bishop => 'B',
            PieceType::Rook => 'R',
            PieceType::Queen => 'Q',
            PieceType::King => 'K',
        }
    }

    /// Parses an upper-case SAN piece letter; inverse of `to_char`, and an
    /// error on every other character.
    pub fn from_char(c: char) -> (r: Result<PieceType, String>)
        ensures
            r is Ok <==> (c == 'P' || c == 'N' || c == 'B' || c == 'R' || c == 'Q' || c == 'K'),
            r is Ok ==> r->Ok_0.spec_char() == c,
    {
        if c == 'P' {
            Ok(PieceType::Pawn)
        } else if c == 'N' {
            Ok(PieceType::Knight)
        } else if c == 'B' {
            Ok(PieceType::Bishop)
        } else if c == 'R' {
            Ok(PieceType::Rook)
        } else if c == 'Q' {
            Ok(PieceType::Queen)
        } else if c == 'K' {
            Ok(PieceType::King)
        } else {
            Err("invalid piece letter".to_owned())
        }
    }
}

/// A `Piece` is owned by a player and has a type.
#[derive(PartialEq, Eq, Structural, Clone, Copy, Debug)]
pub struct Piece {
    pub color: Color,
    pub ptype: PieceType,
}

/// The number of pieces, considering their color.
pub const NUM_PIECES: usize = 12;

impl Piece {
    /// What `index` returns.
    pub open spec fn spec_index(self) -> int {
        6 * self.color.spec_index() + self.ptype.spec_index()
    }

    /// A stable index for table lookups: the six white pieces then the six
    /// black ones, each group in value order.
    pub fn index(self) -> (r: usize)
        ensures
            r == self.spec_index(),
            r < 12,
    {
        6 * self.color.index() + self.ptype.index()
    }

    /// What `to_char` returns: the piece-type letter, lower case for Black.
    pub open spec fn spec_char(self) -> char {
        match self {
            Piece { color: Color::White, ptype } => ptype.spec_char(),
            Piece { color: Color::Black, ptype: PieceType::Pawn } => 'p',
            Piece { color: Color::Black, ptype: PieceType::Knight } => 'n',
            Piece { color: Color::Black, ptype: PieceType::Bishop } => 'b',
            Piece { color: Color::Black, ptype: PieceType::Rook } => 'r',
            Piece { color: Color::Black, ptype: PieceType::Queen } => 'q',
            Piece { color: Color::Black, ptype: PieceType::King } => 'k',
        }
    }

    /// The FEN letter of a piece: the SAN piece-type letter, with lower case
    /// meaning Black.
    pub fn to_char(self) -> (r: char)
        ensures
            r == self.spec_char(),
    {
        match self.color {
            Color::White => self.ptype.to_char(),
            Color::Black => match self.ptype {
                PieceType::Pawn => 'p',
                PieceType::Knight => 'n',
                PieceType::Bishop => 'b',
                PieceType::Rook => 'r',
                PieceType::Queen => 'q',
                PieceType::King => 'k',
            },
        }
    }

    /// The chess glyph of the piece.
    pub fn symbol(self) -> (r: char)
        ensures
            r == (match self {
                Piece { color: Color::White, ptype: PieceType::Pawn } => '\u{2659}',
                Piece { color: Color::White, ptype: PieceType::Knight } => '\u{2658}',
                Piece { color: Color::White, ptype: PieceType::Bishop } => '\u{2657}',
                Piece { color: Color::White, ptype: PieceType::Rook } => '\u{2656}',
                Piece { color: Color::White, ptype: PieceType::Queen } => '\u{2655}',
                Piece { color: Color::White, ptype: PieceType::King } => '\u{2654}',
                Piece { color: Color::Black, ptype: PieceType::Pawn } => '\u{265f}',
                Piece { color: Color::Black, ptype: PieceType::Knight } => '\u{265e}',
                Piece { color: Color::Black, ptype: PieceType::Bishop } => '\u{265d}',
                Piece { color: Color::Black, ptype: PieceType::Rook } => '\u{265c}',
                Piece { color: Color::Black, ptype: PieceType::Queen } => '\u{265b}',
                Piece { color: Color::Black, ptype: PieceType::King } => '\u{265a}',
            }),
    {
        match (self.color, self.ptype) {
            (Color::White, PieceType::Pawn) => '\u{2659}',
            (Color::White, PieceType::Knight) => '\u{2658}',
            (Color::White, PieceType::Bishop) => '\u{2657}',
            (Color::White, PieceType::Rook) => '\u{2656}',
            (Color::White, PieceType::Queen) => '\u{2655}',
            (Color::White, PieceType::King) => '\u{2654}',
            (Color::Black, PieceType::Pawn) => '\u{265f}',
            (Color::Black, PieceType::Knight) => '\u{265e}',
            (Color::Black, PieceType::Bishop) => '\u{265d}',
            (Color::Black, PieceType::Rook) => '\u{265c}',
            (Color::Black, PieceType::Queen) => '\u{265b}',
            (Color::Black, PieceType::King) => '\u{265a}',
        }
    }

    /// Parses a FEN piece letter; inverse of `to_char`, and an error on every
    /// other character.
    pub fn from_char(c: char) -> (r: Result<Piece, String>)
        ensures
            r is Ok <==> (c == 'P' || c == 'N' || c == 'B' || c == 'R' || c == 'Q' || c == 'K'
                || c == 'p' || c == 'n' || c == 'b' || c == 'r' || c == 'q' || c == 'k'),
            r is Ok ==> r->Ok_0.spec_char() == c,
    {
        let color = if c == 'P' || c == 'N' || c == 'B' || c == 'R' || c == 'Q' || c == 'K' {
            Color::White
        } else {
            Color::Black
        };
        let up = match c {
            'p' => 'P',
            'n' => 'N',
            'b' => 'B',
            'r' => 'R',
            'q' => 'Q',
            'k' => 'K',
            _ => c,
        };
        match PieceType::from_char(up) {
            Ok(ptype) => Ok(Piece { color, ptype }),
            Err(e) => Err(e),
        }
    }
}

/// A rank is a row of the board; the first rank `R1` holds the value 0.
#[derive(PartialEq, Eq, Structural, Clone, Copy, Debug)]
pub struct Rank(pub u8);

impl Rank {
    /// Whether the rank is one of the eight of the board.
    pub open spec fn wf(self) -> bool {
        self.0 < 8
    }

    /// What `relative` returns: the same rank for White, the vertically
    /// flipped rank for Black.
    pub open spec fn spec_relative(self, col: Color) -> Rank {
        match col {
            Color::White => self,
            Color::Black => Rank((7 - self.0) as u8),
        }
    }

    /// Assuming this rank is in White's perspective, this returns a vertically
    /// flipped rank for Black, and is a no-op for White.
    pub fn relative(self, col: Color) -> (r: Rank)
        requires
            self.wf(),
        ensures
            r == self.spec_relative(col),
            r.wf(),
    {
        match col {
            Color::White => self,
            Color::Black => Rank(7 - self.0),
        }
    }

    /// The relative first rank: where the pieces of a player start.
    pub fn first(col: Color) -> (r: Rank)
        ensures
            r == Rank(0u8).spec_relative(col),
    {
        Rank(0).relative(col)
    }

    /// The relative second rank: where the pawns of a player start.
    pub fn of_pawns(col: Color) -> (r: Rank)
        ensures
            r == Rank(1u8).spec_relative(col),
    {
        Rank(1).relative(col)
    }

    /// The relative last rank: where the pawns of a player promote.
    pub fn last(col: Color) -> (r: Rank)
        ensures
            r == Rank(7u8).spec_relative(col),
    {
        Rank(7).relative(col)
    }

    /// The FEN digit of this rank, `'1'` for `R1` up to `'8'`.
    pub fn to_char(self) -> (r: char)
        requires
            self.wf(),
        ensures
            r as u8 == self.0 + 0x31,
    {
        (0x31u8 + self.0) as char
    }

    /// Parses a rank digit between `'1'` and `'8'`; inverse of `to_char`, and
    /// an error on every other character.
    pub fn from_char(c: char) -> (r: Result<Rank, String>)
        ensures
            r is Ok <==> ('1' <= c <= '8'),
            r is Ok ==> r->Ok_0.wf() && r->Ok_0.0 + 0x31 == c as u8,
    {
        if '1' <= c && c <= '8' {
            Ok(Rank((c as u8) - 0x31))
        } else {
            Err("invalid rank digit".to_owned())
        }
    }
}

/// A file is a column of the board; file a holds the value 0.
#[derive(PartialEq, Eq, Structural, Clone, Copy, Debug)]
pub struct File(pub u8);

impl File {
    /// Whether the file is one of the eight of the board.
    pub open spec fn wf(self) -> bool {
        self.0 < 8
    }

    /// The lower-case letter of this file, `'a'` for file 0 up to `'h'`.
    pub fn to_char(self) -> (r: char)
        requires
            self.wf(),
        ensures
            r as u8 == self.0 + 0x61,
    {
        (0x61u8 + self.0) as char
    }

    /// Parses a file letter between `'a'` and `'h'`; inverse of `to_char`, and
    /// an error on every other character.
    pub fn from_char(c: char) -> (r: Result<File, String>)
        ensures
            r is Ok <==> ('a' <= c <= 'h'),
            r is Ok ==> r->Ok_0.wf() && r->Ok_0.0 + 0x61 == c as u8,
    {
        if 'a' <= c && c <= 'h' {
            Ok(File((c as u8) - 0x61))
        } else {
            Err("invalid file letter".to_owned())
        }
    }
}

/// One of the 64 squares of the board, numbered rank-major from a1 = 0 to
/// h8 = 63; the value 64 is the off-board sentinel.
#[derive(PartialEq, Eq, Structural, Clone, Copy, Debug)]
pub struct Square(pub u8);

/// The off-board sentinel square.
pub const SQ_NONE: u8 = 64;

impl Square {
    /// Whether the square is on the board.
    pub open spec fn wf(self) -> bool {
        self.0 < 64
    }

    /// What `rank` returns.
    pub open spec fn spec_rank(self) -> int {
        self.0 as int / 8
    }

    /// What `file` returns.
    pub open spec fn spec_file(self) -> int {
        self.0 as int % 8
    }

    /// A square from a rank and a file.
    pub fn new(r: Rank, f: File) -> (s: Square)
        requires
            r.wf(),
            f.wf(),
        ensures
            s.wf(),
            s.spec_rank() == r.0,
            s.spec_file() == f.0,
    {
        Square(r.0 * 8 + f.0)
    }

    /// The rank of a square.
    pub fn rank(self) -> (r: Rank)
        requires
            self.wf(),
        ensures
            r.0 == self.spec_rank(),
            r.wf(),
    {
        Rank(self.0 / 8)
    }

    /// The file of a square.
    pub fn file(self) -> (r: File)
        requires
            self.wf(),
        ensures
            r.0 == self.spec_file(),
            r.wf(),
    {
        File(self.0 % 8)
    }

    /// The number of ranks that separate two squares.
    pub fn rank_distance(self, other: Square) -> (r: usize)
        requires
            self.wf(),
            other.wf(),
        ensures
            r == if self.spec_rank() >= other.spec_rank() {
                self.spec_rank() - other.spec_rank()
            } else {
                other.spec_rank() - self.spec_rank()
            },
    {
        let a = self.0 / 8;
        let b = other.0 / 8;
        if a >= b {
            (a - b) as usize
        } else {
            (b - a) as usize
        }
    }

    /// The number of files that separate two squares.
    pub fn file_distance(self, other: Square) -> (r: usize)
        requires
            self.wf(),
            other.wf(),
        ensures
            r == if self.spec_file() >= other.spec_file() {
                self.spec_file() - other.spec_file()
            } else {
                other.spec_file() - self.spec_file()
            },
    {
        let a = self.0 % 8;
        let b = other.0 % 8;
        if a >= b {
            (a - b) as usize
        } else {
            (b - a) as usize
        }
    }

    /// What `relative` returns: the same square for White, the vertically
    /// flipped square for Black.
    pub open spec fn spec_relative(self, col: Color) -> Square {
        match col {
            Color::White => self,
            Color::Black => Square((self.0 ^ 56) as u8),
        }
    }

    /// Assuming this square is in White's perspective, this returns a
    /// vertically flipped square for Black, and is a no-op for White.
    pub fn relative(self, col: Color) -> (r: Square)
        requires
            self.wf(),
        ensures
            r == self.spec_relative(col),
            r.wf(),
            r.spec_file() == self.spec_file(),
            col == Color::White ==> r.spec_rank() == self.spec_rank(),
            col == Color::Black ==> r.spec_rank() == 7 - self.spec_rank(),
    {
        match col {
            Color::White => self,
            Color::Black => {
                proof {
                    lemma_xor56(self.0);
                }
                Square(self.0 ^ 56)
            },
        }
    }

    /// Whether the square is on the board, and not the off-board sentinel.
    pub fn is_on_board(self) -> (r: bool)
        ensures
            r == self.wf(),
    {
        self.0 < 64
    }

    /// Whether the square is drawn dark on the chessboard: true exactly when
    /// rank and file have the same parity.
    pub fn is_dark(self) -> (r: bool)
        requires
            self.wf(),
        ensures
            r == (self.spec_rank() % 2 == self.spec_file() % 2),
    {
        (self.0 / 8) % 2 == (self.0 % 8) % 2
    }

    /// What `flip_vertical` returns.
    pub open spec fn spec_flip_vertical(self) -> Square {
        Square((self.0 ^ 56) as u8)
    }

    /// The square with the same file, seen from the other player: rank r maps
    /// to rank 7 - r.
    pub fn flip_vertical(self) -> (r: Square)
        requires
            self.wf(),
        ensures
            r.wf(),
            r.spec_file() == self.spec_file(),
            r.spec_rank() == 7 - self.spec_rank(),
    {
        proof {
            lemma_xor56(self.0);
        }
        Square(self.0 ^ 56)
    }

    /// The square mirrored on the vertical middle axis: file f maps to file
    /// 7 - f.
    pub fn mirror_horizontal(self) -> (r: Square)
        requires
            self.wf(),
        ensures
            r.wf(),
            r.spec_file() == 7 - self.spec_file(),
            r.spec_rank() == self.spec_rank(),
    {
        proof {
            lemma_xor7(self.0);
        }
        Square(self.0 ^ 7)
    }

    /// The square rotated a half turn: both rank and file are mirrored.
    pub fn rotate180(self) -> (r: Square)
        requires
            self.wf(),
        ensures
            r.wf(),
            r.spec_file() == 7 - self.spec_file(),
            r.spec_rank() == 7 - self.spec_rank(),
    {
        proof {
            lemma_xor63(self.0);
        }
        Square(self.0 ^ 63)
    }

    /// The square as an index into 64-entry tables.
    pub fn index(self) -> (r: usize)
        ensures
            r == self.0,
    {
        self.0 as usize
    }

    /// What `shift` returns: the square moved by the direction's delta, or the
    /// off-board sentinel when that leaves the 0 to 63 range.
    pub open spec fn spec_shift(self, dir: Direction) -> Square {
        if 0 <= self.0 + dir.spec_delta() < 64 {
            Square((self.0 + dir.spec_delta()) as u8)
        } else {
            Square(SQ_NONE)
        }
    }

    /// Moves the square by the direction's index delta; the off-board sentinel
    /// when the sum leaves the board. The caller remains responsible for file
    /// wrap-around, which index arithmetic alone cannot see.
    pub fn shift(self, dir: Direction) -> (r: Square)
        requires
            self.wf(),
        ensures
            r == self.spec_shift(dir),
    {
        let d = dir.delta();
        let sum = self.0 as i16 + d as i16;
        if 0 <= sum && sum < 64 {
            Square(sum as u8)
        } else {
            Square(SQ_NONE)
        }
    }
}

/// Relates xor with 56 to rank arithmetic on a square index.
proof fn lemma_xor56(s: u8)
    by (bit_vector)
    requires
        s < 64,
    ensures
        (s ^ 56) < 64,
        (s ^ 56) % 8 == s % 8,
        (s ^ 56) / 8 == 7 - s / 8,
{
}

/// Relates xor with 7 to file arithmetic on a square index.
proof fn lemma_xor7(s: u8)
    by (bit_vector)
    requires
        s < 64,
    ensures
        (s ^ 7) < 64,
        (s ^ 7) % 8 == 7 - s % 8,
        (s ^ 7) / 8 == s / 8,
{
}

/// Relates xor with 63 to mirroring both coordinates of a square index.
proof fn lemma_xor63(s: u8)
    by (bit_vector)
    requires
        s < 64,
    ensures
        (s ^ 63) < 64,
        (s ^ 63) % 8 == 7 - s % 8,
        (s ^ 63) / 8 == 7 - s / 8,
{
}

/// The eight ray directions plus the null direction, each with a square-index
/// delta consistent with rank-major square numbering.
#[derive(PartialEq, Eq, Structural, Clone, Copy, Debug)]
pub enum Direction {
    North,
    South,
    East,
    West,
    NorthWest,
    NorthEast,
    SouthWest,
    SouthEast,
    NoDir,
}

/// The number of real directions, the null direction aside.
pub const NUM_DIRECTIONS: usize = 8;

impl Direction {
    /// What `delta` returns.
    pub open spec fn spec_delta(self) -> int {
        match self {
            Direction::North => 8,
            Direction::South => -8,
            Direction::East => 1,
            Direction::West => -1,
            Direction::NorthWest => 7,
            Direction::NorthEast => 9,
            Direction::SouthWest => -9,
            Direction::SouthEast => -7,
            Direction::NoDir => 0,
        }
    }

    /// The change of rank a step makes: +1 northward, -1 southward.
    pub open spec fn spec_dr(self) -> int {
        match self {
            Direction::North => 1,
            Direction::South => -1,
            Direction::East => 0,
            Direction::West => 0,
            Direction::NorthWest => 1,
            Direction::NorthEast => 1,
            Direction::SouthWest => -1,
            Direction::SouthEast => -1,
            Direction::NoDir => 0,
        }
    }

    /// The change of file a step makes: +1 eastward, -1 westward.
    pub open spec fn spec_df(self) -> int {
        match self {
            Direction::North => 0,
            Direction::South => 0,
            Direction::East => 1,
            Direction::West => -1,
            Direction::NorthWest => -1,
            Direction::NorthEast => 1,
            Direction::SouthWest => -1,
            Direction::SouthEast => 1,
            Direction::NoDir => 0,
        }
    }

    /// The square-index delta of one step in this direction.
    pub fn delta(self) -> (r: i8)
        ensures
            r == self.spec_delta(),
            r == 8 * self.spec_dr() + self.spec_df(),
    {
        match self {
            Direction::North => 8,
            Direction::South => -8,
            Direction::East => 1,
            Direction::West => -1,
            Direction::NorthWest => 7,
            Direction::NorthEast => 9,
            Direction::SouthWest => -9,
            Direction::SouthEast => -7,
            Direction::NoDir => 0,
        }
    }

    /// The direction in which the pawns of a color move.
    pub fn of_pawns(col: Color) -> (r: Direction)
        ensures
            r == Direction::spec_of_pawns(col),
    {
        match col {
            Color::White => Direction::North,
            Color::Black => Direction::South,
        }
    }

    /// What `of_pawns` returns.
    pub open spec fn spec_of_pawns(col: Color) -> Direction {
        match col {
            Color::White => Direction::North,
            Color::Black => Direction::South,
        }
    }

    /// What `index` returns.
    pub open spec fn spec_index(self) -> int {
        match self {
            Direction::North => 0,
            Direction::South => 1,
            Direction::East => 2,
            Direction::West => 3,
            Direction::NorthWest => 4,
            Direction::NorthEast => 5,
            Direction::SouthWest => 6,
            Direction::SouthEast => 7,
            Direction::NoDir => 8,
        }
    }

    /// A stable index for table lookups; the null direction indexes last.
    pub fn index(self) -> (r: usize)
        ensures
            r == self.spec_index(),
    {
        match self {
            Direction::North => 0,
            Direction::South => 1,
            Direction::East => 2,
            Direction::West => 3,
            Direction::NorthWest => 4,
            Direction::NorthEast => 5,
            Direction::SouthWest => 6,
            Direction::SouthEast => 7,
            Direction::NoDir => 8,
        }
    }

    /// The real direction of a table index below 8; inverse of `index`.
    pub fn from_index(i: usize) -> (r: Direction)
        requires
            i < 8,
        ensures
            r.spec_index() == i,
    {
        if i == 0 {
            Direction::North
        } else if i == 1 {
            Direction::South
        } else if i == 2 {
            Direction::East
        } else if i == 3 {
            Direction::West
        } else if i == 4 {
            Direction::NorthWest
        } else if i == 5 {
            Direction::NorthEast
        } else if i == 6 {
            Direction::SouthWest
        } else {
            Direction::SouthEast
        }
    }

    /// What `opposite` returns.
    pub open spec fn spec_opposite(self) -> Direction {
        match self {
            Direction::North => Direction::South,
            Direction::South => Direction::North,
            Direction::East => Direction::West,
            Direction::West => Direction::East,
            Direction::NorthWest => Direction::SouthEast,
            Direction::NorthEast => Direction::SouthWest,
            Direction::SouthWest => Direction::NorthEast,
            Direction::SouthEast => Direction::NorthWest,
            Direction::NoDir => Direction::NoDir,
        }
    }

    /// The direction pointing the opposite way; its delta is the negation.
    pub fn opposite(self) -> (r: Direction)
        ensures
            r == self.spec_opposite(),
            r.spec_delta() == -self.spec_delta(),
    {
        match self {
            Direction::North => Direction::South,
            Direction::South => Direction::North,
            Direction::East => Direction::West,
            Direction::West => Direction::East,
            Direction::NorthWest => Direction::SouthEast,
            Direction::NorthEast => Direction::SouthWest,
            Direction::SouthWest => Direction::NorthEast,
            Direction::SouthEast => Direction::NorthWest,
            Direction::NoDir => Direction::NoDir,
        }
    }
}

} // verus!
