//! Moves and their flags: quiet moves, en passant, promotions and castling.

use vstd::prelude::*;

use crate::units::{Color, Direction, PieceType, Rank, Square};

verus! {

/// The side of a castling: with the king's rook or with the queen's rook.
#[derive(PartialEq, Eq, Structural, Clone, Copy, Debug)]
pub enum Side {
    King,
    Queen,
}

/// The number of castling sides.
pub const NUM_SIDES: usize = 2;

impl Side {
    /// What `index` returns.
    pub open spec fn spec_index(self) -> int {
        match self {
            Side::King => 0,
            Side::Queen => 1,
        }
    }

    /// A stable index: the king side is 0, the queen side 1.
    pub fn index(self) -> (r: usize)
        ensures
            r == self.spec_index(),
    {
        match self {
            Side::King => 0,
            Side::Queen => 1,
        }
    }

    /// The piece type whose rook names the side.
    pub fn piece_type(self) -> (r: PieceType)
        ensures
            r == (match self {
                Side::King => PieceType::King,
                Side::Queen => PieceType::Queen,
            }),
    {
        match self {
            Side::King => PieceType::King,
            Side::Queen => PieceType::Queen,
        }
    }

    /// The castling side a piece type names: only the king and the queen name
    /// one, every other type is an error.
    pub fn from_piece_type(ptype: PieceType) -> (r: Result<Side, String>)
        ensures
            r is Ok <==> (ptype == PieceType::King || ptype == PieceType::Queen),
            ptype == PieceType::King ==> r == Result::<Side, String>::Ok(Side::King),
            ptype == PieceType::Queen ==> r == Result::<Side, String>::Ok(Side::Queen),
    {
        match ptype {
            PieceType::King => Ok(Side::King),
            PieceType::Queen => Ok(Side::Queen),
            _ => Err("no castling side for this piece type".to_owned()),
        }
    }
}

/// A special move property; the flags may not be combined. An en passant move
/// carries the square of the captured pawn, a promotion the new piece type,
/// a castling its side.
#[derive(PartialEq, Eq, Structural, Clone, Copy, Debug)]
pub enum MoveFlag {
    Quiet,
    EnPassant(Square),
    Promotion(PieceType),
    Castling(Side),
}

/// A minimal move: origin, destination and flag. Whether a piece is captured
/// is derived on demand from the position.
#[derive(PartialEq, Eq, Structural, Clone, Copy, Debug)]
pub struct Move {
    pub from: Square,
    pub to: Square,
    pub flag: MoveFlag,
}

/// What `Move::castling_coords` returns: the home and destination squares of
/// the king, or of the rook, in each of the four castlings.
pub open spec fn spec_castling_coords(col: Color, side: Side, ptype: PieceType) -> (Square, Square) {
    match (col, side, ptype) {
        (Color::White, Side::King, PieceType::King) => (Square(4u8), Square(6u8)),
        (Color::White, Side::King, _) => (Square(7u8), Square(5u8)),
        (Color::White, Side::Queen, PieceType::King) => (Square(4u8), Square(2u8)),
        (Color::White, Side::Queen, _) => (Square(0u8), Square(3u8)),
        (Color::Black, Side::King, PieceType::King) => (Square(60u8), Square(62u8)),
        (Color::Black, Side::King, _) => (Square(63u8), Square(61u8)),
        (Color::Black, Side::Queen, PieceType::King) => (Square(60u8), Square(58u8)),
        (Color::Black, Side::Queen, _) => (Square(56u8), Square(59u8)),
    }
}

/// What `Move::castling` returns.
pub open spec fn spec_castling_move(col: Color, side: Side) -> Move {
    Move {
        from: spec_castling_coords(col, side, PieceType::King).0,
        to: spec_castling_coords(col, side, PieceType::King).1,
        flag: MoveFlag::Castling(side),
    }
}

impl Move {
    /// The null move: both squares off the board, doing nothing but give the
    /// turn away.
    pub fn none() -> (r: Move)
        ensures
            r.from.0 == 64 && r.to.0 == 64 && r.flag == MoveFlag::Quiet,
    {
        Move { from: Square(64), to: Square(64), flag: MoveFlag::Quiet }
    }

    /// Whether the move is the null move.
    pub fn is_none(&self) -> (r: bool)
        ensures
            r == (self.from.0 == 64 && self.to.0 == 64 && self.flag == MoveFlag::Quiet),
    {
        self.from.0 == 64 && self.to.0 == 64 && matches!(self.flag, MoveFlag::Quiet)
    }

    /// A plain quiet move, which may capture whatever stands on `to`.
    pub fn quiet(from: Square, to: Square) -> (r: Move)
        ensures
            r == (Move { from, to, flag: MoveFlag::Quiet }),
    {
        Move { from, to, flag: MoveFlag::Quiet }
    }

    /// An en passant move that captures the pawn at `passed`.
    pub fn en_passant(from: Square, to: Square, passed: Square) -> (r: Move)
        ensures
            r == (Move { from, to, flag: MoveFlag::EnPassant(passed) }),
    {
        Move { from, to, flag: MoveFlag::EnPassant(passed) }
    }

    /// A promotion into a piece type a pawn may become.
    pub fn promotion(from: Square, to: Square, ptype: PieceType) -> (r: Move)
        requires
            ptype.spec_can_be_promotion(),
        ensures
            r == (Move { from, to, flag: MoveFlag::Promotion(ptype) }),
    {
        Move { from, to, flag: MoveFlag::Promotion(ptype) }
    }

    /// The castling move of a player on a side, as the king's movement.
    pub fn castling(col: Color, side: Side) -> (r: Move)
        ensures
            r == spec_castling_move(col, side),
            r.from.wf() && r.to.wf(),
    {
        let (from, to) = Self::castling_coords(col, side, PieceType::King);
        Move { from, to, flag: MoveFlag::Castling(side) }
    }

    /// The origin and destination of one half of a castling, either the
    /// king's or, for any other piece type, the rook's.
    pub fn castling_coords(col: Color, side: Side, ptype: PieceType) -> (r: (Square, Square))
        ensures
            r == spec_castling_coords(col, side, ptype),
            r.0.wf() && r.1.wf(),
    {
        match (col, side, ptype) {
            (Color::White, Side::King, PieceType::King) => (Square(4), Square(6)),
            (Color::White, Side::King, _) => (Square(7), Square(5)),
            (Color::White, Side::Queen, PieceType::King) => (Square(4), Square(2)),
            (Color::White, Side::Queen, _) => (Square(0), Square(3)),
            (Color::Black, Side::King, PieceType::King) => (Square(60), Square(62)),
            (Color::Black, Side::King, _) => (Square(63), Square(61)),
            (Color::Black, Side::Queen, PieceType::King) => (Square(60), Square(58)),
            (Color::Black, Side::Queen, _) => (Square(56), Square(59)),
        }
    }

    /// The movement of the rook in a castling of a player on a side.
    pub fn rook_castling_coords(col: Color, side: Side) -> (r: (Square, Square))
        ensures
            r == spec_castling_coords(col, side, PieceType::Rook),
            r.0.wf() && r.1.wf(),
    {
        Self::castling_coords(col, side, PieceType::Rook)
    }

    /// What `is_double_push` returns: the move starts on the player's pawn
    /// rank and jumps exactly two steps forward.
    pub open spec fn spec_is_double_push(self, col: Color) -> bool {
        self.from.wf() && self.to.wf() && self.from.spec_rank() == Rank(1u8).spec_relative(col).0
            && self.to.0 == self.from.0 + 2 * Direction::spec_of_pawns(col).spec_delta()
    }

    /// Whether the move jumps a pawn two steps from its home rank; the flag
    /// and the position play no part.
    pub fn is_double_push(&self, col: Color) -> (r: bool)
        ensures
            r == self.spec_is_double_push(col),
    {
        if self.from.0 >= 64 || self.to.0 >= 64 {
            return false;
        }
        match col {
            Color::White => self.from.0 / 8 == 1 && self.to.0 == self.from.0 + 16,
            Color::Black => self.from.0 / 8 == 6 && self.from.0 == self.to.0 + 16,
        }
    }

    /// What `is_valid` returns.
    pub open spec fn spec_is_valid(self, col: Color) -> bool {
        &&& self.from != self.to
        &&& self.from.wf()
        &&& self.to.wf()
        &&& match self.flag {
            MoveFlag::Quiet => true,
            MoveFlag::EnPassant(_) => self.to.spec_rank() == (match col {
                Color::White => 5int,
                Color::Black => 2int,
            }),
            MoveFlag::Promotion(ptype) => self.to.spec_rank() == Rank(7u8).spec_relative(col).0
                && ptype.spec_can_be_promotion(),
            MoveFlag::Castling(side) => self == spec_castling_move(col, side),
        }
    }

    /// A fast sanity check of the move's shape for a player, which does not
    /// look at the position: both squares on the board and distinct, an en
    /// passant landing on the player's sixth rank, a promotion landing on the
    /// last rank with an admissible piece type, a castling with the exact
    /// king movement of its side.
    pub fn is_valid(&self, col: Color) -> (r: bool)
        ensures
            r == self.spec_is_valid(col),
    {
        if !(self.from.0 != self.to.0 && self.from.0 < 64 && self.to.0 < 64) {
            return false;
        }
        match self.flag {
            MoveFlag::Quiet => true,
            MoveFlag::EnPassant(_) => {
                let target: u8 = match col {
                    Color::White => 5,
                    Color::Black => 2,
                };
                self.to.0 / 8 == target
            },
            MoveFlag::Promotion(ptype) => {
                let last: u8 = match col {
                    Color::White => 7,
                    Color::Black => 0,
                };
                self.to.0 / 8 == last && ptype.can_be_promotion()
            },
            MoveFlag::Castling(side) => {
                let mv = Move::castling(col, side);
                self.from.0 == mv.from.0 && self.to.0 == mv.to.0 && (match (self.flag, mv.flag) {
                    (MoveFlag::Castling(a), MoveFlag::Castling(b)) => a == b,
                    _ => false,
                })
            },
        }
    }
}

/// The status of the king after a move: no check, check, or checkmate.
#[derive(PartialEq, Eq, Structural, Clone, Copy, Debug)]
pub enum CheckType {
    NoCheck,
    Check,
    Checkmate,
}

} // verus!
