//! A board builder: set up a custom position piece by piece, then validate
//! it into a usable board.

use vstd::prelude::*;

use crate::attack::AttackTables;
use crate::bit::pop64;
use crate::moves::Side;
use crate::position::Board;
use crate::units::{Color, Piece, Square};

verus! {

/// An unvalidated position under construction: a board whose caches are not
/// yet computed and whose shape has not been checked.
pub struct Builder {
    board: Board,
}

impl Builder {
    /// The position under construction, as the contracts speak of it; the
    /// field itself stays out of reach, so a builder can only be changed
    /// through the methods, which never set an en passant target.
    pub closed spec fn spec_board(self) -> Board {
        self.board
    }

    /// The piece standing on a square of the position being built.
    pub open spec fn spec_piece_at(self, i: u64) -> Option<Piece> {
        self.spec_board().spec_piece_at(i)
    }

    /// Starts from an empty position: no pieces, no rights, White to move.
    pub fn new() -> (r: Builder)
        ensures
            forall|i: u64| i < 64 ==> r.spec_piece_at(i) is None,
            r.spec_board().wf(),
            r.spec_board().turn == Color::White,
            r.spec_board().ep_target is None,
            r.spec_board().half_move_clock == 0,
            r.spec_board().full_move_number == 1,
    {
        let mut board = Board::default();
        let ghost pre = board;
        board.rights = crate::position::CastlingRights::none();
        proof {
            crate::position::lemma_ph_same(pre, board, 64);
            assert(forall|i: u64| i < 64 ==> board.spec_piece_at(i) == pre.spec_piece_at(i));
        }
        Builder { board }
    }

    /// Puts a piece on a square; a square already taken keeps its occupant.
    pub fn piece(&mut self, pc: Piece, sq: Square)
        requires
            sq.wf(),
            old(self).spec_board().wf(),
        ensures
            final(self).spec_board().wf(),
            final(self).spec_piece_at(sq.0 as u64) == (match old(self).spec_piece_at(
                sq.0 as u64,
            ) {
                Some(other) => Some(other),
                None => Some(pc),
            }),
            forall|i: u64|
                i < 64 && i != sq.0 ==> final(self).spec_piece_at(i) == old(self).spec_piece_at(i),
            final(self).spec_board().turn == old(self).spec_board().turn,
            final(self).spec_board().rights == old(self).spec_board().rights,
            final(self).spec_board().half_move_clock == old(self).spec_board().half_move_clock,
            final(self).spec_board().full_move_number == old(self).spec_board().full_move_number,
            final(self).spec_board().ep_target == old(self).spec_board().ep_target,
    {
        if self.board.is_empty(sq) {
            self.board.add_piece(pc, sq);
        }
    }

    /// Sets the side to move.
    pub fn turn(&mut self, col: Color)
        requires
            old(self).spec_board().wf(),
        ensures
            final(self).spec_board() == (Board { turn: col, ..old(self).spec_board() }),
            final(self).spec_board().wf(),
    {
        self.board.turn = col;
        proof {
            crate::position::lemma_ph_same(old(self).board, self.board, 64);
        }
    }

    /// Sets the half-move clock.
    pub fn half_move_clock(&mut self, hmc: u32)
        requires
            old(self).spec_board().wf(),
        ensures
            final(self).spec_board() == (Board { half_move_clock: hmc, ..old(self).spec_board() }),
            final(self).spec_board().wf(),
    {
        self.board.half_move_clock = hmc;
        proof {
            crate::position::lemma_ph_same(old(self).board, self.board, 64);
        }
    }

    /// Sets the full move number.
    pub fn full_move_number(&mut self, n: u32)
        requires
            old(self).spec_board().wf(),
            n >= 1,
        ensures
            final(self).spec_board() == (Board { full_move_number: n, ..old(self).spec_board() }),
            final(self).spec_board().wf(),
    {
        self.board.full_move_number = n;
        proof {
            crate::position::lemma_ph_same(old(self).board, self.board, 64);
        }
    }

    /// Grants a castling right.
    pub fn castling_right(&mut self, player: Color, side: Side)
        requires
            old(self).spec_board().wf(),
        ensures
            final(self).spec_board().wf(),
            final(self).spec_board().rights.spec_get(player, side),
            forall|p: Color, sd: Side|
                !(p == player && sd == side) ==> final(self).spec_board().rights.spec_get(p, sd)
                    == old(self).spec_board().rights.spec_get(p, sd),
            final(self).spec_board() == (Board { rights: final(self).spec_board().rights, ..old(self).spec_board() }),
    {
        self.board.add_right(player, side);
        proof {
            crate::position::lemma_ph_same(old(self).board, self.board, 64);
        }
    }

    /// Validates the built position: a board comes back exactly when the
    /// position may theoretically occur, with its caches computed.
    pub fn build(&self, t: &AttackTables) -> (r: Option<Board>)
        requires
            t.wf(),
            self.spec_board().wf(),
            1 <= self.spec_board().full_move_number < 0x7fff_ffff,
        ensures
            r is Some <==> self.spec_board().spec_is_valid(),
            r is Some ==> {
                let b = r->Some_0;
                &&& b.wf()
                &&& b.has_kings()
                &&& b.cache_ok()
                &&& forall|i: u64| i < 64 ==> b.spec_piece_at(i) == self.spec_piece_at(i)
                &&& b.turn == self.spec_board().turn
                &&& b.rights == self.spec_board().rights
                &&& b.ep_target == self.spec_board().ep_target
                &&& b.half_move_clock == self.spec_board().half_move_clock
                &&& b.full_move_number == self.spec_board().full_move_number
            },
    {
        if !self.board.is_valid(t) {
            return None;
        }
        let mut board = self.board;
        proof {
            crate::position::lemma_ph_same(self.board, board, 64);
            assert(pop64(board.kings.0 & board.white.0) == 1);
            assert(pop64(board.kings.0 & board.black.0) == 1);
        }
        let ghost pre = board;
        board.update_attacks(t);
        proof {
            crate::position::lemma_ph_same(pre, board, 64);
        }
        Some(board)
    }
}

} // verus!
