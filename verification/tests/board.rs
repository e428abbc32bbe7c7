use chess_std::attack::AttackTables;
use chess_std::builder::Builder;
use chess_std::bit::{DIAG_A1_H8, FILE_A, FILE_H, RANK_1, RANK_8};
use chess_std::moves::{Move, MoveFlag, Side};
use chess_std::units::Direction;
use chess_std::bit::{Bitboard, DIAG_A8_H1};
use chess_std::position::Board;
use chess_std::units::{Color, File, Piece, PieceType, Rank, Square};

#[test]
fn test_char_conversions() {
    assert_eq!(Color::White.to_char(), 'w');
    assert_eq!(PieceType::Pawn.to_char(), 'P');
    assert_eq!(PieceType::King.to_char(), 'K');

    assert_eq!(Color::from_char('b'), Ok(Color::Black));
    assert!(Color::from_char('x').is_err());
    assert_eq!(PieceType::from_char('B'), Ok(PieceType::Bishop));
    assert!(PieceType::from_char('-').is_err());
    assert_eq!(
        Piece::from_char('P'),
        Ok(Piece { color: Color::White, ptype: PieceType::Pawn })
    );
    assert_eq!(
        Piece::from_char('r'),
        Ok(Piece { color: Color::Black, ptype: PieceType::Rook })
    );
}

#[test]
fn test_iter() {
    let mut it = Bitboard(DIAG_A8_H1);
    let mut f: u8 = 8;
    for r in 0..8u8 {
        f -= 1;
        assert_eq!(it.next_square(), Some(Square::new(Rank(r), File(f))));
    }
    assert_eq!(it.next_square(), None);
}

#[test]
fn test_at() {
    let t = AttackTables::new();
    let board = Board::new(&t);
    let all_pieces = [
        Piece { color: Color::White, ptype: PieceType::Pawn },
        Piece { color: Color::White, ptype: PieceType::Knight },
        Piece { color: Color::White, ptype: PieceType::Bishop },
        Piece { color: Color::White, ptype: PieceType::Rook },
        Piece { color: Color::White, ptype: PieceType::Queen },
        Piece { color: Color::White, ptype: PieceType::King },
        Piece { color: Color::Black, ptype: PieceType::Pawn },
        Piece { color: Color::Black, ptype: PieceType::Knight },
        Piece { color: Color::Black, ptype: PieceType::Bishop },
        Piece { color: Color::Black, ptype: PieceType::Rook },
        Piece { color: Color::Black, ptype: PieceType::Queen },
        Piece { color: Color::Black, ptype: PieceType::King },
    ];
    for pc in &all_pieces {
        for sq in board.piece(*pc).squares() {
            assert_eq!(board.color_at(sq), Some(pc.color));
            assert_eq!(board.piece_type_at(sq), Some(pc.ptype));
            assert_eq!(board.piece_at(sq), Some(*pc));
        }
    }
}

#[test]
fn test_zobrist() {
    let t = AttackTables::new();
    let mut board = Board::new(&t);
    let all_pieces = [
        Piece { color: Color::White, ptype: PieceType::Pawn },
        Piece { color: Color::White, ptype: PieceType::Knight },
        Piece { color: Color::White, ptype: PieceType::Bishop },
        Piece { color: Color::White, ptype: PieceType::Rook },
        Piece { color: Color::White, ptype: PieceType::Queen },
        Piece { color: Color::White, ptype: PieceType::King },
        Piece { color: Color::Black, ptype: PieceType::Pawn },
        Piece { color: Color::Black, ptype: PieceType::Knight },
        Piece { color: Color::Black, ptype: PieceType::Bishop },
        Piece { color: Color::Black, ptype: PieceType::Rook },
        Piece { color: Color::Black, ptype: PieceType::Queen },
        Piece { color: Color::Black, ptype: PieceType::King },
    ];
    for pc in &all_pieces {
        for sq in board.piece(*pc).squares() {
            board.remove_piece(*pc, sq);
        }
    }
    assert_eq!(board, Board::default());
    board = Board::new(&t);
    assert_eq!(Board::from_fen(&t, &board.to_fen()).unwrap(), board);
}

#[test]
fn initial_fen_is_exact() {
    let t = AttackTables::new();
    assert_eq!(
        Board::new(&t).to_fen(),
        "rnbqkbnr/pppppppp/8/8/8/8/PPPPPPPP/RNBQKBNR w KQkq - 0 1"
    );
}

#[test]
fn fen_round_trips_all_fields() {
    let t = AttackTables::new();
    let fens = [
        "rnbqkbnr/pppppppp/8/8/8/8/PPPPPPPP/RNBQKBNR w KQkq - 0 1",
        "r3k2r/p1ppqpb1/bn2pnp1/3PN3/1p2P3/2N2Q1p/PPPBBPPP/R3K2R w KQkq - 0 1",
        "8/5bk1/8/2Pp4/8/1K6/8/8 w - d6 0 1",
        "8/8/1k6/8/2pP4/8/5BK1/8 b - d3 0 1",
        "4k3/8/8/8/8/8/8/4K2R w K - 13 37",
        "8/8/4k3/8/8/3K4/8/8 w - - 101 120",
    ];
    for fen in &fens {
        let b = Board::from_fen(&t, fen).unwrap();
        assert_eq!(b.to_fen(), *fen);
        let b2 = Board::from_fen(&t, &b.to_fen()).unwrap();
        assert_eq!(b2, b);
    }
}

#[test]
fn fen_rejects_malformed_input() {
    let t = AttackTables::new();
    assert!(Board::from_fen(&t, "").is_err());
    assert!(Board::from_fen(&t, "8/8/8/8/8/8/8/8 w - - 0 1").is_err());
    assert!(Board::from_fen(&t, "rnbqkbnr/pppppppp/8/8/8/8/PPPPPPPP/RNBQKBNR w KQkq - 0").is_err());
    assert!(Board::from_fen(&t, "rnbqkbnr/pppppppp/9/8/8/8/PPPPPPPP/RNBQKBNR w KQkq - 0 1").is_err());
    assert!(Board::from_fen(&t, "rnbqkbnr/pppppppp/8/8/8/8/PPPPPPPP/RNBQKBNR z KQkq - 0 1").is_err());
    assert!(Board::from_fen(&t, "rnbqkbnr/pppppppp/8/8/8/8/PPPPPPPP/RNBQKBNR w KXkq - 0 1").is_err());
    assert!(Board::from_fen(&t, "rnbqkbnr/pppppppp/8/8/8/8/PPPPPPPP/RNBQKBNR w KQkq z9 0 1").is_err());
    assert!(Board::from_fen(&t, "rnbqkbnr/pppppppp/8/8/8/8/PPPPPPPP/RNBQKBNR w KQkq - x 1").is_err());
}

#[test]
fn pop_count_and_scans_are_exact() {
    assert_eq!(Bitboard(0b1011).pop_count(), 3);
    assert_eq!(Bitboard(0).pop_count(), 0);
    assert_eq!(Bitboard(0b0000_1000).scan_forward(), Square(3));
    assert_eq!(Bitboard(0).scan_forward(), Square(64));
    assert_eq!(Bitboard(0b1000_0000).scan_reverse(), Square(7));
    assert_eq!(Bitboard(0).scan_reverse(), Square(64));
}

#[test]
fn square_geometry() {
    assert_eq!(Square::new(Rank(0), File(6)), Square(6));
    assert_eq!(Square(27).rank_distance(Square(14)), 2);
    assert_eq!(Square(30).file_distance(Square(11)), 3);
    assert_eq!(Square(21).flip_vertical(), Square(45));
    assert!(Square(0).is_dark() && Square(63).is_dark());
    assert_eq!(Square(9).relative(Color::Black), Square(49));
}

#[test]
fn builder_matches_fen() {
    let t = AttackTables::new();
    let mut builder = Builder::new();
    builder.piece(Piece { color: Color::White, ptype: PieceType::King }, Square(8));
    builder.piece(Piece { color: Color::Black, ptype: PieceType::Pawn }, Square(10));
    builder.piece(Piece { color: Color::Black, ptype: PieceType::King }, Square(25));
    builder.turn(Color::Black);
    let board = builder.build(&t).unwrap();
    assert_eq!(board, Board::from_fen(&t, "8/8/8/8/1k6/8/K1p5/8 b - - 0 1").unwrap());
}

#[test]
fn builder_rejects_invalid_positions() {
    let t = AttackTables::new();
    // No kings at all.
    let empty = Builder::new();
    assert!(empty.build(&t).is_none());
    // Kings standing next to each other.
    let mut touching = Builder::new();
    touching.piece(Piece { color: Color::White, ptype: PieceType::King }, Square(0));
    touching.piece(Piece { color: Color::Black, ptype: PieceType::King }, Square(1));
    assert!(touching.build(&t).is_none());
}

#[test]
fn bitboard_symmetries() {
    assert_eq!(Bitboard(RANK_1 ^ 1).flip_vertical(), Bitboard(RANK_8 ^ (1u64 << 56)));
    assert_eq!(
        Bitboard(FILE_A ^ (1u64 << 56)).mirror_horizontal(),
        Bitboard(FILE_H ^ (1u64 << 63))
    );
    assert_eq!(
        Bitboard(DIAG_A1_H8 ^ 1).rotate180(),
        Bitboard(DIAG_A1_H8 ^ (1u64 << 63))
    );
    assert_eq!(Bitboard(RANK_1).shift(Direction::South), Bitboard(0));
    assert_eq!(Bitboard(FILE_H).shift(Direction::East), Bitboard(0));
    assert_eq!(Bitboard(0xff).to_bytes(), [0xff, 0, 0, 0, 0, 0, 0, 0]);
}

#[test]
fn square_names_round_trip() {
    assert_eq!(Square(40).san(), "a6");
    assert_eq!(Square::from_san("H8"), Ok(Square(63)));
    assert_eq!(Square::from_san("a1"), Ok(Square(0)));
    assert!(Square::from_san("i9").is_err());
    assert!(Square::from_san("a").is_err());
}

#[test]
fn piece_values_and_promotions() {
    assert_eq!(PieceType::Pawn.value(), 1);
    assert_eq!(PieceType::Queen.value(), 9);
    assert!(PieceType::Queen.can_be_promotion());
    assert!(!PieceType::King.can_be_promotion());
    assert!(!PieceType::Pawn.can_be_promotion());
    assert_eq!(
        Piece { color: Color::White, ptype: PieceType::King }.symbol(),
        '\u{2654}'
    );
}

#[test]
fn move_shape_checks() {
    assert!(Move::quiet(Square(11), Square(27)).is_double_push(Color::White));
    assert!(!Move::quiet(Square(11), Square(19)).is_double_push(Color::White));
    let castle = Move::castling(Color::Black, Side::Queen);
    assert_eq!(castle.from, Square(60));
    assert_eq!(castle.to, Square(58));
    assert!(castle.is_valid(Color::Black));
    assert!(!castle.is_valid(Color::White));
    assert!(Move::none().is_none());
}

#[test]
fn masked_generators_filter_moves() {
    let t = AttackTables::new();
    let b = Board::new(&t);
    // From e2 the pawn has its single and double push.
    let from_e2 = b.legal_moves_from(&t, Square(12)).to_moves();
    assert_eq!(from_e2.len(), 2);
    assert!(from_e2.iter().all(|mv| mv.from == Square(12)));
    // The initial position has no capture.
    assert_eq!(b.legal_captures(&t).len(), 0);
    // The knights alone have four moves.
    let knights = b.legal_moves_of(&t, PieceType::Knight).to_moves();
    assert_eq!(knights.len(), 4);
    assert!(knights.iter().all(|mv| matches!(mv.flag, MoveFlag::Quiet)));
}
