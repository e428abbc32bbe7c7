use std::collections::HashSet;

use chess_std::attack::AttackTables;
use chess_std::moves::Move;
use chess_std::position::Board;
use chess_std::state::DrawType;
use chess_std::units::Square;

fn explore(t: &AttackTables, b: &Board, depth: u32) -> u64 {
    if depth == 0 {
        return 1;
    }
    let g = b.legal_moves(t);
    if depth == 1 {
        return g.len() as u64;
    }
    let mut n = 0;
    for mv in g.to_moves() {
        n += explore(t, &b.play_move(t, mv), depth - 1);
    }
    n
}

fn perft_from(fen: &str, depth: u32) -> u64 {
    let t = AttackTables::new();
    let b = Board::from_fen(&t, fen).unwrap();
    explore(&t, &b, depth)
}

#[test]
fn perft_start_shallow() {
    let t = AttackTables::new();
    let b = Board::new(&t);
    assert_eq!(explore(&t, &b, 1), 20);
    assert_eq!(explore(&t, &b, 2), 400);
    assert_eq!(explore(&t, &b, 3), 8902);
    assert_eq!(explore(&t, &b, 4), 197_281);
}

#[test]
fn perft_start_depth_five() {
    let t = AttackTables::new();
    let b = Board::new(&t);
    assert_eq!(explore(&t, &b, 5), 4_865_609);
}

#[test]
fn perft_en_passant_discovered_check() {
    assert_eq!(perft_from("8/5bk1/8/2Pp4/8/1K6/8/8 w - d6 0 1", 6), 824_064);
    assert_eq!(perft_from("8/8/1k6/8/2pP4/8/5BK1/8 b - d3 0 1", 6), 824_064);
}

#[test]
fn perft_en_passant_pin() {
    assert_eq!(perft_from("8/8/1k6/2b5/2pP4/8/5K2/8 b - d3 0 1", 6), 1_440_467);
    assert_eq!(perft_from("8/5k2/8/2Pp4/2B5/1K6/8/8 w - d6 0 1", 6), 1_440_467);
}

#[test]
fn perft_castling_rights() {
    assert_eq!(perft_from("5k2/8/8/8/8/8/8/4K2R w K - 0 1", 6), 661_072);
    assert_eq!(perft_from("4k2r/8/8/8/8/8/8/5K2 b k - 0 1", 6), 661_072);
    assert_eq!(perft_from("3k4/8/8/8/8/8/8/R3K3 w Q - 0 1", 6), 803_711);
    assert_eq!(perft_from("r3k3/8/8/8/8/8/8/3K4 b q - 0 1", 6), 803_711);
}

#[test]
fn perft_promotion_race() {
    assert_eq!(perft_from("4k3/1P6/8/8/8/8/K7/8 w - - 0 1", 6), 217_342);
    assert_eq!(perft_from("8/P1k5/K7/8/8/8/8/8 w - - 0 1", 6), 92_683);
    assert_eq!(perft_from("K1k5/8/P7/8/8/8/8/8 w - - 0 1", 6), 2_217);
    assert_eq!(perft_from("8/k1P5/8/1K6/8/8/8/8 w - - 0 1", 7), 567_584);
}

#[test]
fn perft_kiwipete_depth_four() {
    assert_eq!(
        perft_from("r3k2r/p1ppqpb1/bn2pnp1/3PN3/1p2P3/2N2Q1p/PPPBBPPP/R3K2R w KQkq - 0 1", 4),
        4_085_603
    );
}

#[test]
fn en_passant_vacated_rank_is_excluded() {
    let t = AttackTables::new();
    // Capturing and captured pawn side by side between king and rook: taking
    // en passant would vacate the whole rank and bare the a5 king to the h5
    // rook, so b5xc6 e.p. is illegal while the plain push stays legal.
    let b = Board::from_fen(&t, "7k/8/8/KPp4r/8/8/8/8 w - c6 0 1").unwrap();
    let ep = Move::en_passant(Square(33), Square(42), Square(34));
    assert!(!b.is_move_legal(&t, ep));
    assert!(b.is_move_legal(&t, Move::quiet(Square(33), Square(41))));
}

#[test]
fn perft_en_passant_vacated_rank() {
    // A rook x-raying the vacated rank through both pawns, and a bishop
    // x-raying the vacated diagonal through the captured pawn.
    assert_eq!(perft_from("3k4/3p4/8/K1P4r/8/8/8/8 b - - 0 1", 6), 1_134_888);
    assert_eq!(perft_from("8/8/4k3/8/2p5/8/B2P2K1/8 w - - 0 1", 6), 1_015_133);
}

#[test]
fn en_passant_discovered_check_is_excluded() {
    let t = AttackTables::new();
    let b = Board::from_fen(&t, "8/5bk1/8/2Pp4/8/1K6/8/8 w - d6 0 1").unwrap();
    // c5 pawn taking d5 en passant would uncover the f7 bishop's diagonal.
    let ep = Move::en_passant(Square(34), Square(43), Square(35));
    assert!(!b.is_move_legal(&t, ep));
    // The plain push and the plain advance stay available.
    assert!(b.is_move_legal(&t, Move::quiet(Square(34), Square(42))));
}

fn play(t: &AttackTables, b: &Board, from: u8, to: u8) -> Board {
    let mv = Move::quiet(Square(from), Square(to));
    assert!(b.is_move_legal(t, mv));
    b.play_move(t, mv)
}

#[test]
fn scholars_mate_is_checkmate() {
    let t = AttackTables::new();
    let mut b = Board::new(&t);
    b = play(&t, &b, 12, 28); // e4
    b = play(&t, &b, 52, 36); // e5
    b = play(&t, &b, 3, 39); // Qh5
    b = play(&t, &b, 57, 42); // Nc6
    b = play(&t, &b, 5, 26); // Bc4
    b = play(&t, &b, 62, 45); // Nf6
    b = play(&t, &b, 39, 53); // Qxf7 mate
    assert_eq!(b.num_moves(&t), 0);
    assert!(b.in_check());
    assert!(b.in_checkmate(&t));
    assert!(!b.in_stalemate(&t));
}

#[test]
fn draw_detection() {
    let t = AttackTables::new();
    let kings = Board::from_fen(&t, "8/8/4k3/8/8/3K4/8/8 w - - 0 1").unwrap();
    assert!(kings.is_material_insufficient());
    let minor = Board::from_fen(&t, "8/8/4k3/8/5B2/3K4/8/8 w - - 0 1").unwrap();
    assert!(minor.is_material_insufficient());
    let knight = Board::from_fen(&t, "8/8/4k3/8/5n2/3K4/8/8 w - - 0 1").unwrap();
    assert!(knight.is_material_insufficient());
    let rook = Board::from_fen(&t, "8/8/4k3/8/5R2/3K4/8/8 w - - 0 1").unwrap();
    assert!(!rook.is_material_insufficient());
    let clock = Board::from_fen(&t, "8/8/4k3/8/8/3K4/8/8 w - - 101 120").unwrap();
    assert!(clock.can_claim_draw_with(DrawType::FiftyMoveRule));
    assert!(clock.can_claim_draw());
    let fresh = Board::from_fen(&t, "r3k2r/8/8/8/8/8/8/R3K2R w KQkq - 40 30").unwrap();
    assert!(!fresh.can_claim_draw_with(DrawType::FiftyMoveRule));
}

fn census(t: &AttackTables, b: &Board, depth: u32, fens: &mut HashSet<String>, hashes: &mut HashSet<u64>) {
    // The clocks do not identify a position: keep the first four fields only.
    let fen = b.to_fen();
    let key = fen.split(' ').take(4).collect::<Vec<_>>().join(" ");
    fens.insert(key);
    hashes.insert(b.zobrist_hash());
    if depth == 0 {
        return;
    }
    for mv in b.legal_moves(t).to_moves() {
        census(t, &b.play_move(t, mv), depth - 1, fens, hashes);
    }
}

#[test]
fn hash_distinguishes_positions_to_depth_four() {
    let t = AttackTables::new();
    let b = Board::new(&t);
    let mut fens = HashSet::new();
    let mut hashes = HashSet::new();
    census(&t, &b, 4, &mut fens, &mut hashes);
    assert_eq!(fens.len(), hashes.len());
}

#[test]
fn hash_matches_after_reparsing() {
    let t = AttackTables::new();
    let b = Board::new(&t);
    let before = b.to_fen();
    let h0 = b.zobrist_hash();
    let next = play(&t, &b, 12, 28);
    assert_ne!(next.zobrist_hash(), h0);
    let reparsed = Board::from_fen(&t, &before).unwrap();
    assert_eq!(reparsed.zobrist_hash(), h0);
}

#[test]
fn applying_moves_keeps_clocks_and_rights() {
    let t = AttackTables::new();
    let b = Board::from_fen(&t, "r3k2r/8/8/8/8/8/8/R3K2R w KQkq - 4 10").unwrap();
    // Moving the h1 rook revokes only White's king-side right.
    let after = play(&t, &b, 7, 6);
    let fen = after.to_fen();
    assert_eq!(fen, "r3k2r/8/8/8/8/8/8/R3K1R1 b Qkq - 5 10");
    // Castling itself is generated and applies both movements.
    let castle = Move::castling(chess_std::units::Color::White, chess_std::moves::Side::King);
    assert!(b.is_move_legal(&t, castle));
    let castled = b.play_move(&t, castle);
    assert_eq!(castled.to_fen(), "r3k2r/8/8/8/8/8/8/R4RK1 b kq - 5 10");
}
