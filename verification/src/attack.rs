//! Board geometry and piece attacks: rays per direction, the direction and
//! the squares between two squares, knight, king and pawn patterns, and the
//! sliding attack fill that stops at the first blocker.
//!
//! Everything is stated against walk specifications: a ray is what repeated
//! single steps reach before the board edge, a fuel of eight more than covers
//! the seven steps geometry allows.

use vstd::prelude::*;

use crate::bit::{bb_has, spec_shift, Bitboard};
use crate::units::{Color, Direction, Square};

verus! {

/// Whether a step from square `s` towards `d` stays on the board: both
/// coordinates must remain within the eight ranks and files.
pub open spec fn step_ok(s: u64, d: Direction) -> bool {
    s < 64 && d != Direction::NoDir && 0 <= s as int / 8 + d.spec_dr() < 8 && 0 <= s as int % 8
        + d.spec_df() < 8
}

/// The square one step from `s` towards `d`; meaningful under `step_ok`.
pub open spec fn step_to(s: u64, d: Direction) -> u64 {
    (s + d.spec_delta()) as u64
}

/// A step lands on the board, on the expected coordinates.
pub proof fn lemma_step(s: u64, d: Direction)
    requires
        step_ok(s, d),
    ensures
        0 <= s + d.spec_delta() < 64,
        step_to(s, d) < 64,
        step_to(s, d) as int / 8 == s as int / 8 + d.spec_dr(),
        step_to(s, d) as int % 8 == s as int % 8 + d.spec_df(),
{
    let r = s as int / 8;
    let f = s as int % 8;
    assert(s == 8 * r + f);
    let t = 8 * (r + d.spec_dr()) + (f + d.spec_df());
    assert(s + d.spec_delta() == t);
    assert(t / 8 == r + d.spec_dr() && t % 8 == f + d.spec_df()) by (nonlinear_arith)
        requires
            t == 8 * (r + d.spec_dr()) + (f + d.spec_df()),
            0 <= r + d.spec_dr() < 8,
            0 <= f + d.spec_df() < 8,
    ;
}

/// The union with the empty set changes nothing.
proof fn lemma_or_zero(x: u64)
    by (bit_vector)
    ensures
        0u64 | x == x,
        x | 0u64 == x,
{
}

/// The union of bitboards associates.
proof fn lemma_or_assoc(a: u64, b: u64, c: u64)
    by (bit_vector)
    ensures
        a | (b | c) == (a | b) | c,
{
}

/// The squares a walk of at most `n` steps from `s` towards `d` visits,
/// stopping at the board edge.
pub open spec fn ray_n(d: Direction, s: u64, n: nat) -> u64
    decreases n,
{
    if n == 0 || !step_ok(s, d) {
        0
    } else {
        let t = step_to(s, d);
        (1u64 << t) | ray_n(d, t, (n - 1) as nat)
    }
}

/// The ray from `s` towards `d`: every square strictly beyond `s` up to the
/// board edge. Seven steps exhaust any ray, so a fuel of eight is full.
pub open spec fn ray(d: Direction, s: u64) -> u64 {
    ray_n(d, s, 8)
}

/// The squares a walk of at most `n` steps visits before reaching `t`,
/// exclusive on both ends; empty when `t` is not ahead on the walk.
pub open spec fn between_n(d: Direction, s: u64, t: u64, n: nat) -> u64
    decreases n,
{
    if n == 0 || !step_ok(s, d) {
        0
    } else {
        let u = step_to(s, d);
        if u == t {
            0
        } else {
            (1u64 << u) | between_n(d, u, t, (n - 1) as nat)
        }
    }
}

/// The squares a sliding piece on `s` attacks towards `d` given the occupied
/// squares `occ`, walking at most `n` steps: each square reached before the
/// board edge, up to and including the first occupied one.
pub open spec fn ray_attack_n(d: Direction, s: u64, occ: u64, n: nat) -> u64
    decreases n,
{
    if n == 0 || !step_ok(s, d) {
        0
    } else {
        let t = step_to(s, d);
        if bb_has(occ, t) {
            1u64 << t
        } else {
            (1u64 << t) | ray_attack_n(d, t, occ, (n - 1) as nat)
        }
    }
}

/// The full sliding attack towards one direction.
pub open spec fn ray_attack(d: Direction, s: u64, occ: u64) -> u64 {
    ray_attack_n(d, s, occ, 8)
}

/// What `direction_between` returns: the direction of the straight line from
/// `from` to `to` when the two distinct squares share a rank, a file or a
/// diagonal, and the null direction otherwise.
pub open spec fn spec_dir_between(from: u64, to: u64) -> Direction {
    let r1 = from as int / 8;
    let f1 = from as int % 8;
    let r2 = to as int / 8;
    let f2 = to as int % 8;
    if from == to || from >= 64 || to >= 64 {
        Direction::NoDir
    } else if r1 == r2 {
        if f2 > f1 {
            Direction::East
        } else {
            Direction::West
        }
    } else if f1 == f2 {
        if r2 > r1 {
            Direction::North
        } else {
            Direction::South
        }
    } else if r2 - r1 == f2 - f1 {
        if r2 > r1 {
            Direction::NorthEast
        } else {
            Direction::SouthWest
        }
    } else if r2 - r1 == f1 - f2 {
        if r2 > r1 {
            Direction::NorthWest
        } else {
            Direction::SouthEast
        }
    } else {
        Direction::NoDir
    }
}

/// What `fill_between` returns.
pub open spec fn spec_between(from: u64, to: u64) -> u64 {
    between_n(spec_dir_between(from, to), from, to, 8)
}

/// What `fill_line` returns: the whole line through two distinct co-linear
/// squares, extended to both board edges, and empty otherwise.
pub open spec fn spec_line(from: u64, to: u64) -> u64 {
    let d = spec_dir_between(from, to);
    if d == Direction::NoDir {
        0
    } else {
        (1u64 << from) | ray(d, from) | ray(d.spec_opposite(), from)
    }
}

/// The pseudo-attacks of a knight: the eight knight offsets clipped to the
/// board.
pub open spec fn knight_mask(s: u64) -> u64 {
    let b = 1u64 << s;
    spec_shift(spec_shift(b, Direction::North), Direction::NorthEast) | spec_shift(
        spec_shift(b, Direction::North),
        Direction::NorthWest,
    ) | spec_shift(spec_shift(b, Direction::South), Direction::SouthEast) | spec_shift(
        spec_shift(b, Direction::South),
        Direction::SouthWest,
    ) | spec_shift(spec_shift(b, Direction::East), Direction::NorthEast) | spec_shift(
        spec_shift(b, Direction::East),
        Direction::SouthEast,
    ) | spec_shift(spec_shift(b, Direction::West), Direction::NorthWest) | spec_shift(
        spec_shift(b, Direction::West),
        Direction::SouthWest,
    )
}

/// The pseudo-attacks of a king: the eight neighbour squares clipped to the
/// board.
pub open spec fn king_mask(s: u64) -> u64 {
    let b = 1u64 << s;
    spec_shift(b, Direction::North) | spec_shift(b, Direction::South) | spec_shift(
        b,
        Direction::East,
    ) | spec_shift(b, Direction::West) | spec_shift(b, Direction::NorthEast) | spec_shift(
        b,
        Direction::NorthWest,
    ) | spec_shift(b, Direction::SouthEast) | spec_shift(b, Direction::SouthWest)
}

/// The two diagonal capture squares of a pawn of a color.
pub open spec fn pawn_attack_mask(c: Color, s: u64) -> u64 {
    let b = 1u64 << s;
    match c {
        Color::White => spec_shift(b, Direction::NorthWest) | spec_shift(b, Direction::NorthEast),
        Color::Black => spec_shift(b, Direction::SouthWest) | spec_shift(b, Direction::SouthEast),
    }
}

/// What `pawn_pushes` returns: one step forward if empty, plus the double
/// push from the home rank when both squares are empty.
pub open spec fn pawn_push_mask(c: Color, s: u64, blockers: u64) -> u64 {
    let d = Direction::spec_of_pawns(c);
    let home = if c == Color::White {
        1int
    } else {
        6int
    };
    let one = spec_shift(1u64 << s, d) & !blockers;
    if s as int / 8 == home {
        one | (spec_shift(one, d) & !blockers)
    } else {
        one
    }
}

/// The direction in which a piece must move from one square to reach another;
/// the null direction when the squares are equal or share no line.
pub fn direction_between(from: Square, to: Square) -> (r: Direction)
    requires
        from.wf(),
        to.wf(),
    ensures
        r == spec_dir_between(from.0 as u64, to.0 as u64),
{
    let r1 = from.0 / 8;
    let f1 = from.0 % 8;
    let r2 = to.0 / 8;
    let f2 = to.0 % 8;
    if from.0 == to.0 {
        Direction::NoDir
    } else if r1 == r2 {
        if f2 > f1 {
            Direction::East
        } else {
            Direction::West
        }
    } else if f1 == f2 {
        if r2 > r1 {
            Direction::North
        } else {
            Direction::South
        }
    } else if r2 as i8 - r1 as i8 == f2 as i8 - f1 as i8 {
        if r2 > r1 {
            Direction::NorthEast
        } else {
            Direction::SouthWest
        }
    } else if r2 as i8 - r1 as i8 == f1 as i8 - f2 as i8 {
        if r2 > r1 {
            Direction::NorthWest
        } else {
            Direction::SouthEast
        }
    } else {
        Direction::NoDir
    }
}

/// The square one step from `s` towards `d`, or nothing at the board edge.
pub fn try_step(s: Square, d: Direction) -> (r: Option<Square>)
    requires
        s.wf(),
    ensures
        r is Some <==> step_ok(s.0 as u64, d),
        r is Some ==> r->Some_0.wf() && r->Some_0.0 == step_to(s.0 as u64, d),
{
    let dr: i8 = match d {
        Direction::North => 1,
        Direction::South => -1,
        Direction::East => 0,
        Direction::West => 0,
        Direction::NorthWest => 1,
        Direction::NorthEast => 1,
        Direction::SouthWest => -1,
        Direction::SouthEast => -1,
        Direction::NoDir => 0,
    };
    let df: i8 = match d {
        Direction::North => 0,
        Direction::South => 0,
        Direction::East => 1,
        Direction::West => -1,
        Direction::NorthWest => -1,
        Direction::NorthEast => 1,
        Direction::SouthWest => -1,
        Direction::SouthEast => 1,
        Direction::NoDir => 0,
    };
    if d == Direction::NoDir {
        return None;
    }
    let r = (s.0 / 8) as i8;
    let f = (s.0 % 8) as i8;
    if 0 <= r + dr && r + dr < 8 && 0 <= f + df && f + df < 8 {
        proof {
            lemma_step(s.0 as u64, d);
        }
        Some(Square(((r + dr) * 8 + (f + df)) as u8))
    } else {
        None
    }
}

/// The ray from a square towards a direction, walked step by step.
fn ray_walk(d: Direction, s: Square) -> (r: Bitboard)
    requires
        s.wf(),
    ensures
        r.0 == ray(d, s.0 as u64),
{
    let mut acc: u64 = 0;
    let mut cur = s;
    let mut k: usize = 0;
    proof {
        lemma_or_zero(ray(d, s.0 as u64));
    }
    while k < 8
        invariant
            cur.wf(),
            k <= 8,
            ray(d, s.0 as u64) == acc | ray_n(d, cur.0 as u64, (8 - k) as nat),
        decreases 8 - k,
    {
        match try_step(cur, d) {
            None => {
                proof {
                    assert(ray_n(d, cur.0 as u64, (8 - k) as nat) == 0);
                    lemma_or_zero(acc);
                }
                return Bitboard(acc);
            },
            Some(t) => {
                proof {
                    lemma_or_assoc(acc, 1u64 << (t.0 as u64), ray_n(d, t.0 as u64, (8 - k - 1) as nat));
                }
                acc = acc | (1u64 << t.0);
                cur = t;
                k = k + 1;
            },
        }
    }
    proof {
        assert(ray_n(d, cur.0 as u64, 0) == 0);
        lemma_or_zero(acc);
    }
    Bitboard(acc)
}

/// The squares strictly between two squares, walked from the first towards
/// the second; empty when no straight line joins them.
pub fn fill_between(from: Square, to: Square) -> (r: Bitboard)
    requires
        from.wf(),
        to.wf(),
    ensures
        r.0 == spec_between(from.0 as u64, to.0 as u64),
{
    let d = direction_between(from, to);
    let mut acc: u64 = 0;
    let mut cur = from;
    let mut k: usize = 0;
    proof {
        lemma_or_zero(spec_between(from.0 as u64, to.0 as u64));
    }
    while k < 8
        invariant
            cur.wf(),
            k <= 8,
            spec_between(from.0 as u64, to.0 as u64) == acc | between_n(
                d,
                cur.0 as u64,
                to.0 as u64,
                (8 - k) as nat,
            ),
        decreases 8 - k,
    {
        match try_step(cur, d) {
            None => {
                proof {
                    lemma_or_zero(acc);
                }
                return Bitboard(acc);
            },
            Some(t) => {
                if t.0 == to.0 {
                    proof {
                        lemma_or_zero(acc);
                    }
                    return Bitboard(acc);
                }
                proof {
                    lemma_or_assoc(
                        acc,
                        1u64 << (t.0 as u64),
                        between_n(d, t.0 as u64, to.0 as u64, (8 - k - 1) as nat),
                    );
                }
                acc = acc | (1u64 << t.0);
                cur = t;
                k = k + 1;
            },
        }
    }
    proof {
        lemma_or_zero(acc);
    }
    Bitboard(acc)
}

/// Fills a ray attack towards a direction: the walk stops at the first
/// occupied square, which is kept when it holds an enemy and removed when it
/// holds a friend, as are all same-color squares.
pub fn fill(d: Direction, from: Square, same_color: Bitboard, enemy: Bitboard) -> (r: Bitboard)
    requires
        from.wf(),
    ensures
        r.0 == ray_attack(d, from.0 as u64, same_color.0 | enemy.0) & !same_color.0,
{
    let occ = same_color.0 | enemy.0;
    let mut acc: u64 = 0;
    let mut cur = from;
    let mut k: usize = 0;
    proof {
        lemma_or_zero(ray_attack(d, from.0 as u64, occ));
    }
    while k < 8
        invariant
            cur.wf(),
            k <= 8,
            occ == same_color.0 | enemy.0,
            ray_attack(d, from.0 as u64, occ) == acc | ray_attack_n(
                d,
                cur.0 as u64,
                occ,
                (8 - k) as nat,
            ),
        decreases 8 - k,
    {
        match try_step(cur, d) {
            None => {
                proof {
                    lemma_or_zero(acc);
                }
                return Bitboard(acc & !same_color.0);
            },
            Some(t) => {
                let ghost prev = acc;
                let tb = 1u64 << t.0;
                acc = acc | tb;
                if (occ >> t.0) & 1u64 == 1u64 {
                    return Bitboard(acc & !same_color.0);
                }
                proof {
                    lemma_or_assoc(prev, tb, ray_attack_n(d, t.0 as u64, occ, (8 - k - 1) as nat));
                }
                cur = t;
                k = k + 1;
            },
        }
    }
    proof {
        lemma_or_zero(acc);
    }
    Bitboard(acc & !same_color.0)
}

/// The pawn pushes and double pushes of a color from a square, given the
/// occupied squares: a blocker directly ahead cancels the double push too.
pub fn pawn_pushes(c: Color, from: Square, blockers: Bitboard) -> (r: Bitboard)
    requires
        from.wf(),
    ensures
        r.0 == pawn_push_mask(c, from.0 as u64, blockers.0),
{
    let d = Direction::of_pawns(c);
    let one = Bitboard(Bitboard::single(from).shift(d).0 & !blockers.0);
    let home: u8 = match c {
        Color::White => 1,
        Color::Black => 6,
    };
    if from.0 / 8 == home {
        Bitboard(one.0 | (one.shift(d).0 & !blockers.0))
    } else {
        one
    }
}

/// The precomputed geometry tables: rays per direction and square, and the
/// knight, king and pawn patterns per square. Built once at initialization
/// and read-only afterwards.
pub struct AttackTables {
    rays: Vec<u64>,
    knight: Vec<u64>,
    king: Vec<u64>,
    pawn: Vec<u64>,
}

/// The direction a ray-table row index stands for.
pub open spec fn spec_dir_of(i: int) -> Direction {
    if i == 0 {
        Direction::North
    } else if i == 1 {
        Direction::South
    } else if i == 2 {
        Direction::East
    } else if i == 3 {
        Direction::West
    } else if i == 4 {
        Direction::NorthWest
    } else if i == 5 {
        Direction::NorthEast
    } else if i == 6 {
        Direction::SouthWest
    } else if i == 7 {
        Direction::SouthEast
    } else {
        Direction::NoDir
    }
}

impl AttackTables {
    /// The tables hold exactly the walk rays and the offset patterns.
    pub closed spec fn wf(&self) -> bool {
        &&& self.rays@.len() == 512
        &&& self.knight@.len() == 64
        &&& self.king@.len() == 64
        &&& self.pawn@.len() == 128
        &&& forall|i: int|
            0 <= i < 512 ==> #[trigger] self.rays@[i] == ray(spec_dir_of(i / 64), (i % 64) as u64)
        &&& forall|s: int| 0 <= s < 64 ==> #[trigger] self.knight@[s] == knight_mask(s as u64)
        &&& forall|s: int| 0 <= s < 64 ==> #[trigger] self.king@[s] == king_mask(s as u64)
        &&& forall|i: int|
            0 <= i < 128 ==> #[trigger] self.pawn@[i] == pawn_attack_mask(
                if i / 64 == 0 {
                    Color::White
                } else {
                    Color::Black
                },
                (i % 64) as u64,
            )
    }

    /// Builds every table by walking the board geometry once.
    pub fn new() -> (r: AttackTables)
        ensures
            r.wf(),
    {
        let mut rays: Vec<u64> = Vec::new();
        let mut d: usize = 0;
        while d < 8
            invariant
                d <= 8,
                rays@.len() == d * 64,
                forall|i: int|
                    0 <= i < rays@.len() ==> #[trigger] rays@[i] == ray(
                        spec_dir_of(i / 64),
                        (i % 64) as u64,
                    ),
            decreases 8 - d,
        {
            let dir = Direction::from_index(d);
            proof {
                assert(spec_dir_of(d as int) == dir);
            }
            let mut s: usize = 0;
            while s < 64
                invariant
                    d < 8,
                    s <= 64,
                    dir == spec_dir_of(d as int),
                    rays@.len() == d * 64 + s,
                    forall|i: int|
                        0 <= i < rays@.len() ==> #[trigger] rays@[i] == ray(
                            spec_dir_of(i / 64),
                            (i % 64) as u64,
                        ),
                decreases 64 - s,
            {
                let bb = ray_walk(dir, Square(s as u8));
                proof {
                    assert((d * 64 + s) as int / 64 == d && (d * 64 + s) as int % 64
                        == s) by (nonlinear_arith)
                        requires
                            0 <= d < 8 && 0 <= s < 64,
                    ;
                }
                rays.push(bb.0);
                s = s + 1;
            }
            d = d + 1;
        }
        let mut knight: Vec<u64> = Vec::new();
        let mut king: Vec<u64> = Vec::new();
        let mut s: usize = 0;
        while s < 64
            invariant
                s <= 64,
                knight@.len() == s,
                king@.len() == s,
                forall|ss: int| 0 <= ss < s ==> knight@[ss] == knight_mask(ss as u64),
                forall|ss: int| 0 <= ss < s ==> king@[ss] == king_mask(ss as u64),
            decreases 64 - s,
        {
            let b = Bitboard::single(Square(s as u8));
            let n = b.shift(Direction::North);
            let so = b.shift(Direction::South);
            let e = b.shift(Direction::East);
            let w = b.shift(Direction::West);
            knight.push(
                n.shift(Direction::NorthEast).0 | n.shift(Direction::NorthWest).0 | so.shift(
                    Direction::SouthEast,
                ).0 | so.shift(Direction::SouthWest).0 | e.shift(Direction::NorthEast).0 | e.shift(
                    Direction::SouthEast,
                ).0 | w.shift(Direction::NorthWest).0 | w.shift(Direction::SouthWest).0,
            );
            king.push(
                n.0 | so.0 | e.0 | w.0 | b.shift(Direction::NorthEast).0 | b.shift(
                    Direction::NorthWest,
                ).0 | b.shift(Direction::SouthEast).0 | b.shift(Direction::SouthWest).0,
            );
            s = s + 1;
        }
        let mut pawn: Vec<u64> = Vec::new();
        let mut c: usize = 0;
        while c < 2
            invariant
                c <= 2,
                pawn@.len() == c * 64,
                forall|i: int|
                    0 <= i < pawn@.len() ==> #[trigger] pawn@[i] == pawn_attack_mask(
                        if i / 64 == 0 {
                            Color::White
                        } else {
                            Color::Black
                        },
                        (i % 64) as u64,
                    ),
            decreases 2 - c,
        {
            let col = if c == 0 {
                Color::White
            } else {
                Color::Black
            };
            let mut s2: usize = 0;
            while s2 < 64
                invariant
                    c < 2,
                    s2 <= 64,
                    col == (if c == 0 {
                        Color::White
                    } else {
                        Color::Black
                    }),
                    pawn@.len() == c * 64 + s2,
                    forall|i: int|
                        0 <= i < pawn@.len() ==> #[trigger] pawn@[i] == pawn_attack_mask(
                            if i / 64 == 0 {
                                Color::White
                            } else {
                                Color::Black
                            },
                            (i % 64) as u64,
                        ),
                decreases 64 - s2,
            {
                let b = Bitboard::single(Square(s2 as u8));
                let m = match col {
                    Color::White => b.shift(Direction::NorthWest).0 | b.shift(
                        Direction::NorthEast,
                    ).0,
                    Color::Black => b.shift(Direction::SouthWest).0 | b.shift(
                        Direction::SouthEast,
                    ).0,
                };
                proof {
                    assert((c * 64 + s2) as int / 64 == c && (c * 64 + s2) as int % 64
                        == s2) by (nonlinear_arith)
                        requires
                            0 <= c < 2 && 0 <= s2 < 64,
                    ;
                }
                pawn.push(m);
                s2 = s2 + 1;
            }
            c = c + 1;
        }
        AttackTables { rays, knight, king, pawn }
    }

    /// The ray from a square towards a direction, read from the tables.
    pub fn get_ray(&self, d: Direction, from: Square) -> (r: Bitboard)
        requires
            self.wf(),
            from.wf(),
            d != Direction::NoDir,
        ensures
            r.0 == ray(d, from.0 as u64),
    {
        let i = d.index();
        proof {
            assert((i * 64 + from.0) as int / 64 == i && (i * 64 + from.0) as int % 64
                == from.0) by (nonlinear_arith)
                requires
                    0 <= i < 8 && 0 <= from.0 < 64,
            ;
            assert(spec_dir_of(i as int) == d);
        }
        Bitboard(self.rays[i * 64 + from.0 as usize])
    }

    /// The union of the four diagonal rays from a square.
    pub fn bishop_rays(&self, from: Square) -> (r: Bitboard)
        requires
            self.wf(),
            from.wf(),
        ensures
            r.0 == (ray(Direction::NorthWest, from.0 as u64) | ray(
                Direction::NorthEast,
                from.0 as u64,
            ) | ray(Direction::SouthWest, from.0 as u64) | ray(
                Direction::SouthEast,
                from.0 as u64,
            )),
    {
        Bitboard(
            self.get_ray(Direction::NorthWest, from).0 | self.get_ray(Direction::NorthEast, from).0
                | self.get_ray(Direction::SouthWest, from).0 | self.get_ray(
                Direction::SouthEast,
                from,
            ).0,
        )
    }

    /// The union of the four straight rays from a square.
    pub fn rook_rays(&self, from: Square) -> (r: Bitboard)
        requires
            self.wf(),
            from.wf(),
        ensures
            r.0 == (ray(Direction::North, from.0 as u64) | ray(Direction::South, from.0 as u64)
                | ray(Direction::East, from.0 as u64) | ray(Direction::West, from.0 as u64)),
    {
        Bitboard(
            self.get_ray(Direction::North, from).0 | self.get_ray(Direction::South, from).0
                | self.get_ray(Direction::East, from).0 | self.get_ray(Direction::West, from).0,
        )
    }

    /// The whole line through two squares extended to both board edges, or the
    /// empty set when no line joins them.
    pub fn fill_line(&self, from: Square, to: Square) -> (r: Bitboard)
        requires
            self.wf(),
            from.wf(),
            to.wf(),
        ensures
            r.0 == spec_line(from.0 as u64, to.0 as u64),
    {
        let d = direction_between(from, to);
        if let Direction::NoDir = d {
            Bitboard(0)
        } else {
            let s = Bitboard::single(from);
            Bitboard(s.0 | self.get_ray(d, from).0 | self.get_ray(d.opposite(), from).0)
        }
    }

    /// The knight pseudo-attacks from a square, own pieces removed.
    pub fn of_knight(&self, from: Square, same_color: Bitboard) -> (r: Bitboard)
        requires
            self.wf(),
            from.wf(),
        ensures
            r.0 == knight_mask(from.0 as u64) & !same_color.0,
    {
        Bitboard(self.knight[from.0 as usize] & !same_color.0)
    }

    /// The king pseudo-attacks from a square, own pieces removed.
    pub fn of_king(&self, from: Square, same_color: Bitboard) -> (r: Bitboard)
        requires
            self.wf(),
            from.wf(),
        ensures
            r.0 == king_mask(from.0 as u64) & !same_color.0,
    {
        Bitboard(self.king[from.0 as usize] & !same_color.0)
    }

    /// The pawn capture attacks of a color from a square, kept only where an
    /// enemy stands.
    pub fn of_pawn(&self, c: Color, from: Square, enemy: Bitboard) -> (r: Bitboard)
        requires
            self.wf(),
            from.wf(),
        ensures
            r.0 == pawn_attack_mask(c, from.0 as u64) & enemy.0,
    {
        let ci = c.index();
        proof {
            assert((ci * 64 + from.0) as int / 64 == ci && (ci * 64 + from.0) as int % 64
                == from.0) by (nonlinear_arith)
                requires
                    0 <= ci < 2 && 0 <= from.0 < 64,
            ;
        }
        Bitboard(self.pawn[ci * 64 + from.0 as usize] & enemy.0)
    }

    /// The bishop attacks from a square: the four diagonal fills.
    pub fn of_bishop(&self, from: Square, same_color: Bitboard, enemy: Bitboard) -> (r: Bitboard)
        requires
            self.wf(),
            from.wf(),
        ensures
            r.0 == bishop_attack(from.0 as u64, same_color.0, enemy.0),
    {
        Bitboard(
            fill(Direction::NorthWest, from, same_color, enemy).0 | fill(
                Direction::NorthEast,
                from,
                same_color,
                enemy,
            ).0 | fill(Direction::SouthWest, from, same_color, enemy).0 | fill(
                Direction::SouthEast,
                from,
                same_color,
                enemy,
            ).0,
        )
    }

    /// The rook attacks from a square: the four straight fills.
    pub fn of_rook(&self, from: Square, same_color: Bitboard, enemy: Bitboard) -> (r: Bitboard)
        requires
            self.wf(),
            from.wf(),
        ensures
            r.0 == rook_attack(from.0 as u64, same_color.0, enemy.0),
    {
        Bitboard(
            fill(Direction::North, from, same_color, enemy).0 | fill(
                Direction::South,
                from,
                same_color,
                enemy,
            ).0 | fill(Direction::East, from, same_color, enemy).0 | fill(
                Direction::West,
                from,
                same_color,
                enemy,
            ).0,
        )
    }

    /// The queen attacks from a square: the eight fills.
    pub fn of_queen(&self, from: Square, same_color: Bitboard, enemy: Bitboard) -> (r: Bitboard)
        requires
            self.wf(),
            from.wf(),
        ensures
            r.0 == (bishop_attack(from.0 as u64, same_color.0, enemy.0) | rook_attack(
                from.0 as u64,
                same_color.0,
                enemy.0,
            )),
    {
        Bitboard(
            self.of_bishop(from, same_color, enemy).0 | self.of_rook(from, same_color, enemy).0,
        )
    }
}

/// The bishop attack set: the four diagonal sliding fills, own pieces
/// removed.
pub open spec fn bishop_attack(s: u64, same: u64, enemy: u64) -> u64 {
    let occ = same | enemy;
    (ray_attack(Direction::NorthWest, s, occ) & !same) | (ray_attack(Direction::NorthEast, s, occ)
        & !same) | (ray_attack(Direction::SouthWest, s, occ) & !same) | (ray_attack(
        Direction::SouthEast,
        s,
        occ,
    ) & !same)
}

/// The rook attack set: the four straight sliding fills, own pieces removed.
pub open spec fn rook_attack(s: u64, same: u64, enemy: u64) -> u64 {
    let occ = same | enemy;
    (ray_attack(Direction::North, s, occ) & !same) | (ray_attack(Direction::South, s, occ) & !same)
        | (ray_attack(Direction::East, s, occ) & !same) | (ray_attack(Direction::West, s, occ)
        & !same)
}

} // verus!
