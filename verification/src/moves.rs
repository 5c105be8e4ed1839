//! Pseudo-legal move generation: the destination squares each piece kind can
//! reach by its movement pattern, respecting blocking and capture rules but
//! not whether the mover's own king is left in check.
//!
//! Pawns include the recorded en-passant target as a capture destination;
//! kings include the castling destinations, gated on rights, clear path and
//! the attacked-square prohibitions, so that castling through check never
//! appears even as pseudo-legal.

use vstd::prelude::*;

use crate::attack::attacked;
use crate::attack::piece_of_at;
use crate::board::Board;
use crate::board::BoardModel;
use crate::pieces::Color;
use crate::pieces::PieceType;
use crate::position::abs_val;
use crate::position::on_board;
use crate::position::Position;

verus! {

/// Whether `t` is reachable from `(x, y)` sliding in direction `(dx, dy)`:
/// the ray stops at the board edge, stops excluding a friendly piece, and
/// stops including an enemy piece.
pub open spec fn dir_reach(
    m: BoardModel,
    x: int,
    y: int,
    dx: int,
    dy: int,
    t: Position,
    color: Color,
    fuel: nat,
) -> bool
    decreases fuel,
{
    if fuel == 0 {
        false
    } else {
        let nx = x + dx;
        let ny = y + dy;
        if !on_board(nx, ny) {
            false
        } else {
            match m.at(nx, ny) {
                Some(p) => t.x as int == nx && t.y as int == ny && p.color != color,
                None => (t.x as int == nx && t.y as int == ny) || dir_reach(
                    m,
                    nx,
                    ny,
                    dx,
                    dy,
                    t,
                    color,
                    (fuel - 1) as nat,
                ),
            }
        }
    }
}

/// The destinations of a rook on `from`.
pub open spec fn rook_dest(m: BoardModel, from: Position, color: Color, t: Position) -> bool {
    let fx = from.x as int;
    let fy = from.y as int;
    ||| dir_reach(m, fx, fy, 1, 0, t, color, 8)
    ||| dir_reach(m, fx, fy, -1, 0, t, color, 8)
    ||| dir_reach(m, fx, fy, 0, 1, t, color, 8)
    ||| dir_reach(m, fx, fy, 0, -1, t, color, 8)
}

/// The destinations of a bishop on `from`.
pub open spec fn bishop_dest(m: BoardModel, from: Position, color: Color, t: Position) -> bool {
    let fx = from.x as int;
    let fy = from.y as int;
    ||| dir_reach(m, fx, fy, 1, 1, t, color, 8)
    ||| dir_reach(m, fx, fy, 1, -1, t, color, 8)
    ||| dir_reach(m, fx, fy, -1, 1, t, color, 8)
    ||| dir_reach(m, fx, fy, -1, -1, t, color, 8)
}

/// The destinations of a queen on `from`.
pub open spec fn queen_dest(m: BoardModel, from: Position, color: Color, t: Position) -> bool {
    rook_dest(m, from, color, t) || bishop_dest(m, from, color, t)
}

/// The destinations of a knight on `from`: the eight fixed offsets, on the
/// board and not occupied by a friendly piece.
pub open spec fn knight_dest(m: BoardModel, from: Position, color: Color, t: Position) -> bool {
    let fx = from.x as int;
    let fy = from.y as int;
    let tx = t.x as int;
    let ty = t.y as int;
    &&& ({
        ||| (tx == fx + 2 && ty == fy + 1)
        ||| (tx == fx + 2 && ty == fy - 1)
        ||| (tx == fx - 2 && ty == fy + 1)
        ||| (tx == fx - 2 && ty == fy - 1)
        ||| (tx == fx + 1 && ty == fy + 2)
        ||| (tx == fx + 1 && ty == fy - 2)
        ||| (tx == fx - 1 && ty == fy + 2)
        ||| (tx == fx - 1 && ty == fy - 2)
    })
    &&& on_board(tx, ty)
    &&& !m.color_at(tx, ty, color)
}

/// The destinations of a pawn on `from`: one square forward onto an empty
/// square; two from the starting rank across an empty square; a diagonal
/// step onto an enemy piece or onto the recorded en-passant target.
pub open spec fn pawn_dest(m: BoardModel, from: Position, color: Color, t: Position) -> bool {
    let d: int = if color == Color::White {
        1
    } else {
        -1
    };
    let start_rank: int = if color == Color::White {
        1
    } else {
        6
    };
    let fx = from.x as int;
    let fy = from.y as int;
    let tx = t.x as int;
    let ty = t.y as int;
    ||| (tx == fx && ty == fy + d && on_board(tx, ty) && m.empty_at(tx, ty))
    ||| (tx == fx && fy == start_rank && ty == fy + 2 * d && on_board(tx, ty) && m.empty_at(
        fx,
        fy + d,
    ) && m.empty_at(tx, ty))
    ||| ((tx == fx - 1 || tx == fx + 1) && ty == fy + d && on_board(tx, ty) && (match m.at(tx, ty) {
        Some(p) => p.color != color,
        None => m.en_passant == Some(t),
    }))
}

/// The plain one-square destinations of a king on `from`.
pub open spec fn king_step_dest(m: BoardModel, from: Position, color: Color, t: Position) -> bool {
    let fx = from.x as int;
    let fy = from.y as int;
    let tx = t.x as int;
    let ty = t.y as int;
    &&& abs_val(tx - fx) <= 1
    &&& abs_val(ty - fy) <= 1
    &&& !(tx == fx && ty == fy)
    &&& on_board(tx, ty)
    &&& !m.color_at(tx, ty, color)
}

/// The castling destinations of the king of `color` standing on `from`:
/// the right must still be held, a friendly rook must stand on the matching
/// corner, the squares strictly between king and rook must be empty, and
/// neither the king's square, the square it passes through, nor its
/// destination may be attacked by the opponent.
pub open spec fn castle_dest(m: BoardModel, from: Position, color: Color, t: Position) -> bool {
    let r: int = if color == Color::White {
        0
    } else {
        7
    };
    let kingside_right = if color == Color::White {
        m.castle_wk
    } else {
        m.castle_bk
    };
    let queenside_right = if color == Color::White {
        m.castle_wq
    } else {
        m.castle_bq
    };
    let enemy = color.other();
    ||| (from.x as int == 4 && from.y as int == r && t.x as int == 6 && t.y as int == r
        && kingside_right && piece_of_at(m, 7, r, PieceType::Rook, color) && m.empty_at(5, r)
        && m.empty_at(6, r) && !attacked(m, 4, r, enemy) && !attacked(m, 5, r, enemy) && !attacked(
        m,
        6,
        r,
        enemy,
    ))
    ||| (from.x as int == 4 && from.y as int == r && t.x as int == 2 && t.y as int == r
        && queenside_right && piece_of_at(m, 0, r, PieceType::Rook, color) && m.empty_at(1, r)
        && m.empty_at(2, r) && m.empty_at(3, r) && !attacked(m, 4, r, enemy) && !attacked(
        m,
        3,
        r,
        enemy,
    ) && !attacked(m, 2, r, enemy))
}

/// The full king destination set.
pub open spec fn king_dest(m: BoardModel, from: Position, color: Color, t: Position) -> bool {
    king_step_dest(m, from, color, t) || castle_dest(m, from, color, t)
}

/// The pseudo-legal destination predicate: what the piece standing on
/// `from` (if any) can reach by its movement pattern alone.
pub open spec fn pseudo_legal(m: BoardModel, from: Position, to: Position) -> bool {
    match m.at_pos(from) {
        None => false,
        Some(p) => match p.piece_type {
            PieceType::Pawn => pawn_dest(m, from, p.color, to),
            PieceType::Rook => rook_dest(m, from, p.color, to),
            PieceType::Knight => knight_dest(m, from, p.color, to),
            PieceType::Bishop => bishop_dest(m, from, p.color, to),
            PieceType::Queen => queen_dest(m, from, p.color, to),
            PieceType::King => king_dest(m, from, p.color, to),
            PieceType::Empty => false,
        },
    }
}

/// Appends `p` unless it is already present, keeping the vector free of
/// duplicates.
pub(crate) fn push_unique(moves: &mut Vec<Position>, p: Position)
    ensures
        forall|q: Position| final(moves)@.contains(q) <==> old(moves)@.contains(q) || q == p,
        old(moves)@.no_duplicates() ==> final(moves)@.no_duplicates(),
{
    let n = moves.len();
    let mut i: usize = 0;
    while i < n
        invariant
            i <= n,
            n == moves@.len(),
            forall|j: int| 0 <= j < i ==> moves@[j] != p,
        decreases n - i,
    {
        if moves[i] == p {
            assert(moves@.contains(p));
            return ;
        }
        i = i + 1;
    }
    assert(!moves@.contains(p));
    moves.push(p);
    proof {
        assert forall|q: Position| final(moves)@.contains(q) implies old(moves)@.contains(q) || q
            == p by {
            let k = choose|k: int| 0 <= k < final(moves)@.len() && final(moves)@[k] == q;
            if k < old(moves)@.len() {
                assert(old(moves)@[k] == q);
            }
        }
        assert forall|q: Position| old(moves)@.contains(q) implies final(moves)@.contains(q) by {
            let k = choose|k: int| 0 <= k < old(moves)@.len() && old(moves)@[k] == q;
            assert(final(moves)@[k] == q);
        }
        assert(final(moves)@.contains(p)) by {
            assert(final(moves)@[old(moves)@.len() as int] == p);
        }
    }
}

/// Appends everything a slider reaches from `(x, y)` in direction
/// `(dx, dy)` within `fuel` steps.
fn gen_ray(
    b: &Board,
    x: i8,
    y: i8,
    dx: i8,
    dy: i8,
    color: Color,
    moves: &mut Vec<Position>,
    fuel: u8,
)
    requires
        b@.wf(),
        on_board(x as int, y as int),
        -1 <= dx <= 1,
        -1 <= dy <= 1,
    ensures
        forall|q: Position|
            final(moves)@.contains(q) <==> old(moves)@.contains(q) || dir_reach(
                b@,
                x as int,
                y as int,
                dx as int,
                dy as int,
                q,
                color,
                fuel as nat,
            ),
        old(moves)@.no_duplicates() ==> final(moves)@.no_duplicates(),
    decreases fuel,
{
    if fuel == 0 {
        return ;
    }
    let nx = x + dx;
    let ny = y + dy;
    if nx < 0 || nx >= 8 || ny < 0 || ny >= 8 {
        return ;
    }
    let t = Position { x: nx, y: ny };
    match b.get_piece(t) {
        Some(p) => {
            if p.color != color {
                push_unique(moves, t);
            }
        },
        None => {
            push_unique(moves, t);
            gen_ray(b, nx, ny, dx, dy, color, moves, fuel - 1);
        },
    }
}

/// Appends the knight destinations from `from`.
pub(crate) fn get_knight_moves(b: &Board, from: Position, color: Color, moves: &mut Vec<Position>)
    requires
        b@.wf(),
        from.valid(),
    ensures
        forall|q: Position|
            final(moves)@.contains(q) <==> old(moves)@.contains(q) || knight_dest(
                b@,
                from,
                color,
                q,
            ),
        old(moves)@.no_duplicates() ==> final(moves)@.no_duplicates(),
{
    let offs: [(i8, i8); 8] = [
        (2, 1),
        (2, -1),
        (-2, 1),
        (-2, -1),
        (1, 2),
        (1, -2),
        (-1, 2),
        (-1, -2),
    ];
    let mut i: usize = 0;
    while i < 8
        invariant
            b@.wf(),
            from.valid(),
            i <= 8,
            offs@ =~= seq![
                (2i8, 1i8),
                (2i8, -1i8),
                (-2i8, 1i8),
                (-2i8, -1i8),
                (1i8, 2i8),
                (1i8, -2i8),
                (-1i8, 2i8),
                (-1i8, -2i8),
            ],
            forall|q: Position|
                moves@.contains(q) <==> old(moves)@.contains(q) || (knight_dest(b@, from, color, q)
                    && exists|j: int|
                    0 <= j < i && q.x as int == from.x + offs@[j].0 && q.y as int == from.y
                        + offs@[j].1),
            old(moves)@.no_duplicates() ==> moves@.no_duplicates(),
        decreases 8 - i,
    {
        let (dx, dy) = offs[i];
        let tx = from.x + dx;
        let ty = from.y + dy;
        if 0 <= tx && tx < 8 && 0 <= ty && ty < 8 {
            let t = Position { x: tx, y: ty };
            let take = match b.get_piece(t) {
                Some(p) => p.color != color,
                None => true,
            };
            if take {
                push_unique(moves, t);
            }
        }
        i = i + 1;
    }
    proof {
        assert forall|q: Position| knight_dest(b@, from, color, q) implies exists|j: int|
            0 <= j < 8 && q.x as int == from.x + offs@[j].0 && q.y as int == from.y
                + offs@[j].1 by {
            let fx = from.x as int;
            let fy = from.y as int;
            let tx = q.x as int;
            let ty = q.y as int;
            if tx == fx + 2 && ty == fy + 1 {
                assert(q.x as int == from.x + offs@[0].0 && q.y as int == from.y + offs@[0].1);
            } else if tx == fx + 2 && ty == fy - 1 {
                assert(q.x as int == from.x + offs@[1].0 && q.y as int == from.y + offs@[1].1);
            } else if tx == fx - 2 && ty == fy + 1 {
                assert(q.x as int == from.x + offs@[2].0 && q.y as int == from.y + offs@[2].1);
            } else if tx == fx - 2 && ty == fy - 1 {
                assert(q.x as int == from.x + offs@[3].0 && q.y as int == from.y + offs@[3].1);
            } else if tx == fx + 1 && ty == fy + 2 {
                assert(q.x as int == from.x + offs@[4].0 && q.y as int == from.y + offs@[4].1);
            } else if tx == fx + 1 && ty == fy - 2 {
                assert(q.x as int == from.x + offs@[5].0 && q.y as int == from.y + offs@[5].1);
            } else if tx == fx - 1 && ty == fy + 2 {
                assert(q.x as int == from.x + offs@[6].0 && q.y as int == from.y + offs@[6].1);
            } else {
                assert(q.x as int == from.x + offs@[7].0 && q.y as int == from.y + offs@[7].1);
            }
        }
    }
}

/// Appends the rook destinations from `from`.
pub(crate) fn get_rook_moves(b: &Board, from: Position, color: Color, moves: &mut Vec<Position>)
    requires
        b@.wf(),
        from.valid(),
    ensures
        forall|q: Position|
            final(moves)@.contains(q) <==> old(moves)@.contains(q) || rook_dest(b@, from, color, q),
        old(moves)@.no_duplicates() ==> final(moves)@.no_duplicates(),
{
    gen_ray(b, from.x, from.y, 1, 0, color, moves, 8);
    gen_ray(b, from.x, from.y, -1, 0, color, moves, 8);
    gen_ray(b, from.x, from.y, 0, 1, color, moves, 8);
    gen_ray(b, from.x, from.y, 0, -1, color, moves, 8);
}

/// Appends the bishop destinations from `from`.
pub(crate) fn get_bishop_moves(b: &Board, from: Position, color: Color, moves: &mut Vec<Position>)
    requires
        b@.wf(),
        from.valid(),
    ensures
        forall|q: Position|
            final(moves)@.contains(q) <==> old(moves)@.contains(q) || bishop_dest(
                b@,
                from,
                color,
                q,
            ),
        old(moves)@.no_duplicates() ==> final(moves)@.no_duplicates(),
{
    gen_ray(b, from.x, from.y, 1, 1, color, moves, 8);
    gen_ray(b, from.x, from.y, 1, -1, color, moves, 8);
    gen_ray(b, from.x, from.y, -1, 1, color, moves, 8);
    gen_ray(b, from.x, from.y, -1, -1, color, moves, 8);
}

/// Appends the queen destinations from `from`.
pub(crate) fn get_queen_moves(b: &Board, from: Position, color: Color, moves: &mut Vec<Position>)
    requires
        b@.wf(),
        from.valid(),
    ensures
        forall|q: Position|
            final(moves)@.contains(q) <==> old(moves)@.contains(q) || queen_dest(
                b@,
                from,
                color,
                q,
            ),
        old(moves)@.no_duplicates() ==> final(moves)@.no_duplicates(),
{
    get_rook_moves(b, from, color, moves);
    get_bishop_moves(b, from, color, moves);
}

/// Appends the pawn destinations from `from`.
pub(crate) fn get_pawn_moves(b: &Board, from: Position, color: Color, moves: &mut Vec<Position>)
    requires
        b@.wf(),
        from.valid(),
    ensures
        forall|q: Position|
            final(moves)@.contains(q) <==> old(moves)@.contains(q) || pawn_dest(b@, from, color, q),
        old(moves)@.no_duplicates() ==> final(moves)@.no_duplicates(),
{
    let d: i8 = if color == Color::White {
        1
    } else {
        -1
    };
    let start_rank: i8 = if color == Color::White {
        1
    } else {
        6
    };
    let fy1 = from.y + d;
    if 0 <= fy1 && fy1 < 8 {
        let one = Position { x: from.x, y: fy1 };
        if b.is_square_empty(one) {
            push_unique(moves, one);
            if from.y == start_rank {
                let fy2 = from.y + 2 * d;
                if 0 <= fy2 && fy2 < 8 {
                    let two = Position { x: from.x, y: fy2 };
                    if b.is_square_empty(two) {
                        push_unique(moves, two);
                    }
                }
            }
        }
        let cx_left = from.x - 1;
        if 0 <= cx_left {
            let cp = Position { x: cx_left, y: fy1 };
            let take = match b.get_piece(cp) {
                Some(p) => p.color != color,
                None => match b.en_passant_target() {
                    Some(t) => t == cp,
                    None => false,
                },
            };
            if take {
                push_unique(moves, cp);
            }
        }
        let cx_right = from.x + 1;
        if cx_right < 8 {
            let cp = Position { x: cx_right, y: fy1 };
            let take = match b.get_piece(cp) {
                Some(p) => p.color != color,
                None => match b.en_passant_target() {
                    Some(t) => t == cp,
                    None => false,
                },
            };
            if take {
                push_unique(moves, cp);
            }
        }
    }
}

/// Appends the king destinations from `from`, castling included.
pub(crate) fn get_king_moves(b: &Board, from: Position, color: Color, moves: &mut Vec<Position>)
    requires
        b@.wf(),
        from.valid(),
    ensures
        forall|q: Position|
            final(moves)@.contains(q) <==> old(moves)@.contains(q) || king_dest(b@, from, color, q),
        old(moves)@.no_duplicates() ==> final(moves)@.no_duplicates(),
{
    let offs: [(i8, i8); 8] = [
        (1, 0),
        (-1, 0),
        (0, 1),
        (0, -1),
        (1, 1),
        (1, -1),
        (-1, 1),
        (-1, -1),
    ];
    let mut i: usize = 0;
    while i < 8
        invariant
            b@.wf(),
            from.valid(),
            i <= 8,
            offs@ =~= seq![
                (1i8, 0i8),
                (-1i8, 0i8),
                (0i8, 1i8),
                (0i8, -1i8),
                (1i8, 1i8),
                (1i8, -1i8),
                (-1i8, 1i8),
                (-1i8, -1i8),
            ],
            forall|q: Position|
                moves@.contains(q) <==> old(moves)@.contains(q) || (king_step_dest(
                    b@,
                    from,
                    color,
                    q,
                ) && exists|j: int|
                    0 <= j < i && q.x as int == from.x + offs@[j].0 && q.y as int == from.y
                        + offs@[j].1),
            old(moves)@.no_duplicates() ==> moves@.no_duplicates(),
        decreases 8 - i,
    {
        let (dx, dy) = offs[i];
        let tx = from.x + dx;
        let ty = from.y + dy;
        if 0 <= tx && tx < 8 && 0 <= ty && ty < 8 {
            let t = Position { x: tx, y: ty };
            let take = match b.get_piece(t) {
                Some(p) => p.color != color,
                None => true,
            };
            if take {
                push_unique(moves, t);
            }
        }
        i = i + 1;
    }
    proof {
        assert forall|q: Position| king_step_dest(b@, from, color, q) implies exists|j: int|
            0 <= j < 8 && q.x as int == from.x + offs@[j].0 && q.y as int == from.y
                + offs@[j].1 by {
            let fx = from.x as int;
            let fy = from.y as int;
            let tx = q.x as int;
            let ty = q.y as int;
            if tx == fx + 1 && ty == fy {
                assert(q.x as int == from.x + offs@[0].0 && q.y as int == from.y + offs@[0].1);
            } else if tx == fx - 1 && ty == fy {
                assert(q.x as int == from.x + offs@[1].0 && q.y as int == from.y + offs@[1].1);
            } else if tx == fx && ty == fy + 1 {
                assert(q.x as int == from.x + offs@[2].0 && q.y as int == from.y + offs@[2].1);
            } else if tx == fx && ty == fy - 1 {
                assert(q.x as int == from.x + offs@[3].0 && q.y as int == from.y + offs@[3].1);
            } else if tx == fx + 1 && ty == fy + 1 {
                assert(q.x as int == from.x + offs@[4].0 && q.y as int == from.y + offs@[4].1);
            } else if tx == fx + 1 && ty == fy - 1 {
                assert(q.x as int == from.x + offs@[5].0 && q.y as int == from.y + offs@[5].1);
            } else if tx == fx - 1 && ty == fy + 1 {
                assert(q.x as int == from.x + offs@[6].0 && q.y as int == from.y + offs@[6].1);
            } else {
                assert(q.x as int == from.x + offs@[7].0 && q.y as int == from.y + offs@[7].1);
            }
        }
    }
    let home_rank: i8 = if color == Color::White {
        0
    } else {
        7
    };
    if from.x == 4 && from.y == home_rank {
        let enemy = color.opposite();
        let (wk, wq, bk, bq) = b.castling_flags();
        let kingside_right = if color == Color::White {
            wk
        } else {
            bk
        };
        let queenside_right = if color == Color::White {
            wq
        } else {
            bq
        };
        if kingside_right {
            let rook_ok = match b.get_piece(Position { x: 7, y: home_rank }) {
                Some(p) => p.piece_type == PieceType::Rook && p.color == color,
                None => false,
            };
            if rook_ok && b.is_square_empty(Position { x: 5, y: home_rank }) && b.is_square_empty(
                Position { x: 6, y: home_rank },
            ) && !b.is_square_under_attack(Position { x: 4, y: home_rank }, enemy)
                && !b.is_square_under_attack(Position { x: 5, y: home_rank }, enemy)
                && !b.is_square_under_attack(Position { x: 6, y: home_rank }, enemy) {
                push_unique(moves, Position { x: 6, y: home_rank });
            }
        }
        if queenside_right {
            let rook_ok = match b.get_piece(Position { x: 0, y: home_rank }) {
                Some(p) => p.piece_type == PieceType::Rook && p.color == color,
                None => false,
            };
            if rook_ok && b.is_square_empty(Position { x: 1, y: home_rank }) && b.is_square_empty(
                Position { x: 2, y: home_rank },
            ) && b.is_square_empty(Position { x: 3, y: home_rank }) && !b.is_square_under_attack(
                Position { x: 4, y: home_rank },
                enemy,
            ) && !b.is_square_under_attack(Position { x: 3, y: home_rank }, enemy)
                && !b.is_square_under_attack(Position { x: 2, y: home_rank }, enemy) {
                push_unique(moves, Position { x: 2, y: home_rank });
            }
        }
    }
}

impl Board {
    /// All pseudo-legal destinations of the piece standing on `from`;
    /// empty for an empty square.
    pub fn get_pseudo_legal_moves(&self, from: Position) -> (r: Vec<Position>)
        requires
            self@.wf(),
        ensures
            forall|q: Position| r@.contains(q) <==> pseudo_legal(self@, from, q),
            r@.no_duplicates(),
    {
        let mut moves: Vec<Position> = Vec::new();
        match self.get_piece(from) {
            Some(piece) => {
                match piece.piece_type {
                    PieceType::Pawn => get_pawn_moves(self, from, piece.color, &mut moves),
                    PieceType::Rook => get_rook_moves(self, from, piece.color, &mut moves),
                    PieceType::Knight => get_knight_moves(self, from, piece.color, &mut moves),
                    PieceType::Bishop => get_bishop_moves(self, from, piece.color, &mut moves),
                    PieceType::Queen => get_queen_moves(self, from, piece.color, &mut moves),
                    PieceType::King => get_king_moves(self, from, piece.color, &mut moves),
                    PieceType::Empty => {},
                }
            },
            None => {},
        }
        moves
    }
}

/// All pseudo-legal destinations of the piece standing on `from`, as the
/// free-function entry point of the move generator.
pub fn get_valid_moves(board: &Board, from: Position) -> (r: Vec<Position>)
    requires
        board@.wf(),
    ensures
        forall|q: Position| r@.contains(q) <==> pseudo_legal(board@, from, q),
        r@.no_duplicates(),
{
    board.get_pseudo_legal_moves(from)
}

} // verus!
