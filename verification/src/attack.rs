//! Attack detection: whether a square is attacked by a given side.
//!
//! The scan is a direct pattern probe, not a move-generation pass: the two
//! pawn-attack squares, the eight knight offsets, and a ray march along the
//! eight queen directions classifying the first piece hit by whether its
//! kind attacks along that ray's geometry.

use vstd::prelude::*;

use crate::board::Board;
use crate::board::BoardModel;
use crate::board::lemma_king_from_sound;
use crate::pieces::Color;
use crate::pieces::PieceType;
use crate::position::abs_val;
use crate::position::on_board;
use crate::position::Position;

verus! {

/// Whether a piece of `color` and kind `t` stands on `(x, y)`.
pub open spec fn piece_of_at(m: BoardModel, x: int, y: int, t: PieceType, color: Color) -> bool {
    match m.at(x, y) {
        Some(p) => p.piece_type == t && p.color == color,
        None => false,
    }
}

/// The first occupied square strictly beyond `(x, y)` in direction
/// `(dx, dy)`, within the board and within `fuel` steps.
pub open spec fn ray_hit(m: BoardModel, x: int, y: int, dx: int, dy: int, fuel: nat) -> Option<
    Position,
>
    decreases fuel,
{
    if fuel == 0 {
        None
    } else {
        let nx = x + dx;
        let ny = y + dy;
        if !on_board(nx, ny) {
            None
        } else if m.at(nx, ny) is Some {
            Some(Position { x: nx as i8, y: ny as i8 })
        } else {
            ray_hit(m, nx, ny, dx, dy, (fuel - 1) as nat)
        }
    }
}

/// Whether `by` attacks `(x, y)` along direction `(dx, dy)`: the first
/// piece on the ray belongs to `by` and its kind covers that geometry
/// (queen always; rook on ranks and files; bishop on diagonals; king at
/// distance one).
pub open spec fn dir_attacks(m: BoardModel, x: int, y: int, dx: int, dy: int, by: Color) -> bool {
    match ray_hit(m, x, y, dx, dy, 8) {
        Some(h) => match m.at(h.x as int, h.y as int) {
            Some(p) => p.color == by && (p.piece_type == PieceType::Queen || (p.piece_type
                == PieceType::Rook && (dx == 0 || dy == 0)) || (p.piece_type == PieceType::Bishop
                && dx != 0 && dy != 0) || (p.piece_type == PieceType::King && abs_val(
                h.x - x,
            ) <= 1 && abs_val(h.y - y) <= 1)),
            None => false,
        },
        None => false,
    }
}

/// Whether a pawn of `by` attacks `(x, y)`.
pub open spec fn pawn_attacks(m: BoardModel, x: int, y: int, by: Color) -> bool {
    let d: int = if by == Color::White {
        1
    } else {
        -1
    };
    piece_of_at(m, x - 1, y - d, PieceType::Pawn, by) || piece_of_at(
        m,
        x + 1,
        y - d,
        PieceType::Pawn,
        by,
    )
}

/// Whether a knight of `by` attacks `(x, y)`.
pub open spec fn knight_attacks(m: BoardModel, x: int, y: int, by: Color) -> bool {
    ||| piece_of_at(m, x + 1, y + 2, PieceType::Knight, by)
    ||| piece_of_at(m, x + 2, y + 1, PieceType::Knight, by)
    ||| piece_of_at(m, x + 2, y - 1, PieceType::Knight, by)
    ||| piece_of_at(m, x + 1, y - 2, PieceType::Knight, by)
    ||| piece_of_at(m, x - 1, y - 2, PieceType::Knight, by)
    ||| piece_of_at(m, x - 2, y - 1, PieceType::Knight, by)
    ||| piece_of_at(m, x - 2, y + 1, PieceType::Knight, by)
    ||| piece_of_at(m, x - 1, y + 2, PieceType::Knight, by)
}

/// Whether the side `by` attacks square `(x, y)`.
pub open spec fn attacked(m: BoardModel, x: int, y: int, by: Color) -> bool {
    ||| pawn_attacks(m, x, y, by)
    ||| knight_attacks(m, x, y, by)
    ||| dir_attacks(m, x, y, 1, 0, by)
    ||| dir_attacks(m, x, y, -1, 0, by)
    ||| dir_attacks(m, x, y, 0, 1, by)
    ||| dir_attacks(m, x, y, 0, -1, by)
    ||| dir_attacks(m, x, y, 1, 1, by)
    ||| dir_attacks(m, x, y, 1, -1, by)
    ||| dir_attacks(m, x, y, -1, 1, by)
    ||| dir_attacks(m, x, y, -1, -1, by)
}

/// Whether the king of `color` stands attacked; false when the placement
/// holds no such king.
pub open spec fn in_check(m: BoardModel, color: Color) -> bool {
    match m.king_sq(color) {
        Some(k) => attacked(m, k.x as int, k.y as int, color.other()),
        None => false,
    }
}

fn piece_of_at_exec(b: &Board, x: i8, y: i8, t: PieceType, color: Color) -> (r: bool)
    requires
        b@.wf(),
    ensures
        r == piece_of_at(b@, x as int, y as int, t, color),
{
    match b.get_piece(Position { x, y }) {
        Some(p) => p.piece_type == t && p.color == color,
        None => false,
    }
}

fn ray_hit_exec(b: &Board, x: i8, y: i8, dx: i8, dy: i8, fuel: u8) -> (r: Option<Position>)
    requires
        b@.wf(),
        on_board(x as int, y as int),
        -1 <= dx <= 1,
        -1 <= dy <= 1,
    ensures
        r == ray_hit(b@, x as int, y as int, dx as int, dy as int, fuel as nat),
    decreases fuel,
{
    if fuel == 0 {
        return None;
    }
    let nx = x + dx;
    let ny = y + dy;
    if nx < 0 || nx >= 8 || ny < 0 || ny >= 8 {
        return None;
    }
    let p = Position { x: nx, y: ny };
    if b.get_piece(p).is_some() {
        Some(p)
    } else {
        ray_hit_exec(b, nx, ny, dx, dy, fuel - 1)
    }
}

fn dir_attacks_exec(b: &Board, pos: Position, dx: i8, dy: i8, by: Color) -> (r: bool)
    requires
        b@.wf(),
        pos.valid(),
        -1 <= dx <= 1,
        -1 <= dy <= 1,
    ensures
        r == dir_attacks(b@, pos.x as int, pos.y as int, dx as int, dy as int, by),
{
    match ray_hit_exec(b, pos.x, pos.y, dx, dy, 8) {
        Some(h) => match b.get_piece(h) {
            Some(p) => {
                let adj = {
                    let ax: i16 = h.x as i16 - pos.x as i16;
                    let ay: i16 = h.y as i16 - pos.y as i16;
                    (if ax >= 0 {
                        ax
                    } else {
                        -ax
                    }) <= 1 && (if ay >= 0 {
                        ay
                    } else {
                        -ay
                    }) <= 1
                };
                p.color == by && (p.piece_type == PieceType::Queen || (p.piece_type
                    == PieceType::Rook && (dx == 0 || dy == 0)) || (p.piece_type
                    == PieceType::Bishop && dx != 0 && dy != 0) || (p.piece_type == PieceType::King
                    && adj))
            },
            None => false,
        },
        None => false,
    }
}

impl Board {
    /// Whether `by_color` attacks the square `pos`.
    pub fn is_square_under_attack(&self, pos: Position, by_color: Color) -> (r: bool)
        requires
            self@.wf(),
            pos.valid(),
        ensures
            r == attacked(self@, pos.x as int, pos.y as int, by_color),
    {
        let d: i8 = if by_color == Color::White {
            1
        } else {
            -1
        };
        if piece_of_at_exec(self, pos.x - 1, pos.y - d, PieceType::Pawn, by_color) {
            return true;
        }
        if piece_of_at_exec(self, pos.x + 1, pos.y - d, PieceType::Pawn, by_color) {
            return true;
        }
        if piece_of_at_exec(self, pos.x + 1, pos.y + 2, PieceType::Knight, by_color) {
            return true;
        }
        if piece_of_at_exec(self, pos.x + 2, pos.y + 1, PieceType::Knight, by_color) {
            return true;
        }
        if piece_of_at_exec(self, pos.x + 2, pos.y - 1, PieceType::Knight, by_color) {
            return true;
        }
        if piece_of_at_exec(self, pos.x + 1, pos.y - 2, PieceType::Knight, by_color) {
            return true;
        }
        if piece_of_at_exec(self, pos.x - 1, pos.y - 2, PieceType::Knight, by_color) {
            return true;
        }
        if piece_of_at_exec(self, pos.x - 2, pos.y - 1, PieceType::Knight, by_color) {
            return true;
        }
        if piece_of_at_exec(self, pos.x - 2, pos.y + 1, PieceType::Knight, by_color) {
            return true;
        }
        if piece_of_at_exec(self, pos.x - 1, pos.y + 2, PieceType::Knight, by_color) {
            return true;
        }
        if dir_attacks_exec(self, pos, 1, 0, by_color) {
            return true;
        }
        if dir_attacks_exec(self, pos, -1, 0, by_color) {
            return true;
        }
        if dir_attacks_exec(self, pos, 0, 1, by_color) {
            return true;
        }
        if dir_attacks_exec(self, pos, 0, -1, by_color) {
            return true;
        }
        if dir_attacks_exec(self, pos, 1, 1, by_color) {
            return true;
        }
        if dir_attacks_exec(self, pos, 1, -1, by_color) {
            return true;
        }
        if dir_attacks_exec(self, pos, -1, 1, by_color) {
            return true;
        }
        if dir_attacks_exec(self, pos, -1, -1, by_color) {
            return true;
        }
        false
    }

    /// Whether the king of `color` is in check.
    pub fn is_in_check(&self, color: Color) -> (r: bool)
        requires
            self@.wf(),
        ensures
            r == in_check(self@, color),
    {
        match self.get_king_position(color) {
            Some(king_pos) => {
                proof {
                    lemma_king_from_sound(self@, color, 0);
                }
                self.is_square_under_attack(king_pos, color.opposite())
            },
            None => false,
        }
    }
}

} // verus!
