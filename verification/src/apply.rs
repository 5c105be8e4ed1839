//! Atomic move application and legal-move lookup.
//!
//! `apply_move` is the mathematical definition of what a move does to a
//! board: castling-rights bookkeeping, rook relocation on a castle,
//! en-passant capture, the new en-passant target, promotion, relocation of
//! the piece and the side-to-move toggle, in that order.  `move_piece`
//! validates and then performs exactly that; `get_legal_moves` keeps the
//! pseudo-legal destinations whose application leaves the mover's own king
//! unattacked.

use vstd::prelude::*;

use crate::attack::attacked;
use crate::board::Board;
use crate::board::BoardModel;
use crate::board::lemma_king_from_sound;
use crate::moves::dir_reach;
use crate::moves::pseudo_legal;
use crate::pieces::Color;
use crate::pieces::Piece;
use crate::pieces::PieceType;
use crate::position::abs_val;
use crate::position::on_board;
use crate::position::Position;

verus! {

/// Why a move was rejected.
#[derive(Debug, Clone, Copy, PartialEq, Eq, Structural)]
pub enum MoveError {
    /// No piece stands on the source square.
    NoPieceAtSource,
    /// The destination is not in the piece's pseudo-legal set.
    IllegalMove,
    /// The move would leave the mover's own king under attack.
    SelfCheck,
}

/// The model with the castling rights of `color` removed, as after a king
/// move.
pub open spec fn king_rights_cleared(m: BoardModel, color: Color) -> BoardModel {
    if color == Color::White {
        BoardModel { castle_wk: false, castle_wq: false, ..m }
    } else {
        BoardModel { castle_bk: false, castle_bq: false, ..m }
    }
}

/// The model with the matching castling right removed when a rook moves off
/// its home square; unchanged otherwise.
pub open spec fn rook_rights_cleared(m: BoardModel, from: Position, color: Color) -> BoardModel {
    let home: int = if color == Color::White {
        0
    } else {
        7
    };
    if from.y as int == home && from.x as int == 0 {
        if color == Color::White {
            BoardModel { castle_wq: false, ..m }
        } else {
            BoardModel { castle_bq: false, ..m }
        }
    } else if from.y as int == home && from.x as int == 7 {
        if color == Color::White {
            BoardModel { castle_wk: false, ..m }
        } else {
            BoardModel { castle_bk: false, ..m }
        }
    } else {
        m
    }
}

/// The piece kind a pawn becomes on reaching the last rank: the requested
/// piece when it is one of queen, rook, bishop or knight, and queen
/// otherwise.
pub open spec fn promo_type(promo: Option<PieceType>) -> PieceType {
    match promo {
        Some(t) => if t == PieceType::Queen || t == PieceType::Rook || t == PieceType::Bishop || t
            == PieceType::Knight {
            t
        } else {
            PieceType::Queen
        },
        None => PieceType::Queen,
    }
}

/// A move-count increment that cannot overflow.
pub open spec fn inc_moves(n: u32) -> u32 {
    if n < 0xffff_ffffu32 {
        (n + 1) as u32
    } else {
        n
    }
}

/// The board after moving the piece on `from` to `to` with the requested
/// promotion, with full move semantics.  Defined (as the identity) even on
/// an empty source so that it is total; every caller guards on a piece
/// being present.
pub open spec fn apply_move(
    m: BoardModel,
    from: Position,
    to: Position,
    promo: Option<PieceType>,
) -> BoardModel {
    match m.at_pos(from) {
        None => m,
        Some(piece0) => {
            // castling-rights bookkeeping for king and rook moves
            let m1 = if piece0.piece_type == PieceType::King {
                king_rights_cleared(m, piece0.color)
            } else if piece0.piece_type == PieceType::Rook {
                rook_rights_cleared(m, from, piece0.color)
            } else {
                m
            };
            // a king jumping two files is a castle: lift the rook off its corner
            let castling = piece0.piece_type == PieceType::King && abs_val(
                to.x as int - from.x as int,
            ) >= 2;
            let corner_x: int = if to.x as int > from.x as int {
                7
            } else {
                0
            };
            let rook_to_x: int = if to.x as int > from.x as int {
                5
            } else {
                3
            };
            let rook = m1.at(corner_x, from.y as int);
            let m2 = if castling {
                m1.with_at(corner_x, from.y as int, None)
            } else {
                m1
            };
            // en-passant capture removes the pawn behind the target square
            let m3 = if piece0.piece_type == PieceType::Pawn && m.en_passant == Some(to) {
                m2.with_at(to.x as int, from.y as int, None)
            } else {
                m2
            };
            // a double pawn advance records the midpoint as the new target
            let d: int = if piece0.color == Color::White {
                1
            } else {
                -1
            };
            let new_ep: Option<Position> = if piece0.piece_type == PieceType::Pawn && abs_val(
                to.y as int - from.y as int,
            ) == 2 && on_board(from.x as int, from.y + d) {
                Some(Position { x: from.x, y: (from.y + d) as i8 })
            } else {
                None
            };
            // promotion on the last rank
            let new_type = if piece0.piece_type == PieceType::Pawn && (to.y as int == 0
                || to.y as int == 7) {
                promo_type(promo)
            } else {
                piece0.piece_type
            };
            let moved = Piece {
                piece_type: new_type,
                color: piece0.color,
                has_moved: true,
                moves_made: inc_moves(piece0.moves_made),
            };
            // relocate: clear the source, drop the rook, place the piece
            let m4 = m3.with_at(from.x as int, from.y as int, None);
            let m5 = if castling && rook is Some {
                m4.with_at(rook_to_x, from.y as int, rook)
            } else {
                m4
            };
            let m6 = m5.with_at(to.x as int, to.y as int, Some(moved));
            BoardModel { en_passant: new_ep, active_color: m.active_color.other(), ..m6 }
        },
    }
}

/// Whether the mover's king is unattacked once the move is applied: the
/// destination square when the mover is the king itself, the recorded king
/// square otherwise; vacuously safe when no king of that color stands on
/// the board.
pub open spec fn king_safe_after(m: BoardModel, from: Position, to: Position) -> bool {
    match m.at_pos(from) {
        None => true,
        Some(p) => {
            let m2 = apply_move(m, from, to, None);
            let ksq: Option<Position> = if p.piece_type == PieceType::King {
                Some(to)
            } else {
                m.king_sq(p.color)
            };
            match ksq {
                Some(k) => !attacked(m2, k.x as int, k.y as int, p.color.other()),
                None => true,
            }
        },
    }
}

/// The full legality of a move: a piece stands on the source, the
/// destination is in its pseudo-legal set, and applying the move leaves the
/// mover's king safe.  This is exactly the condition under which
/// `move_piece` succeeds.
pub open spec fn move_ok(m: BoardModel, from: Position, to: Position) -> bool {
    &&& m.at_pos(from) is Some
    &&& pseudo_legal(m, from, to)
    &&& king_safe_after(m, from, to)
}

/// Sliding destinations lie on the board.
pub proof fn lemma_dir_reach_on_board(
    m: BoardModel,
    x: int,
    y: int,
    dx: int,
    dy: int,
    t: Position,
    color: Color,
    fuel: nat,
)
    ensures
        dir_reach(m, x, y, dx, dy, t, color, fuel) ==> t.valid(),
    decreases fuel,
{
    if fuel > 0 {
        lemma_dir_reach_on_board(m, x + dx, y + dy, dx, dy, t, color, (fuel - 1) as nat);
    }
}

/// Pseudo-legal source and destination squares lie on the board.
pub proof fn lemma_pseudo_legal_on_board(m: BoardModel, from: Position, to: Position)
    requires
        pseudo_legal(m, from, to),
    ensures
        from.valid(),
        to.valid(),
{
    let p = m.at_pos(from).unwrap();
    let fx = from.x as int;
    let fy = from.y as int;
    match p.piece_type {
        PieceType::Rook => {
            lemma_dir_reach_on_board(m, fx, fy, 1, 0, to, p.color, 8);
            lemma_dir_reach_on_board(m, fx, fy, -1, 0, to, p.color, 8);
            lemma_dir_reach_on_board(m, fx, fy, 0, 1, to, p.color, 8);
            lemma_dir_reach_on_board(m, fx, fy, 0, -1, to, p.color, 8);
        },
        PieceType::Bishop => {
            lemma_dir_reach_on_board(m, fx, fy, 1, 1, to, p.color, 8);
            lemma_dir_reach_on_board(m, fx, fy, 1, -1, to, p.color, 8);
            lemma_dir_reach_on_board(m, fx, fy, -1, 1, to, p.color, 8);
            lemma_dir_reach_on_board(m, fx, fy, -1, -1, to, p.color, 8);
        },
        PieceType::Queen => {
            lemma_dir_reach_on_board(m, fx, fy, 1, 0, to, p.color, 8);
            lemma_dir_reach_on_board(m, fx, fy, -1, 0, to, p.color, 8);
            lemma_dir_reach_on_board(m, fx, fy, 0, 1, to, p.color, 8);
            lemma_dir_reach_on_board(m, fx, fy, 0, -1, to, p.color, 8);
            lemma_dir_reach_on_board(m, fx, fy, 1, 1, to, p.color, 8);
            lemma_dir_reach_on_board(m, fx, fy, 1, -1, to, p.color, 8);
            lemma_dir_reach_on_board(m, fx, fy, -1, 1, to, p.color, 8);
            lemma_dir_reach_on_board(m, fx, fy, -1, -1, to, p.color, 8);
        },
        _ => {},
    }
}

/// A vector membership test for positions.
pub(crate) fn contains_position(v: &Vec<Position>, p: Position) -> (r: bool)
    ensures
        r == v@.contains(p),
{
    let n = v.len();
    let mut i: usize = 0;
    while i < n
        invariant
            i <= n,
            n == v@.len(),
            forall|j: int| 0 <= j < i ==> v@[j] != p,
        decreases n - i,
    {
        if v[i] == p {
            assert(v@.contains(p));
            return true;
        }
        i = i + 1;
    }
    false
}

impl Board {
    /// When the king moves, remove all castling rights for that color.
    pub(crate) fn update_castling_rights_after_king_move(&mut self, color: Color)
        requires
            old(self)@.wf(),
        ensures
            final(self)@ == king_rights_cleared(old(self)@, color),
            final(self)@.wf(),
    {
        match color {
            Color::White => {
                self.castle_wk = false;
                self.castle_wq = false;
            },
            Color::Black => {
                self.castle_bk = false;
                self.castle_bq = false;
            },
        }
    }

    /// When a rook moves off its home square, remove the matching right.
    pub(crate) fn update_castling_rights_after_rook_move(&mut self, from: Position, color: Color)
        requires
            old(self)@.wf(),
        ensures
            final(self)@ == rook_rights_cleared(old(self)@, from, color),
            final(self)@.wf(),
    {
        let home: i8 = if color == Color::White {
            0
        } else {
            7
        };
        if from.y == home && from.x == 0 {
            match color {
                Color::White => self.castle_wq = false,
                Color::Black => self.castle_bq = false,
            }
        } else if from.y == home && from.x == 7 {
            match color {
                Color::White => self.castle_wk = false,
                Color::Black => self.castle_bk = false,
            }
        }
    }

    /// Performs the move without validating it.
    pub(crate) fn apply_move_exec(&mut self, from: Position, to: Position, promo: Option<PieceType>)
        requires
            old(self)@.wf(),
            old(self)@.at_pos(from) is Some,
            from.valid(),
            to.valid(),
        ensures
            final(self)@ == apply_move(old(self)@, from, to, promo),
            final(self)@.wf(),
    {
        let piece0 = self.get_piece(from).unwrap();
        if piece0.piece_type == PieceType::King {
            self.update_castling_rights_after_king_move(piece0.color);
        } else if piece0.piece_type == PieceType::Rook {
            self.update_castling_rights_after_rook_move(from, piece0.color);
        }
        let castling = piece0.piece_type == PieceType::King && (to.x - from.x >= 2 || from.x - to.x
            >= 2);
        let mut rook_move: Option<(Position, Piece)> = None;
        if castling {
            let (corner_x, rook_to_x): (i8, i8) = if to.x > from.x {
                (7, 5)
            } else {
                (0, 3)
            };
            let corner = Position { x: corner_x, y: from.y };
            match self.remove_piece(corner) {
                Some(rk) => {
                    rook_move = Some((Position { x: rook_to_x, y: from.y }, rk));
                },
                None => {},
            }
        }
        let ep = self.en_passant_target();
        match ep {
            Some(t) => {
                if piece0.piece_type == PieceType::Pawn && to == t {
                    self.remove_piece(Position { x: to.x, y: from.y });
                }
            },
            None => {},
        }
        let d: i8 = if piece0.color == Color::White {
            1
        } else {
            -1
        };
        let dy = to.y - from.y;
        let new_ep: Option<Position> = if piece0.piece_type == PieceType::Pawn && (dy == 2 || dy == -2) && 0 <= from.y + d && from.y + d < 8 {
            Some(Position { x: from.x, y: from.y + d })
        } else {
            None
        };
        self.set_en_passant(new_ep);
        let new_type = if piece0.piece_type == PieceType::Pawn && (to.y == 0 || to.y == 7) {
            match promo {
                Some(t) => if t == PieceType::Queen || t == PieceType::Rook || t
                    == PieceType::Bishop || t == PieceType::Knight {
                    t
                } else {
                    PieceType::Queen
                },
                None => PieceType::Queen,
            }
        } else {
            piece0.piece_type
        };
        self.remove_piece(from);
        match rook_move {
            Some((rp, rk)) => {
                self.set_piece(rp, rk);
            },
            None => {},
        }
        let moved = Piece {
            piece_type: new_type,
            color: piece0.color,
            has_moved: true,
            moves_made: if piece0.moves_made < 0xffff_ffffu32 {
                piece0.moves_made + 1
            } else {
                piece0.moves_made
            },
        };
        self.set_piece(to, moved);
        self.active_color = self.active_color.opposite();
    }

    /// Whether the mover's king would be safe after applying the move on a
    /// scratch copy of the board.
    fn king_safe_after_exec(&self, from: Position, to: Position) -> (r: bool)
        requires
            self@.wf(),
            self@.at_pos(from) is Some,
            from.valid(),
            to.valid(),
        ensures
            r == king_safe_after(self@, from, to),
    {
        let piece = self.get_piece(from).unwrap();
        let mut test = self.clone();
        test.apply_move_exec(from, to, None);
        if piece.piece_type == PieceType::King {
            !test.is_square_under_attack(to, piece.color.opposite())
        } else {
            match self.get_king_position(piece.color) {
                Some(k) => {
                    proof {
                        lemma_king_from_sound(self@, piece.color, 0);
                    }
                    !test.is_square_under_attack(k, piece.color.opposite())
                },
                None => true,
            }
        }
    }

    /// The sole validated mutator, with the caller's promotion choice.
    /// Rejects when no piece stands on `from`, when `to` is not
    /// pseudo-legal, or when the move would leave the mover's own king
    /// attacked; otherwise applies the move atomically.
    pub fn move_piece_with(&mut self, from: Position, to: Position, promotion: Option<PieceType>)
        -> (r: Result<(), MoveError>)
        requires
            old(self)@.wf(),
        ensures
            final(self)@.wf(),
            r is Ok <==> move_ok(old(self)@, from, to),
            r is Ok ==> final(self)@ == apply_move(old(self)@, from, to, promotion),
            r is Err ==> final(self)@ == old(self)@,
            r == Err::<(), MoveError>(MoveError::NoPieceAtSource) <==> old(self)@.at_pos(from) is None,
            r == Err::<(), MoveError>(MoveError::IllegalMove) <==> (old(self)@.at_pos(from) is Some && !pseudo_legal(
                old(self)@,
                from,
                to,
            )),
            r == Err::<(), MoveError>(MoveError::SelfCheck) <==> (old(self)@.at_pos(from) is Some && pseudo_legal(
                old(self)@,
                from,
                to,
            ) && !king_safe_after(old(self)@, from, to)),
    {
        if self.get_piece(from).is_none() {
            return Err(MoveError::NoPieceAtSource);
        }
        let pseudo = self.get_pseudo_legal_moves(from);
        if !contains_position(&pseudo, to) {
            return Err(MoveError::IllegalMove);
        }
        proof {
            lemma_pseudo_legal_on_board(self@, from, to);
        }
        if !self.king_safe_after_exec(from, to) {
            return Err(MoveError::SelfCheck);
        }
        self.apply_move_exec(from, to, promotion);
        Ok(())
    }

    /// The validated mutator without a promotion choice; an unrequested
    /// promotion defaults to queen.
    pub fn move_piece(&mut self, from: Position, to: Position) -> (r: Result<(), MoveError>)
        requires
            old(self)@.wf(),
        ensures
            final(self)@.wf(),
            r is Ok <==> move_ok(old(self)@, from, to),
            r is Ok ==> final(self)@ == apply_move(old(self)@, from, to, None),
            r is Err ==> final(self)@ == old(self)@,
            r == Err::<(), MoveError>(MoveError::NoPieceAtSource) <==> old(self)@.at_pos(from) is None,
            r == Err::<(), MoveError>(MoveError::IllegalMove) <==> (old(self)@.at_pos(from) is Some && !pseudo_legal(
                old(self)@,
                from,
                to,
            )),
            r == Err::<(), MoveError>(MoveError::SelfCheck) <==> (old(self)@.at_pos(from) is Some && pseudo_legal(
                old(self)@,
                from,
                to,
            ) && !king_safe_after(old(self)@, from, to)),
    {
        self.move_piece_with(from, to, None)
    }

    /// The legal destinations of the piece on `from`: exactly those squares
    /// for which `move_piece(from, to)` succeeds.
    pub fn get_legal_moves(&self, from: Position) -> (r: Vec<Position>)
        requires
            self@.wf(),
        ensures
            forall|q: Position| r@.contains(q) <==> move_ok(self@, from, q),
            r@.no_duplicates(),
    {
        let mut legal: Vec<Position> = Vec::new();
        if self.get_piece(from).is_none() {
            return legal;
        }
        let pseudo = self.get_pseudo_legal_moves(from);
        let n = pseudo.len();
        let mut i: usize = 0;
        while i < n
            invariant
                self@.wf(),
                self@.at_pos(from) is Some,
                i <= n,
                n == pseudo@.len(),
                forall|q: Position| pseudo@.contains(q) <==> pseudo_legal(self@, from, q),
                forall|q: Position|
                    legal@.contains(q) <==> (exists|j: int| 0 <= j < i && pseudo@[j] == q)
                        && move_ok(self@, from, q),
                legal@.no_duplicates(),
            decreases n - i,
        {
            let to = pseudo[i];
            assert(pseudo@.contains(to));
            proof {
                lemma_pseudo_legal_on_board(self@, from, to);
            }
            if self.king_safe_after_exec(from, to) {
                crate::moves::push_unique(&mut legal, to);
            }
            i = i + 1;
        }
        proof {
            assert forall|q: Position| legal@.contains(q) <==> move_ok(self@, from, q) by {
                if move_ok(self@, from, q) {
                    assert(pseudo@.contains(q));
                    let j = choose|j: int| 0 <= j < pseudo@.len() && pseudo@[j] == q;
                    assert(exists|k: int| 0 <= k < n && pseudo@[k] == q);
                }
            }
        }
        legal
    }
}

} // verus!
