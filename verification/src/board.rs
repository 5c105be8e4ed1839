//! The board proper: piece placement, side to move, castling rights,
//! en-passant target and the FEN counters, with the basic square accessors.
//!
//! The placement is a flat 64-slot vector indexed by `rank * 8 + file`.
//! `BoardModel` is the mathematical view of a board; every contract in the
//! crate speaks about boards through it.

use vstd::prelude::*;

use crate::pieces::Color;
use crate::pieces::Piece;
use crate::pieces::PieceType;
use crate::position::on_board;
use crate::position::Position;

verus! {

/// The mathematical view of a board.
#[verifier::ext_equal]
pub ghost struct BoardModel {
    /// 64 squares, indexed by `rank * 8 + file`; `None` is an empty square.
    pub squares: Seq<Option<Piece>>,
    pub active_color: Color,
    pub castle_wk: bool,
    pub castle_wq: bool,
    pub castle_bk: bool,
    pub castle_bq: bool,
    pub en_passant: Option<Position>,
    pub halfmove_clock: u32,
    pub fullmove_number: u32,
}

impl BoardModel {
    /// Well-formedness: 64 squares, and the en-passant target (when set)
    /// names a board square.
    pub open spec fn wf(self) -> bool {
        &&& self.squares.len() == 64
        &&& match self.en_passant {
            Some(p) => p.valid(),
            None => true,
        }
    }

    /// The piece on square `(x, y)`; `None` off the board.
    pub open spec fn at(self, x: int, y: int) -> Option<Piece> {
        if on_board(x, y) {
            self.squares[y * 8 + x]
        } else {
            None
        }
    }

    /// The piece on a `Position`.
    pub open spec fn at_pos(self, p: Position) -> Option<Piece> {
        self.at(p.x as int, p.y as int)
    }

    /// Whether square `(x, y)` counts as empty: no piece, or the `Empty`
    /// placeholder.
    pub open spec fn empty_at(self, x: int, y: int) -> bool {
        match self.at(x, y) {
            None => true,
            Some(p) => p.piece_type == PieceType::Empty,
        }
    }

    /// Whether a piece of `color` stands on `(x, y)`.
    pub open spec fn color_at(self, x: int, y: int, color: Color) -> bool {
        match self.at(x, y) {
            Some(p) => p.color == color,
            None => false,
        }
    }

    /// The model with square `(x, y)` replaced; unchanged off the board.
    pub open spec fn with_at(self, x: int, y: int, v: Option<Piece>) -> BoardModel {
        if on_board(x, y) {
            BoardModel { squares: self.squares.update(y * 8 + x, v), ..self }
        } else {
            self
        }
    }

    /// The first square, scanning from index `i` upward, that holds the king
    /// of `color`.
    pub open spec fn king_from(self, color: Color, i: int) -> Option<Position>
        decreases 64 - i,
    {
        if i < 0 || i >= 64 {
            None
        } else {
            match self.squares[i] {
                Some(p) => if p.piece_type == PieceType::King && p.color == color {
                    Some(Position { x: (i % 8) as i8, y: (i / 8) as i8 })
                } else {
                    self.king_from(color, i + 1)
                },
                None => self.king_from(color, i + 1),
            }
        }
    }

    /// The square of the king of `color`, if one stands on the board
    /// (the first one in scanning order, should the placement hold several).
    pub open spec fn king_sq(self, color: Color) -> Option<Position> {
        self.king_from(color, 0)
    }
}

/// What the king scan returns is a board square that indeed holds the king.
pub proof fn lemma_king_from_sound(m: BoardModel, color: Color, i: int)
    requires
        m.wf(),
        0 <= i <= 64,
    ensures
        match m.king_from(color, i) {
            Some(p) => p.valid() && m.at_pos(p) == Some(
                Piece {
                    piece_type: PieceType::King,
                    color,
                    ..m.at_pos(p).unwrap()
                },
            ),
            None => true,
        },
    decreases 64 - i,
{
    if i < 64 {
        match m.squares[i] {
            Some(p) => {
                if p.piece_type == PieceType::King && p.color == color {
                    let q = Position { x: (i % 8) as i8, y: (i / 8) as i8 };
                    assert((i / 8) * 8 + (i % 8) == i) by (nonlinear_arith);
                    assert(0 <= i % 8 < 8 && 0 <= i / 8 < 8) by (nonlinear_arith)
                        requires 0 <= i < 64;
                } else {
                    lemma_king_from_sound(m, color, i + 1);
                }
            },
            None => {
                lemma_king_from_sound(m, color, i + 1);
            },
        }
    }
}

/// Whether a square holds the king of `color`.
pub open spec fn is_king_cell(cell: Option<Piece>, color: Color) -> bool {
    match cell {
        Some(p) => p.piece_type == PieceType::King && p.color == color,
        None => false,
    }
}

/// The king scan finds the king when it stands at `idx` and nothing before
/// `idx` holds one.
pub proof fn lemma_king_from_finds(m: BoardModel, color: Color, i: int, idx: int)
    requires
        m.wf(),
        0 <= i <= idx < 64,
        is_king_cell(m.squares[idx], color),
        forall|j: int| i <= j < idx ==> !is_king_cell(#[trigger] m.squares[j], color),
    ensures
        m.king_from(color, i) == Some(pos_of_sq(idx)),
    decreases idx - i,
{
    if i < idx {
        lemma_king_from_finds(m, color, i + 1, idx);
    }
}

/// The king scan comes back empty exactly when no square from `i` on holds
/// the king.
pub proof fn lemma_king_from_none(m: BoardModel, color: Color, i: int)
    requires
        m.wf(),
        0 <= i <= 64,
    ensures
        (m.king_from(color, i) is None) <==> (forall|j: int|
            i <= j < 64 ==> !is_king_cell(#[trigger] m.squares[j], color)),
    decreases 64 - i,
{
    if i < 64 {
        lemma_king_from_none(m, color, i + 1);
    }
}

/// The square of board index `idx`.
pub open spec fn pos_of_sq(idx: int) -> Position {
    Position { x: (idx % 8) as i8, y: (idx / 8) as i8 }
}

/// A chess board.  The well-formedness of its model (`self@.wf()`) is
/// established by every constructor and preserved by every mutator.
#[derive(Debug)]
pub struct Board {
    pub squares: Vec<Option<Piece>>,
    pub active_color: Color,
    pub castle_wk: bool,
    pub castle_wq: bool,
    pub castle_bk: bool,
    pub castle_bq: bool,
    pub en_passant: Option<Position>,
    pub halfmove_clock: u32,
    pub fullmove_number: u32,
}

impl Clone for Board {
    fn clone(&self) -> (r: Self)
        ensures
            r@ == self@,
    {
        let mut squares: Vec<Option<Piece>> = Vec::new();
        let mut i: usize = 0;
        let n = self.squares.len();
        while i < n
            invariant
                i <= n,
                n == self.squares@.len(),
                squares@ == self.squares@.subrange(0, i as int),
            decreases n - i,
        {
            squares.push(self.squares[i]);
            i = i + 1;
            proof {
                assert(squares@ =~= self.squares@.subrange(0, i as int));
            }
        }
        proof {
            assert(squares@ =~= self.squares@);
        }
        Board {
            squares,
            active_color: self.active_color,
            castle_wk: self.castle_wk,
            castle_wq: self.castle_wq,
            castle_bk: self.castle_bk,
            castle_bq: self.castle_bq,
            en_passant: self.en_passant,
            halfmove_clock: self.halfmove_clock,
            fullmove_number: self.fullmove_number,
        }
    }
}

impl View for Board {
    type V = BoardModel;

    open spec fn view(&self) -> BoardModel {
        BoardModel {
            squares: self.squares@,
            active_color: self.active_color,
            castle_wk: self.castle_wk,
            castle_wq: self.castle_wq,
            castle_bk: self.castle_bk,
            castle_bq: self.castle_bq,
            en_passant: self.en_passant,
            halfmove_clock: self.halfmove_clock,
            fullmove_number: self.fullmove_number,
        }
    }
}

/// The model of a board with no pieces, White to move, all castling rights,
/// no en-passant target and fresh counters.
pub open spec fn empty_board_model() -> BoardModel {
    BoardModel {
        squares: Seq::new(64, |i: int| None::<Piece>),
        active_color: Color::White,
        castle_wk: true,
        castle_wq: true,
        castle_bk: true,
        castle_bq: true,
        en_passant: None,
        halfmove_clock: 0,
        fullmove_number: 1,
    }
}

/// The piece kind on a back rank at file `x` in the standard start.
pub open spec fn back_rank_type(x: int) -> PieceType {
    if x == 0 || x == 7 {
        PieceType::Rook
    } else if x == 1 || x == 6 {
        PieceType::Knight
    } else if x == 2 || x == 5 {
        PieceType::Bishop
    } else if x == 3 {
        PieceType::Queen
    } else {
        PieceType::King
    }
}

/// The content of square `idx` in the standard starting position.
pub open spec fn start_cell(idx: int) -> Option<Piece> {
    let x = idx % 8;
    let y = idx / 8;
    if y == 0 {
        Some(Piece::fresh(back_rank_type(x), Color::White))
    } else if y == 1 {
        Some(Piece::fresh(PieceType::Pawn, Color::White))
    } else if y == 6 {
        Some(Piece::fresh(PieceType::Pawn, Color::Black))
    } else if y == 7 {
        Some(Piece::fresh(back_rank_type(x), Color::Black))
    } else {
        None
    }
}

/// The model of the standard starting position: White to move, full
/// castling rights, no en-passant target, fresh counters.
pub open spec fn starting_model() -> BoardModel {
    BoardModel {
        squares: Seq::new(64, |idx: int| start_cell(idx)),
        active_color: Color::White,
        castle_wk: true,
        castle_wq: true,
        castle_bk: true,
        castle_bq: true,
        en_passant: None,
        halfmove_clock: 0,
        fullmove_number: 1,
    }
}

/// The content of square `i` in the standard start.
fn start_cell_exec(i: usize) -> (r: Option<Piece>)
    requires
        i < 64,
    ensures
        r == start_cell(i as int),
{
    let x = i % 8;
    let y = i / 8;
    let back: PieceType = if x == 0 || x == 7 {
        PieceType::Rook
    } else if x == 1 || x == 6 {
        PieceType::Knight
    } else if x == 2 || x == 5 {
        PieceType::Bishop
    } else if x == 3 {
        PieceType::Queen
    } else {
        PieceType::King
    };
    if y == 0 {
        Some(Piece::new(back, Color::White))
    } else if y == 1 {
        Some(Piece::new(PieceType::Pawn, Color::White))
    } else if y == 6 {
        Some(Piece::new(PieceType::Pawn, Color::Black))
    } else if y == 7 {
        Some(Piece::new(back, Color::Black))
    } else {
        None
    }
}

impl Default for Board {
    fn default() -> (r: Self)
        ensures
            r@ == empty_board_model(),
            r@.wf(),
    {
        Board::empty()
    }
}

impl Board {
    /// A board set up in the standard starting position.
    pub fn new() -> (r: Board)
        ensures
            r@ == starting_model(),
            r@.wf(),
    {
        let mut squares: Vec<Option<Piece>> = Vec::new();
        let mut i: usize = 0;
        while i < 64
            invariant
                i <= 64,
                squares@.len() == i,
                forall|j: int| 0 <= j < i ==> squares@[j] == start_cell(j),
            decreases 64 - i,
        {
            squares.push(start_cell_exec(i));
            i = i + 1;
        }
        let r = Board {
            squares,
            active_color: Color::White,
            castle_wk: true,
            castle_wq: true,
            castle_bk: true,
            castle_bq: true,
            en_passant: None,
            halfmove_clock: 0,
            fullmove_number: 1,
        };
        proof {
            assert(r@.squares =~= starting_model().squares);
        }
        r
    }

    /// An empty board with default state, as a fresh FEN load expects.
    pub fn empty() -> (r: Board)
        ensures
            r@ == empty_board_model(),
            r@.wf(),
    {
        let mut squares: Vec<Option<Piece>> = Vec::new();
        let mut i: usize = 0;
        while i < 64
            invariant
                i <= 64,
                squares@.len() == i,
                forall|j: int| 0 <= j < i ==> squares@[j] is None,
            decreases 64 - i,
        {
            squares.push(None);
            i = i + 1;
        }
        let r = Board {
            squares,
            active_color: Color::White,
            castle_wk: true,
            castle_wq: true,
            castle_bk: true,
            castle_bq: true,
            en_passant: None,
            halfmove_clock: 0,
            fullmove_number: 1,
        };
        proof {
            assert(r@.squares =~= empty_board_model().squares);
        }
        r
    }

    pub fn get_piece(&self, pos: Position) -> (r: Option<Piece>)
        requires
            self@.wf(),
        ensures
            r == self@.at_pos(pos),
    {
        if !pos.is_valid() {
            return None;
        }
        let idx: usize = (pos.y as usize) * 8 + (pos.x as usize);
        self.squares[idx]
    }

    pub fn set_piece(&mut self, pos: Position, piece: Piece)
        requires
            old(self)@.wf(),
        ensures
            final(self)@ == old(self)@.with_at(pos.x as int, pos.y as int, Some(piece)),
            final(self)@.wf(),
    {
        if pos.is_valid() {
            let idx: usize = (pos.y as usize) * 8 + (pos.x as usize);
            self.squares.set(idx, Some(piece));
        }
    }

    pub fn remove_piece(&mut self, pos: Position) -> (r: Option<Piece>)
        requires
            old(self)@.wf(),
        ensures
            r == old(self)@.at_pos(pos),
            final(self)@ == old(self)@.with_at(pos.x as int, pos.y as int, None),
            final(self)@.wf(),
    {
        if !pos.is_valid() {
            return None;
        }
        let idx: usize = (pos.y as usize) * 8 + (pos.x as usize);
        let r = self.squares[idx];
        self.squares.set(idx, None);
        r
    }

    pub fn is_square_empty(&self, pos: Position) -> (r: bool)
        requires
            self@.wf(),
        ensures
            r == self@.empty_at(pos.x as int, pos.y as int),
    {
        match self.get_piece(pos) {
            None => true,
            Some(p) => p.piece_type == PieceType::Empty,
        }
    }

    /// The current en-passant target square, if any.
    pub fn en_passant_target(&self) -> (r: Option<Position>)
        ensures
            r == self@.en_passant,
    {
        self.en_passant
    }

    pub(crate) fn set_en_passant(&mut self, t: Option<Position>)
        requires
            old(self)@.wf(),
            match t {
                Some(p) => p.valid(),
                None => true,
            },
        ensures
            final(self)@ == (BoardModel { en_passant: t, ..old(self)@ }),
            final(self)@.wf(),
    {
        self.en_passant = t;
    }

    /// The castling rights, in FEN order, as four booleans:
    /// (White kingside, White queenside, Black kingside, Black queenside).
    pub fn castling_flags(&self) -> (r: (bool, bool, bool, bool))
        ensures
            r == (self@.castle_wk, self@.castle_wq, self@.castle_bk, self@.castle_bq),
    {
        (self.castle_wk, self.castle_wq, self.castle_bk, self.castle_bq)
    }

    pub(crate) fn set_castling_flags(&mut self, wk: bool, wq: bool, bk: bool, bq: bool)
        requires
            old(self)@.wf(),
        ensures
            final(self)@ == (BoardModel {
                castle_wk: wk,
                castle_wq: wq,
                castle_bk: bk,
                castle_bq: bq,
                ..old(self)@
            }),
            final(self)@.wf(),
    {
        self.castle_wk = wk;
        self.castle_wq = wq;
        self.castle_bk = bk;
        self.castle_bq = bq;
    }

    pub fn get_king_position(&self, color: Color) -> (r: Option<Position>)
        requires
            self@.wf(),
        ensures
            r == self@.king_sq(color),
    {
        let mut i: usize = 0;
        while i < 64
            invariant
                self@.wf(),
                i <= 64,
                self@.king_sq(color) == self@.king_from(color, i as int),
            decreases 64 - i,
        {
            match self.squares[i] {
                Some(p) => {
                    if p.piece_type == PieceType::King && p.color == color {
                        let pos = Position { x: (i % 8) as i8, y: (i / 8) as i8 };
                        return Some(pos);
                    }
                },
                None => {},
            }
            i = i + 1;
        }
        None
    }
}

} // verus!
