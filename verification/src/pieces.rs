//! Piece identity: piece type, owning color, and the FEN character mapping,
//! plus per-piece move bookkeeping used for rendering and history.

use vstd::prelude::*;

verus! {

/// The two sides of the game.
#[derive(Debug, Clone, Copy, PartialEq, Eq, Structural)]
pub enum Color {
    White,
    Black,
}

impl Color {
    /// The complement: White for Black and Black for White.
    pub open spec fn other(self) -> Color {
        match self {
            Color::White => Color::Black,
            Color::Black => Color::White,
        }
    }

    pub fn opposite(self) -> (r: Color)
        ensures
            r == self.other(),
    {
        match self {
            Color::White => Color::Black,
            Color::Black => Color::White,
        }
    }
}

/// The kinds of chess pieces.  `Empty` is a sentinel for callers that want
/// a piece-shaped placeholder; board squares themselves hold
/// `Option<Piece>` and never store it.
#[derive(Debug, Clone, Copy, PartialEq, Eq, Structural)]
pub enum PieceType {
    Pawn,
    Rook,
    Knight,
    Bishop,
    Queen,
    King,
    Empty,
}

impl Default for PieceType {
    fn default() -> (r: Self)
        ensures
            r == PieceType::Empty,
    {
        PieceType::Empty
    }
}

/// A piece: its kind, its owner, and how often it has moved.
#[derive(Debug, Clone, Copy, PartialEq, Eq, Structural)]
pub struct Piece {
    pub piece_type: PieceType,
    pub color: Color,
    pub has_moved: bool,
    pub moves_made: u32,
}

impl Default for Piece {
    fn default() -> (r: Self)
        ensures
            r == (Piece {
                piece_type: PieceType::Empty,
                color: Color::White,
                has_moved: false,
                moves_made: 0,
            }),
    {
        Piece { piece_type: PieceType::Empty, color: Color::White, has_moved: false, moves_made: 0 }
    }
}

impl Piece {
    /// What a FEN piece character denotes: uppercase letters are White,
    /// lowercase are Black, and anything outside `prnbqk`/`PRNBQK` is
    /// rejected.
    pub open spec fn fen_char_parse(c: char) -> Option<Piece> {
        if c == 'P' {
            Some(Piece::fresh(PieceType::Pawn, Color::White))
        } else if c == 'R' {
            Some(Piece::fresh(PieceType::Rook, Color::White))
        } else if c == 'N' {
            Some(Piece::fresh(PieceType::Knight, Color::White))
        } else if c == 'B' {
            Some(Piece::fresh(PieceType::Bishop, Color::White))
        } else if c == 'Q' {
            Some(Piece::fresh(PieceType::Queen, Color::White))
        } else if c == 'K' {
            Some(Piece::fresh(PieceType::King, Color::White))
        } else if c == 'p' {
            Some(Piece::fresh(PieceType::Pawn, Color::Black))
        } else if c == 'r' {
            Some(Piece::fresh(PieceType::Rook, Color::Black))
        } else if c == 'n' {
            Some(Piece::fresh(PieceType::Knight, Color::Black))
        } else if c == 'b' {
            Some(Piece::fresh(PieceType::Bishop, Color::Black))
        } else if c == 'q' {
            Some(Piece::fresh(PieceType::Queen, Color::Black))
        } else if c == 'k' {
            Some(Piece::fresh(PieceType::King, Color::Black))
        } else {
            None
        }
    }

    /// A piece that has not moved yet.
    pub open spec fn fresh(piece_type: PieceType, color: Color) -> Piece {
        Piece { piece_type, color, has_moved: false, moves_made: 0 }
    }

    /// The FEN character of this piece: lowercase letter for Black,
    /// uppercase for White, space for the `Empty` sentinel.
    pub open spec fn fen_char(self) -> char {
        match (self.piece_type, self.color) {
            (PieceType::Pawn, Color::White) => 'P',
            (PieceType::Rook, Color::White) => 'R',
            (PieceType::Knight, Color::White) => 'N',
            (PieceType::Bishop, Color::White) => 'B',
            (PieceType::Queen, Color::White) => 'Q',
            (PieceType::King, Color::White) => 'K',
            (PieceType::Pawn, Color::Black) => 'p',
            (PieceType::Rook, Color::Black) => 'r',
            (PieceType::Knight, Color::Black) => 'n',
            (PieceType::Bishop, Color::Black) => 'b',
            (PieceType::Queen, Color::Black) => 'q',
            (PieceType::King, Color::Black) => 'k',
            (PieceType::Empty, _) => ' ',
        }
    }

    pub fn new(piece_type: PieceType, color: Color) -> (r: Self)
        ensures
            r == Piece::fresh(piece_type, color),
    {
        Self { piece_type, color, has_moved: false, moves_made: 0 }
    }

    pub fn from_fen(c: char) -> (r: Option<Self>)
        ensures
            r == Self::fen_char_parse(c),
    {
        match c {
            'P' => Some(Self::new(PieceType::Pawn, Color::White)),
            'R' => Some(Self::new(PieceType::Rook, Color::White)),
            'N' => Some(Self::new(PieceType::Knight, Color::White)),
            'B' => Some(Self::new(PieceType::Bishop, Color::White)),
            'Q' => Some(Self::new(PieceType::Queen, Color::White)),
            'K' => Some(Self::new(PieceType::King, Color::White)),
            'p' => Some(Self::new(PieceType::Pawn, Color::Black)),
            'r' => Some(Self::new(PieceType::Rook, Color::Black)),
            'n' => Some(Self::new(PieceType::Knight, Color::Black)),
            'b' => Some(Self::new(PieceType::Bishop, Color::Black)),
            'q' => Some(Self::new(PieceType::Queen, Color::Black)),
            'k' => Some(Self::new(PieceType::King, Color::Black)),
            _ => None,
        }
    }

    /// Convert the piece to its FEN character representation.
    pub fn to_char(&self) -> (r: char)
        ensures
            r == self.fen_char(),
    {
        match (self.piece_type, self.color) {
            (PieceType::Pawn, Color::White) => 'P',
            (PieceType::Rook, Color::White) => 'R',
            (PieceType::Knight, Color::White) => 'N',
            (PieceType::Bishop, Color::White) => 'B',
            (PieceType::Queen, Color::White) => 'Q',
            (PieceType::King, Color::White) => 'K',
            (PieceType::Pawn, Color::Black) => 'p',
            (PieceType::Rook, Color::Black) => 'r',
            (PieceType::Knight, Color::Black) => 'n',
            (PieceType::Bishop, Color::Black) => 'b',
            (PieceType::Queen, Color::Black) => 'q',
            (PieceType::King, Color::Black) => 'k',
            (PieceType::Empty, _) => ' ',
        }
    }

    /// The chess glyph used for this piece on a terminal: White pieces use
    /// the filled glyphs and Black pieces the hollow ones, for contrast on
    /// dark backgrounds.
    pub open spec fn unicode_seq(self) -> Seq<char> {
        match (self.piece_type, self.color) {
            (PieceType::Pawn, Color::White) => seq!['\u{265F}'],
            (PieceType::Rook, Color::White) => seq!['\u{265C}'],
            (PieceType::Knight, Color::White) => seq!['\u{265E}'],
            (PieceType::Bishop, Color::White) => seq!['\u{265D}'],
            (PieceType::Queen, Color::White) => seq!['\u{265B}'],
            (PieceType::King, Color::White) => seq!['\u{265A}'],
            (PieceType::Pawn, Color::Black) => seq!['\u{2659}'],
            (PieceType::Rook, Color::Black) => seq!['\u{2656}'],
            (PieceType::Knight, Color::Black) => seq!['\u{2658}'],
            (PieceType::Bishop, Color::Black) => seq!['\u{2657}'],
            (PieceType::Queen, Color::Black) => seq!['\u{2655}'],
            (PieceType::King, Color::Black) => seq!['\u{2654}'],
            (PieceType::Empty, _) => seq!['\u{00B7}'],
        }
    }

    pub fn to_unicode(&self) -> (r: &'static str)
        ensures
            r@ == self.unicode_seq(),
    {
        proof {
            reveal_strlit("\u{265F}");
            reveal_strlit("\u{265C}");
            reveal_strlit("\u{265E}");
            reveal_strlit("\u{265D}");
            reveal_strlit("\u{265B}");
            reveal_strlit("\u{265A}");
            reveal_strlit("\u{2659}");
            reveal_strlit("\u{2656}");
            reveal_strlit("\u{2658}");
            reveal_strlit("\u{2657}");
            reveal_strlit("\u{2655}");
            reveal_strlit("\u{2654}");
            reveal_strlit("\u{00B7}");
        }
        let r = match (self.piece_type, self.color) {
            (PieceType::Pawn, Color::White) => "\u{265F}",
            (PieceType::Rook, Color::White) => "\u{265C}",
            (PieceType::Knight, Color::White) => "\u{265E}",
            (PieceType::Bishop, Color::White) => "\u{265D}",
            (PieceType::Queen, Color::White) => "\u{265B}",
            (PieceType::King, Color::White) => "\u{265A}",
            (PieceType::Pawn, Color::Black) => "\u{2659}",
            (PieceType::Rook, Color::Black) => "\u{2656}",
            (PieceType::Knight, Color::Black) => "\u{2658}",
            (PieceType::Bishop, Color::Black) => "\u{2657}",
            (PieceType::Queen, Color::Black) => "\u{2655}",
            (PieceType::King, Color::Black) => "\u{2654}",
            (PieceType::Empty, _) => "\u{00B7}",
        };
        proof {
            assert(r@ =~= self.unicode_seq());
        }
        r
    }
}

} // verus!
