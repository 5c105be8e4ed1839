//! Presentation-side values that need no terminal: board layout
//! arithmetic, material counting, piece glyphs, and the pixel sprites the
//! renderer draws from.

use vstd::prelude::*;

use crate::game::MoveRecord;
use crate::pieces::Color;
use crate::pieces::Piece;
use crate::pieces::PieceType;

verus! {

/// The material value of a piece kind, in pawns.
pub open spec fn piece_value_spec(t: PieceType) -> int {
    match t {
        PieceType::Pawn => 1,
        PieceType::Knight => 3,
        PieceType::Bishop => 3,
        PieceType::Rook => 5,
        PieceType::Queen => 9,
        PieceType::King => 0,
        PieceType::Empty => 0,
    }
}

/// The material value of a piece kind.
pub fn piece_value(piece_type: PieceType) -> (r: i32)
    ensures
        r == piece_value_spec(piece_type),
{
    match piece_type {
        PieceType::Pawn => 1,
        PieceType::Knight => 3,
        PieceType::Bishop => 3,
        PieceType::Rook => 5,
        PieceType::Queen => 9,
        PieceType::King => 0,
        PieceType::Empty => 0,
    }
}

/// The total material value of a list of pieces.
pub open spec fn material_sum(s: Seq<Piece>) -> int
    decreases s.len(),
{
    if s.len() == 0 {
        0
    } else {
        material_sum(s.drop_last()) + piece_value_spec(s.last().piece_type)
    }
}

/// The material sum is between zero and nine pawns per piece.
pub proof fn lemma_material_bounds(s: Seq<Piece>)
    ensures
        0 <= material_sum(s) <= 9 * s.len(),
    decreases s.len(),
{
    if s.len() > 0 {
        lemma_material_bounds(s.drop_last());
    }
}

/// Calculate total material value for a list of pieces.
pub fn calculate_material(pieces: &Vec<Piece>) -> (r: i32)
    requires
        9 * pieces@.len() <= 0x7fff_ffff,
    ensures
        r == material_sum(pieces@),
{
    let n = pieces.len();
    let mut sum: i32 = 0;
    let mut i: usize = 0;
    while i < n
        invariant
            i <= n,
            n == pieces@.len(),
            9 * n <= 0x7fff_ffff,
            sum == material_sum(pieces@.subrange(0, i as int)),
            0 <= sum <= 9 * i,
        decreases n - i,
    {
        proof {
            lemma_material_bounds(pieces@.subrange(0, i as int));
            assert(pieces@.subrange(0, i + 1).drop_last() =~= pieces@.subrange(0, i as int));
        }
        sum = sum + piece_value(pieces[i].piece_type);
        i = i + 1;
    }
    proof {
        assert(pieces@.subrange(0, n as int) =~= pieces@);
    }
    sum
}

/// The chess glyph for a piece on the plain-text board: White uses the
/// hollow glyphs there, Black the filled ones.
pub open spec fn symbol_seq(t: PieceType, color: Color) -> Seq<char> {
    match (t, color) {
        (PieceType::Pawn, Color::White) => seq!['\u{2659}'],
        (PieceType::Knight, Color::White) => seq!['\u{2658}'],
        (PieceType::Bishop, Color::White) => seq!['\u{2657}'],
        (PieceType::Rook, Color::White) => seq!['\u{2656}'],
        (PieceType::Queen, Color::White) => seq!['\u{2655}'],
        (PieceType::King, Color::White) => seq!['\u{2654}'],
        (PieceType::Pawn, Color::Black) => seq!['\u{265F}'],
        (PieceType::Knight, Color::Black) => seq!['\u{265E}'],
        (PieceType::Bishop, Color::Black) => seq!['\u{265D}'],
        (PieceType::Rook, Color::Black) => seq!['\u{265C}'],
        (PieceType::Queen, Color::Black) => seq!['\u{265B}'],
        (PieceType::King, Color::Black) => seq!['\u{265A}'],
        (PieceType::Empty, _) => seq![' '],
    }
}

/// The chess glyph for a piece on the plain-text board.
pub fn get_piece_symbol(piece_type: PieceType, color: Color) -> (r: &'static str)
    ensures
        r@ == symbol_seq(piece_type, color),
{
    proof {
        reveal_strlit("\u{2659}");
        reveal_strlit("\u{2658}");
        reveal_strlit("\u{2657}");
        reveal_strlit("\u{2656}");
        reveal_strlit("\u{2655}");
        reveal_strlit("\u{2654}");
        reveal_strlit("\u{265F}");
        reveal_strlit("\u{265E}");
        reveal_strlit("\u{265D}");
        reveal_strlit("\u{265C}");
        reveal_strlit("\u{265B}");
        reveal_strlit("\u{265A}");
        reveal_strlit(" ");
    }
    let r = match (piece_type, color) {
        (PieceType::Pawn, Color::White) => "\u{2659}",
        (PieceType::Knight, Color::White) => "\u{2658}",
        (PieceType::Bishop, Color::White) => "\u{2657}",
        (PieceType::Rook, Color::White) => "\u{2656}",
        (PieceType::Queen, Color::White) => "\u{2655}",
        (PieceType::King, Color::White) => "\u{2654}",
        (PieceType::Pawn, Color::Black) => "\u{265F}",
        (PieceType::Knight, Color::Black) => "\u{265E}",
        (PieceType::Bishop, Color::Black) => "\u{265D}",
        (PieceType::Rook, Color::Black) => "\u{265C}",
        (PieceType::Queen, Color::Black) => "\u{265B}",
        (PieceType::King, Color::Black) => "\u{265A}",
        (PieceType::Empty, _) => " ",
    };
    proof {
        assert(r@ =~= symbol_seq(piece_type, color));
    }
    r
}

/// The glyph of a piece as a single character, for the pixel-art board's
/// character fallback mode.
pub fn get_piece_char(piece_type: PieceType, colour: Color) -> (r: char)
    ensures
        seq![r] == symbol_seq(piece_type, colour),
{
    match (piece_type, colour) {
        (PieceType::King, Color::White) => '\u{2654}',
        (PieceType::Queen, Color::White) => '\u{2655}',
        (PieceType::Rook, Color::White) => '\u{2656}',
        (PieceType::Bishop, Color::White) => '\u{2657}',
        (PieceType::Knight, Color::White) => '\u{2658}',
        (PieceType::Pawn, Color::White) => '\u{2659}',
        (PieceType::King, Color::Black) => '\u{265A}',
        (PieceType::Queen, Color::Black) => '\u{265B}',
        (PieceType::Rook, Color::Black) => '\u{265C}',
        (PieceType::Bishop, Color::Black) => '\u{265D}',
        (PieceType::Knight, Color::Black) => '\u{265E}',
        (PieceType::Pawn, Color::Black) => '\u{265F}',
        (PieceType::Empty, _) => ' ',
    }
}

/// Integer division with rounding to nearest instead of toward zero, for a
/// positive divisor.
pub open spec fn div_round_spec(n: int, d: int) -> int {
    if n >= 0 {
        (n + d / 2) / d
    } else {
        -(((-n) + d / 2) / d)
    }
}

/// Integer division with rounding to nearest (not toward zero); this keeps
/// sprite centring symmetric around zero.
pub fn div_round_nearest(numerator: i32, denominator: i32) -> (r: i32)
    requires
        denominator > 0,
        numerator > i32::MIN,
    ensures
        r == div_round_spec(numerator as int, denominator as int),
{
    let d = denominator as u32;
    if d == 1 {
        return numerator;
    }
    if numerator >= 0 {
        let n = numerator as u32;
        let q = (n + d / 2) / d;
        proof {
            vstd::arithmetic::div_mod::lemma_fundamental_div_mod((n + d / 2) as int, d as int);
            assert(2 * (q as int) <= (d as int) * (q as int)) by (nonlinear_arith)
                requires d >= 2, q >= 0;
        }
        q as i32
    } else {
        let n = (-numerator) as u32;
        let q = (n + d / 2) / d;
        proof {
            vstd::arithmetic::div_mod::lemma_fundamental_div_mod((n + d / 2) as int, d as int);
            assert(2 * (q as int) <= (d as int) * (q as int)) by (nonlinear_arith)
                requires d >= 2, q >= 0;
        }
        -(q as i32)
    }
}

/// Square dimensions and rendering mode for a given drawing area.
#[derive(Debug, Clone, Copy, PartialEq, Eq, Structural)]
pub struct BoardLayout {
    pub square_width: usize,
    pub square_height: usize,
    pub use_sprites: bool,
    pub too_small: bool,
}

/// The layout the available space allows: ideal 9-by-4 squares where they
/// fit, otherwise scaled-down squares preferring odd widths so the 5-wide
/// sprites stay centred; sprites need at least 5 by 4.
pub open spec fn layout_spec(available_width: int, available_height: int) -> BoardLayout {
    let dims: (int, int) = if available_width >= 72 && available_height >= 32 {
        (9, 4)
    } else {
        let max_w = available_width / 8;
        let w0 = if max_w > 9 {
            9
        } else {
            max_w
        };
        let w = if w0 > 5 && w0 % 2 == 0 {
            w0 - 1
        } else {
            w0
        };
        let h0 = available_height / 8;
        let h = if h0 < 4 {
            h0
        } else {
            4
        };
        (w, h)
    };
    BoardLayout {
        square_width: dims.0 as usize,
        square_height: dims.1 as usize,
        use_sprites: dims.0 >= 5 && dims.1 >= 4,
        too_small: dims.0 < 2 || dims.1 < 1,
    }
}

/// Calculate square dimensions and rendering mode based on available space.
pub fn calculate_board_layout(available_width: usize, available_height: usize) -> (r: BoardLayout)
    ensures
        r == layout_spec(available_width as int, available_height as int),
{
    let (square_width, square_height): (usize, usize) = if available_width >= 72
        && available_height >= 32 {
        (9, 4)
    } else {
        let max_square_height = available_height / 8;
        let max_square_width = available_width / 8;
        let mut width = max_square_width;
        if width > 9 {
            width = 9;
        }
        if width > 5 && width % 2 == 0 {
            width = width - 1;
        }
        let height = if max_square_height < 4 {
            max_square_height
        } else {
            4
        };
        (width, height)
    };
    let use_sprites = square_width >= 5 && square_height >= 4;
    let too_small = square_width < 2 || square_height < 1;
    BoardLayout { square_width, square_height, use_sprites, too_small }
}

/// One pixel of a piece sprite.
#[derive(Debug, Clone, Copy, PartialEq, Eq, Structural)]
pub enum Pixel {
    /// Shows the square background colour through.
    Transparent,
    /// The piece's main colour.
    Primary,
    /// The outline colour, chosen for contrast.
    Outline,
    /// An accent colour for details such as crowns.
    Accent,
}

/// A piece sprite: 5 pixels wide, 8 tall, drawn as 5 by 4 characters with
/// half blocks.
pub type PieceSprite = [[Pixel; 5]; 8];

/// The pixel sprites of the six piece kinds.
pub struct PieceSprites {
    pub pawn: PieceSprite,
    pub knight: PieceSprite,
    pub bishop: PieceSprite,
    pub rook: PieceSprite,
    pub queen: PieceSprite,
    pub king: PieceSprite,
}

impl PieceSprites {
    /// The standard sprite set.
    pub fn new() -> PieceSprites {
        let t = Pixel::Transparent;
        let p = Pixel::Primary;
        let o = Pixel::Outline;
        let a = Pixel::Accent;
        PieceSprites {
            pawn: [
                [t, o, o, o, t],
                [t, o, p, o, t],
                [t, t, o, t, t],
                [t, t, o, t, t],
                [t, o, p, o, t],
                [o, p, p, p, o],
                [o, p, p, p, o],
                [o, o, o, o, o],
            ],
            knight: [
                [t, o, o, t, t],
                [o, p, p, o, t],
                [o, o, p, p, o],
                [t, o, p, o, t],
                [t, o, p, o, t],
                [o, p, p, p, o],
                [o, p, p, p, o],
                [o, o, o, o, o],
            ],
            bishop: [
                [t, t, a, t, t],
                [t, o, p, o, t],
                [o, p, o, p, o],
                [t, o, p, o, t],
                [t, o, p, o, t],
                [o, p, p, p, o],
                [o, p, p, p, o],
                [o, o, o, o, o],
            ],
            rook: [
                [o, t, o, t, o],
                [o, o, o, o, o],
                [t, o, p, o, t],
                [t, o, p, o, t],
                [t, o, p, o, t],
                [o, p, p, p, o],
                [o, p, p, p, o],
                [o, o, o, o, o],
            ],
            queen: [
                [a, t, a, t, a],
                [o, a, o, a, o],
                [o, p, p, p, o],
                [t, o, p, o, t],
                [t, o, p, o, t],
                [o, p, p, p, o],
                [o, p, p, p, o],
                [o, o, o, o, o],
            ],
            king: [
                [t, t, a, t, t],
                [t, a, a, a, t],
                [o, p, p, p, o],
                [t, o, p, o, t],
                [t, o, p, o, t],
                [o, p, p, p, o],
                [o, p, p, p, o],
                [o, o, o, o, o],
            ],
        }
    }
}

/// A widget model that shows the captured pieces of one side with an
/// optional material advantage.
pub struct CapturedPiecesBar<'a> {
    pub captured: &'a Vec<Piece>,
    pub label: &'a str,
    pub material_advantage: i32,
}

impl<'a> CapturedPiecesBar<'a> {
    pub fn new(captured: &'a Vec<Piece>, label: &'a str, material_advantage: i32) -> (r: Self)
        ensures
            r.captured@ == captured@,
            r.label@ == label@,
            r.material_advantage == material_advantage,
    {
        Self { captured, label, material_advantage }
    }
}

/// A panel model that shows the move history in scoresheet format.
pub struct MoveHistoryPanel<'a> {
    pub moves: &'a Vec<MoveRecord>,
    pub use_unicode: bool,
    pub scroll_offset: usize,
    pub selected_move: Option<usize>,
    pub is_focused: bool,
    pub viewing_history: bool,
}

impl<'a> MoveHistoryPanel<'a> {
    pub fn new(moves: &'a Vec<MoveRecord>, use_unicode: bool) -> (r: Self)
        ensures
            r.moves@ == moves@,
            r.use_unicode == use_unicode,
            r.scroll_offset == 0,
            r.selected_move is None,
            !r.is_focused,
            !r.viewing_history,
    {
        Self {
            moves,
            use_unicode,
            scroll_offset: 0,
            selected_move: None,
            is_focused: false,
            viewing_history: false,
        }
    }

    pub fn scroll_offset(self, offset: usize) -> (r: Self)
        ensures
            r == (MoveHistoryPanel { scroll_offset: offset, ..self }),
    {
        MoveHistoryPanel { scroll_offset: offset, ..self }
    }

    pub fn selected_move(self, index: Option<usize>) -> (r: Self)
        ensures
            r == (MoveHistoryPanel { selected_move: index, ..self }),
    {
        MoveHistoryPanel { selected_move: index, ..self }
    }

    pub fn focused(self, focused: bool) -> (r: Self)
        ensures
            r == (MoveHistoryPanel { is_focused: focused, ..self }),
    {
        MoveHistoryPanel { is_focused: focused, ..self }
    }

    pub fn viewing_history(self, viewing: bool) -> (r: Self)
        ensures
            r == (MoveHistoryPanel { viewing_history: viewing, ..self }),
    {
        MoveHistoryPanel { viewing_history: viewing, ..self }
    }
}

} // verus!
