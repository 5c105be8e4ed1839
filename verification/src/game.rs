//! Game-level bookkeeping around a board: check, checkmate and stalemate
//! flags, the position-repetition counter, the move history, the
//! captured-piece lists and a derived piece-location index.
//!
//! `make_move` is transactional: on any rejected move the whole game state
//! is left exactly as it was.

use vstd::prelude::*;

use crate::apply::apply_move;
use crate::apply::move_ok;
use crate::apply::promo_type;
use crate::apply::MoveError;
use crate::attack::in_check;
use crate::board::Board;
use crate::board::BoardModel;
use crate::board::starting_model;
use crate::fen::parse_fen_spec;
use crate::fen::FenError;
use crate::moves::pseudo_legal;
use crate::pieces::Color;
use crate::pieces::Piece;
use crate::pieces::PieceType;
use crate::position::Position;

verus! {

/// A move: source, destination, and the promotion choice if any.
#[derive(Debug, Clone, Copy, PartialEq, Eq)]
pub struct Move {
    pub from: Position,
    pub to: Position,
    pub promotion: Option<PieceType>,
}

/// Which side a king castled to.
#[derive(Debug, Clone, Copy, PartialEq, Eq, Structural)]
pub enum CastlingSide {
    Kingside,
    Queenside,
}

/// One played half-move, with everything algebraic notation needs.
#[derive(Debug, Clone, Copy)]
pub struct MoveRecord {
    pub piece: PieceType,
    pub color: Color,
    pub from: Position,
    pub to: Position,
    pub captured: Option<Piece>,
    pub is_check: bool,
    pub is_checkmate: bool,
    pub castling: Option<CastlingSide>,
    pub promotion: Option<PieceType>,
}

/// The canonical signature of a position for repetition counting: piece
/// placement, side to move, castling rights and en-passant target — and
/// nothing else, so that the move counters cannot mask a repetition.
#[verifier::ext_equal]
pub ghost struct KeyModel {
    pub cells: Seq<Option<(PieceType, Color)>>,
    pub active: Color,
    pub castles: (bool, bool, bool, bool),
    pub ep: Option<Position>,
}

/// The repetition signature of a board.
pub open spec fn key_of(m: BoardModel) -> KeyModel {
    KeyModel {
        cells: Seq::new(
            64,
            |i: int|
                match m.squares[i] {
                    Some(p) => Some((p.piece_type, p.color)),
                    None => None,
                },
        ),
        active: m.active_color,
        castles: (m.castle_wk, m.castle_wq, m.castle_bk, m.castle_bq),
        ep: m.en_passant,
    }
}

/// A stored repetition signature.
pub struct PositionKey {
    pub cells: Vec<Option<(PieceType, Color)>>,
    pub active: Color,
    pub castles: (bool, bool, bool, bool),
    pub ep: Option<Position>,
}

impl View for PositionKey {
    type V = KeyModel;

    open spec fn view(&self) -> KeyModel {
        KeyModel { cells: self.cells@, active: self.active, castles: self.castles, ep: self.ep }
    }
}

/// The views of stored signatures.
pub open spec fn keys_view(s: Seq<PositionKey>) -> Seq<KeyModel> {
    Seq::new(s.len(), |i: int| s[i]@)
}

/// How often `k` occurs in `hist`.
pub open spec fn count_key(hist: Seq<KeyModel>, k: KeyModel) -> nat
    decreases hist.len(),
{
    if hist.len() == 0 {
        0
    } else {
        count_key(hist.drop_last(), k) + if hist.last() == k {
            1nat
        } else {
            0nat
        }
    }
}

/// Whether some signature occurs at least three times.
pub open spec fn has_threefold(hist: Seq<KeyModel>) -> bool {
    exists|i: int| 0 <= i < hist.len() && count_key(hist, hist[i]) >= 3
}

/// The square of board index `i`.
pub open spec fn pos_of_idx(i: int) -> Position {
    Position { x: (i % 8) as i8, y: (i / 8) as i8 }
}

/// The derived piece-location index of `color`, scanning squares upward
/// from index `i`.
pub open spec fn cache_from(m: BoardModel, color: Color, i: int) -> Seq<(PieceType, Position)>
    decreases 64 - i,
{
    if i < 0 || i >= 64 {
        Seq::empty()
    } else {
        let rest = cache_from(m, color, i + 1);
        match m.squares[i] {
            Some(p) => if p.color == color {
                seq![(p.piece_type, pos_of_idx(i))] + rest
            } else {
                rest
            },
            None => rest,
        }
    }
}

/// The derived piece-location index of `color`.
pub open spec fn derived_cache(m: BoardModel, color: Color) -> Seq<(PieceType, Position)> {
    cache_from(m, color, 0)
}

/// Whether `color` has any legal move at all.
pub open spec fn has_any_legal(m: BoardModel, color: Color) -> bool {
    exists|p: Position, q: Position|
        m.color_at(p.x as int, p.y as int, color) && move_ok(m, p, q)
}

/// The checkmate flag: the side to move is in check and has no legal move.
pub open spec fn checkmate_of(m: BoardModel, color: Color) -> bool {
    in_check(m, color) && !has_any_legal(m, color)
}

/// The stalemate flag: the side to move has no legal move and is not in
/// check, or the game is drawn by threefold repetition.
pub open spec fn stalemate_of(m: BoardModel, color: Color, hist: Seq<KeyModel>) -> bool {
    (!has_any_legal(m, color) && !in_check(m, color)) || (has_any_legal(m, color) && has_threefold(
        hist,
    ))
}

/// The piece a move captures: the occupant of the destination, or for an
/// en-passant capture the pawn behind the target square.
pub open spec fn captured_spec(m: BoardModel, from: Position, to: Position) -> Option<Piece> {
    match m.at_pos(to) {
        Some(p) => Some(p),
        None => match m.at_pos(from) {
            Some(mover) => if mover.piece_type == PieceType::Pawn && m.en_passant == Some(to) {
                m.at(to.x as int, from.y as int)
            } else {
                None
            },
            None => None,
        },
    }
}

/// Whether a move resets the repetition horizon: a capture or a pawn move.
pub open spec fn reset_spec(m: BoardModel, from: Position, to: Position) -> bool {
    m.at_pos(to) is Some || match m.at_pos(from) {
        Some(p) => p.piece_type == PieceType::Pawn,
        None => false,
    }
}

/// Whether the whole game accepts a move: the board accepts it, and the
/// mover's king is not in check on the resulting board.
pub open spec fn game_move_ok(
    m: BoardModel,
    from: Position,
    to: Position,
    promo: Option<PieceType>,
) -> bool {
    &&& move_ok(m, from, to)
    &&& !in_check(apply_move(m, from, to, promo), m.at_pos(from).unwrap().color)
}

/// The record a successful move appends, given the recomputed check and
/// checkmate flags.
pub open spec fn record_spec(
    m: BoardModel,
    from: Position,
    to: Position,
    promo: Option<PieceType>,
    check: bool,
    checkmate: bool,
) -> MoveRecord {
    let mover = m.at_pos(from).unwrap();
    MoveRecord {
        piece: mover.piece_type,
        color: mover.color,
        from,
        to,
        captured: captured_spec(m, from, to),
        is_check: check,
        is_checkmate: checkmate,
        castling: if mover.piece_type == PieceType::King && (to.x as int - from.x as int >= 2
            || from.x as int - to.x as int >= 2) {
            if to.x as int > from.x as int {
                Some(CastlingSide::Kingside)
            } else {
                Some(CastlingSide::Queenside)
            }
        } else {
            None::<CastlingSide>
        },
        promotion: if mover.piece_type == PieceType::Pawn && (to.y as int == 0 || to.y as int
            == 7) {
            Some(promo_type(promo))
        } else {
            None::<PieceType>
        },
    }
}

/// The mathematical view of a whole game.
#[verifier::ext_equal]
pub ghost struct GameModel {
    pub board: BoardModel,
    pub active_color: Color,
    pub check: bool,
    pub checkmate: bool,
    pub stalemate: bool,
    pub position_history: Seq<KeyModel>,
    pub move_history: Seq<MoveRecord>,
    pub captured_by_white: Seq<Piece>,
    pub captured_by_black: Seq<Piece>,
    pub white_pieces: Seq<(PieceType, Position)>,
    pub black_pieces: Seq<(PieceType, Position)>,
}

/// A game in progress.
pub struct GameState {
    pub board: Board,
    pub active_color: Color,
    pub check: bool,
    pub checkmate: bool,
    pub stalemate: bool,
    pub position_history: Vec<PositionKey>,
    pub move_history: Vec<MoveRecord>,
    pub captured_by_white: Vec<Piece>,
    pub captured_by_black: Vec<Piece>,
    pub white_pieces: Vec<(PieceType, Position)>,
    pub black_pieces: Vec<(PieceType, Position)>,
}

impl View for GameState {
    type V = GameModel;

    open spec fn view(&self) -> GameModel {
        GameModel {
            board: self.board@,
            active_color: self.active_color,
            check: self.check,
            checkmate: self.checkmate,
            stalemate: self.stalemate,
            position_history: keys_view(self.position_history@),
            move_history: self.move_history@,
            captured_by_white: self.captured_by_white@,
            captured_by_black: self.captured_by_black@,
            white_pieces: self.white_pieces@,
            black_pieces: self.black_pieces@,
        }
    }
}

impl GameModel {
    /// Well-formedness: the board is well-formed, the stored active color
    /// mirrors the board's, and the piece-location index is exactly the one
    /// derived from the board.
    pub open spec fn wf(self) -> bool {
        &&& self.board.wf()
        &&& self.active_color == self.board.active_color
        &&& self.white_pieces == derived_cache(self.board, Color::White)
        &&& self.black_pieces == derived_cache(self.board, Color::Black)
    }
}

/// Every index entry names a piece of that color standing on that square.
pub proof fn lemma_cache_sound(m: BoardModel, color: Color, i: int)
    requires
        m.wf(),
    ensures
        forall|j: int|
            0 <= j < cache_from(m, color, i).len() ==> {
                let e = #[trigger] cache_from(m, color, i)[j];
                e.1.valid() && m.at_pos(e.1) is Some && m.at_pos(e.1).unwrap().color == color
                    && m.at_pos(e.1).unwrap().piece_type == e.0
            },
    decreases 64 - i,
{
    if 0 <= i < 64 {
        lemma_cache_sound(m, color, i + 1);
        match m.squares[i] {
            Some(p) => {
                if p.color == color {
                    let q = pos_of_idx(i);
                    assert((i / 8) * 8 + (i % 8) == i && 0 <= i % 8 < 8 && 0 <= i / 8 < 8)
                        by (nonlinear_arith)
                        requires 0 <= i < 64;
                    assert(m.at_pos(q) == Some(p));
                }
            },
            None => {},
        }
    }
}

/// Every piece of that color on the board appears in the index.
pub proof fn lemma_cache_complete(m: BoardModel, color: Color, p: Position, i: int)
    requires
        m.wf(),
        p.valid(),
        m.at_pos(p) is Some,
        m.at_pos(p).unwrap().color == color,
        0 <= i <= p.y * 8 + p.x,
    ensures
        cache_from(m, color, i).contains((m.at_pos(p).unwrap().piece_type, p)),
    decreases 64 - i,
{
    let idx = p.y * 8 + p.x;
    assert(0 <= idx < 64) by (nonlinear_arith)
        requires 0 <= p.x < 8, 0 <= p.y < 8, idx == p.y * 8 + p.x;
    if i == idx {
        assert(idx % 8 == p.x as int && idx / 8 == p.y as int) by (nonlinear_arith)
            requires 0 <= p.x < 8, 0 <= p.y < 8, idx == p.y * 8 + p.x;
        assert(pos_of_idx(idx) == p);
        assert(cache_from(m, color, i)[0] == (m.at_pos(p).unwrap().piece_type, p));
    } else {
        lemma_cache_complete(m, color, p, i + 1);
        let rest = cache_from(m, color, i + 1);
        let e = (m.at_pos(p).unwrap().piece_type, p);
        let j = choose|j: int| 0 <= j < rest.len() && rest[j] == e;
        match m.squares[i] {
            Some(q) => {
                if q.color == color {
                    assert(cache_from(m, color, i)[j + 1] == e);
                }
            },
            None => {},
        }
    }
}

/// The repetition signature of the current board.
fn position_key(b: &Board) -> (r: PositionKey)
    requires
        b@.wf(),
    ensures
        r@ == key_of(b@),
{
    let mut cells: Vec<Option<(PieceType, Color)>> = Vec::new();
    let mut i: usize = 0;
    while i < 64
        invariant
            b@.wf(),
            i <= 64,
            cells@.len() == i,
            forall|j: int| 0 <= j < i ==> cells@[j] == key_of(b@).cells[j],
        decreases 64 - i,
    {
        let c = match b.squares[i] {
            Some(p) => Some((p.piece_type, p.color)),
            None => None,
        };
        cells.push(c);
        i = i + 1;
    }
    let (wk, wq, bk, bq) = b.castling_flags();
    let r = PositionKey {
        cells,
        active: b.active_color,
        castles: (wk, wq, bk, bq),
        ep: b.en_passant_target(),
    };
    proof {
        assert(r@.cells =~= key_of(b@).cells);
        assert(r@ =~= key_of(b@));
    }
    r
}

/// The derived piece-location index of `color`.
fn derive_cache_exec(b: &Board, color: Color) -> (r: Vec<(PieceType, Position)>)
    requires
        b@.wf(),
    ensures
        r@ == derived_cache(b@, color),
{
    let mut r: Vec<(PieceType, Position)> = Vec::new();
    let mut i: usize = 0;
    while i < 64
        invariant
            b@.wf(),
            i <= 64,
            derived_cache(b@, color) == r@ + cache_from(b@, color, i as int),
        decreases 64 - i,
    {
        let ghost old_r = r@;
        match b.squares[i] {
            Some(p) => {
                if p.color == color {
                    let x = (i % 8) as i8;
                    let y = (i / 8) as i8;
                    r.push((p.piece_type, Position { x, y }));
                    proof {
                        assert(old_r + (seq![(p.piece_type, pos_of_idx(i as int))] + cache_from(
                            b@,
                            color,
                            i + 1,
                        )) =~= r@ + cache_from(b@, color, i + 1));
                    }
                }
            },
            None => {},
        }
        i = i + 1;
    }
    proof {
        assert(derived_cache(b@, color) =~= r@ + cache_from(b@, color, 64));
        assert(r@ + cache_from(b@, color, 64) =~= r@);
    }
    r
}

impl Default for GameState {
    fn default() -> (r: GameState)
        ensures
            r@.wf(),
            r@.board == starting_model(),
            r@.move_history == Seq::<MoveRecord>::empty(),
    {
        GameState::new()
    }
}

impl GameState {
    /// A fresh game in the standard starting position, with the starting
    /// position already recorded for repetition counting.
    pub fn new() -> (r: GameState)
        ensures
            r@.wf(),
            r@.board == starting_model(),
            r@.active_color == Color::White,
            r@.check == in_check(starting_model(), Color::White),
            r@.checkmate == checkmate_of(starting_model(), Color::White),
            r@.stalemate == stalemate_of(
                starting_model(),
                Color::White,
                seq![key_of(starting_model())],
            ),
            r@.position_history == seq![key_of(starting_model())],
            r@.move_history == Seq::<MoveRecord>::empty(),
            r@.captured_by_white == Seq::<Piece>::empty(),
            r@.captured_by_black == Seq::<Piece>::empty(),
    {
        let board = Board::new();
        let white_pieces = derive_cache_exec(&board, Color::White);
        let black_pieces = derive_cache_exec(&board, Color::Black);
        let mut game = GameState {
            board,
            active_color: Color::White,
            check: false,
            checkmate: false,
            stalemate: false,
            position_history: Vec::new(),
            move_history: Vec::new(),
            captured_by_white: Vec::new(),
            captured_by_black: Vec::new(),
            white_pieces,
            black_pieces,
        };
        game.record_position();
        proof {
            assert(keys_view(game.position_history@) =~= seq![key_of(starting_model())]);
        }
        game.update_state();
        game
    }

    /// A game started from a FEN position.  No position is recorded yet:
    /// repetition counting starts with the first move.
    pub fn from_fen(fen: &str) -> (r: Result<GameState, FenError>)
        ensures
            match parse_fen_spec(fen@) {
                Ok(m) => match r {
                    Ok(g) => {
                        &&& g@.wf()
                        &&& g@.board == m
                        &&& g@.active_color == m.active_color
                        &&& g@.check == in_check(m, m.active_color)
                        &&& g@.checkmate == checkmate_of(m, m.active_color)
                        &&& g@.stalemate == stalemate_of(m, m.active_color, Seq::empty())
                        &&& g@.position_history == Seq::<KeyModel>::empty()
                        &&& g@.move_history == Seq::<MoveRecord>::empty()
                        &&& g@.captured_by_white == Seq::<Piece>::empty()
                        &&& g@.captured_by_black == Seq::<Piece>::empty()
                    },
                    Err(_) => false,
                },
                Err(e) => r matches Err(e2) && e == e2,
            },
    {
        let board = match Board::from_fen(fen) {
            Ok(b) => b,
            Err(e) => {
                return Err(e);
            },
        };
        let active_color = board.active_color;
        let white_pieces = derive_cache_exec(&board, Color::White);
        let black_pieces = derive_cache_exec(&board, Color::Black);
        let mut game = GameState {
            board,
            active_color,
            check: false,
            checkmate: false,
            stalemate: false,
            position_history: Vec::new(),
            move_history: Vec::new(),
            captured_by_white: Vec::new(),
            captured_by_black: Vec::new(),
            white_pieces,
            black_pieces,
        };
        proof {
            assert(keys_view(game.position_history@) =~= Seq::<KeyModel>::empty());
        }
        game.update_state();
        Ok(game)
    }

    /// Whether the side to move has any legal move at all, short-circuiting
    /// on the first piece that has one.
    pub fn has_any_legal_moves(&self) -> (r: bool)
        requires
            self@.wf(),
        ensures
            r == has_any_legal(self@.board, self@.active_color),
    {
        let cache: &Vec<(PieceType, Position)> = if self.active_color == Color::White {
            &self.white_pieces
        } else {
            &self.black_pieces
        };
        proof {
            lemma_cache_sound(self@.board, self@.active_color, 0);
        }
        let n = cache.len();
        let mut i: usize = 0;
        while i < n
            invariant
                self@.wf(),
                n == cache@.len(),
                i <= n,
                cache@ == derived_cache(self@.board, self@.active_color),
                forall|j: int, q: Position|
                    0 <= j < i ==> !move_ok(self@.board, cache@[j].1, q),
            decreases n - i,
        {
            let p = cache[i].1;
            let moves = self.board.get_legal_moves(p);
            if moves.len() > 0 {
                proof {
                    let q = moves@[0];
                    assert(moves@.contains(q));
                    lemma_cache_sound(self@.board, self@.active_color, 0);
                    assert(self@.board.color_at(p.x as int, p.y as int, self@.active_color));
                    assert(has_any_legal(self@.board, self@.active_color));
                }
                return true;
            }
            proof {
                assert forall|q: Position| !move_ok(self@.board, cache@[i as int].1, q) by {
                    if move_ok(self@.board, cache@[i as int].1, q) {
                        assert(moves@.contains(q));
                    }
                }
            }
            i = i + 1;
        }
        proof {
            if has_any_legal(self@.board, self@.active_color) {
                let (p, q) = choose|p: Position, q: Position|
                    self@.board.color_at(p.x as int, p.y as int, self@.active_color) && move_ok(
                        self@.board,
                        p,
                        q,
                    );
                lemma_cache_complete(self@.board, self@.active_color, p, 0);
                let e = (self@.board.at_pos(p).unwrap().piece_type, p);
                let j = choose|j: int| 0 <= j < cache@.len() && cache@[j] == e;
                assert(!move_ok(self@.board, cache@[j].1, q));
            }
        }
        false
    }

    /// Records the current position in the repetition history.
    pub fn record_position(&mut self)
        requires
            old(self)@.wf(),
        ensures
            final(self)@ == (GameModel {
                position_history: old(self)@.position_history.push(key_of(old(self)@.board)),
                ..old(self)@
            }),
            final(self)@.wf(),
    {
        let key = position_key(&self.board);
        let ghost old_hist = keys_view(self.position_history@);
        self.position_history.push(key);
        proof {
            assert(keys_view(self.position_history@) =~= old_hist.push(key_of(self.board@)));
            assert(final(self)@ =~= (GameModel {
                position_history: old(self)@.position_history.push(key_of(old(self)@.board)),
                ..old(self)@
            }));
        }
    }

    /// Whether any recorded position has occurred at least three times.
    pub fn is_threefold_repetition(&self) -> (r: bool)
        ensures
            r == has_threefold(self@.position_history),
    {
        let ghost hist = keys_view(self.position_history@);
        let n = self.position_history.len();
        let mut i: usize = 0;
        while i < n
            invariant
                n == self.position_history@.len(),
                hist == keys_view(self.position_history@),
                i <= n,
                forall|j: int| 0 <= j < i ==> count_key(hist, hist[j]) < 3,
            decreases n - i,
        {
            let ki = &self.position_history[i];
            let mut count: usize = 0;
            let mut j: usize = 0;
            while j < n
                invariant
                    n == self.position_history@.len(),
                    hist == keys_view(self.position_history@),
                    i < n,
                    j <= n,
                    ki@ == hist[i as int],
                    count == count_key(hist.subrange(0, j as int), hist[i as int]),
                    count <= j,
                decreases n - j,
            {
                if key_eq_total(&self.position_history[j], ki) {
                    count = count + 1;
                }
                j = j + 1;
                proof {
                    assert(hist.subrange(0, j as int).drop_last() =~= hist.subrange(
                        0,
                        j - 1,
                    ));
                }
            }
            proof {
                assert(hist.subrange(0, n as int) =~= hist);
            }
            if count >= 3 {
                return true;
            }
            i = i + 1;
        }
        false
    }
}

/// The promotion kind a request yields.
fn promo_piece_exec(p: Option<PieceType>) -> (r: PieceType)
    ensures
        r == promo_type(p),
{
    match p {
        Some(t) => if t == PieceType::Queen || t == PieceType::Rook || t == PieceType::Bishop || t
            == PieceType::Knight {
            t
        } else {
            PieceType::Queen
        },
        None => PieceType::Queen,
    }
}

impl GameState {
    /// Recomputes the check flag and the terminal state for the side to
    /// move: checkmate when in check without a legal move, stalemate when
    /// out of moves without check or when a position has repeated three
    /// times.
    pub fn update_state(&mut self)
        requires
            old(self)@.wf(),
        ensures
            final(self)@ == (GameModel {
                check: in_check(old(self)@.board, old(self)@.active_color),
                checkmate: checkmate_of(old(self)@.board, old(self)@.active_color),
                stalemate: stalemate_of(
                    old(self)@.board,
                    old(self)@.active_color,
                    old(self)@.position_history,
                ),
                ..old(self)@
            }),
            final(self)@.wf(),
    {
        self.check = self.board.is_in_check(self.active_color);
        let any = self.has_any_legal_moves();
        let three = self.is_threefold_repetition();
        self.checkmate = self.check && !any;
        self.stalemate = (!any && !self.check) || (any && three);
    }

    /// Plays a half-move: validates it on the board, applies it atomically,
    /// updates the capture lists, the repetition history, the piece index
    /// and the terminal flags, and appends the move record.  On a rejected
    /// move the game state is left exactly as it was.
    pub fn make_move(&mut self, from: Position, to: Position, promotion: Option<PieceType>) -> (r:
        Result<(), MoveError>)
        requires
            old(self)@.wf(),
        ensures
            final(self)@.wf(),
            r is Ok <==> game_move_ok(old(self)@.board, from, to, promotion),
            r is Err ==> final(self)@ == old(self)@,
            r == Err::<(), MoveError>(MoveError::NoPieceAtSource) <==> old(self)@.board.at_pos(from)
                is None,
            r == Err::<(), MoveError>(MoveError::IllegalMove) <==> (old(self)@.board.at_pos(from)
                is Some && !pseudo_legal(old(self)@.board, from, to)),
            r == Err::<(), MoveError>(MoveError::SelfCheck) <==> (old(self)@.board.at_pos(from)
                is Some && pseudo_legal(old(self)@.board, from, to) && !game_move_ok(
                old(self)@.board,
                from,
                to,
                promotion,
            )),
            r is Ok ==> ({
                let m0 = old(self)@.board;
                let m2 = apply_move(m0, from, to, promotion);
                let hist2 = if reset_spec(m0, from, to) {
                    seq![key_of(m2)]
                } else {
                    old(self)@.position_history.push(key_of(m2))
                };
                &&& final(self)@.board == m2
                &&& final(self)@.active_color == m2.active_color
                &&& final(self)@.check == in_check(m2, m2.active_color)
                &&& final(self)@.checkmate == checkmate_of(m2, m2.active_color)
                &&& final(self)@.stalemate == stalemate_of(m2, m2.active_color, hist2)
                &&& final(self)@.position_history == hist2
                &&& final(self)@.move_history == old(self)@.move_history.push(
                    record_spec(
                        m0,
                        from,
                        to,
                        promotion,
                        in_check(m2, m2.active_color),
                        checkmate_of(m2, m2.active_color),
                    ),
                )
                &&& final(self)@.captured_by_white == (if m0.at_pos(from).unwrap().color
                    == Color::White && captured_spec(m0, from, to) is Some {
                    old(self)@.captured_by_white.push(captured_spec(m0, from, to).unwrap())
                } else {
                    old(self)@.captured_by_white
                })
                &&& final(self)@.captured_by_black == (if m0.at_pos(from).unwrap().color
                    == Color::Black && captured_spec(m0, from, to) is Some {
                    old(self)@.captured_by_black.push(captured_spec(m0, from, to).unwrap())
                } else {
                    old(self)@.captured_by_black
                })
            }),
    {
        let piece = match self.board.get_piece(from) {
            None => {
                return Err(MoveError::NoPieceAtSource);
            },
            Some(p) => p,
        };
        let direct = self.board.get_piece(to);
        let captured: Option<Piece> = match direct {
            Some(c) => Some(c),
            None => {
                if piece.piece_type == PieceType::Pawn {
                    match self.board.en_passant_target() {
                        Some(t) => if t == to {
                            self.board.get_piece(Position { x: to.x, y: from.y })
                        } else {
                            None
                        },
                        None => None,
                    }
                } else {
                    None
                }
            },
        };
        let is_reset = direct.is_some() || piece.piece_type == PieceType::Pawn;
        let snapshot = self.board.clone();
        match self.board.move_piece_with(from, to, promotion) {
            Err(e) => {
                return Err(e);
            },
            Ok(()) => {},
        }
        proof {
            crate::apply::lemma_pseudo_legal_on_board(old(self)@.board, from, to);
        }
        if self.board.is_in_check(piece.color) {
            self.board = snapshot;
            return Err(MoveError::SelfCheck);
        }
        self.active_color = self.board.active_color;
        match captured {
            Some(c) => {
                if piece.color == Color::White {
                    self.captured_by_white.push(c);
                } else {
                    self.captured_by_black.push(c);
                }
            },
            None => {},
        }
        self.white_pieces = derive_cache_exec(&self.board, Color::White);
        self.black_pieces = derive_cache_exec(&self.board, Color::Black);
        if is_reset {
            self.position_history = Vec::new();
            proof {
                assert(keys_view(self.position_history@) =~= Seq::<KeyModel>::empty());
            }
        }
        self.record_position();
        self.update_state();
        let castling: Option<CastlingSide> = if piece.piece_type == PieceType::King && (to.x
            - from.x >= 2 || from.x - to.x >= 2) {
            if to.x > from.x {
                Some(CastlingSide::Kingside)
            } else {
                Some(CastlingSide::Queenside)
            }
        } else {
            None
        };
        let promo_rec: Option<PieceType> = if piece.piece_type == PieceType::Pawn && (to.y == 0
            || to.y == 7) {
            Some(promo_piece_exec(promotion))
        } else {
            None
        };
        let record = MoveRecord {
            piece: piece.piece_type,
            color: piece.color,
            from,
            to,
            captured,
            is_check: self.check,
            is_checkmate: self.checkmate,
            castling,
            promotion: promo_rec,
        };
        self.move_history.push(record);
        Ok(())
    }
}

/// Whether two stored signatures are equal, for signatures of any shape.
fn key_eq_total(a: &PositionKey, b: &PositionKey) -> (r: bool)
    ensures
        r == (a@ == b@),
{
    if !(a.active == b.active) {
        return false;
    }
    if !(a.castles.0 == b.castles.0 && a.castles.1 == b.castles.1 && a.castles.2 == b.castles.2
        && a.castles.3 == b.castles.3) {
        proof {
            assert(a@.castles != b@.castles);
        }
        return false;
    }
    let ep_same = match (a.ep, b.ep) {
        (None, None) => true,
        (Some(p), Some(q)) => p == q,
        _ => false,
    };
    if !ep_same {
        return false;
    }
    let na = a.cells.len();
    let nb = b.cells.len();
    if na != nb {
        return false;
    }
    let mut i: usize = 0;
    while i < na
        invariant
            i <= na,
            na == a@.cells.len(),
            na == b@.cells.len(),
            forall|j: int| 0 <= j < i ==> a@.cells[j] == b@.cells[j],
        decreases na - i,
    {
        let same = match (a.cells[i], b.cells[i]) {
            (None, None) => true,
            (Some((t1, c1)), Some((t2, c2))) => t1 == t2 && c1 == c2,
            _ => false,
        };
        if !same {
            return false;
        }
        i = i + 1;
    }
    proof {
        assert(a@.cells =~= b@.cells);
        assert(a@ =~= b@);
    }
    true
}

} // verus!
