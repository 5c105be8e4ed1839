//! The FEN codec: six space-separated fields — piece placement by rank from
//! the eighth down, active color, castling rights, en-passant target,
//! halfmove clock and fullmove number.
//!
//! `fen_of` and `parse_fen_spec` are the mathematical encoder and decoder;
//! `to_fen` and `load_fen` implement exactly those.  Loading parses into a
//! fresh board and swaps it in only on full success, so a malformed string
//! never leaves the board partially mutated.

use vstd::prelude::*;

use crate::board::Board;
use crate::board::BoardModel;
use crate::pieces::Color;
use crate::pieces::Piece;
use crate::pieces::PieceType;
use crate::position::Position;
use crate::strutil::chars_to_string;
use crate::strutil::str_to_chars;

verus! {

/// Why a FEN string was rejected.
#[derive(Debug, Clone, Copy, PartialEq, Eq, Structural)]
pub enum FenError {
    /// The string holds no fields at all.
    Empty,
    /// The placement field does not have exactly eight ranks.
    BadRankCount,
    /// A character in the placement field is neither a digit nor a piece.
    BadPiece,
    /// A rank describes more than eight squares.
    RankTooLong,
    /// A rank describes fewer than eight squares.
    RankTooShort,
    /// The active-color field is neither "w" nor "b".
    BadColor,
    /// The castling field holds a character outside "KQkq" and "-".
    BadCastling,
    /// The en-passant field is neither "-" nor a board square.
    BadEnPassant,
}

// ---------------------------------------------------------------------------
// encoding
// ---------------------------------------------------------------------------
/// The character of a single decimal digit.
pub open spec fn digit_char(d: int) -> char {
    ((48 + d) as u8) as char
}

/// The decimal digits of `n`, most significant first.
pub open spec fn dec_seq(n: nat) -> Seq<char>
    decreases n,
{
    if n < 10 {
        seq![digit_char(n as int)]
    } else {
        dec_seq(n / 10) + seq![digit_char((n % 10) as int)]
    }
}

/// The encoding of rank `y` from file `x` on, with `run` empty squares
/// already pending to the left.
pub open spec fn rank_seq_from(m: BoardModel, y: int, x: int, run: int) -> Seq<char>
    decreases 8 - x,
{
    if x >= 8 {
        if run > 0 {
            seq![digit_char(run)]
        } else {
            Seq::empty()
        }
    } else {
        match m.at(x, y) {
            None => rank_seq_from(m, y, x + 1, run + 1),
            Some(p) => (if run > 0 {
                seq![digit_char(run)]
            } else {
                Seq::empty()
            }) + seq![p.fen_char()] + rank_seq_from(m, y, x + 1, 0),
        }
    }
}

/// The encoding of one whole rank.
pub open spec fn rank_seq(m: BoardModel, y: int) -> Seq<char> {
    rank_seq_from(m, y, 0, 0)
}

/// The placement field from rank `y` down to rank 0, slash-separated.
pub open spec fn placement_from(m: BoardModel, y: int) -> Seq<char>
    decreases y,
{
    if y <= 0 {
        rank_seq(m, 0)
    } else {
        rank_seq(m, y) + seq!['/'] + placement_from(m, y - 1)
    }
}

/// The placement field: ranks 8 down to 1.
pub open spec fn placement_seq(m: BoardModel) -> Seq<char> {
    placement_from(m, 7)
}

/// The active-color field.
pub open spec fn color_seq(c: Color) -> Seq<char> {
    if c == Color::White {
        seq!['w']
    } else {
        seq!['b']
    }
}

/// The castling field: the held rights in "KQkq" order, or "-".
pub open spec fn castle_seq(m: BoardModel) -> Seq<char> {
    let s = (if m.castle_wk {
        seq!['K']
    } else {
        Seq::empty()
    }) + (if m.castle_wq {
        seq!['Q']
    } else {
        Seq::empty()
    }) + (if m.castle_bk {
        seq!['k']
    } else {
        Seq::empty()
    }) + (if m.castle_bq {
        seq!['q']
    } else {
        Seq::empty()
    });
    if s.len() == 0 {
        seq!['-']
    } else {
        s
    }
}

/// The en-passant field: the target square in algebraic notation, or "-".
pub open spec fn ep_seq(m: BoardModel) -> Seq<char> {
    match m.en_passant {
        Some(p) => p.notation_seq(),
        None => seq!['-'],
    }
}

/// The full FEN encoding of a board.
pub open spec fn fen_of(m: BoardModel) -> Seq<char> {
    placement_seq(m) + seq![' '] + color_seq(m.active_color) + seq![' '] + castle_seq(m) + seq![' ']
        + ep_seq(m) + seq![' '] + dec_seq(m.halfmove_clock as nat) + seq![' '] + dec_seq(
        m.fullmove_number as nat,
    )
}

// ---------------------------------------------------------------------------
// decoding
// ---------------------------------------------------------------------------
/// Splitting on runs of spaces, dropping empty tokens.
pub open spec fn split_go(s: Seq<char>, cur: Seq<char>, acc: Seq<Seq<char>>) -> Seq<Seq<char>>
    decreases s.len(),
{
    if s.len() == 0 {
        if cur.len() > 0 {
            acc.push(cur)
        } else {
            acc
        }
    } else if s[0] == ' ' {
        split_go(
            s.subrange(1, s.len() as int),
            Seq::empty(),
            if cur.len() > 0 {
                acc.push(cur)
            } else {
                acc
            },
        )
    } else {
        split_go(s.subrange(1, s.len() as int), cur.push(s[0]), acc)
    }
}

/// The space-separated fields of a FEN string.
pub open spec fn split_spaces(s: Seq<char>) -> Seq<Seq<char>> {
    split_go(s, Seq::empty(), Seq::empty())
}

/// Splitting on a separator, keeping empty pieces.
pub open spec fn split_sep_go(s: Seq<char>, sep: char, cur: Seq<char>, acc: Seq<Seq<char>>) -> Seq<
    Seq<char>,
>
    decreases s.len(),
{
    if s.len() == 0 {
        acc.push(cur)
    } else if s[0] == sep {
        split_sep_go(s.subrange(1, s.len() as int), sep, Seq::empty(), acc.push(cur))
    } else {
        split_sep_go(s.subrange(1, s.len() as int), sep, cur.push(s[0]), acc)
    }
}

/// The separator-split pieces of a sequence, empty pieces included.
pub open spec fn split_sep(s: Seq<char>, sep: char) -> Seq<Seq<char>> {
    split_sep_go(s, sep, Seq::empty(), Seq::empty())
}

/// Whether `c` is a decimal digit.
pub open spec fn is_digit(c: char) -> bool {
    48 <= c as u32 <= 57
}

/// Reading an unsigned decimal number left to right; `None` on a non-digit
/// or on overflowing 32 bits.
pub open spec fn parse_digits(s: Seq<char>, acc: u32) -> Option<u32>
    decreases s.len(),
{
    if s.len() == 0 {
        Some(acc)
    } else if !is_digit(s[0]) {
        None
    } else {
        let v = (acc as int) * 10 + (s[0] as u32 - 48);
        if v > 0xffff_ffff {
            None
        } else {
            parse_digits(s.subrange(1, s.len() as int), v as u32)
        }
    }
}

/// A counter field: its decimal value, or the default when it does not
/// parse as one.
pub open spec fn parse_u32_default(t: Seq<char>, dflt: u32) -> u32 {
    if t.len() == 0 {
        dflt
    } else {
        match parse_digits(t, 0) {
            Some(v) => v,
            None => dflt,
        }
    }
}

/// `n` empty squares.
pub open spec fn nones(n: int) -> Seq<Option<Piece>> {
    Seq::new(n as nat, |i: int| None::<Piece>)
}

/// Reading one placement rank: digits add empty squares, piece letters add
/// pieces; exactly eight squares must come out.
pub open spec fn parse_rank_go(row: Seq<char>, cells: Seq<Option<Piece>>) -> Result<
    Seq<Option<Piece>>,
    FenError,
>
    decreases row.len(),
{
    if row.len() == 0 {
        if cells.len() == 8 {
            Ok(cells)
        } else {
            Err(FenError::RankTooShort)
        }
    } else {
        let c = row[0];
        if is_digit(c) {
            let cells2 = cells + nones(c as u32 - 48);
            if cells2.len() > 8 {
                Err(FenError::RankTooLong)
            } else {
                parse_rank_go(row.subrange(1, row.len() as int), cells2)
            }
        } else {
            match Piece::fen_char_parse(c) {
                None => Err(FenError::BadPiece),
                Some(p) => {
                    let cells2 = cells.push(Some(p));
                    if cells2.len() > 8 {
                        Err(FenError::RankTooLong)
                    } else {
                        parse_rank_go(row.subrange(1, row.len() as int), cells2)
                    }
                },
            }
        }
    }
}

/// Reading the eight ranks of the placement field, top rank first.
pub open spec fn parse_rows(rows: Seq<Seq<char>>, i: int, acc: Seq<Seq<Option<Piece>>>) -> Result<
    Seq<Seq<Option<Piece>>>,
    FenError,
>
    decreases 8 - i,
{
    if i >= 8 {
        Ok(acc)
    } else {
        match parse_rank_go(rows[i], Seq::empty()) {
            Err(e) => Err(e),
            Ok(cells) => parse_rows(rows, i + 1, acc.push(cells)),
        }
    }
}

/// The 64 squares from the eight parsed ranks; row 0 is rank 7.
pub open spec fn assemble(rankrows: Seq<Seq<Option<Piece>>>) -> Seq<Option<Piece>> {
    Seq::new(64, |idx: int| rankrows[7 - idx / 8][idx % 8])
}

/// Reading the placement field.
pub open spec fn parse_placement(tok: Seq<char>) -> Result<Seq<Option<Piece>>, FenError> {
    let rows = split_sep(tok, '/');
    if rows.len() != 8 {
        Err(FenError::BadRankCount)
    } else {
        match parse_rows(rows, 0, Seq::empty()) {
            Ok(rs) => Ok(assemble(rs)),
            Err(e) => Err(e),
        }
    }
}

/// Reading the active-color field.
pub open spec fn parse_color_tok(t: Seq<char>) -> Result<Color, FenError> {
    if t.len() == 1 && t[0] == 'w' {
        Ok(Color::White)
    } else if t.len() == 1 && t[0] == 'b' {
        Ok(Color::Black)
    } else {
        Err(FenError::BadColor)
    }
}

/// Reading the castling field character by character.
pub open spec fn parse_castle_go(t: Seq<char>, wk: bool, wq: bool, bk: bool, bq: bool) -> Result<
    (bool, bool, bool, bool),
    FenError,
>
    decreases t.len(),
{
    if t.len() == 0 {
        Ok((wk, wq, bk, bq))
    } else if t[0] == 'K' {
        parse_castle_go(t.subrange(1, t.len() as int), true, wq, bk, bq)
    } else if t[0] == 'Q' {
        parse_castle_go(t.subrange(1, t.len() as int), wk, true, bk, bq)
    } else if t[0] == 'k' {
        parse_castle_go(t.subrange(1, t.len() as int), wk, wq, true, bq)
    } else if t[0] == 'q' {
        parse_castle_go(t.subrange(1, t.len() as int), wk, wq, bk, true)
    } else {
        Err(FenError::BadCastling)
    }
}

/// Reading the castling field: a subset of "KQkq", or "-" for none.
pub open spec fn parse_castle_tok(t: Seq<char>) -> Result<(bool, bool, bool, bool), FenError> {
    if t.len() == 1 && t[0] == '-' {
        Ok((false, false, false, false))
    } else {
        parse_castle_go(t, false, false, false, false)
    }
}

/// Reading the en-passant field.
pub open spec fn parse_ep_tok(t: Seq<char>) -> Result<Option<Position>, FenError> {
    if t.len() == 1 && t[0] == '-' {
        Ok(None)
    } else {
        match Position::notation_parse(t) {
            Ok(p) => Ok(Some(p)),
            Err(_) => Err(FenError::BadEnPassant),
        }
    }
}

/// The full FEN decoder.  Only the placement field is mandatory; missing
/// trailing fields default to White to move, all castling rights, no
/// en-passant target and fresh counters, and an unreadable counter falls
/// back to its default.
pub open spec fn parse_fen_spec(s: Seq<char>) -> Result<BoardModel, FenError> {
    let parts = split_spaces(s);
    if parts.len() == 0 {
        Err(FenError::Empty)
    } else {
        match parse_placement(parts[0]) {
            Err(e) => Err(e),
            Ok(squares) => {
                let color_r = if parts.len() > 1 {
                    parse_color_tok(parts[1])
                } else {
                    Ok(Color::White)
                };
                match color_r {
                    Err(e) => Err(e),
                    Ok(color) => {
                        let castle_r = if parts.len() > 2 {
                            parse_castle_tok(parts[2])
                        } else {
                            Ok((true, true, true, true))
                        };
                        match castle_r {
                            Err(e) => Err(e),
                            Ok(cf) => {
                                let ep_r = if parts.len() > 3 {
                                    parse_ep_tok(parts[3])
                                } else {
                                    Ok(None)
                                };
                                match ep_r {
                                    Err(e) => Err(e),
                                    Ok(ep) => {
                                        let half = if parts.len() > 4 {
                                            parse_u32_default(parts[4], 0)
                                        } else {
                                            0
                                        };
                                        let full = if parts.len() > 5 {
                                            parse_u32_default(parts[5], 1)
                                        } else {
                                            1
                                        };
                                        Ok(
                                            BoardModel {
                                                squares,
                                                active_color: color,
                                                castle_wk: cf.0,
                                                castle_wq: cf.1,
                                                castle_bk: cf.2,
                                                castle_bq: cf.3,
                                                en_passant: ep,
                                                halfmove_clock: half,
                                                fullmove_number: full,
                                            },
                                        )
                                    },
                                }
                            },
                        }
                    },
                }
            },
        }
    }
}

// ---------------------------------------------------------------------------
// executable encoder
// ---------------------------------------------------------------------------
/// Appends the decimal digits of `n`.
fn emit_dec(n: u32, out: &mut Vec<char>)
    ensures
        final(out)@ == old(out)@ + dec_seq(n as nat),
    decreases n,
{
    if n < 10 {
        out.push((48 + n as u8) as char);
    } else {
        emit_dec(n / 10, out);
        out.push((48 + (n % 10) as u8) as char);
    }
}

/// Appends the encoding of rank `y` from file `x` on.
fn emit_rank(b: &Board, y: i8, x: i8, run: i8, out: &mut Vec<char>)
    requires
        b@.wf(),
        0 <= y < 8,
        0 <= x <= 8,
        0 <= run <= x,
    ensures
        final(out)@ == old(out)@ + rank_seq_from(b@, y as int, x as int, run as int),
    decreases 8 - x,
{
    if x >= 8 {
        if run > 0 {
            out.push((48 + run as u8) as char);
        }
    } else {
        match b.get_piece(Position { x, y }) {
            None => {
                emit_rank(b, y, x + 1, run + 1, out);
            },
            Some(p) => {
                if run > 0 {
                    out.push((48 + run as u8) as char);
                }
                out.push(p.to_char());
                emit_rank(b, y, x + 1, 0, out);
            },
        }
    }
}

/// Appends the placement field from rank `y` down.
fn emit_placement(b: &Board, y: i8, out: &mut Vec<char>)
    requires
        b@.wf(),
        0 <= y < 8,
    ensures
        final(out)@ == old(out)@ + placement_from(b@, y as int),
    decreases y,
{
    if y <= 0 {
        emit_rank(b, 0, 0, 0, out);
    } else {
        emit_rank(b, y, 0, 0, out);
        out.push('/');
        emit_placement(b, y - 1, out);
    }
}

/// Appends one character.
fn emit_char(out: &mut Vec<char>, c: char)
    ensures
        final(out)@ == old(out)@ + seq![c],
{
    out.push(c);
    proof {
        assert(out@ =~= old(out)@ + seq![c]);
    }
}

/// Appends the active-color field.
fn emit_color(b: &Board, out: &mut Vec<char>)
    ensures
        final(out)@ == old(out)@ + color_seq(b@.active_color),
{
    if b.active_color == Color::White {
        emit_char(out, 'w');
    } else {
        emit_char(out, 'b');
    }
}

/// Appends the castling field.
fn emit_castle(b: &Board, out: &mut Vec<char>)
    ensures
        final(out)@ == old(out)@ + castle_seq(b@),
{
    let (wk, wq, bk, bq) = b.castling_flags();
    if !wk && !wq && !bk && !bq {
        emit_char(out, '-');
        proof {
            assert(out@ =~= old(out)@ + castle_seq(b@));
        }
    } else {
        if wk {
            emit_char(out, 'K');
        }
        if wq {
            emit_char(out, 'Q');
        }
        if bk {
            emit_char(out, 'k');
        }
        if bq {
            emit_char(out, 'q');
        }
        proof {
            assert(out@ =~= old(out)@ + castle_seq(b@));
        }
    }
}

/// Appends the en-passant field.
fn emit_ep(b: &Board, out: &mut Vec<char>)
    requires
        b@.wf(),
    ensures
        final(out)@ == old(out)@ + ep_seq(b@),
{
    match b.en_passant_target() {
        Some(p) => {
            emit_char(out, (97 + p.x as u8) as char);
            emit_char(out, (49 + p.y as u8) as char);
            proof {
                assert(out@ =~= old(out)@ + ep_seq(b@));
            }
        },
        None => {
            emit_char(out, '-');
        },
    }
}

impl Board {
    /// Convert the current board state to FEN notation.
    pub fn to_fen(&self) -> (r: String)
        requires
            self@.wf(),
        ensures
            r@ == fen_of(self@),
    {
        let mut out: Vec<char> = Vec::new();
        emit_placement(self, 7, &mut out);
        proof {
            assert(out@ =~= placement_seq(self@));
        }
        emit_char(&mut out, ' ');
        emit_color(self, &mut out);
        emit_char(&mut out, ' ');
        emit_castle(self, &mut out);
        emit_char(&mut out, ' ');
        emit_ep(self, &mut out);
        emit_char(&mut out, ' ');
        emit_dec(self.halfmove_clock, &mut out);
        emit_char(&mut out, ' ');
        emit_dec(self.fullmove_number, &mut out);
        chars_to_string(&out)
    }
}

// ---------------------------------------------------------------------------
// executable decoder
// ---------------------------------------------------------------------------
/// The views of a sequence of character vectors.
pub open spec fn token_views(ts: Seq<Vec<char>>) -> Seq<Seq<char>> {
    Seq::new(ts.len(), |i: int| ts[i]@)
}

/// Splits into space-separated tokens.
fn split_spaces_exec(v: &Vec<char>) -> (r: Vec<Vec<char>>)
    ensures
        token_views(r@) == split_spaces(v@),
{
    let n = v.len();
    let mut out: Vec<Vec<char>> = Vec::new();
    let mut cur: Vec<char> = Vec::new();
    proof {
        assert(v@.subrange(0, n as int) =~= v@);
        assert(token_views(out@) =~= Seq::<Seq<char>>::empty());
    }
    let mut i: usize = 0;
    while i < n
        invariant
            i <= n,
            n == v@.len(),
            split_spaces(v@) == split_go(v@.subrange(i as int, n as int), cur@, token_views(out@)),
        decreases n - i,
    {
        let ghost pre = v@.subrange(i as int, n as int);
        let c = v[i];
        assert(pre[0] == c);
        if c == ' ' {
            if cur.len() > 0 {
                let ghost old_out = out@;
                let ghost old_cur = cur@;
                out.push(cur);
                cur = Vec::new();
                proof {
                    assert(token_views(out@) =~= token_views(old_out).push(old_cur));
                }
            }
            proof {
                assert(cur@ =~= Seq::<char>::empty());
            }
        } else {
            cur.push(c);
        }
        i = i + 1;
        proof {
            assert(pre.subrange(1, pre.len() as int) =~= v@.subrange(i as int, n as int));
        }
    }
    proof {
        assert(v@.subrange(n as int, n as int) =~= Seq::<char>::empty());
    }
    if cur.len() > 0 {
        let ghost old_out = out@;
        let ghost old_cur = cur@;
        out.push(cur);
        proof {
            assert(token_views(out@) =~= token_views(old_out).push(old_cur));
        }
    }
    out
}

/// Splits on a separator, keeping empty pieces.
pub(crate) fn split_sep_exec(v: &Vec<char>, sep: char) -> (r: Vec<Vec<char>>)
    ensures
        token_views(r@) == split_sep(v@, sep),
{
    let n = v.len();
    let mut out: Vec<Vec<char>> = Vec::new();
    let mut cur: Vec<char> = Vec::new();
    proof {
        assert(v@.subrange(0, n as int) =~= v@);
        assert(token_views(out@) =~= Seq::<Seq<char>>::empty());
    }
    let mut i: usize = 0;
    while i < n
        invariant
            i <= n,
            n == v@.len(),
            split_sep(v@, sep) == split_sep_go(
                v@.subrange(i as int, n as int),
                sep,
                cur@,
                token_views(out@),
            ),
        decreases n - i,
    {
        let ghost pre = v@.subrange(i as int, n as int);
        let c = v[i];
        assert(pre[0] == c);
        if c == sep {
            let ghost old_out = out@;
            let ghost old_cur = cur@;
            out.push(cur);
            cur = Vec::new();
            proof {
                assert(token_views(out@) =~= token_views(old_out).push(old_cur));
            }
        } else {
            cur.push(c);
        }
        i = i + 1;
        proof {
            assert(pre.subrange(1, pre.len() as int) =~= v@.subrange(i as int, n as int));
        }
    }
    proof {
        assert(v@.subrange(n as int, n as int) =~= Seq::<char>::empty());
    }
    let ghost old_out = out@;
    let ghost old_cur = cur@;
    out.push(cur);
    proof {
        assert(token_views(out@) =~= token_views(old_out).push(old_cur));
    }
    out
}

/// Reads a counter field, falling back to the default.
fn parse_counter(t: &Vec<char>, dflt: u32) -> (r: u32)
    ensures
        r == parse_u32_default(t@, dflt),
{
    let n = t.len();
    if n == 0 {
        return dflt;
    }
    let mut acc: u32 = 0;
    proof {
        assert(t@.subrange(0, n as int) =~= t@);
    }
    let mut i: usize = 0;
    while i < n
        invariant
            i <= n,
            n == t@.len(),
            parse_digits(t@, 0) == parse_digits(t@.subrange(i as int, n as int), acc),
        decreases n - i,
    {
        let ghost pre = t@.subrange(i as int, n as int);
        let c = t[i];
        assert(pre[0] == c);
        let cv = c as u32;
        if !(48 <= cv && cv <= 57) {
            return dflt;
        }
        let d = cv - 48;
        let wide: u64 = acc as u64 * 10 + d as u64;
        if wide > 0xffff_ffffu64 {
            return dflt;
        }
        acc = wide as u32;
        i = i + 1;
        proof {
            assert(pre.subrange(1, pre.len() as int) =~= t@.subrange(i as int, n as int));
        }
    }
    proof {
        assert(t@.subrange(n as int, n as int) =~= Seq::<char>::empty());
    }
    acc
}

/// Reads one placement rank into eight squares.
fn parse_rank_exec(row: &Vec<char>) -> (r: Result<Vec<Option<Piece>>, FenError>)
    ensures
        match r {
            Ok(cells) => parse_rank_go(row@, Seq::empty()) == Ok::<_, FenError>(cells@)
                && cells@.len() == 8,
            Err(e) => parse_rank_go(row@, Seq::empty()) == Err::<Seq<Option<Piece>>, _>(e),
        },
{
    let n = row.len();
    let mut cells: Vec<Option<Piece>> = Vec::new();
    proof {
        assert(row@.subrange(0, n as int) =~= row@);
    }
    let mut i: usize = 0;
    while i < n
        invariant
            i <= n,
            n == row@.len(),
            cells@.len() <= 8,
            parse_rank_go(row@, Seq::empty()) == parse_rank_go(
                row@.subrange(i as int, n as int),
                cells@,
            ),
        decreases n - i,
    {
        let ghost pre = row@.subrange(i as int, n as int);
        let c = row[i];
        assert(pre[0] == c);
        let cv = c as u32;
        if 48 <= cv && cv <= 57 {
            let d = (cv - 48) as usize;
            if cells.len() + d > 8 {
                proof {
                    assert((cells@ + nones(c as u32 - 48)).len() > 8);
                }
                return Err(FenError::RankTooLong);
            }
            let ghost old_cells = cells@;
            proof {
                assert(cells@ =~= old_cells + nones(0));
            }
            let mut k: usize = 0;
            while k < d
                invariant
                    k <= d,
                    cells@ == old_cells + nones(k as int),
                decreases d - k,
            {
                cells.push(None);
                k = k + 1;
                proof {
                    assert(cells@ =~= old_cells + nones(k as int));
                }
            }
            proof {
                assert(cells@ =~= old_cells + nones(c as u32 - 48));
            }
        } else {
            match Piece::from_fen(c) {
                None => {
                    return Err(FenError::BadPiece);
                },
                Some(p) => {
                    if cells.len() + 1 > 8 {
                        return Err(FenError::RankTooLong);
                    }
                    cells.push(Some(p));
                },
            }
        }
        i = i + 1;
        proof {
            assert(pre.subrange(1, pre.len() as int) =~= row@.subrange(i as int, n as int));
        }
    }
    proof {
        assert(row@.subrange(n as int, n as int) =~= Seq::<char>::empty());
    }
    if cells.len() == 8 {
        Ok(cells)
    } else {
        Err(FenError::RankTooShort)
    }
}

/// Reads the castling field.
fn parse_castle_exec(t: &Vec<char>) -> (r: Result<(bool, bool, bool, bool), FenError>)
    ensures
        match r {
            Ok(cf) => parse_castle_tok(t@) == Ok::<_, FenError>(cf),
            Err(e) => parse_castle_tok(t@) == Err::<(bool, bool, bool, bool), _>(e),
        },
{
    let n = t.len();
    if n == 1 && t[0] == '-' {
        return Ok((false, false, false, false));
    }
    let mut wk = false;
    let mut wq = false;
    let mut bk = false;
    let mut bq = false;
    proof {
        assert(t@.subrange(0, n as int) =~= t@);
    }
    let mut i: usize = 0;
    while i < n
        invariant
            i <= n,
            n == t@.len(),
            !(t@.len() == 1 && t@[0] == '-'),
            parse_castle_tok(t@) == parse_castle_go(
                t@.subrange(i as int, n as int),
                wk,
                wq,
                bk,
                bq,
            ),
        decreases n - i,
    {
        let ghost pre = t@.subrange(i as int, n as int);
        let c = t[i];
        assert(pre[0] == c);
        if c == 'K' {
            wk = true;
        } else if c == 'Q' {
            wq = true;
        } else if c == 'k' {
            bk = true;
        } else if c == 'q' {
            bq = true;
        } else {
            return Err(FenError::BadCastling);
        }
        i = i + 1;
        proof {
            assert(pre.subrange(1, pre.len() as int) =~= t@.subrange(i as int, n as int));
        }
    }
    proof {
        assert(t@.subrange(n as int, n as int) =~= Seq::<char>::empty());
    }
    Ok((wk, wq, bk, bq))
}

/// Parses a whole FEN character sequence into a fresh board.
fn parse_fen_exec(v: &Vec<char>) -> (r: Result<Board, FenError>)
    ensures
        match r {
            Ok(b) => parse_fen_spec(v@) == Ok::<_, FenError>(b@) && b@.wf(),
            Err(e) => parse_fen_spec(v@) == Err::<BoardModel, _>(e),
        },
{
    let parts = split_spaces_exec(v);
    if parts.len() == 0 {
        return Err(FenError::Empty);
    }
    assert(parts@[0]@ == split_spaces(v@)[0]);
    let rows = split_sep_exec(&parts[0], '/');
    if rows.len() != 8 {
        return Err(FenError::BadRankCount);
    }
    let ghost parts0 = split_spaces(v@)[0];
    let mut rankrows: Vec<Vec<Option<Piece>>> = Vec::new();
    let ghost mut parsed: Seq<Seq<Option<Piece>>> = Seq::empty();
    let mut i: usize = 0;
    while i < 8
        invariant
            i <= 8,
            rows@.len() == 8,
            split_spaces(v@).len() > 0,
            parts0 == split_spaces(v@)[0],
            token_views(rows@) == split_sep(parts0, '/'),
            rankrows@.len() == i,
            parsed.len() == i,
            forall|j: int| 0 <= j < i ==> parsed[j].len() == 8 && rankrows@[j]@ == parsed[j],
            parse_rows(token_views(rows@), 0, Seq::empty()) == parse_rows(
                token_views(rows@),
                i as int,
                parsed,
            ),
        decreases 8 - i,
    {
        match parse_rank_exec(&rows[i]) {
            Err(e) => {
                proof {
                    assert(token_views(rows@)[i as int] == rows@[i as int]@);
                    assert(parse_rows(token_views(rows@), i as int, parsed) == Err::<
                        Seq<Seq<Option<Piece>>>,
                        FenError,
                    >(e));
                    assert(parse_placement(parts0) == Err::<Seq<Option<Piece>>, FenError>(e));
                }
                return Err(e);
            },
            Ok(cells) => {
                rankrows.push(cells);
                proof {
                    assert(token_views(rows@)[i as int] == rows@[i as int]@);
                    parsed = parsed.push(cells@);
                }
            },
        }
        i = i + 1;
    }
    let ghost parsed_rows = parsed;
    assert(parse_rows(token_views(rows@), 0, Seq::empty()) == Ok::<_, FenError>(parsed_rows));
    proof {
        assert forall|j: int| 0 <= j < 8 implies rankrows@[j]@.len() == 8 by {
            assert(rankrows@[j]@ == parsed[j]);
        }
    }
    let mut squares: Vec<Option<Piece>> = Vec::new();
    let mut y: usize = 0;
    while y < 8
        invariant
            y <= 8,
            rankrows@.len() == 8,
            forall|j: int| 0 <= j < 8 ==> rankrows@[j]@.len() == 8,
            squares@.len() == y * 8,
            forall|idx: int|
                0 <= idx < y * 8 ==> squares@[idx] == rankrows@[7 - idx / 8]@[idx % 8],
        decreases 8 - y,
    {
        let row = &rankrows[7 - y];
        let mut x: usize = 0;
        while x < 8
            invariant
                y < 8,
                x <= 8,
                rankrows@.len() == 8,
                forall|j: int| 0 <= j < 8 ==> rankrows@[j]@.len() == 8,
                row@ == rankrows@[7 - y as int]@,
                squares@.len() == y * 8 + x,
                forall|idx: int|
                    0 <= idx < y * 8 + x ==> squares@[idx] == rankrows@[7 - idx / 8]@[idx % 8],
            decreases 8 - x,
        {
            squares.push(row[x]);
            x = x + 1;
            proof {
                let idx = squares@.len() - 1;
                assert(idx / 8 == y && idx % 8 == x - 1) by (nonlinear_arith)
                    requires idx == y * 8 + x - 1, 0 <= y < 8, 1 <= x <= 8;
            }
        }
        y = y + 1;
    }
    proof {
        assert(squares@ =~= assemble(parsed_rows));
    }
    let color = if parts.len() > 1 {
        let t = &parts[1];
        assert(t@ == split_spaces(v@)[1]);
        if t.len() == 1 && t[0] == 'w' {
            Color::White
        } else if t.len() == 1 && t[0] == 'b' {
            Color::Black
        } else {
            return Err(FenError::BadColor);
        }
    } else {
        Color::White
    };
    let cf = if parts.len() > 2 {
        assert(parts@[2]@ == split_spaces(v@)[2]);
        match parse_castle_exec(&parts[2]) {
            Ok(cf) => cf,
            Err(e) => {
                return Err(e);
            },
        }
    } else {
        (true, true, true, true)
    };
    let ep = if parts.len() > 3 {
        let t = &parts[3];
        assert(t@ == split_spaces(v@)[3]);
        if t.len() == 1 && t[0] == '-' {
            None
        } else {
            let n = t.len();
            if n != 2 {
                return Err(FenError::BadEnPassant);
            }
            let fv = t[0] as u32;
            let f: u32 = if 65 <= fv && fv <= 90 {
                fv + 32
            } else {
                fv
            };
            let rv = t[1] as u32;
            if 97 <= f && f <= 104 && 49 <= rv && rv <= 56 {
                Some(Position { x: (f - 97) as i8, y: (rv - 49) as i8 })
            } else {
                return Err(FenError::BadEnPassant);
            }
        }
    } else {
        None
    };
    let half = if parts.len() > 4 {
        assert(parts@[4]@ == split_spaces(v@)[4]);
        parse_counter(&parts[4], 0)
    } else {
        0
    };
    let full = if parts.len() > 5 {
        assert(parts@[5]@ == split_spaces(v@)[5]);
        parse_counter(&parts[5], 1)
    } else {
        1
    };
    let b = Board {
        squares,
        active_color: color,
        castle_wk: cf.0,
        castle_wq: cf.1,
        castle_bk: cf.2,
        castle_bq: cf.3,
        en_passant: ep,
        halfmove_clock: half,
        fullmove_number: full,
    };
    Ok(b)
}

impl Board {
    /// Replaces this board with the position a FEN string describes; on a
    /// malformed string the board is left exactly as it was.
    pub fn load_fen(&mut self, fen: &str) -> (r: Result<(), FenError>)
        requires
            old(self)@.wf(),
        ensures
            final(self)@.wf(),
            match parse_fen_spec(fen@) {
                Ok(m) => r is Ok && final(self)@ == m,
                Err(e) => r == Err::<(), FenError>(e) && final(self)@ == old(self)@,
            },
    {
        let v = str_to_chars(fen);
        match parse_fen_exec(&v) {
            Ok(b) => {
                *self = b;
                Ok(())
            },
            Err(e) => Err(e),
        }
    }

    /// A fresh board parsed from a FEN string.
    pub fn from_fen(fen: &str) -> (r: Result<Board, FenError>)
        ensures
            match parse_fen_spec(fen@) {
                Ok(m) => r is Ok && r.unwrap()@ == m && m.wf(),
                Err(e) => r == Err::<Board, FenError>(e),
            },
    {
        let v = str_to_chars(fen);
        parse_fen_exec(&v)
    }
}

// ---------------------------------------------------------------------------
// round trip
// ---------------------------------------------------------------------------
/// Whether no character of `s` equals `c`.
pub open spec fn no_char(s: Seq<char>, c: char) -> bool {
    forall|k: int| 0 <= k < s.len() ==> s[k] != c
}

/// A square as the decoder produces it: empty, or a fresh piece of a real
/// kind.
pub open spec fn cell_fresh(c: Option<Piece>) -> bool {
    match c {
        None => true,
        Some(p) => p == Piece::fresh(p.piece_type, p.color) && p.piece_type != PieceType::Empty,
    }
}

/// Whether every square of the placement is decoder-shaped.
pub open spec fn model_fresh(m: BoardModel) -> bool {
    forall|i: int| 0 <= i < 64 ==> cell_fresh(#[trigger] m.squares[i])
}

/// Rank encodings hold only digits and piece letters: never a slash or a
/// space.
proof fn lemma_rank_chars(m: BoardModel, y: int, x: int, run: int)
    requires
        m.wf(),
        0 <= y < 8,
        0 <= x <= 8,
        0 <= run <= x,
        forall|j: int| x <= j < 8 ==> cell_fresh(#[trigger] m.at(j, y)),
    ensures
        no_char(rank_seq_from(m, y, x, run), '/'),
        no_char(rank_seq_from(m, y, x, run), ' '),
    decreases 8 - x,
{
    if x >= 8 {
        if run > 0 {
            assert(digit_char(run) as u32 == 48 + run);
        }
    } else {
        match m.at(x, y) {
            None => {
                lemma_rank_chars(m, y, x + 1, run + 1);
            },
            Some(p) => {
                lemma_rank_chars(m, y, x + 1, 0);
                let pre = if run > 0 {
                    seq![digit_char(run)]
                } else {
                    Seq::<char>::empty()
                };
                let rest = rank_seq_from(m, y, x + 1, 0);
                let s = pre + seq![p.fen_char()] + rest;
                if run > 0 {
                    assert(digit_char(run) as u32 == 48 + run);
                }
                assert(cell_fresh(m.at(x, y)));
                assert(p.fen_char() != '/' && p.fen_char() != ' ');
                assert forall|k: int| 0 <= k < s.len() implies s[k] != '/' && s[k] != ' ' by {
                    if k < pre.len() {
                        assert(s[k] == pre[k]);
                    } else if k == pre.len() {
                        assert(s[k] == p.fen_char());
                    } else {
                        assert(s[k] == rest[k - pre.len() - 1]);
                    }
                }
            },
        }
    }
}

/// A rank encoding is never empty.
proof fn lemma_rank_len(m: BoardModel, y: int, x: int, run: int)
    requires
        0 <= x <= 8,
        0 <= run,
        run > 0 || x < 8,
    ensures
        rank_seq_from(m, y, x, run).len() >= 1,
    decreases 8 - x,
{
    if x < 8 {
        match m.at(x, y) {
            None => {
                lemma_rank_len(m, y, x + 1, run + 1);
            },
            Some(_) => {},
        }
    }
}

/// The squares of rank `y` from file `x` on.
pub open spec fn rank_slice(m: BoardModel, y: int, x: int) -> Seq<Option<Piece>> {
    Seq::new((8 - x) as nat, |i: int| m.at(x + i, y))
}

/// Decoding a rank encoding yields exactly the rank's squares.
#[verifier::rlimit(100)]
proof fn lemma_rank_roundtrip(m: BoardModel, y: int, x: int, run: int, cells0: Seq<Option<Piece>>)
    requires
        m.wf(),
        0 <= y < 8,
        0 <= x <= 8,
        0 <= run <= x,
        cells0.len() == x - run,
        forall|j: int| x <= j < 8 ==> cell_fresh(#[trigger] m.at(j, y)),
    ensures
        parse_rank_go(rank_seq_from(m, y, x, run), cells0) == Ok::<_, FenError>(
            cells0 + nones(run) + rank_slice(m, y, x),
        ),
    decreases 8 - x,
{
    reveal_with_fuel(parse_rank_go, 4);
    let target = cells0 + nones(run) + rank_slice(m, y, x);
    if x == 8 {
        assert(rank_slice(m, y, 8) =~= Seq::<Option<Piece>>::empty());
        if run == 0 {
            assert(target =~= cells0);
        } else {
            let s = seq![digit_char(run)];
            assert(digit_char(run) as u32 == 48 + run);
            assert(is_digit(s[0]));
            let cells2 = cells0 + nones(run);
            assert(cells2.len() == 8);
            assert(s.subrange(1, 1) =~= Seq::<char>::empty());
            assert(target =~= cells2);
        }
    } else {
        match m.at(x, y) {
            None => {
                lemma_rank_roundtrip(m, y, x + 1, run + 1, cells0);
                assert(cells0 + nones(run + 1) + rank_slice(m, y, x + 1) =~= target);
            },
            Some(p) => {
                assert(cell_fresh(m.at(x, y)));
                let pc = p.fen_char();
                let rest = rank_seq_from(m, y, x + 1, 0);
                let s2 = seq![pc] + rest;
                let cells1 = cells0 + nones(run);
                assert(!is_digit(pc));
                assert(Piece::fen_char_parse(pc) == Some(p));
                let cells2 = cells1.push(Some(p));
                assert(s2.subrange(1, s2.len() as int) =~= rest);
                lemma_rank_roundtrip(m, y, x + 1, 0, cells2);
                assert(cells2 + nones(0) + rank_slice(m, y, x + 1) =~= target);
                if run > 0 {
                    let s = rank_seq_from(m, y, x, run);
                    assert(s =~= seq![digit_char(run)] + s2);
                    assert(digit_char(run) as u32 == 48 + run);
                    assert(is_digit(s[0]));
                    assert(s.subrange(1, s.len() as int) =~= s2);
                    assert(parse_rank_go(s, cells0) == parse_rank_go(s2, cells1));
                } else {
                    let s = rank_seq_from(m, y, x, run);
                    assert(s =~= s2);
                    assert(cells1 =~= cells0);
                }
            },
        }
    }
}

/// Consuming a separator-free prefix just moves it into the current piece.
proof fn lemma_split_sep_skip(
    t: Seq<char>,
    rest: Seq<char>,
    sep: char,
    cur: Seq<char>,
    acc: Seq<Seq<char>>,
)
    requires
        no_char(t, sep),
    ensures
        split_sep_go(t + rest, sep, cur, acc) == split_sep_go(rest, sep, cur + t, acc),
    decreases t.len(),
{
    if t.len() == 0 {
        assert(t + rest =~= rest);
        assert(cur + t =~= cur);
    } else {
        let s = t + rest;
        assert(s[0] == t[0]);
        let t2 = t.subrange(1, t.len() as int);
        assert(s.subrange(1, s.len() as int) =~= t2 + rest);
        assert(no_char(t2, sep)) by {
            assert forall|k: int| 0 <= k < t2.len() implies t2[k] != sep by {
                assert(t2[k] == t[k + 1]);
            }
        }
        lemma_split_sep_skip(t2, rest, sep, cur.push(t[0]), acc);
        assert(cur.push(t[0]) + t2 =~= cur + t);
    }
}

/// Consuming a space-free prefix just moves it into the current token.
proof fn lemma_split_skip(t: Seq<char>, rest: Seq<char>, cur: Seq<char>, acc: Seq<Seq<char>>)
    requires
        no_char(t, ' '),
    ensures
        split_go(t + rest, cur, acc) == split_go(rest, cur + t, acc),
    decreases t.len(),
{
    if t.len() == 0 {
        assert(t + rest =~= rest);
        assert(cur + t =~= cur);
    } else {
        let s = t + rest;
        assert(s[0] == t[0]);
        let t2 = t.subrange(1, t.len() as int);
        assert(s.subrange(1, s.len() as int) =~= t2 + rest);
        assert(no_char(t2, ' ')) by {
            assert forall|k: int| 0 <= k < t2.len() implies t2[k] != ' ' by {
                assert(t2[k] == t[k + 1]);
            }
        }
        lemma_split_skip(t2, rest, cur.push(t[0]), acc);
        assert(cur.push(t[0]) + t2 =~= cur + t);
    }
}

/// The rank encodings of ranks `y` down to 0, top first.
pub open spec fn ranks_down(m: BoardModel, y: int) -> Seq<Seq<char>>
    decreases y + 1,
{
    if y < 0 {
        Seq::empty()
    } else {
        seq![rank_seq(m, y)] + ranks_down(m, y - 1)
    }
}

/// Shape of `ranks_down`: one entry per rank, top rank first.
proof fn lemma_ranks_down_index(m: BoardModel, y: int)
    requires
        -1 <= y,
    ensures
        ranks_down(m, y).len() == y + 1,
        forall|i: int| 0 <= i <= y ==> ranks_down(m, y)[i] == rank_seq(m, y - i),
    decreases y + 1,
{
    if y >= 0 {
        lemma_ranks_down_index(m, y - 1);
    }
}

/// Splitting the placement field on slashes recovers the rank encodings.
proof fn lemma_split_placement(m: BoardModel, y: int, acc: Seq<Seq<char>>)
    requires
        m.wf(),
        0 <= y < 8,
        model_fresh(m),
    ensures
        split_sep_go(placement_from(m, y), '/', Seq::empty(), acc) == acc + ranks_down(m, y),
    decreases y,
{
    assert forall|j: int| 0 <= j < 8 implies cell_fresh(#[trigger] m.at(j, y)) by {
        assert(cell_fresh(m.squares[y * 8 + j]));
    }
    lemma_rank_chars(m, y, 0, 0);
    lemma_ranks_down_index(m, y);
    lemma_ranks_down_index(m, y - 1);
    if y == 0 {
        let t = rank_seq(m, 0);
        assert(placement_from(m, 0) =~= t + Seq::<char>::empty());
        lemma_split_sep_skip(t, Seq::empty(), '/', Seq::empty(), acc);
        assert(Seq::<char>::empty() + t =~= t);
        assert(acc.push(t) =~= acc + ranks_down(m, 0));
    } else {
        let t = rank_seq(m, y);
        let rest = seq!['/'] + placement_from(m, y - 1);
        assert(placement_from(m, y) =~= t + rest);
        lemma_split_sep_skip(t, rest, '/', Seq::empty(), acc);
        assert(Seq::<char>::empty() + t =~= t);
        assert(rest.subrange(1, rest.len() as int) =~= placement_from(m, y - 1));
        lemma_split_placement(m, y - 1, acc.push(t));
        assert(acc.push(t) + ranks_down(m, y - 1) =~= acc + ranks_down(m, y));
    }
}

/// Decoding the sequence of rank encodings yields each rank's squares.
proof fn lemma_rows_roundtrip(m: BoardModel, i: int, acc: Seq<Seq<Option<Piece>>>)
    requires
        m.wf(),
        model_fresh(m),
        0 <= i <= 8,
    ensures
        parse_rows(ranks_down(m, 7), i, acc) == Ok::<_, FenError>(
            acc + Seq::new((8 - i) as nat, |j: int| rank_slice(m, 7 - i - j, 0)),
        ),
    decreases 8 - i,
{
    lemma_ranks_down_index(m, 7);
    if i == 8 {
        assert(acc + Seq::new(0, |j: int| rank_slice(m, 7 - 8 - j, 0)) =~= acc);
    } else {
        let y = 7 - i;
        assert forall|j: int| 0 <= j < 8 implies cell_fresh(#[trigger] m.at(j, y)) by {
            assert(cell_fresh(m.squares[y * 8 + j]));
        }
        assert(ranks_down(m, 7)[i] == rank_seq(m, y));
        lemma_rank_roundtrip(m, y, 0, 0, Seq::empty());
        let cells = Seq::<Option<Piece>>::empty() + nones(0) + rank_slice(m, y, 0);
        assert(cells =~= rank_slice(m, y, 0));
        lemma_rows_roundtrip(m, i + 1, acc.push(rank_slice(m, y, 0)));
        assert(acc.push(rank_slice(m, y, 0)) + Seq::new(
            (7 - i) as nat,
            |j: int| rank_slice(m, 7 - (i + 1) - j, 0),
        ) =~= acc + Seq::new((8 - i) as nat, |j: int| rank_slice(m, 7 - i - j, 0)));
    }
}

/// Decoding the placement field of an encoded board recovers its squares.
proof fn lemma_placement_roundtrip(m: BoardModel)
    requires
        m.wf(),
        model_fresh(m),
    ensures
        parse_placement(placement_seq(m)) == Ok::<_, FenError>(m.squares),
{
    lemma_split_placement(m, 7, Seq::empty());
    let rows = split_sep(placement_seq(m), '/');
    assert(Seq::<Seq<char>>::empty() + ranks_down(m, 7) =~= ranks_down(m, 7));
    lemma_ranks_down_index(m, 7);
    assert(rows.len() == 8);
    lemma_rows_roundtrip(m, 0, Seq::empty());
    let rs = Seq::new(8, |j: int| rank_slice(m, 7 - j, 0));
    assert(Seq::<Seq<Option<Piece>>>::empty() + rs =~= rs);
    assert(parse_rows(rows, 0, Seq::empty()) == Ok::<_, FenError>(rs));
    assert(assemble(rs) =~= m.squares) by {
        assert forall|idx: int| 0 <= idx < 64 implies assemble(rs)[idx] == m.squares[idx] by {
            let xx = idx % 8;
            let yy = idx / 8;
            assert(0 <= xx < 8 && 0 <= yy < 8 && yy * 8 + xx == idx) by (nonlinear_arith)
                requires 0 <= idx < 64, xx == idx % 8, yy == idx / 8;
            assert(assemble(rs)[idx] == rs[7 - yy][xx]);
            assert(rs[7 - yy] == rank_slice(m, yy, 0));
            assert(rank_slice(m, yy, 0)[xx] == m.at(xx, yy));
        }
    }
}

/// The digits of a number, parsed back left to right, give the number.
proof fn lemma_parse_digits_concat(a: Seq<char>, b: Seq<char>, acc: u32)
    ensures
        parse_digits(a + b, acc) == (match parse_digits(a, acc) {
            Some(acc2) => parse_digits(b, acc2),
            None => None,
        }),
    decreases a.len(),
{
    if a.len() == 0 {
        assert(a + b =~= b);
    } else {
        let s = a + b;
        assert(s[0] == a[0]);
        if is_digit(a[0]) {
            let v = (acc as int) * 10 + (a[0] as u32 - 48);
            if v <= 0xffff_ffff {
                let a2 = a.subrange(1, a.len() as int);
                assert(s.subrange(1, s.len() as int) =~= a2 + b);
                lemma_parse_digits_concat(a2, b, v as u32);
            }
        }
    }
}

/// Decimal encoding and decoding are inverse.
proof fn lemma_dec_parse(n: u32)
    ensures
        parse_digits(dec_seq(n as nat), 0) == Some(n),
        dec_seq(n as nat).len() >= 1,
        forall|k: int| 0 <= k < dec_seq(n as nat).len() ==> is_digit(#[trigger] dec_seq(n as nat)[k]),
    decreases n,
{
    lemma_dec_parse_acc(n as nat);
}

/// Generalized decimal round trip: feeding the digits of `n` into the
/// running parse multiplies the accumulator out and adds `n`.
proof fn lemma_dec_parse_acc(n: nat)
    requires
        n <= 0xffff_ffff,
    ensures
        parse_digits(dec_seq(n), 0) == Some(n as u32),
        dec_seq(n).len() >= 1,
        forall|k: int| 0 <= k < dec_seq(n).len() ==> is_digit(#[trigger] dec_seq(n)[k]),
    decreases n,
{
    reveal_with_fuel(parse_digits, 4);
    if n < 10 {
        let s = seq![digit_char(n as int)];
        assert(digit_char(n as int) as u32 == 48 + n);
        assert(is_digit(s[0]));
        assert(s.subrange(1, 1) =~= Seq::<char>::empty());
    } else {
        lemma_dec_parse_acc(n / 10);
        let a = dec_seq(n / 10);
        let b = seq![digit_char((n % 10) as int)];
        assert(digit_char((n % 10) as int) as u32 == 48 + n % 10);
        assert(is_digit(b[0]));
        lemma_parse_digits_concat(a, b, 0);
        let acc2 = (n / 10) as u32;
        assert((acc2 as int) * 10 + (b[0] as u32 - 48) == n) by (nonlinear_arith)
            requires acc2 == n / 10, b[0] as u32 == 48 + n % 10, n >= 10, n <= 0xffff_ffff;
        assert(b.subrange(1, 1) =~= Seq::<char>::empty());
        assert forall|k: int| 0 <= k < dec_seq(n).len() implies is_digit(
            #[trigger] dec_seq(n)[k],
        ) by {
            if k < a.len() {
                assert(dec_seq(n)[k] == a[k]);
            } else {
                assert(dec_seq(n)[k] == b[k - a.len()]);
            }
        }
    }
}

/// Castling-field parsing distributes over concatenation.
proof fn lemma_castle_concat(a: Seq<char>, b: Seq<char>, wk: bool, wq: bool, bk: bool, bq: bool)
    ensures
        parse_castle_go(a + b, wk, wq, bk, bq) == (match parse_castle_go(a, wk, wq, bk, bq) {
            Ok(f) => parse_castle_go(b, f.0, f.1, f.2, f.3),
            Err(e) => Err(e),
        }),
    decreases a.len(),
{
    if a.len() == 0 {
        assert(a + b =~= b);
    } else {
        let s = a + b;
        assert(s[0] == a[0]);
        let a2 = a.subrange(1, a.len() as int);
        assert(s.subrange(1, s.len() as int) =~= a2 + b);
        if a[0] == 'K' {
            lemma_castle_concat(a2, b, true, wq, bk, bq);
        } else if a[0] == 'Q' {
            lemma_castle_concat(a2, b, wk, true, bk, bq);
        } else if a[0] == 'k' {
            lemma_castle_concat(a2, b, wk, wq, true, bq);
        } else if a[0] == 'q' {
            lemma_castle_concat(a2, b, wk, wq, bk, true);
        }
    }
}

/// Decoding the castling field of an encoded board recovers its rights.
proof fn lemma_castle_roundtrip(m: BoardModel)
    ensures
        parse_castle_tok(castle_seq(m)) == Ok::<_, FenError>(
            (m.castle_wk, m.castle_wq, m.castle_bk, m.castle_bq),
        ),
        castle_seq(m).len() >= 1,
        no_char(castle_seq(m), ' '),
{
    reveal_with_fuel(parse_castle_go, 4);
    let pk = if m.castle_wk {
        seq!['K']
    } else {
        Seq::<char>::empty()
    };
    let pq = if m.castle_wq {
        seq!['Q']
    } else {
        Seq::<char>::empty()
    };
    let pbk = if m.castle_bk {
        seq!['k']
    } else {
        Seq::<char>::empty()
    };
    let pbq = if m.castle_bq {
        seq!['q']
    } else {
        Seq::<char>::empty()
    };
    let s = pk + pq + pbk + pbq;
    if s.len() == 0 {
        assert(!m.castle_wk && !m.castle_wq && !m.castle_bk && !m.castle_bq);
        assert(castle_seq(m) == seq!['-']);
        assert(castle_seq(m)[0] != ' ');
    } else {
        assert(castle_seq(m) == s);
        lemma_castle_concat(pk, pq + pbk + pbq, false, false, false, false);
        assert(s =~= pk + (pq + pbk + pbq));
        if m.castle_wk {
            assert(pk.subrange(1, 1) =~= Seq::<char>::empty());
        } else {
            assert(pk + (pq + pbk + pbq) =~= pq + pbk + pbq);
        }
        assert(parse_castle_go(pk, false, false, false, false) == Ok::<_, FenError>(
            (m.castle_wk, false, false, false),
        ));
        lemma_castle_concat(pq, pbk + pbq, m.castle_wk, false, false, false);
        assert(pq + pbk + pbq =~= pq + (pbk + pbq));
        if m.castle_wq {
            assert(pq.subrange(1, 1) =~= Seq::<char>::empty());
        }
        assert(parse_castle_go(pq, m.castle_wk, false, false, false) == Ok::<_, FenError>(
            (m.castle_wk, m.castle_wq, false, false),
        ));
        lemma_castle_concat(pbk, pbq, m.castle_wk, m.castle_wq, false, false);
        if m.castle_bk {
            assert(pbk.subrange(1, 1) =~= Seq::<char>::empty());
        }
        assert(parse_castle_go(pbk, m.castle_wk, m.castle_wq, false, false) == Ok::<_, FenError>(
            (m.castle_wk, m.castle_wq, m.castle_bk, false),
        ));
        if m.castle_bq {
            assert(pbq.subrange(1, 1) =~= Seq::<char>::empty());
        }
        assert(parse_castle_go(pbq, m.castle_wk, m.castle_wq, m.castle_bk, false) == Ok::<
            _,
            FenError,
        >((m.castle_wk, m.castle_wq, m.castle_bk, m.castle_bq)));
        assert(parse_castle_go(s, false, false, false, false) == Ok::<_, FenError>(
            (m.castle_wk, m.castle_wq, m.castle_bk, m.castle_bq),
        ));
        if s.len() == 1 {
            assert(s[0] != '-');
        }
        assert(no_char(s, ' '));
    }
}

/// Decoding the en-passant field of an encoded board recovers its target.
proof fn lemma_ep_roundtrip(m: BoardModel)
    requires
        m.wf(),
    ensures
        parse_ep_tok(ep_seq(m)) == Ok::<_, FenError>(m.en_passant),
        ep_seq(m).len() >= 1,
        no_char(ep_seq(m), ' '),
{
    match m.en_passant {
        None => {
            assert(ep_seq(m)[0] == '-');
        },
        Some(p) => {
            let s = p.notation_seq();
            let fc = ((97 + p.x) as u8) as char;
            let rc = ((49 + p.y) as u8) as char;
            assert(fc as u32 == 97 + p.x);
            assert(rc as u32 == 49 + p.y);
            assert(s[0] == fc && s[1] == rc);
            assert(Position::lower_code(fc) == 97 + p.x);
            assert(Position::notation_parse(s) == Ok::<_, crate::position::PositionError>(p));
            assert(no_char(s, ' '));
        },
    }
}

/// Consuming one space-terminated field appends it to the accumulator.
proof fn lemma_split_step(t: Seq<char>, rest: Seq<char>, acc: Seq<Seq<char>>)
    requires
        no_char(t, ' '),
        t.len() >= 1,
    ensures
        split_go(t + (seq![' '] + rest), Seq::empty(), acc) == split_go(
            rest,
            Seq::empty(),
            acc.push(t),
        ),
{
    lemma_split_skip(t, seq![' '] + rest, Seq::empty(), acc);
    assert(Seq::<char>::empty() + t =~= t);
    let sp = seq![' '] + rest;
    assert(sp[0] == ' ');
    assert(sp.subrange(1, sp.len() as int) =~= rest);
}

/// Consuming the last field appends it to the accumulator.
proof fn lemma_split_last(t: Seq<char>, acc: Seq<Seq<char>>)
    requires
        no_char(t, ' '),
        t.len() >= 1,
    ensures
        split_go(t, Seq::empty(), acc) == acc.push(t),
{
    assert(t =~= t + Seq::<char>::empty());
    lemma_split_skip(t, Seq::empty(), Seq::empty(), acc);
    assert(Seq::<char>::empty() + t =~= t);
}

/// Splitting the encoding of a board on spaces yields its six fields.
#[verifier::rlimit(100)]
#[verifier::spinoff_prover]
proof fn lemma_split_fen(m: BoardModel)
    requires
        m.wf(),
        model_fresh(m),
    ensures
        split_spaces(fen_of(m)) == seq![
            placement_seq(m),
            color_seq(m.active_color),
            castle_seq(m),
            ep_seq(m),
            dec_seq(m.halfmove_clock as nat),
            dec_seq(m.fullmove_number as nat),
        ],
{
    let t1 = placement_seq(m);
    let t2 = color_seq(m.active_color);
    let t3 = castle_seq(m);
    let t4 = ep_seq(m);
    let t5 = dec_seq(m.halfmove_clock as nat);
    let t6 = dec_seq(m.fullmove_number as nat);
    // character classes and lengths of the six fields
    assert(no_char(t1, ' ') && t1.len() >= 1) by {
        lemma_placement_fields(m, 7);
    }
    assert(no_char(t2, ' ') && t2.len() == 1);
    lemma_castle_roundtrip(m);
    lemma_ep_roundtrip(m);
    lemma_dec_parse(m.halfmove_clock);
    lemma_dec_parse(m.fullmove_number);
    assert(no_char(t5, ' ')) by {
        assert forall|k: int| 0 <= k < t5.len() implies t5[k] != ' ' by {
            assert(is_digit(t5[k]));
        }
    }
    assert(no_char(t6, ' ')) by {
        assert forall|k: int| 0 <= k < t6.len() implies t6[k] != ' ' by {
            assert(is_digit(t6[k]));
        }
    }
    // peel the fields off one by one
    let r5 = t5 + seq![' '] + t6;
    let r4 = t4 + seq![' '] + r5;
    let r3 = t3 + seq![' '] + r4;
    let r2 = t2 + seq![' '] + r3;
    let acc0 = Seq::<Seq<char>>::empty();
    assert(fen_of(m) =~= t1 + (seq![' '] + r2));
    lemma_split_step(t1, r2, acc0);
    assert(r2 =~= t2 + (seq![' '] + r3));
    lemma_split_step(t2, r3, acc0.push(t1));
    assert(r3 =~= t3 + (seq![' '] + r4));
    lemma_split_step(t3, r4, acc0.push(t1).push(t2));
    assert(r4 =~= t4 + (seq![' '] + r5));
    lemma_split_step(t4, r5, acc0.push(t1).push(t2).push(t3));
    assert(r5 =~= t5 + (seq![' '] + t6));
    lemma_split_step(t5, t6, acc0.push(t1).push(t2).push(t3).push(t4));
    lemma_split_last(t6, acc0.push(t1).push(t2).push(t3).push(t4).push(t5));
    assert(acc0.push(t1).push(t2).push(t3).push(t4).push(t5).push(t6) =~= seq![
        t1,
        t2,
        t3,
        t4,
        t5,
        t6,
    ]);
}

/// The placement field never holds a space and is never empty.
proof fn lemma_placement_fields(m: BoardModel, y: int)
    requires
        m.wf(),
        model_fresh(m),
        0 <= y < 8,
    ensures
        no_char(placement_from(m, y), ' '),
        placement_from(m, y).len() >= 1,
    decreases y,
{
    assert forall|j: int| 0 <= j < 8 implies cell_fresh(#[trigger] m.at(j, y)) by {
        assert(cell_fresh(m.squares[y * 8 + j]));
    }
    lemma_rank_chars(m, y, 0, 0);
    lemma_rank_len(m, y, 0, 0);
    if y == 0 {
    } else {
        lemma_placement_fields(m, y - 1);
        let s = placement_from(m, y);
        let t = rank_seq(m, y);
        let rest = placement_from(m, y - 1);
        assert forall|k: int| 0 <= k < s.len() implies s[k] != ' ' by {
            if k < t.len() {
                assert(s[k] == t[k]);
            } else if k == t.len() {
                assert(s[k] == '/');
            } else {
                assert(s[k] == rest[k - t.len() - 1]);
            }
        }
    }
}

/// A decoded rank holds only decoder-shaped cells.
proof fn lemma_parse_rank_fresh(row: Seq<char>, cells: Seq<Option<Piece>>)
    requires
        forall|j: int| 0 <= j < cells.len() ==> cell_fresh(#[trigger] cells[j]),
    ensures
        match parse_rank_go(row, cells) {
            Ok(cells2) => forall|j: int| 0 <= j < cells2.len() ==> cell_fresh(#[trigger] cells2[j]),
            Err(_) => true,
        },
    decreases row.len(),
{
    if row.len() > 0 {
        let c = row[0];
        if is_digit(c) {
            let cells2 = cells + nones(c as u32 - 48);
            if cells2.len() <= 8 {
                assert(forall|j: int| 0 <= j < cells2.len() ==> cell_fresh(#[trigger] cells2[j]));
                lemma_parse_rank_fresh(row.subrange(1, row.len() as int), cells2);
            }
        } else {
            match Piece::fen_char_parse(c) {
                None => {},
                Some(p) => {
                    let cells2 = cells.push(Some(p));
                    if cells2.len() <= 8 {
                        assert(cell_fresh(Some(p)));
                        assert(forall|j: int|
                            0 <= j < cells2.len() ==> cell_fresh(#[trigger] cells2[j]));
                        lemma_parse_rank_fresh(row.subrange(1, row.len() as int), cells2);
                    }
                },
            }
        }
    }
}

/// Every rank a decode produces holds only decoder-shaped cells.
proof fn lemma_parse_rows_fresh(rows: Seq<Seq<char>>, i: int, acc: Seq<Seq<Option<Piece>>>)
    requires
        0 <= i <= 8,
        forall|a: int, b: int|
            0 <= a < acc.len() && 0 <= b < acc[a].len() ==> cell_fresh(#[trigger] acc[a][b]),
    ensures
        match parse_rows(rows, i, acc) {
            Ok(rs) => forall|a: int, b: int|
                0 <= a < rs.len() && 0 <= b < rs[a].len() ==> cell_fresh(#[trigger] rs[a][b]),
            Err(_) => true,
        },
    decreases 8 - i,
{
    if i < 8 {
        match parse_rank_go(rows[i], Seq::empty()) {
            Err(_) => {},
            Ok(cells) => {
                lemma_parse_rank_fresh(rows[i], Seq::empty());
                let acc2 = acc.push(cells);
                assert forall|a: int, b: int|
                    0 <= a < acc2.len() && 0 <= b < acc2[a].len() implies cell_fresh(
                    #[trigger] acc2[a][b],
                ) by {
                    if a < acc.len() {
                        assert(cell_fresh(acc[a][b]));
                    } else {
                        assert(acc2[a] == cells);
                        assert(cell_fresh(cells[b]));
                    }
                }
                lemma_parse_rows_fresh(rows, i + 1, acc2);
            },
        }
    }
}

/// What a successful decode yields is a well-formed, decoder-shaped board.
proof fn lemma_parse_wf(f: Seq<char>, m: BoardModel)
    requires
        parse_fen_spec(f) == Ok::<BoardModel, FenError>(m),
    ensures
        m.wf(),
        model_fresh(m),
{
    let parts = split_spaces(f);
    match parse_placement(parts[0]) {
        Err(_) => {},
        Ok(squares) => {
            let rows = split_sep(parts[0], '/');
            match parse_rows(rows, 0, Seq::empty()) {
                Err(_) => {},
                Ok(rs) => {
                    lemma_parse_rows_fresh(rows, 0, Seq::empty());
                    assert(squares == assemble(rs));
                    assert(parse_rows(rows, 0, Seq::empty()) == Ok::<_, FenError>(rs));
                    lemma_parse_rows_len(rows, 0, Seq::empty());
                    assert forall|i: int| 0 <= i < 64 implies cell_fresh(
                        #[trigger] m.squares[i],
                    ) by {
                        assert(m.squares == squares);
                        assert(squares[i] == rs[7 - i / 8][i % 8]);
                        assert(0 <= 7 - i / 8 < 8 && 0 <= i % 8 < 8) by (nonlinear_arith)
                            requires 0 <= i < 64;
                        assert(cell_fresh(rs[7 - i / 8][i % 8]));
                    }
                    if parts.len() > 3 {
                        match parse_ep_tok(parts[3]) {
                            Err(_) => {},
                            Ok(ep) => {
                                match ep {
                                    None => {},
                                    Some(p) => {
                                        assert(p.valid());
                                    },
                                }
                            },
                        }
                    }
                },
            }
        },
    }
}

/// A successful rank decode has exactly eight cells, and a successful row
/// decode returns rows of exactly eight cells each.
proof fn lemma_parse_rows_len(rows: Seq<Seq<char>>, i: int, acc: Seq<Seq<Option<Piece>>>)
    requires
        0 <= i <= 8,
        forall|a: int| 0 <= a < acc.len() ==> #[trigger] acc[a].len() == 8,
        acc.len() == i,
    ensures
        match parse_rows(rows, i, acc) {
            Ok(rs) => rs.len() == 8 && forall|a: int| 0 <= a < 8 ==> #[trigger] rs[a].len() == 8,
            Err(_) => true,
        },
    decreases 8 - i,
{
    if i < 8 {
        match parse_rank_go(rows[i], Seq::empty()) {
            Err(_) => {},
            Ok(cells) => {
                lemma_parse_rank_len(rows[i], Seq::empty());
                lemma_parse_rows_len(rows, i + 1, acc.push(cells));
            },
        }
    }
}

/// A successful rank decode yields exactly eight cells.
proof fn lemma_parse_rank_len(row: Seq<char>, cells: Seq<Option<Piece>>)
    ensures
        match parse_rank_go(row, cells) {
            Ok(cells2) => cells2.len() == 8,
            Err(_) => true,
        },
    decreases row.len(),
{
    if row.len() > 0 {
        let c = row[0];
        if is_digit(c) {
            let cells2 = cells + nones(c as u32 - 48);
            if cells2.len() <= 8 {
                lemma_parse_rank_len(row.subrange(1, row.len() as int), cells2);
            }
        } else {
            match Piece::fen_char_parse(c) {
                None => {},
                Some(p) => {
                    let cells2 = cells.push(Some(p));
                    if cells2.len() <= 8 {
                        lemma_parse_rank_len(row.subrange(1, row.len() as int), cells2);
                    }
                },
            }
        }
    }
}

/// Round trip: a board obtained by decoding some FEN string re-encodes to
/// a FEN string that decodes to the identical board — same piece
/// placement, active color, castling rights, en-passant target, and the
/// two counters carried verbatim.
pub proof fn lemma_fen_round_trip(f: Seq<char>, m: BoardModel)
    requires
        parse_fen_spec(f) == Ok::<BoardModel, FenError>(m),
    ensures
        parse_fen_spec(fen_of(m)) == Ok::<BoardModel, FenError>(m),
{
    lemma_parse_wf(f, m);
    lemma_split_fen(m);
    let parts = split_spaces(fen_of(m));
    assert(parts.len() == 6);
    assert(parts[0] == placement_seq(m));
    lemma_placement_roundtrip(m);
    assert(parse_color_tok(color_seq(m.active_color)) == Ok::<_, FenError>(m.active_color));
    lemma_castle_roundtrip(m);
    lemma_ep_roundtrip(m);
    lemma_dec_parse(m.halfmove_clock);
    lemma_dec_parse(m.fullmove_number);
    match parse_fen_spec(fen_of(m)) {
        Err(_) => {
            assert(false);
        },
        Ok(m2) => {
            assert(m2 =~= m);
        },
    }
}

} // verus!
