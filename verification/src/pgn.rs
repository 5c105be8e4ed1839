//! The pure text side of game storage: filename construction, fuzzy
//! filename matching, player-name tag extraction, and algebraic notation
//! for played moves.  File reading and writing stay with the caller; every
//! function here maps plain values to plain values.

use vstd::prelude::*;

use crate::game::CastlingSide;
use crate::game::MoveRecord;
use crate::pieces::Color;
use crate::pieces::PieceType;
use crate::strutil::chars_to_string;
use crate::strutil::str_to_chars;

verus! {

/// The lowercase form of a string, as `str::to_lowercase` computes it.
pub uninterp spec fn lower_of(s: Seq<char>) -> Seq<char>;

/// Relies on `str::to_lowercase`: the result depends on the characters
/// alone, and an empty string stays empty.
#[verifier::external_body]
fn lowercase(s: &str) -> (r: String)
    ensures
        r@ == lower_of(s@),
        s@.len() == 0 ==> r@.len() == 0,
{
    s.to_lowercase()
}

/// Whether `char::is_alphanumeric` accepts the character.
pub uninterp spec fn is_alnum(c: char) -> bool;

/// Relies on `char::is_alphanumeric`: a property of the character alone.
#[verifier::external_body]
fn char_is_alphanumeric(c: char) -> (r: bool)
    ensures
        r == is_alnum(c),
{
    c.is_alphanumeric()
}

/// Whether `needle` occurs in `hay` as a contiguous run of characters.
pub open spec fn is_substring(hay: Seq<char>, needle: Seq<char>) -> bool {
    exists|k: int|
        0 <= k <= hay.len() - needle.len() && #[trigger] hay.subrange(k, k + needle.len())
            == needle
}

/// Whether `needle` occurs in `hay`, by direct scan.
fn contains_seq(hay: &Vec<char>, needle: &Vec<char>) -> (r: bool)
    ensures
        r == is_substring(hay@, needle@),
{
    let n = needle.len();
    let h = hay.len();
    if n > h {
        assert(!is_substring(hay@, needle@));
        return false;
    }
    if n == 0 {
        proof {
            assert(hay@.subrange(0, 0 + needle@.len() as int) =~= needle@);
        }
        return true;
    }
    let mut k: usize = 0;
    while k <= h - n
        invariant
            1 <= n <= h,
            n == needle@.len(),
            h == hay@.len(),
            k <= h - n + 1,
            forall|k2: int| 0 <= k2 < k ==> #[trigger] hay@.subrange(k2, k2 + n) != needle@,
        decreases h - n + 1 - k,
    {
        let mut j: usize = 0;
        let mut matches = true;
        while j < n
            invariant
                n == needle@.len(),
                h == hay@.len(),
                k + n <= h,
                j <= n,
                matches ==> forall|j2: int|
                    0 <= j2 < j ==> hay@[k + j2] == needle@[j2],
                !matches ==> hay@.subrange(k as int, k + n) != needle@,
            decreases n - j,
        {
            if hay[k + j] != needle[j] {
                proof {
                    assert(hay@.subrange(k as int, k + n)[j as int] != needle@[j as int]);
                }
                matches = false;
                j = n;
            } else {
                j = j + 1;
            }
        }
        if matches {
            proof {
                assert(hay@.subrange(k as int, k as int + needle@.len() as int) =~= needle@);
            }
            return true;
        }
        k = k + 1;
    }
    proof {
        if is_substring(hay@, needle@) {
            let k2 = choose|k2: int|
                0 <= k2 <= hay@.len() - needle@.len() && #[trigger] hay@.subrange(
                    k2,
                    k2 + needle@.len(),
                ) == needle@;
            assert(hay@.subrange(k2, k2 + n) != needle@);
        }
    }
    false
}

/// Fuzzy match a query against a filename: case-insensitive substring
/// match, with the empty query matching everything.
pub fn fuzzy_match(filename: &str, query: &str) -> (r: bool)
    ensures
        query@.len() == 0 ==> r,
        query@.len() > 0 ==> r == is_substring(lower_of(filename@), lower_of(query@)),
{
    if query.unicode_len() == 0 {
        return true;
    }
    let filename_lower = lowercase(filename);
    let query_lower = lowercase(query);
    let hay = str_to_chars(filename_lower.as_str());
    let needle = str_to_chars(query_lower.as_str());
    contains_seq(&hay, &needle)
}

/// The filename-safe form of a string: alphanumeric characters, dashes and
/// underscores are kept, everything else becomes an underscore.
pub open spec fn sanitize_spec(s: Seq<char>) -> Seq<char> {
    Seq::new(
        s.len(),
        |i: int|
            if is_alnum(s[i]) || s[i] == '-' || s[i] == '_' {
                s[i]
            } else {
                '_'
            },
    )
}

/// Sanitize a string for use in a filename.
pub fn sanitize_filename(name: &str) -> (r: String)
    ensures
        r@ == sanitize_spec(name@),
{
    let chars = str_to_chars(name);
    let n = chars.len();
    let mut out: Vec<char> = Vec::new();
    let mut i: usize = 0;
    while i < n
        invariant
            i <= n,
            n == name@.len(),
            chars@ == name@,
            out@.len() == i,
            forall|j: int| 0 <= j < i ==> out@[j] == sanitize_spec(name@)[j],
        decreases n - i,
    {
        let c = chars[i];
        if char_is_alphanumeric(c) || c == '-' || c == '_' {
            out.push(c);
        } else {
            out.push('_');
        }
        i = i + 1;
    }
    proof {
        assert(out@ =~= sanitize_spec(name@));
    }
    chars_to_string(&out)
}

/// The save filename for two player names and a timestamp, under the PGN
/// directory.
pub open spec fn save_filename_seq(w: Seq<char>, b: Seq<char>, ts: Seq<char>) -> Seq<char> {
    seq!['p', 'g', 'n', '/'] + sanitize_spec(w) + seq!['-'] + sanitize_spec(b) + seq!['-'] + ts
        + seq!['.', 'p', 'g', 'n']
}

/// The save filename for the given players and timestamp.
pub fn save_filename_for(white_name: &str, black_name: &str, timestamp: &str) -> (r: String)
    ensures
        r@ == save_filename_seq(white_name@, black_name@, timestamp@),
{
    let white_safe = sanitize_filename(white_name);
    let black_safe = sanitize_filename(black_name);
    let mut out: Vec<char> = Vec::new();
    out.push('p');
    out.push('g');
    out.push('n');
    out.push('/');
    let ws = str_to_chars(white_safe.as_str());
    let mut i: usize = 0;
    let wn = ws.len();
    while i < wn
        invariant
            i <= wn,
            wn == ws@.len(),
            out@ == seq!['p', 'g', 'n', '/'] + ws@.subrange(0, i as int),
        decreases wn - i,
    {
        out.push(ws[i]);
        i = i + 1;
        proof {
            assert(out@ =~= seq!['p', 'g', 'n', '/'] + ws@.subrange(0, i as int));
        }
    }
    proof {
        assert(ws@.subrange(0, wn as int) =~= ws@);
    }
    out.push('-');
    let bs = str_to_chars(black_safe.as_str());
    let ghost mid1 = out@;
    let mut j: usize = 0;
    let bn = bs.len();
    while j < bn
        invariant
            j <= bn,
            bn == bs@.len(),
            out@ == mid1 + bs@.subrange(0, j as int),
        decreases bn - j,
    {
        out.push(bs[j]);
        j = j + 1;
        proof {
            assert(out@ =~= mid1 + bs@.subrange(0, j as int));
        }
    }
    proof {
        assert(mid1 + bs@.subrange(0, bn as int) =~= mid1 + bs@);
    }
    out.push('-');
    let ts = str_to_chars(timestamp);
    let ghost mid2 = out@;
    let mut k: usize = 0;
    let tn = ts.len();
    while k < tn
        invariant
            k <= tn,
            tn == ts@.len(),
            out@ == mid2 + ts@.subrange(0, k as int),
        decreases tn - k,
    {
        out.push(ts[k]);
        k = k + 1;
        proof {
            assert(out@ =~= mid2 + ts@.subrange(0, k as int));
        }
    }
    proof {
        assert(mid2 + ts@.subrange(0, tn as int) =~= mid2 + ts@);
    }
    out.push('.');
    out.push('p');
    out.push('g');
    out.push('n');
    proof {
        assert(out@ =~= save_filename_seq(white_name@, black_name@, timestamp@));
    }
    chars_to_string(&out)
}

/// Relies on `chrono::Local::now` and `DateTime::format`: a timestamp of
/// the wall clock, formatted year-month-day, hours-minutes-seconds.
#[verifier::external_body]
fn current_timestamp() -> (r: String) {
    chrono::Local::now().format("%Y-%m-%d_%H%M%S").to_string()
}

/// Generate a filename for saving a game, from the player names and the
/// current wall-clock time.
pub fn generate_save_filename(white_name: &str, black_name: &str) -> (r: String)
    ensures
        exists|ts: Seq<char>| r@ == save_filename_seq(white_name@, black_name@, ts),
{
    let stamp = current_timestamp();
    let r = save_filename_for(white_name, black_name, stamp.as_str());
    proof {
        assert(r@ == save_filename_seq(white_name@, black_name@, stamp@));
    }
    r
}

/// The prose name of a piece kind.
pub open spec fn piece_name_seq(t: PieceType) -> Seq<char> {
    match t {
        PieceType::King => seq!['k', 'i', 'n', 'g'],
        PieceType::Queen => seq!['q', 'u', 'e', 'e', 'n'],
        PieceType::Rook => seq!['r', 'o', 'o', 'k'],
        PieceType::Bishop => seq!['b', 'i', 's', 'h', 'o', 'p'],
        PieceType::Knight => seq!['k', 'n', 'i', 'g', 'h', 't'],
        PieceType::Pawn => seq!['p', 'a', 'w', 'n'],
        PieceType::Empty => seq!['e', 'm', 'p', 't', 'y'],
    }
}

/// The prose name of a piece kind.
pub fn piece_type_name(piece_type: PieceType) -> (r: &'static str)
    ensures
        r@ == piece_name_seq(piece_type),
{
    proof {
        reveal_strlit("king");
        reveal_strlit("queen");
        reveal_strlit("rook");
        reveal_strlit("bishop");
        reveal_strlit("knight");
        reveal_strlit("pawn");
        reveal_strlit("empty");
    }
    let r = match piece_type {
        PieceType::King => "king",
        PieceType::Queen => "queen",
        PieceType::Rook => "rook",
        PieceType::Bishop => "bishop",
        PieceType::Knight => "knight",
        PieceType::Pawn => "pawn",
        PieceType::Empty => "empty",
    };
    proof {
        assert(r@ =~= piece_name_seq(piece_type));
    }
    r
}

/// The uppercase algebraic letter of a piece kind; pawns have none.
pub open spec fn piece_letter_seq(t: PieceType) -> Seq<char> {
    match t {
        PieceType::Knight => seq!['N'],
        PieceType::Bishop => seq!['B'],
        PieceType::Rook => seq!['R'],
        PieceType::Queen => seq!['Q'],
        PieceType::King => seq!['K'],
        _ => Seq::empty(),
    }
}

/// The algebraic notation of a played move: castling as O-O or O-O-O;
/// otherwise the piece letter, the capture marker (with the source file
/// for pawn captures), the destination square, the promotion piece, and a
/// trailing check or checkmate marker.
pub open spec fn algebraic_seq(r: MoveRecord) -> Seq<char> {
    let suffix: Seq<char> = if r.is_checkmate {
        seq!['#']
    } else if r.is_check {
        seq!['+']
    } else {
        Seq::empty()
    };
    match r.castling {
        Some(CastlingSide::Kingside) => seq!['O', '-', 'O'] + suffix,
        Some(CastlingSide::Queenside) => seq!['O', '-', 'O', '-', 'O'] + suffix,
        None => {
            let capture: Seq<char> = if r.captured is Some {
                if r.piece == PieceType::Pawn {
                    seq![((97 + r.from.x) as u8) as char, 'x']
                } else {
                    seq!['x']
                }
            } else {
                Seq::empty()
            };
            let promo: Seq<char> = match r.promotion {
                Some(t) => seq!['='] + piece_letter_seq(t),
                None => Seq::empty(),
            };
            piece_letter_seq(r.piece) + capture + r.to.notation_seq() + promo + suffix
        },
    }
}

impl MoveRecord {
    /// Renders this move in algebraic notation.  The unicode flag swaps the
    /// piece letter for the chess glyph of the mover.
    #[verifier::rlimit(100)]
    #[verifier::spinoff_prover]
    pub fn to_algebraic(&self, use_unicode: bool) -> (r: String)
        requires
            self.from.valid(),
            self.to.valid(),
        ensures
            !use_unicode ==> r@ == algebraic_seq(*self),
    {
        let mut out: Vec<char> = Vec::new();
        match self.castling {
            Some(side) => {
                out.push('O');
                out.push('-');
                out.push('O');
                if side == CastlingSide::Queenside {
                    out.push('-');
                    out.push('O');
                }
            },
            None => {
                if use_unicode {
                    match self.piece {
                        PieceType::Pawn => {},
                        PieceType::Empty => {},
                        _ => {
                            let g = crate::pieces::Piece::new(self.piece, self.color).to_unicode();
                            let gs = str_to_chars(g);
                            if gs.len() > 0 {
                                out.push(gs[0]);
                            }
                        },
                    }
                } else {
                    match self.piece {
                        PieceType::Knight => out.push('N'),
                        PieceType::Bishop => out.push('B'),
                        PieceType::Rook => out.push('R'),
                        PieceType::Queen => out.push('Q'),
                        PieceType::King => out.push('K'),
                        _ => {},
                    }
                }
                if self.captured.is_some() {
                    if self.piece == PieceType::Pawn {
                        out.push(((97 + self.from.x as u8)) as char);
                    }
                    out.push('x');
                }
                out.push(((97 + self.to.x as u8)) as char);
                out.push(((49 + self.to.y as u8)) as char);
                match self.promotion {
                    Some(t) => {
                        out.push('=');
                        match t {
                            PieceType::Knight => out.push('N'),
                            PieceType::Bishop => out.push('B'),
                            PieceType::Rook => out.push('R'),
                            PieceType::Queen => out.push('Q'),
                            PieceType::King => out.push('K'),
                            _ => {},
                        }
                    },
                    None => {},
                }
            },
        }
        if self.is_checkmate {
            out.push('#');
        } else if self.is_check {
            out.push('+');
        }
        proof {
            if !use_unicode {
                assert(out@ =~= algebraic_seq(*self));
            }
        }
        chars_to_string(&out)
    }
}

/// Why an algebraic-notation token was rejected.
#[derive(Debug, Clone, Copy, PartialEq, Eq, Structural)]
pub enum NotationError {
    /// The piece after "=" is not one of Q, R, B, N.
    BadPromotion,
    /// The token has no readable piece or destination part.
    BadNotation,
    /// The destination is not a board square.
    BadDestination,
    /// No piece of the named kind can move to the destination.
    NoPieceCan,
    /// Several pieces of the named kind can move there.
    Ambiguous,
}

/// A line with a trailing carriage return removed.
pub open spec fn strip_cr(l: Seq<char>) -> Seq<char> {
    if l.len() > 0 && l.last() == '\r' {
        l.drop_last()
    } else {
        l
    }
}

/// Whether `l` starts with `p`.
pub open spec fn has_prefix(l: Seq<char>, p: Seq<char>) -> bool {
    l.len() >= p.len() && forall|k: int| 0 <= k < p.len() ==> l[k] == #[trigger] p[k]
}

/// The PGN tag prefix for the White player.
pub open spec fn white_tag() -> Seq<char> {
    seq!['[', 'W', 'h', 'i', 't', 'e', ' ', '"']
}

/// The PGN tag prefix for the Black player.
pub open spec fn black_tag() -> Seq<char> {
    seq!['[', 'B', 'l', 'a', 'c', 'k', ' ', '"']
}

/// The name inside a tag line, when the line closes with a quote and a
/// bracket.
pub open spec fn tag_value(l: Seq<char>, p: Seq<char>) -> Option<Seq<char>> {
    if l.len() >= p.len() + 2 && l[l.len() - 2] == '"' && l[l.len() - 1] == ']' {
        Some(l.subrange(p.len() as int, l.len() - 2))
    } else {
        None
    }
}

/// The player names a PGN header yields, walking the lines in order; a
/// later tag overrides an earlier one.
pub open spec fn names_from(lines: Seq<Seq<char>>, i: int, w: Seq<char>, b: Seq<char>) -> (
    Seq<char>,
    Seq<char>,
)
    decreases lines.len() - i,
{
    if i < 0 || i >= lines.len() {
        (w, b)
    } else {
        let l = strip_cr(lines[i]);
        if has_prefix(l, white_tag()) {
            match tag_value(l, white_tag()) {
                Some(nm) => names_from(lines, i + 1, nm, b),
                None => names_from(lines, i + 1, w, b),
            }
        } else if has_prefix(l, black_tag()) {
            match tag_value(l, black_tag()) {
                Some(nm) => names_from(lines, i + 1, w, nm),
                None => names_from(lines, i + 1, w, b),
            }
        } else {
            names_from(lines, i + 1, w, b)
        }
    }
}

/// Checks a tag line against a prefix and extracts the quoted name.
fn read_tag_line(line: &Vec<char>, prefix: &Vec<char>) -> (r: (bool, Option<Vec<char>>))
    ensures
        r.0 == has_prefix(strip_cr(line@), prefix@),
        r.0 ==> match r.1 {
            Some(v) => tag_value(strip_cr(line@), prefix@) == Some(v@),
            None => tag_value(strip_cr(line@), prefix@) is None,
        },
{
    let mut eff = line.len();
    if eff > 0 && line[eff - 1] == '\r' {
        eff = eff - 1;
    }
    let ghost l = strip_cr(line@);
    proof {
        assert(l =~= line@.subrange(0, eff as int));
    }
    let pn = prefix.len();
    if eff < pn {
        return (false, None);
    }
    let mut k: usize = 0;
    while k < pn
        invariant
            k <= pn,
            pn == prefix@.len(),
            pn <= eff <= line@.len(),
            l == strip_cr(line@),
            l =~= line@.subrange(0, eff as int),
            forall|k2: int| 0 <= k2 < k ==> l[k2] == #[trigger] prefix@[k2],
        decreases pn - k,
    {
        if line[k] != prefix[k] {
            assert(l[k as int] != prefix@[k as int]);
            return (false, None);
        }
        k = k + 1;
    }
    if eff - pn < 2 || line[eff - 2] != '"' || line[eff - 1] != ']' {
        return (true, None);
    }
    let mut v: Vec<char> = Vec::new();
    let mut i: usize = pn;
    while i < eff - 2
        invariant
            pn + 2 <= eff <= line@.len(),
            pn <= i <= eff - 2,
            l == strip_cr(line@),
            l =~= line@.subrange(0, eff as int),
            v@ =~= l.subrange(pn as int, i as int),
        decreases eff - 2 - i,
    {
        v.push(line[i]);
        i = i + 1;
        proof {
            assert(v@ =~= l.subrange(pn as int, i as int));
        }
    }
    (true, Some(v))
}

/// Parse player names from the text of a PGN file, defaulting to "White"
/// and "Black" where the header names none.
pub fn parse_player_names(content: &str) -> (r: (String, String))
    ensures
        (r.0@, r.1@) == names_from(
            crate::fen::split_sep(content@, '\n'),
            0,
            seq!['W', 'h', 'i', 't', 'e'],
            seq!['B', 'l', 'a', 'c', 'k'],
        ),
{
    let chars = str_to_chars(content);
    let lines = crate::fen::split_sep_exec(&chars, '\n');
    let ghost lv = crate::fen::split_sep(content@, '\n');
    let mut white: Vec<char> = vec!['W', 'h', 'i', 't', 'e'];
    let mut black: Vec<char> = vec!['B', 'l', 'a', 'c', 'k'];
    let wtag: Vec<char> = vec!['[', 'W', 'h', 'i', 't', 'e', ' ', '"'];
    let btag: Vec<char> = vec!['[', 'B', 'l', 'a', 'c', 'k', ' ', '"'];
    proof {
        assert(wtag@ =~= white_tag());
        assert(btag@ =~= black_tag());
    }
    let n = lines.len();
    let mut i: usize = 0;
    while i < n
        invariant
            i <= n,
            n == lines@.len(),
            crate::fen::token_views(lines@) == lv,
            wtag@ == white_tag(),
            btag@ == black_tag(),
            names_from(lv, 0, seq!['W', 'h', 'i', 't', 'e'], seq!['B', 'l', 'a', 'c', 'k'])
                == names_from(lv, i as int, white@, black@),
        decreases n - i,
    {
        assert(lines@[i as int]@ == lv[i as int]);
        let (is_white, wv) = read_tag_line(&lines[i], &wtag);
        if is_white {
            match wv {
                Some(nm) => {
                    white = nm;
                },
                None => {},
            }
        } else {
            let (is_black, bv) = read_tag_line(&lines[i], &btag);
            if is_black {
                match bv {
                    Some(nm) => {
                        black = nm;
                    },
                    None => {},
                }
            }
        }
        i = i + 1;
    }
    (chars_to_string(&white), chars_to_string(&black))
}

/// Whether `p` names a piece of kind `t` and color `color` that can
/// legally move to `to` and matches the disambiguation characters: an
/// ASCII letter pins the source file, an ASCII digit the source rank.
pub open spec fn finder_candidate(
    m: crate::board::BoardModel,
    color: Color,
    t: PieceType,
    to: crate::position::Position,
    d: Seq<char>,
    p: crate::position::Position,
) -> bool {
    &&& match m.at_pos(p) {
        Some(pc) => pc.piece_type == t && pc.color == color,
        None => false,
    }
    &&& crate::apply::move_ok(m, p, to)
    &&& disambig_ok(d, p)
}

/// Whether the disambiguation characters all point at `p`.
pub open spec fn disambig_ok(d: Seq<char>, p: crate::position::Position) -> bool {
    forall|k: int| 0 <= k < d.len() ==> disambig_char_ok(#[trigger] d[k], p)
}

/// One disambiguation character against a source square.
pub open spec fn disambig_char_ok(c: char, p: crate::position::Position) -> bool {
    if (65 <= c as u32 <= 90) || (97 <= c as u32 <= 122) {
        0 <= p.x && c as u32 == 97 + p.x
    } else if 48 <= c as u32 <= 57 {
        0 <= p.y && c as u32 == 49 + p.y
    } else {
        true
    }
}

/// Whether the disambiguation characters all point at `p`.
fn disambig_ok_exec(d: &Vec<char>, p: crate::position::Position) -> (r: bool)
    ensures
        r == disambig_ok(d@, p),
{
    let n = d.len();
    let mut i: usize = 0;
    while i < n
        invariant
            i <= n,
            n == d@.len(),
            forall|k: int| 0 <= k < i ==> disambig_char_ok(#[trigger] d@[k], p),
        decreases n - i,
    {
        let cv = d[i] as u32;
        let ok = if (65 <= cv && cv <= 90) || (97 <= cv && cv <= 122) {
            0 <= p.x && cv == 97 + p.x as u32
        } else if 48 <= cv && cv <= 57 {
            0 <= p.y && cv == 49 + p.y as u32
        } else {
            true
        };
        if !ok {
            assert(!disambig_char_ok(d@[i as int], p));
            return false;
        }
        i = i + 1;
    }
    true
}

/// The sequence with every trailing `c` removed.
pub open spec fn strip_trailing(s: Seq<char>, c: char) -> Seq<char>
    decreases s.len(),
{
    if s.len() > 0 && s.last() == c {
        strip_trailing(s.drop_last(), c)
    } else {
        s
    }
}

/// The sequence with every occurrence of `c` removed.
pub open spec fn remove_char(s: Seq<char>, c: char) -> Seq<char>
    decreases s.len(),
{
    if s.len() == 0 {
        s
    } else if s[0] == c {
        remove_char(s.subrange(1, s.len() as int), c)
    } else {
        seq![s[0]] + remove_char(s.subrange(1, s.len() as int), c)
    }
}

/// The index of the first `c` at or after `i`, or -1.
pub open spec fn find_char(s: Seq<char>, c: char, i: int) -> int
    decreases s.len() - i,
{
    if i < 0 || i >= s.len() {
        -1
    } else if s[i] == c {
        i
    } else {
        find_char(s, c, i + 1)
    }
}

/// The piece a promotion letter names.
pub open spec fn promo_of_char(c: char) -> Option<PieceType> {
    if c == 'Q' {
        Some(PieceType::Queen)
    } else if c == 'R' {
        Some(PieceType::Rook)
    } else if c == 'B' {
        Some(PieceType::Bishop)
    } else if c == 'N' {
        Some(PieceType::Knight)
    } else {
        None
    }
}

/// The piece, disambiguation characters, destination characters and
/// promotion choice a non-castling algebraic token denotes, after check
/// markers are stripped: an optional `=`-promotion suffix, a leading piece
/// letter (a lowercase first letter means a pawn), capture markers
/// removed, and the last two characters as the destination.
pub open spec fn split_notation(s: Seq<char>) -> Result<
    (PieceType, Seq<char>, Seq<char>, Option<PieceType>),
    NotationError,
> {
    let s1 = strip_trailing(strip_trailing(s, '+'), '#');
    let eq = find_char(s1, '=', 0);
    if eq >= 0 {
        if eq + 1 < s1.len() && s1[eq + 1] != '=' {
            match promo_of_char(s1[eq + 1]) {
                Some(t) => split_body(s1.subrange(0, eq), Some(t)),
                None => Err(NotationError::BadPromotion),
            }
        } else {
            Err(NotationError::BadPromotion)
        }
    } else {
        split_body(s1, None)
    }
}

/// The piece letter and destination of a token body.
pub open spec fn split_body(body: Seq<char>, promo: Option<PieceType>) -> Result<
    (PieceType, Seq<char>, Seq<char>, Option<PieceType>),
    NotationError,
> {
    if body.len() == 0 {
        Err(NotationError::BadNotation)
    } else {
        let c0 = body[0];
        let picked: Option<(PieceType, Seq<char>)> = if c0 == 'K' {
            Some((PieceType::King, body.subrange(1, body.len() as int)))
        } else if c0 == 'Q' {
            Some((PieceType::Queen, body.subrange(1, body.len() as int)))
        } else if c0 == 'R' {
            Some((PieceType::Rook, body.subrange(1, body.len() as int)))
        } else if c0 == 'B' {
            Some((PieceType::Bishop, body.subrange(1, body.len() as int)))
        } else if c0 == 'N' {
            Some((PieceType::Knight, body.subrange(1, body.len() as int)))
        } else if 97 <= c0 as u32 <= 122 {
            Some((PieceType::Pawn, body))
        } else {
            None
        };
        match picked {
            None => Err(NotationError::BadNotation),
            Some((t, rest)) => {
                let cleaned = remove_char(rest, 'x');
                if cleaned.len() < 2 {
                    Err(NotationError::BadNotation)
                } else {
                    Ok(
                        (
                            t,
                            cleaned.subrange(0, cleaned.len() - 2),
                            cleaned.subrange(cleaned.len() - 2, cleaned.len() as int),
                            promo,
                        ),
                    )
                }
            },
        }
    }
}

/// Whether `v` holds exactly the three given characters.
fn seq3_eq(v: &Vec<char>, a: char, b: char, c: char) -> (r: bool)
    ensures
        r == (v@ == seq![a, b, c]),
{
    if v.len() == 3 && v[0] == a && v[1] == b && v[2] == c {
        proof {
            assert(v@ =~= seq![a, b, c]);
        }
        true
    } else {
        false
    }
}

/// Whether `v` holds exactly the five given characters.
fn seq5_eq(v: &Vec<char>, a: char, b: char, c: char, d: char, e: char) -> (r: bool)
    ensures
        r == (v@ == seq![a, b, c, d, e]),
{
    if v.len() == 5 && v[0] == a && v[1] == b && v[2] == c && v[3] == d && v[4] == e {
        proof {
            assert(v@ =~= seq![a, b, c, d, e]);
        }
        true
    } else {
        false
    }
}

/// Parse one algebraic-notation token into source, destination and
/// promotion, resolving the moving piece against the current position.
#[verifier::rlimit(100)]
#[verifier::spinoff_prover]
pub fn parse_algebraic_move(game: &crate::game::GameState, notation: &str) -> (r: Result<
    (crate::position::Position, crate::position::Position, Option<PieceType>),
    NotationError,
>)
    requires
        game@.wf(),
    ensures
        ({
            let s = notation@;
            let m = game@.board;
            let color = game@.active_color;
            let home: int = if color == Color::White {
                0
            } else {
                7
            };
            if s == seq!['O', '-', 'O'] || s == seq!['0', '-', '0'] {
                r == Ok::<_, NotationError>(
                    (
                        crate::position::Position { x: 4, y: home as i8 },
                        crate::position::Position { x: 6, y: home as i8 },
                        None::<PieceType>,
                    ),
                )
            } else if s == seq!['O', '-', 'O', '-', 'O'] || s == seq!['0', '-', '0', '-', '0'] {
                r == Ok::<_, NotationError>(
                    (
                        crate::position::Position { x: 4, y: home as i8 },
                        crate::position::Position { x: 2, y: home as i8 },
                        None::<PieceType>,
                    ),
                )
            } else {
                match split_notation(s) {
                    Err(e) => r == Err::<(
                        crate::position::Position,
                        crate::position::Position,
                        Option<PieceType>,
                    ), _>(e),
                    Ok((t, d, dest, promo)) => match crate::position::Position::notation_parse(
                        dest,
                    ) {
                        Err(_) => r == Err::<(
                            crate::position::Position,
                            crate::position::Position,
                            Option<PieceType>,
                        ), _>(NotationError::BadDestination),
                        Ok(to) => match r {
                            Ok(res) => res.1 == to && res.2 == promo && finder_candidate(
                                m,
                                color,
                                t,
                                to,
                                d,
                                res.0,
                            ) && (forall|q: crate::position::Position|
                                finder_candidate(m, color, t, to, d, q) ==> q == res.0),
                            Err(e) => {
                                if e == NotationError::NoPieceCan {
                                    forall|q: crate::position::Position|
                                        !finder_candidate(m, color, t, to, d, q)
                                } else if e == NotationError::Ambiguous {
                                    exists|
                                        p1: crate::position::Position,
                                        p2: crate::position::Position,
                                    |
                                        p1 != p2 && finder_candidate(m, color, t, to, d, p1)
                                            && finder_candidate(m, color, t, to, d, p2)
                                } else {
                                    false
                                }
                            },
                        },
                    },
                }
            }
        }),
{
    let v = str_to_chars(notation);
    let home: i8 = if game.active_color == Color::White {
        0
    } else {
        7
    };
    if seq3_eq(&v, 'O', '-', 'O') || seq3_eq(&v, '0', '-', '0') {
        return Ok(
            (
                crate::position::Position { x: 4, y: home },
                crate::position::Position { x: 6, y: home },
                None,
            ),
        );
    }
    if seq5_eq(&v, 'O', '-', 'O', '-', 'O') || seq5_eq(&v, '0', '-', '0', '-', '0') {
        return Ok(
            (
                crate::position::Position { x: 4, y: home },
                crate::position::Position { x: 2, y: home },
                None,
            ),
        );
    }
    // strip trailing check markers: all '+' first, then all '#'
    let mut end = v.len();
    proof {
        assert(v@.subrange(0, v@.len() as int) =~= v@);
    }
    while end > 0 && v[end - 1] == '+'
        invariant
            end <= v@.len(),
            strip_trailing(v@, '+') == strip_trailing(v@.subrange(0, end as int), '+'),
        decreases end,
    {
        proof {
            let cur = v@.subrange(0, end as int);
            assert(cur.len() > 0 && cur.last() == '+');
            assert(cur.drop_last() =~= v@.subrange(0, end - 1));
            assert(strip_trailing(cur, '+') == strip_trailing(v@.subrange(0, end - 1), '+'));
        }
        end = end - 1;
    }
    let ghost s_plus = v@.subrange(0, end as int);
    proof {
        if end > 0 {
            assert(s_plus.last() == v@[end - 1]);
        }
        assert(strip_trailing(s_plus, '+') == s_plus);
        assert(strip_trailing(v@, '+') == s_plus);
    }
    while end > 0 && v[end - 1] == '#'
        invariant
            end <= s_plus.len() <= v@.len(),
            s_plus == v@.subrange(0, s_plus.len() as int),
            strip_trailing(s_plus, '#') == strip_trailing(v@.subrange(0, end as int), '#'),
        decreases end,
    {
        proof {
            let cur = v@.subrange(0, end as int);
            assert(cur.len() > 0 && cur.last() == '#');
            assert(cur.drop_last() =~= v@.subrange(0, end - 1));
            assert(strip_trailing(cur, '#') == strip_trailing(v@.subrange(0, end - 1), '#'));
        }
        end = end - 1;
    }
    let ghost s1 = v@.subrange(0, end as int);
    proof {
        if end > 0 {
            assert(s1.last() == v@[end - 1]);
        }
        assert(strip_trailing(s1, '#') == s1);
        assert(strip_trailing(strip_trailing(v@, '+'), '#') == s1);
    }
    // promotion suffix
    let mut eq_at: usize = end;
    let mut i: usize = 0;
    while i < end && eq_at == end
        invariant
            i <= end <= v@.len(),
            s1 == v@.subrange(0, end as int),
            eq_at <= end,
            eq_at == end ==> find_char(s1, '=', 0) == find_char(s1, '=', i as int),
            eq_at < end ==> find_char(s1, '=', 0) == eq_at as int,
        decreases end - i + (if eq_at == end {
            1int
        } else {
            0int
        }),
    {
        assert(s1[i as int] == v@[i as int]);
        if v[i] == '=' {
            eq_at = i;
        } else {
            i = i + 1;
        }
    }
    let ghost eq = find_char(s1, '=', 0);
    let found = eq_at < end;
    proof {
        if found {
            assert(eq == eq_at as int);
        } else {
            assert(find_char(s1, '=', end as int) == -1);
            assert(eq == -1);
        }
    }
    let mut promo: Option<PieceType> = None;
    let mut body_end = end;
    if found {
        if eq_at + 1 < end && v[eq_at + 1] != '=' {
            assert(s1[eq_at + 1] == v@[eq_at + 1]);
            let pc = v[eq_at + 1];
            promo = if pc == 'Q' {
                Some(PieceType::Queen)
            } else if pc == 'R' {
                Some(PieceType::Rook)
            } else if pc == 'B' {
                Some(PieceType::Bishop)
            } else if pc == 'N' {
                Some(PieceType::Knight)
            } else {
                proof {
                    assert(split_notation(v@) == Err::<
                        (PieceType, Seq<char>, Seq<char>, Option<PieceType>),
                        NotationError,
                    >(NotationError::BadPromotion));
                }
                return Err(NotationError::BadPromotion);
            };
            body_end = eq_at;
        } else {
            proof {
                if eq_at + 1 < end {
                    assert(s1[eq_at + 1] == v@[eq_at + 1]);
                }
                assert(split_notation(v@) == Err::<
                    (PieceType, Seq<char>, Seq<char>, Option<PieceType>),
                    NotationError,
                >(NotationError::BadPromotion));
            }
            return Err(NotationError::BadPromotion);
        }
    }
    let ghost body = if eq >= 0 {
        s1.subrange(0, eq)
    } else {
        s1
    };
    proof {
        assert(body =~= v@.subrange(0, body_end as int));
        assert(split_notation(v@) == split_body(body, promo));
    }
    // leading piece letter
    if body_end == 0 {
        proof {
            assert(split_body(body, promo) == Err::<
                (PieceType, Seq<char>, Seq<char>, Option<PieceType>),
                NotationError,
            >(NotationError::BadNotation));
        }
        return Err(NotationError::BadNotation);
    }
    assert(body[0] == v@[0]);
    let c0 = v[0];
    let mut rest_start: usize = 1;
    let piece_type: PieceType = if c0 == 'K' {
        PieceType::King
    } else if c0 == 'Q' {
        PieceType::Queen
    } else if c0 == 'R' {
        PieceType::Rook
    } else if c0 == 'B' {
        PieceType::Bishop
    } else if c0 == 'N' {
        PieceType::Knight
    } else {
        let cv = c0 as u32;
        if 97 <= cv && cv <= 122 {
            rest_start = 0;
            PieceType::Pawn
        } else {
            proof {
                assert(split_body(body, promo) == Err::<
                    (PieceType, Seq<char>, Seq<char>, Option<PieceType>),
                    NotationError,
                >(NotationError::BadNotation));
            }
            return Err(NotationError::BadNotation);
        }
    };
    let ghost rest = if rest_start == 1 {
        body.subrange(1, body.len() as int)
    } else {
        body
    };
    proof {
        assert(rest =~= v@.subrange(rest_start as int, body_end as int));
    }
    // drop capture markers
    let mut cleaned: Vec<char> = Vec::new();
    let mut j: usize = rest_start;
    while j < body_end
        invariant
            rest_start <= j <= body_end <= v@.len(),
            rest == v@.subrange(rest_start as int, body_end as int),
            remove_char(rest, 'x') == cleaned@ + remove_char(
                v@.subrange(j as int, body_end as int),
                'x',
            ),
        decreases body_end - j,
    {
        let ghost pre = v@.subrange(j as int, body_end as int);
        assert(pre[0] == v@[j as int]);
        if v[j] != 'x' {
            cleaned.push(v[j]);
        }
        j = j + 1;
        proof {
            assert(pre.subrange(1, pre.len() as int) =~= v@.subrange(j as int, body_end as int));
            if pre[0] != 'x' {
                assert(cleaned@ =~= cleaned@.drop_last() + seq![pre[0]]);
                assert(cleaned@.drop_last() + (seq![pre[0]] + remove_char(
                    v@.subrange(j as int, body_end as int),
                    'x',
                )) =~= cleaned@ + remove_char(v@.subrange(j as int, body_end as int), 'x'));
            }
        }
    }
    proof {
        assert(v@.subrange(body_end as int, body_end as int) =~= Seq::<char>::empty());
        assert(cleaned@ + Seq::<char>::empty() =~= cleaned@);
        assert(remove_char(rest, 'x') == cleaned@);
        if rest_start == 1 {
            assert(body.subrange(1, body.len() as int) =~= rest);
        }
    }
    if cleaned.len() < 2 {
        proof {
            assert(split_body(body, promo) == Err::<
                (PieceType, Seq<char>, Seq<char>, Option<PieceType>),
                NotationError,
            >(NotationError::BadNotation));
        }
        return Err(NotationError::BadNotation);
    }
    let cn = cleaned.len();
    let mut dest_chars: Vec<char> = Vec::new();
    dest_chars.push(cleaned[cn - 2]);
    dest_chars.push(cleaned[cn - 1]);
    proof {
        assert(dest_chars@ =~= cleaned@.subrange(cn - 2, cn as int));
    }
    let mut disambig_chars: Vec<char> = Vec::new();
    let mut k: usize = 0;
    while k < cn - 2
        invariant
            cn == cleaned@.len(),
            2 <= cn,
            k <= cn - 2,
            disambig_chars@ =~= cleaned@.subrange(0, k as int),
        decreases cn - 2 - k,
    {
        disambig_chars.push(cleaned[k]);
        k = k + 1;
        proof {
            assert(disambig_chars@ =~= cleaned@.subrange(0, k as int));
        }
    }
    proof {
        assert(split_body(body, promo) == Ok::<_, NotationError>(
            (
                piece_type,
                cleaned@.subrange(0, cn - 2),
                cleaned@.subrange(cn - 2, cn as int),
                promo,
            ),
        ));
    }
    let dest_str = chars_to_string(&dest_chars);
    let to = match crate::position::Position::from_notation(dest_str.as_str()) {
        Ok(p) => p,
        Err(_) => {
            return Err(NotationError::BadDestination);
        },
    };
    let disambig_str = chars_to_string(&disambig_chars);
    let ghost gm = game@.board;
    let ghost gcolor = game@.active_color;
    let ghost d_seq = cleaned@.subrange(0, cn - 2);
    proof {
        assert(disambig_str@ == d_seq);
    }
    match find_piece_for_move(game, piece_type, to, disambig_str.as_str()) {
        Ok(from) => Ok((from, to, promo)),
        Err(e) => {
            proof {
                let sn = split_notation(notation@);
                if sn is Ok {
                    let t2 = sn.unwrap().0;
                    let d2 = sn.unwrap().1;
                    assert(t2 == piece_type && d2 == d_seq);
                    if e == NotationError::NoPieceCan {
                        assert forall|q: crate::position::Position| !finder_candidate(
                            gm,
                            gcolor,
                            t2,
                            to,
                            d2,
                            q,
                        ) by {
                            assert(!finder_candidate(gm, gcolor, piece_type, to, disambig_str@, q));
                        }
                    }
                }
            }
            Err(e)
        },
    }
}

/// Find which piece of the given kind can make the move: the unique board
/// square holding a matching piece whose legal moves include the
/// destination.
pub fn find_piece_for_move(
    game: &crate::game::GameState,
    piece_type: PieceType,
    to: crate::position::Position,
    disambig: &str,
) -> (r: Result<crate::position::Position, NotationError>)
    requires
        game@.wf(),
    ensures
        ({
            let m = game@.board;
            let color = game@.active_color;
            let d = disambig@;
            match r {
                Ok(p) => finder_candidate(m, color, piece_type, to, d, p) && (forall|
                    q: crate::position::Position,
                |
                    finder_candidate(m, color, piece_type, to, d, q) ==> q == p),
                Err(e) => {
                    if e == NotationError::NoPieceCan {
                        forall|q: crate::position::Position|
                            !finder_candidate(m, color, piece_type, to, d, q)
                    } else if e == NotationError::Ambiguous {
                        exists|p1: crate::position::Position, p2: crate::position::Position|
                            p1 != p2 && finder_candidate(m, color, piece_type, to, d, p1)
                                && finder_candidate(m, color, piece_type, to, d, p2)
                    } else {
                        false
                    }
                },
            }
        }),
{
    let ghost m = game@.board;
    let active = game.active_color;
    let ghost color = game@.active_color;
    let d = str_to_chars(disambig);
    let mut cands: Vec<crate::position::Position> = Vec::new();
    let mut y: i8 = 0;
    while y < 8
        invariant
            game@.wf(),
            m == game@.board,
            color == game@.active_color,
            active == color,
            d@ == disambig@,
            0 <= y <= 8,
            forall|q: crate::position::Position|
                cands@.contains(q) <==> (finder_candidate(m, color, piece_type, to, d@, q)
                    && q.y < y),
            cands@.no_duplicates(),
        decreases 8 - y,
    {
        let mut x: i8 = 0;
        while x < 8
            invariant
                game@.wf(),
                m == game@.board,
                color == game@.active_color,
                active == color,
                d@ == disambig@,
                0 <= y < 8,
                0 <= x <= 8,
                forall|q: crate::position::Position|
                    cands@.contains(q) <==> (finder_candidate(m, color, piece_type, to, d@, q) && (
                    q.y < y || (q.y == y && q.x < x))),
                cands@.no_duplicates(),
            decreases 8 - x,
        {
            let from = crate::position::Position { x, y };
            let keep = match game.board.get_piece(from) {
                Some(pc) => pc.piece_type == piece_type && pc.color == active,
                None => false,
            };
            if keep {
                let legal = game.board.get_legal_moves(from);
                if crate::apply::contains_position(&legal, to) {
                    if disambig_ok_exec(&d, from) {
                        crate::moves::push_unique(&mut cands, from);
                    }
                }
            }
            x = x + 1;
        }
        y = y + 1;
    }
    if cands.len() == 0 {
        proof {
            assert forall|q: crate::position::Position| !finder_candidate(
                m,
                color,
                piece_type,
                to,
                d@,
                q,
            ) by {
                if finder_candidate(m, color, piece_type, to, d@, q) {
                    assert(q.valid());
                    assert(cands@.contains(q));
                }
            }
        }
        Err(NotationError::NoPieceCan)
    } else if cands.len() == 1 {
        let p = cands[0];
        proof {
            assert(cands@.contains(p));
            assert forall|q: crate::position::Position|
                finder_candidate(m, color, piece_type, to, d@, q) implies q == p by {
                assert(q.valid());
                assert(cands@.contains(q));
                let k = choose|k: int| 0 <= k < cands@.len() && cands@[k] == q;
                assert(k == 0);
            }
        }
        Ok(p)
    } else {
        proof {
            assert(cands@.contains(cands@[0]));
            assert(cands@.contains(cands@[1]));
            assert(cands@[0] != cands@[1]);
        }
        Err(NotationError::Ambiguous)
    }
}

} // verus!
