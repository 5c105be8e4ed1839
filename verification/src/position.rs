//! Board coordinates: a file/rank pair with algebraic-notation conversion
//! and bounds checking.
//!
//! A `Position` is a plain pair of signed coordinates.  Values outside the
//! board can exist (they arise from offset arithmetic); every consumer is
//! expected to re-validate with `is_valid` before treating a position as a
//! board square.

use vstd::prelude::*;
use vstd::string::StrSliceExecFns;

use crate::strutil::chars_to_string;

verus! {

/// Error raised when algebraic notation cannot be parsed.
#[derive(Debug, Clone, Copy, PartialEq, Eq, Structural)]
pub enum PositionError {
    /// The notation was not exactly two characters long.
    BadLength,
    /// The file letter or rank digit was out of range.
    BadFileOrRank,
}

/// A board coordinate: `x` is the file (0 = "a" .. 7 = "h") and `y` is the
/// rank (0 = "1" .. 7 = "8").
#[derive(Debug, Clone, Copy, PartialEq, Eq, Structural)]
pub struct Position {
    pub x: i8,
    pub y: i8,
}

/// Whether the coordinates lie on the board.
pub open spec fn on_board(x: int, y: int) -> bool {
    0 <= x < 8 && 0 <= y < 8
}

/// Absolute value.
pub open spec fn abs_val(i: int) -> int {
    if i >= 0 {
        i
    } else {
        -i
    }
}

/// Sign of an integer: -1, 0, or 1.
pub open spec fn sign_of(i: int) -> int {
    if i > 0 {
        1
    } else if i < 0 {
        -1
    } else {
        0
    }
}

impl Position {
    /// Whether this position lies on the board.
    pub open spec fn valid(self) -> bool {
        on_board(self.x as int, self.y as int)
    }

    /// The algebraic notation of this position: file letter then rank digit,
    /// or "-" for an off-board position.
    pub open spec fn notation_seq(self) -> Seq<char> {
        if self.valid() {
            seq![((97 + self.x) as u8) as char, ((49 + self.y) as u8) as char]
        } else {
            seq!['-']
        }
    }

    pub fn new(x: i8, y: i8) -> (r: Option<Self>)
        ensures
            r == if on_board(x as int, y as int) {
                Some(Position { x, y })
            } else {
                None::<Position>
            },
    {
        if 0 <= x && x < 8 && 0 <= y && y < 8 {
            Some(Self { x, y })
        } else {
            None
        }
    }

    pub fn file(&self) -> (r: i8)
        ensures
            r == self.x,
    {
        self.x
    }

    pub fn rank(&self) -> (r: i8)
        ensures
            r == self.y,
    {
        self.y
    }

    pub fn is_valid(&self) -> (r: bool)
        ensures
            r == self.valid(),
    {
        0 <= self.x && self.x < 8 && 0 <= self.y && self.y < 8
    }

    pub fn from_xy(x: i8, y: i8) -> (r: Option<Self>)
        ensures
            r == if on_board(x as int, y as int) {
                Some(Position { x, y })
            } else {
                None::<Position>
            },
    {
        Self::new(x, y)
    }

    pub fn is_valid_file(file: i8) -> (r: bool)
        ensures
            r == (0 <= file < 8),
    {
        0 <= file && file < 8
    }

    pub fn is_valid_rank(rank: i8) -> (r: bool)
        ensures
            r == (0 <= rank < 8),
    {
        0 <= rank && rank < 8
    }

    /// What parsing a two-character notation yields.
    pub open spec fn notation_parse(s: Seq<char>) -> Result<Position, PositionError> {
        if s.len() != 2 {
            Err(PositionError::BadLength)
        } else {
            let f = Self::lower_code(s[0]);
            let r = s[1] as u32;
            if 97 <= f <= 104 && 49 <= r <= 56 {
                Ok(Position { x: (f - 97) as i8, y: (r - 49) as i8 })
            } else {
                Err(PositionError::BadFileOrRank)
            }
        }
    }

    /// The code point of a character with an ASCII uppercase letter folded
    /// to lowercase.
    pub open spec fn lower_code(c: char) -> int {
        if 65 <= c as u32 <= 90 {
            c as u32 + 32
        } else {
            c as u32 as int
        }
    }

    pub fn from_notation(notation: &str) -> (r: Result<Self, PositionError>)
        ensures
            r == Self::notation_parse(notation@),
    {
        let n = notation.unicode_len();
        if n != 2 {
            return Err(PositionError::BadLength);
        }
        let fc = notation.get_char(0);
        let rc = notation.get_char(1);
        let fv = fc as u32;
        let f: u32 = if 65 <= fv && fv <= 90 {
            fv + 32
        } else {
            fv
        };
        let rv = rc as u32;
        if 97 <= f && f <= 104 && 49 <= rv && rv <= 56 {
            Ok(Self { x: (f - 97) as i8, y: (rv - 49) as i8 })
        } else {
            Err(PositionError::BadFileOrRank)
        }
    }

    pub fn to_notation(&self) -> (r: String)
        ensures
            r@ == self.notation_seq(),
    {
        if !self.is_valid() {
            let v: Vec<char> = vec!['-'];
            return chars_to_string(&v);
        }
        let fc = ((97 + self.x) as u8) as char;
        let rc = ((49 + self.y) as u8) as char;
        let v: Vec<char> = vec![fc, rc];
        chars_to_string(&v)
    }

    /// The (file, rank) displacement from `self` to `other`.
    pub fn distance(&self, other: &Position) -> (r: (i8, i8))
        requires
            -128 <= other.x - self.x <= 127,
            -128 <= other.y - self.y <= 127,
        ensures
            r.0 == other.x - self.x,
            r.1 == other.y - self.y,
    {
        (other.x - self.x, other.y - self.y)
    }

    pub fn is_adjacent(&self, other: &Position) -> (r: bool)
        ensures
            r == (abs_val(other.x - self.x) <= 1 && abs_val(other.y - self.y) <= 1 && !(
            other.x == self.x && other.y == self.y)),
    {
        let dx: i16 = other.x as i16 - self.x as i16;
        let dy: i16 = other.y as i16 - self.y as i16;
        let ax: i16 = if dx >= 0 {
            dx
        } else {
            -dx
        };
        let ay: i16 = if dy >= 0 {
            dy
        } else {
            -dy
        };
        ax <= 1 && ay <= 1 && (dx != 0 || dy != 0)
    }

    pub fn is_straight_line(&self, other: &Position) -> (r: bool)
        ensures
            r == (self.x == other.x || self.y == other.y),
    {
        self.x == other.x || self.y == other.y
    }

    pub fn is_diagonal(&self, other: &Position) -> (r: bool)
        ensures
            r == (abs_val(other.x - self.x) == abs_val(other.y - self.y) && other.x != self.x),
    {
        let dx: i16 = other.x as i16 - self.x as i16;
        let dy: i16 = other.y as i16 - self.y as i16;
        let ax: i16 = if dx >= 0 {
            dx
        } else {
            -dx
        };
        let ay: i16 = if dy >= 0 {
            dy
        } else {
            -dy
        };
        ax == ay && dx != 0
    }

    /// The squares strictly between `a` and `b`, stepping one square at a
    /// time toward `b` in both coordinates.
    pub open spec fn between_seq(a: Position, b: Position) -> Seq<Position>
        decreases abs_val(b.x - a.x) + abs_val(b.y - a.y),
    {
        if a.x == b.x && a.y == b.y {
            Seq::empty()
        } else {
            let n = Position {
                x: (a.x + sign_of(b.x - a.x)) as i8,
                y: (a.y + sign_of(b.y - a.y)) as i8,
            };
            if n.x == b.x && n.y == b.y {
                Seq::empty()
            } else {
                seq![n] + Self::between_seq(n, b)
            }
        }
    }

    /// The squares strictly between this position and `other` along the
    /// connecting line.  Meaningful for positions on a common rank, file or
    /// diagonal; for other pairs it walks diagonally while both coordinates
    /// differ and then straight.
    pub fn squares_between(&self, other: &Position) -> (r: Vec<Position>)
        ensures
            r@ == Self::between_seq(*self, *other),
    {
        let mut r: Vec<Position> = Vec::new();
        let mut cur = *self;
        loop
            invariant
                Self::between_seq(*self, *other) == r@ + Self::between_seq(cur, *other),
            ensures
                r@ == Self::between_seq(*self, *other),
            decreases abs_val(other.x - cur.x) + abs_val(other.y - cur.y),
        {
            if cur.x == other.x && cur.y == other.y {
                proof {
                    assert(r@ =~= r@ + Self::between_seq(cur, *other));
                }
                break ;
            }
            let sx: i8 = if other.x > cur.x {
                1
            } else if other.x < cur.x {
                -1
            } else {
                0
            };
            let sy: i8 = if other.y > cur.y {
                1
            } else if other.y < cur.y {
                -1
            } else {
                0
            };
            let n = Position { x: cur.x + sx, y: cur.y + sy };
            if n.x == other.x && n.y == other.y {
                proof {
                    assert(r@ =~= r@ + Self::between_seq(cur, *other));
                }
                break ;
            }
            r.push(n);
            proof {
                assert(r@ + Self::between_seq(n, *other) =~= (r@.drop_last() + seq![n])
                    + Self::between_seq(n, *other));
                assert(r@.drop_last() + (seq![n] + Self::between_seq(n, *other)) =~= (
                r@.drop_last() + seq![n]) + Self::between_seq(n, *other));
            }
            cur = n;
        }
        r
    }

    /// Offsets this position by a displacement; the result may lie off the
    /// board and must be re-validated before use.
    pub fn offset(self, dx: i8, dy: i8) -> (r: Position)
        requires
            -128 <= self.x + dx <= 127,
            -128 <= self.y + dy <= 127,
        ensures
            r.x == self.x + dx,
            r.y == self.y + dy,
    {
        Position { x: self.x + dx, y: self.y + dy }
    }
}

} // verus!
