//! Tiles, colours and move notation.
//!
//! Black connects the top edge to the bottom edge; White connects the left
//! edge to the right edge.  Besides the regular board cells, two synthetic
//! tiles `Edge1` and `Edge2` stand for a colour's two goal boundaries inside
//! the connectivity tracker, and `Invalid` is an out-of-range sentinel.

use vstd::prelude::*;

use crate::text::{push_char, str_to_chars};

verus! {

/// Error for malformed move notation.
#[derive(Debug, Clone, Copy, PartialEq, Eq, Structural)]
pub enum Error {
    InvalidCol,
    InvalidRow,
}

#[derive(Debug, Clone, Copy, PartialEq, Eq, Structural, Hash)]
pub enum Colour {
    Black,
    White,
}

#[derive(Debug, Clone, Copy, PartialEq, Eq, Structural)]
pub enum SwapRole {
    Start,
    Swap,
}

/// A move reported by the bot: a regular placement, or a pie-rule swap.
#[derive(Debug, Clone, Copy, PartialEq, Eq, Structural)]
pub enum Move {
    Move(Tile),
    Swap,
}

/// Error for a colour name that is neither black nor white.
#[derive(Debug, Clone, Copy, PartialEq, Eq, Structural)]
pub struct InvalidColour;

#[derive(Debug, Clone, Copy, PartialEq, Eq, Structural, Hash)]
pub enum PieceState {
    Colour(Colour),
    Empty,
}

#[derive(Debug, Clone, Copy, PartialEq, Eq, Structural, Hash)]
pub enum Tile {
    Regular(i8, i8),
    Edge1,
    Edge2,
    Invalid,
}

impl Colour {
    pub open spec fn spec_opponent(self) -> Colour {
        match self {
            Colour::Black => Colour::White,
            Colour::White => Colour::Black,
        }
    }

    /// Index of this colour's group in the per-colour connectivity trackers.
    pub fn group_idx(self) -> (r: usize)
        ensures
            r == match self {
                Colour::Black => 0usize,
                Colour::White => 1usize,
            },
    {
        match self {
            Colour::Black => 0,
            Colour::White => 1,
        }
    }

    /// Signed unit value of the colour.
    pub fn val(self) -> (r: i8)
        ensures
            r == match self {
                Colour::Black => -1i8,
                Colour::White => 1i8,
            },
    {
        match self {
            Colour::Black => -1,
            Colour::White => 1,
        }
    }

    pub fn opponent(self) -> (r: Colour)
        ensures
            r == self.spec_opponent(),
    {
        match self {
            Colour::Black => Colour::White,
            Colour::White => Colour::Black,
        }
    }
}

/// Taking the opponent twice gives back the same colour.
pub proof fn opponent_involution(c: Colour)
    ensures
        c.spec_opponent().spec_opponent() == c,
{
}

impl From<Colour> for SwapRole {
    /// The colour that moves first opens; the other may swap.
    fn from(value: Colour) -> (r: SwapRole) {
        match value {
            Colour::Black => SwapRole::Start,
            Colour::White => SwapRole::Swap,
        }
    }
}

impl vstd::std_specs::convert::FromSpecImpl<Colour> for SwapRole {
    open spec fn obeys_from_spec() -> bool {
        true
    }

    open spec fn from_spec(value: Colour) -> SwapRole {
        match value {
            Colour::Black => SwapRole::Start,
            Colour::White => SwapRole::Swap,
        }
    }
}

impl Tile {
    /// True when the tile is a regular cell whose coordinates lie on a board
    /// of the given size.
    pub open spec fn spec_in_range(self, size: int) -> bool {
        match self {
            Tile::Regular(r, c) => 0 <= r < size && 0 <= c < size,
            _ => false,
        }
    }

    /// Row-major cell index of an in-range regular tile.
    pub open spec fn spec_index(self, size: int) -> int {
        (self->Regular_0 as int) * size + (self->Regular_1 as int)
    }

    /// The coordinate on the axis along which the given colour connects:
    /// the row for Black, the column for White.
    pub fn edge(self, colour: Colour) -> (r: i8)
        requires
            self is Regular,
        ensures
            r == match colour {
                Colour::Black => self->Regular_0,
                Colour::White => self->Regular_1,
            },
    {
        match self {
            Tile::Regular(r, c) => match colour {
                Colour::Black => r,
                Colour::White => c,
            },
            // dead under the precondition
            _ => 0,
        }
    }

    /// Maps an in-range regular tile to its row-major index; everything else
    /// has no index.
    pub fn to_index(self, size: i8) -> (r: Option<usize>)
        ensures
            r == if self.spec_in_range(size as int) {
                Some(self.spec_index(size as int) as usize)
            } else {
                Option::<usize>::None
            },
    {
        match self {
            Tile::Regular(r, c) if r >= 0 && r < size && c >= 0 && c < size => {
                assert((r as int) * (size as int) + (c as int) <= 127 * 127) by (nonlinear_arith)
                    requires
                        0 <= r < size <= 127,
                        0 <= c < size,
                ;
                Some((r as usize) * (size as usize) + (c as usize))
            },
            _ => None,
        }
    }

    /// The tile shifted by the given row and column offsets; shifting a
    /// non-regular tile gives `Invalid`.
    pub fn neighbour(self, row: i8, col: i8) -> (r: Tile)
        requires
            self is Regular ==> {
                &&& i8::MIN <= self->Regular_0 + row <= i8::MAX
                &&& i8::MIN <= self->Regular_1 + col <= i8::MAX
            },
        ensures
            r == match self {
                Tile::Regular(tr, tc) => Tile::Regular((tr + row) as i8, (tc + col) as i8),
                _ => Tile::Invalid,
            },
    {
        match self {
            Tile::Regular(r, c) => Tile::Regular(r + row, c + col),
            _ => Tile::Invalid,
        }
    }
}

/// The character for one decimal digit.
pub open spec fn digit_char(d: int) -> char {
    ((48 + d) as u8) as char
}

/// Decimal digits of a non-negative number, most significant first.
pub open spec fn digits_of(n: int) -> Seq<char>
    decreases n,
{
    if n < 10 {
        seq![digit_char(n)]
    } else {
        digits_of(n / 10).push(digit_char(n % 10))
    }
}

/// Move notation of the cell at row `r`, column `c`: one lower-case letter
/// for the row followed by the 1-based decimal column.
pub open spec fn spec_notation(r: int, c: int) -> Seq<char> {
    seq![((97 + r) as u8) as char] + digits_of(c + 1)
}

pub open spec fn spec_all_digits(s: Seq<char>) -> bool {
    forall|i: int| 0 <= i < s.len() ==> 48 <= (#[trigger] s[i]) as u32 <= 57
}

/// Value of a decimal digit string.
pub open spec fn spec_digits_val(s: Seq<char>) -> int
    decreases s.len(),
{
    if s.len() == 0 {
        0
    } else {
        spec_digits_val(s.drop_last()) * 10 + (s.last() as u32 - 48)
    }
}

/// What parsing a move string yields: the string must open with a lower-case
/// ASCII letter (the row), followed by at least one decimal digit whose value
/// fits an `i8` (the 1-based column).
pub open spec fn spec_parse(s: Seq<char>) -> Result<Tile, Error> {
    if s.len() == 0 || !(97 <= s[0] as u32 <= 122) {
        Err(Error::InvalidRow)
    } else if s.len() == 1 || !spec_all_digits(s.subrange(1, s.len() as int))
        || spec_digits_val(s.subrange(1, s.len() as int)) > 127 {
        Err(Error::InvalidCol)
    } else {
        Ok(Tile::Regular((s[0] as u32 - 97) as i8, (spec_digits_val(s.subrange(1, s.len() as int)) - 1) as i8))
    }
}

proof fn digits_val_nonneg(s: Seq<char>)
    requires
        spec_all_digits(s),
    ensures
        spec_digits_val(s) >= 0,
    decreases s.len(),
{
    if s.len() > 0 {
        assert(spec_all_digits(s.drop_last()));
        digits_val_nonneg(s.drop_last());
    }
}

impl Tile {
    /// Renders the tile in move notation; the synthetic tiles have fixed
    /// names.  Only rows with a letter (0 to 25) and columns whose 1-based
    /// number fits an `i8` can be rendered.
    pub fn to_string(&self) -> (s: String)
        requires
            *self is Regular ==> {
                &&& 0 <= self->Regular_0 < 26
                &&& 0 <= self->Regular_1 < 127
            },
        ensures
            s@ == match *self {
                Tile::Regular(r, c) => spec_notation(r as int, c as int),
                Tile::Edge1 => "edge1"@,
                Tile::Edge2 => "edge2"@,
                Tile::Invalid => "invalid"@,
            },
    {
        match self {
            Tile::Regular(r, c) => {
                let mut s = String::new();
                push_char(&mut s, (97 + (*r as u8)) as char);
                let n: u8 = (*c as u8) + 1;
                if n >= 100 {
                    push_char(&mut s, (48 + n / 100) as char);
                }
                if n >= 10 {
                    push_char(&mut s, (48 + (n / 10) % 10) as char);
                }
                push_char(&mut s, (48 + n % 10) as char);
                proof {
                    let ni = n as int;
                    if ni < 10 {
                        assert(digits_of(ni) =~= seq![digit_char(ni)]);
                    } else if ni < 100 {
                        assert(digits_of(ni / 10) =~= seq![digit_char(ni / 10)]);
                        assert(digits_of(ni) =~= seq![digit_char(ni / 10), digit_char(ni % 10)]);
                        assert((ni / 10) % 10 == ni / 10);
                    } else {
                        assert(digits_of(ni / 10 / 10) =~= seq![digit_char(ni / 10 / 10)]);
                        assert(digits_of(ni / 10) =~= seq![
                            digit_char(ni / 10 / 10),
                            digit_char((ni / 10) % 10),
                        ]);
                        assert(digits_of(ni) =~= seq![
                            digit_char(ni / 100),
                            digit_char((ni / 10) % 10),
                            digit_char(ni % 10),
                        ]);
                    }
                    assert(s@ =~= spec_notation(self->Regular_0 as int, self->Regular_1 as int));
                }
                s
            },
            Tile::Edge1 => String::from_str("edge1"),
            Tile::Edge2 => String::from_str("edge2"),
            Tile::Invalid => String::from_str("invalid"),
        }
    }

    /// Parses move notation, e.g. `"c4"`.
    pub fn parse(s: &str) -> (r: Result<Tile, Error>)
        ensures
            r == spec_parse(s@),
    {
        let v = str_to_chars(s);
        if v.len() == 0 {
            return Err(Error::InvalidRow);
        }
        let c0 = v[0] as u32;
        if !(97 <= c0 && c0 <= 122) {
            return Err(Error::InvalidRow);
        }
        if v.len() == 1 {
            return Err(Error::InvalidCol);
        }
        let ghost digits = v@.subrange(1, v@.len() as int);
        let mut acc: u32 = 0;
        let mut too_big = false;
        let mut i: usize = 1;
        while i < v.len()
            invariant
                1 <= i <= v@.len(),
                v@.len() >= 2,
                v@ == s@,
                97 <= v@[0] as u32 <= 122,
                digits == v@.subrange(1, v@.len() as int),
                spec_all_digits(v@.subrange(1, i as int)),
                too_big <==> spec_digits_val(v@.subrange(1, i as int)) > 127,
                !too_big ==> acc == spec_digits_val(v@.subrange(1, i as int)) && acc <= 127,
            decreases v@.len() - i,
        {
            let d = v[i] as u32;
            if !(48 <= d && d <= 57) {
                proof {
                    assert(v@.subrange(1, v@.len() as int)[i - 1] == v@[i as int]);
                    assert(!spec_all_digits(digits));
                }
                return Err(Error::InvalidCol);
            }
            proof {
                assert(v@.subrange(1, i + 1).drop_last() =~= v@.subrange(1, i as int));
                assert(v@.subrange(1, i + 1).last() == v@[i as int]);
                digits_val_nonneg(v@.subrange(1, i as int));
                assert(spec_digits_val(v@.subrange(1, i + 1)) == spec_digits_val(v@.subrange(
                    1,
                    i as int,
                )) * 10 + (v@[i as int] as u32 - 48));
                assert(v@.subrange(1, i + 1) =~= v@.subrange(1, i as int).push(v@[i as int]));
            }
            if too_big {
                // the value already exceeds the column range; only the
                // digit check remains
            } else {
                acc = acc * 10 + (d - 48);
                if acc > 127 {
                    too_big = true;
                }
            }
            i = i + 1;
        }
        proof {
            assert(v@.subrange(1, i as int) =~= digits);
        }
        if too_big {
            return Err(Error::InvalidCol);
        }
        Ok(Tile::Regular((c0 - 97) as i8, (acc as i8) - 1))
    }
}

/// Parsing the notation of a renderable cell gives the cell back.
pub proof fn notation_round_trip(r: i8, c: i8)
    requires
        0 <= r < 26,
        0 <= c < 127,
    ensures
        spec_parse(spec_notation(r as int, c as int)) == Ok::<Tile, Error>(Tile::Regular(r, c)),
{
    let s = spec_notation(r as int, c as int);
    digits_decimal(c + 1);
    assert(s[0] as u32 == 97 + r);
    assert(s.subrange(1, s.len() as int) =~= digits_of(c + 1));
}

/// The decimal rendering of a number in the column range is all digits and
/// reads back to the same number.
proof fn digits_decimal(n: int)
    requires
        0 <= n <= 127,
    ensures
        spec_all_digits(digits_of(n)),
        spec_digits_val(digits_of(n)) == n,
    decreases n,
{
    if n < 10 {
        assert(digits_of(n) =~= seq![digit_char(n)]);
        assert(digit_char(n) as u32 == 48 + n);
        assert(digits_of(n).drop_last() =~= Seq::<char>::empty());
        assert(spec_digits_val(Seq::<char>::empty()) == 0);
    } else {
        digits_decimal(n / 10);
        assert(digits_of(n).drop_last() =~= digits_of(n / 10));
        assert(digits_of(n).last() == digit_char(n % 10));
        assert(digit_char(n % 10) as u32 == 48 + n % 10);
    }
}

} // verus!
