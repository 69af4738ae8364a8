//! The board: a flat row-major grid of piece states with hex adjacency.

use vstd::prelude::*;

use crate::text::push_char;
use crate::tile::{Colour, PieceState, Tile};

verus! {

/// Error for a tile outside the board.
#[derive(Debug, Clone, Copy, PartialEq, Eq, Structural)]
pub enum Error {
    NotInRange,
}

#[derive(Debug)]
pub struct Board {
    pub size: i8,
    pub cells: Vec<PieceState>,
}

impl View for Board {
    type V = Seq<PieceState>;

    open spec fn view(&self) -> Seq<PieceState> {
        self.cells@
    }
}

/// The character a cell is serialized as.
pub open spec fn piece_char(p: PieceState) -> char {
    match p {
        PieceState::Colour(Colour::Black) => 'B',
        PieceState::Colour(Colour::White) => 'W',
        PieceState::Empty => '.',
    }
}

/// The compressed serialization: every cell in row-major order as
/// 'B', 'W' or '.', with a '|' after each row.
pub open spec fn spec_compressed(cells: Seq<PieceState>, size: int) -> Seq<char> {
    Seq::new(
        (size * (size + 1)) as nat,
        |k: int|
            if k % (size + 1) == size {
                '|'
            } else {
                piece_char(cells[(k / (size + 1)) * size + (k % (size + 1))])
            },
    )
}

impl Board {
    /// The cell vector always covers the full grid.
    pub open spec fn wf(self) -> bool {
        &&& 0 <= self.size
        &&& self@.len() == (self.size as int) * (self.size as int)
    }

    /// A fresh board with every cell empty.
    pub fn new(size: i8) -> (b: Board)
        requires
            0 <= size,
        ensures
            b.wf(),
            b.size == size,
            forall|k: int| 0 <= k < b@.len() ==> b@[k] == PieceState::Empty,
    {
        assert((size as int) * (size as int) <= 127 * 127) by (nonlinear_arith)
            requires
                0 <= size <= 127,
        ;
        let n = (size as usize) * (size as usize);
        let mut cells: Vec<PieceState> = Vec::new();
        let mut k: usize = 0;
        while k < n
            invariant
                k <= n,
                cells@.len() == k as int,
                forall|i: int| 0 <= i < k ==> cells@[i] == PieceState::Empty,
            decreases n - k,
        {
            cells.push(PieceState::Empty);
            k = k + 1;
        }
        Board { size, cells }
    }

    /// An independent copy of the board.
    pub fn duplicate(&self) -> (b: Board)
        requires
            self.wf(),
        ensures
            b.wf(),
            b.size == self.size,
            b@ == self@,
    {
        let mut cells: Vec<PieceState> = Vec::new();
        let mut k: usize = 0;
        while k < self.cells.len()
            invariant
                k <= self.cells@.len(),
                cells@.len() == k as int,
                forall|i: int| 0 <= i < k ==> cells@[i] == self.cells@[i],
            decreases self.cells@.len() - k,
        {
            cells.push(self.cells[k]);
            k = k + 1;
        }
        proof {
            assert(cells@ =~= self.cells@);
        }
        Board { size: self.size, cells }
    }

    /// The state of a tile: none if it is non-regular or out of range.
    pub fn get_tile(&self, tile: Tile) -> (r: Option<PieceState>)
        requires
            self.wf(),
        ensures
            r == if tile.spec_in_range(self.size as int) {
                Some(self@[tile.spec_index(self.size as int)])
            } else {
                Option::<PieceState>::None
            },
    {
        proof {
            if tile.spec_in_range(self.size as int) {
                index_in_grid(tile->Regular_0 as int, tile->Regular_1 as int, self.size as int);
            }
        }
        match tile.to_index(self.size) {
            Some(idx) => Some(self.cells[idx]),
            None => None,
        }
    }

    /// The state of the cell at the given coordinates.
    pub fn get(&self, r: i8, c: i8) -> (s: Option<PieceState>)
        requires
            self.wf(),
        ensures
            s == if Tile::Regular(r, c).spec_in_range(self.size as int) {
                Some(self@[Tile::Regular(r, c).spec_index(self.size as int)])
            } else {
                Option::<PieceState>::None
            },
    {
        self.get_tile(Tile::Regular(r, c))
    }

    /// Writes a tile's state; fails exactly when the tile is off the board,
    /// and then changes nothing.
    pub fn set_tile(&mut self, tile: Tile, s: PieceState) -> (r: Result<(), Error>)
        requires
            old(self).wf(),
        ensures
            final(self).wf(),
            final(self).size == old(self).size,
            r is Ok <==> tile.spec_in_range(old(self).size as int),
            r is Ok ==> final(self)@ == old(self)@.update(tile.spec_index(old(self).size as int), s),
            r is Err ==> *final(self) == *old(self) && r == Err::<(), Error>(Error::NotInRange),
    {
        proof {
            if tile.spec_in_range(self.size as int) {
                index_in_grid(tile->Regular_0 as int, tile->Regular_1 as int, self.size as int);
            }
        }
        match tile.to_index(self.size) {
            Some(idx) => {
                self.cells.set(idx, s);
                Ok(())
            },
            None => Err(Error::NotInRange),
        }
    }

    /// The neighbouring tile in the given direction together with its state;
    /// none when it falls off the board.
    pub fn neighbour(&self, tile: Tile, row: i8, col: i8) -> (r: Option<(Tile, PieceState)>)
        requires
            self.wf(),
            tile is Regular ==> {
                &&& i8::MIN <= tile->Regular_0 + row <= i8::MAX
                &&& i8::MIN <= tile->Regular_1 + col <= i8::MAX
            },
        ensures
            r == self.spec_neighbour(tile, row as int, col as int),
    {
        let n = tile.neighbour(row, col);
        match self.get_tile(n) {
            Some(state) => Some((n, state)),
            None => None,
        }
    }

    /// The neighbour of `tile` shifted by `(dr, dc)`, when it is on the board.
    pub open spec fn spec_neighbour(&self, tile: Tile, dr: int, dc: int) -> Option<(Tile, PieceState)> {
        let n = match tile {
            Tile::Regular(r, c) => Tile::Regular((r + dr) as i8, (c + dc) as i8),
            _ => Tile::Invalid,
        };
        if n.spec_in_range(self.size as int) {
            Some((n, self@[n.spec_index(self.size as int)]))
        } else {
            None
        }
    }

    /// All six hex neighbours, in the fixed direction order.
    pub fn neighbours(&self, tile: Tile) -> (r: [Option<(Tile, PieceState)>; 6])
        requires
            self.wf(),
            tile is Regular ==> {
                &&& i8::MIN < tile->Regular_0 < i8::MAX
                &&& i8::MIN < tile->Regular_1 < i8::MAX
            },
        ensures
            r@ =~= seq![
                self.spec_neighbour(tile, 0, 1),
                self.spec_neighbour(tile, 1, 0),
                self.spec_neighbour(tile, 1, -1),
                self.spec_neighbour(tile, 0, -1),
                self.spec_neighbour(tile, -1, 0),
                self.spec_neighbour(tile, -1, 1),
            ],
    {
        [
            self.neighbour(tile, 0, 1),
            self.neighbour(tile, 1, 0),
            self.neighbour(tile, 1, -1),
            self.neighbour(tile, 0, -1),
            self.neighbour(tile, -1, 0),
            self.neighbour(tile, -1, 1),
        ]
    }

    /// The tile at a row-major index; out-of-range indices give `Invalid`.
    pub fn index_to_tile(&self, idx: usize) -> (r: Tile)
        requires
            self.wf(),
        ensures
            r == if idx < self@.len() {
                Tile::Regular((idx as int / self.size as int) as i8, (idx as int % self.size as int) as i8)
            } else {
                Tile::Invalid
            },
    {
        if idx >= self.cells.len() {
            Tile::Invalid
        } else {
            proof {
                grid_div_bounds(idx as int, self.size as int);
            }
            Tile::Regular((idx / (self.size as usize)) as i8, (idx % (self.size as usize)) as i8)
        }
    }

    /// The compressed, pipe-delimited serialization of the board.
    pub fn get_compressed(&self) -> (s: String)
        requires
            self.wf(),
            self.size <= 127,
        ensures
            s@ == spec_compressed(self@, self.size as int),
    {
        let size = self.size as usize;
        let mut s = String::new();
        let mut r: usize = 0;
        while r < size
            invariant
                self.wf(),
                size == self.size as int,
                r <= size,
                s@.len() == r * (size + 1),
                forall|k: int|
                    0 <= k < s@.len() ==> s@[k] == spec_compressed(self@, size as int)[k],
            decreases size - r,
        {
            let ghost row_start = s@.len() as int;
            let mut j: usize = 0;
            while j < size
                invariant
                    self.wf(),
                    size == self.size as int,
                    r < size,
                    j <= size,
                    row_start == r * (size + 1),
                    s@.len() == row_start + j,
                    forall|k: int|
                        0 <= k < s@.len() ==> s@[k] == spec_compressed(self@, size as int)[k],
                decreases size - j,
            {
                proof {
                    index_in_grid(r as int, j as int, size as int);
                    vstd::arithmetic::div_mod::lemma_fundamental_div_mod_converse(
                        (r * (size + 1)) as int + j,
                        (size + 1) as int,
                        r as int,
                        j as int,
                    );
                    assert((r as int) * (size as int + 1) + j < (size as int) * (size as int + 1))
                        by (nonlinear_arith)
                        requires
                            0 <= (r as int) < (size as int),
                            0 <= j < (size as int),
                    ;
                }
                let p = self.cells[r * size + j];
                match p {
                    PieceState::Colour(Colour::Black) => push_char(&mut s, 'B'),
                    PieceState::Colour(Colour::White) => push_char(&mut s, 'W'),
                    PieceState::Empty => push_char(&mut s, '.'),
                }
                j = j + 1;
            }
            proof {
                vstd::arithmetic::div_mod::lemma_fundamental_div_mod_converse(
                    (r as int) * (size as int + 1) + size,
                    (size + 1) as int,
                    r as int,
                    size as int,
                );
                assert((r as int) * (size as int + 1) + size < (size as int) * (size as int + 1)
                    && (r as int + 1) * (size as int + 1) == (r as int) * (size as int + 1) + size
                    + 1) by (nonlinear_arith)
                    requires
                        0 <= (r as int) < (size as int),
                ;
            }
            push_char(&mut s, '|');
            r = r + 1;
        }
        proof {
            assert(s@ =~= spec_compressed(self@, self.size as int));
        }
        s
    }
}

/// A cell with the colours flipped; empty cells stay empty.
pub open spec fn spec_flip(p: PieceState) -> PieceState {
    match p {
        PieceState::Colour(c) => PieceState::Colour(c.spec_opponent()),
        PieceState::Empty => PieceState::Empty,
    }
}

/// The mirrored board: the transpose of the grid with every colour flipped.
pub open spec fn spec_swapped(cells: Seq<PieceState>, size: int) -> Seq<PieceState> {
    Seq::new(cells.len(), |k: int| spec_flip(cells[(k % size) * size + k / size]))
}

/// One row of the human-readable rendering: `r` leading spaces, then each
/// cell as its character followed by a space, then a newline.
pub open spec fn spec_pretty_row(cells: Seq<PieceState>, size: int, r: int) -> Seq<char> {
    Seq::new(r as nat, |i: int| ' ') + Seq::new(
        (2 * size) as nat,
        |j: int|
            if j % 2 == 0 {
                piece_char(cells[r * size + j / 2])
            } else {
                ' '
            },
    ) + seq!['\n']
}

/// The rendering from row `r` down, ending in the fixed dashed footer.
pub open spec fn spec_pretty_from(cells: Seq<PieceState>, size: int, r: int) -> Seq<char>
    decreases size - r,
{
    if r < 0 || r >= size {
        Seq::new(18, |i: int| '-')
    } else {
        spec_pretty_row(cells, size, r) + spec_pretty_from(cells, size, r + 1)
    }
}

/// The human-readable staircase rendering of the whole board.
pub open spec fn spec_pretty(cells: Seq<PieceState>, size: int) -> Seq<char> {
    spec_pretty_from(cells, size, 0)
}

impl Board {
    /// Mirrors the position: transposes the grid and flips every colour.
    pub fn swap_pieces(&mut self) -> (r: Result<(), Error>)
        requires
            old(self).wf(),
            old(self).size <= 127,
        ensures
            final(self).wf(),
            final(self).size == old(self).size,
            final(self)@ == spec_swapped(old(self)@, old(self).size as int),
            r is Ok,
    {
        let size = self.size as usize;
        let n = self.cells.len();
        let mut cells: Vec<PieceState> = Vec::new();
        let mut k: usize = 0;
        while k < n
            invariant
                self.wf(),
                self.size <= 127,
                size == self.size as int,
                n == self@.len(),
                k <= n,
                cells@.len() == k as int,
                forall|i: int|
                    0 <= i < k ==> cells@[i] == spec_swapped(self@, size as int)[i],
            decreases n - k,
        {
            proof {
                grid_div_bounds(k as int, size as int);
                index_in_grid((k as int) % (size as int), (k as int) / (size as int), size as int);
            }
            let src = (k % size) * size + k / size;
            let p = match self.cells[src] {
                PieceState::Colour(c) => PieceState::Colour(c.opponent()),
                PieceState::Empty => PieceState::Empty,
            };
            cells.push(p);
            k = k + 1;
        }
        proof {
            assert(cells@ =~= spec_swapped(self@, size as int));
        }
        self.cells = cells;
        Ok(())
    }

    /// Renders the board for humans: each row skewed by its index, then a
    /// dashed footer.
    pub fn get_pretty(&self) -> (s: String)
        requires
            self.wf(),
            self.size <= 127,
        ensures
            s@ == spec_pretty(self@, self.size as int),
    {
        let size = self.size as usize;
        let mut s = String::new();
        let mut r: usize = 0;
        while r < size
            invariant
                self.wf(),
                self.size <= 127,
                size == self.size as int,
                r <= size,
                s@ + spec_pretty_from(self@, size as int, r as int) == spec_pretty(
                    self@,
                    size as int,
                ),
            decreases size - r,
        {
            let ghost base = s@;
            let mut i: usize = 0;
            while i < r
                invariant
                    i <= r,
                    s@ == base + Seq::new(i as nat, |t: int| ' '),
                decreases r - i,
            {
                proof {
                    assert(base + Seq::new(i as nat, |t: int| ' ').push(' ') =~= base + Seq::new(
                        (i + 1) as nat,
                        |t: int| ' ',
                    ));
                }
                push_char(&mut s, ' ');
                i = i + 1;
            }
            let ghost rowseq = Seq::new(
                (2 * size) as nat,
                |j: int|
                    if j % 2 == 0 {
                        piece_char(self@[(r as int) * (size as int) + j / 2])
                    } else {
                        ' '
                    },
            );
            let ghost spaces = Seq::new(r as nat, |t: int| ' ');
            let mut j: usize = 0;
            while j < size
                invariant
                    self.wf(),
                    self.size <= 127,
                    size == self.size as int,
                    r < size,
                    j <= size,
                    rowseq == Seq::new(
                        (2 * size) as nat,
                        |jj: int|
                            if jj % 2 == 0 {
                                piece_char(self@[(r as int) * (size as int) + jj / 2])
                            } else {
                                ' '
                            },
                    ),
                    s@ == base + spaces + rowseq.subrange(0, 2 * j as int),
                decreases size - j,
            {
                proof {
                    index_in_grid(r as int, j as int, size as int);
                }
                let p = self.cells[r * size + j];
                match p {
                    PieceState::Colour(Colour::Black) => push_char(&mut s, 'B'),
                    PieceState::Colour(Colour::White) => push_char(&mut s, 'W'),
                    PieceState::Empty => push_char(&mut s, '.'),
                }
                push_char(&mut s, ' ');
                proof {
                    assert((2 * (j as int)) / 2 == j as int && (2 * (j as int)) % 2 == 0 && (2 * (
                    j as int) + 1) % 2 == 1);
                    assert(s@ =~= base + spaces + rowseq.subrange(0, 2 * (j + 1) as int));
                }
                j = j + 1;
            }
            push_char(&mut s, '\n');
            proof {
                assert(rowseq.subrange(0, 2 * size as int) =~= rowseq);
                assert(s@ =~= base + spec_pretty_row(self@, size as int, r as int));
                assert(s@ + spec_pretty_from(self@, size as int, r as int + 1) =~= base
                    + spec_pretty_from(self@, size as int, r as int));
            }
            r = r + 1;
        }
        let mut i: usize = 0;
        let ghost base = s@;
        while i < 18
            invariant
                i <= 18,
                s@ == base + Seq::new(i as nat, |t: int| '-'),
            decreases 18 - i,
        {
            proof {
                assert(base + Seq::new(i as nat, |t: int| '-').push('-') =~= base + Seq::new(
                    (i + 1) as nat,
                    |t: int| '-',
                ));
            }
            push_char(&mut s, '-');
            i = i + 1;
        }
        proof {
            assert(s@ =~= spec_pretty(self@, self.size as int));
        }
        s
    }
}

/// The piece a serialized character stands for.
pub open spec fn char_piece(c: char) -> Option<PieceState> {
    if c == 'B' {
        Some(PieceState::Colour(Colour::Black))
    } else if c == 'W' {
        Some(PieceState::Colour(Colour::White))
    } else if c == '.' {
        Some(PieceState::Empty)
    } else {
        None
    }
}

/// Index of the first '|' in the string, or its length if there is none.
pub open spec fn spec_first_bar(s: Seq<char>) -> int
    decreases s.len(),
{
    if s.len() == 0 {
        0
    } else if s[0] == '|' {
        0
    } else {
        1 + spec_first_bar(s.drop_first())
    }
}

/// What decoding a compressed board string yields.  The run of cells before
/// the first '|' fixes the size; the string must then consist of exactly
/// `size` runs of `size` cell characters, each closed by a '|'.
/// Every position of a compressed string holds a '|' at the end of a row and
/// a cell character elsewhere.
pub open spec fn compressed_format_ok(s: Seq<char>, size: int) -> bool {
    forall|k: int|
        0 <= k < s.len() ==> if k % (size + 1) == size {
            s[k] == '|'
        } else {
            (#[trigger] char_piece(s[k])) is Some
        }
}

pub open spec fn spec_from_compressed(s: Seq<char>) -> Option<(int, Seq<PieceState>)> {
    let size = spec_first_bar(s);
    if size > 127 || s.len() != size * (size + 1) {
        None
    } else if !compressed_format_ok(s, size) {
        None
    } else {
        Some(
            (
                size,
                Seq::new(
                    (size * size) as nat,
                    |i: int| char_piece(s[(i / size) * (size + 1) + i % size])->Some_0,
                ),
            ),
        )
    }
}

/// If the first `m` characters are no bars and position `m` is a bar or the
/// end, then `m` is the first bar.
proof fn first_bar_characterization(s: Seq<char>, m: int)
    requires
        0 <= m <= s.len(),
        forall|j: int| 0 <= j < m ==> s[j] != '|',
        m == s.len() || s[m] == '|',
    ensures
        spec_first_bar(s) == m,
    decreases m,
{
    if m == 0 {
        if s.len() > 0 {
            assert(s[0] == '|');
        }
    } else {
        assert(s[0] != '|');
        first_bar_characterization(s.drop_first(), m - 1);
    }
}

impl Board {
    /// Rebuilds a board from its compressed serialization; fails exactly when
    /// the string is not a compressed board.
    pub fn from_compressed(s: &str) -> (r: Option<Board>)
        ensures
            match r {
                Some(b) => {
                    &&& b.wf()
                    &&& b.size <= 127
                    &&& spec_from_compressed(s@) == Some((b.size as int, b@))
                },
                None => spec_from_compressed(s@) is None,
            },
    {
        let v = crate::text::str_to_chars(s);
        let n = v.len();
        let mut size: usize = 0;
        while size < n && v[size] != '|'
            invariant
                size <= n,
                n == v@.len(),
                forall|j: int| 0 <= j < size ==> v@[j] != '|',
            decreases n - size,
        {
            size = size + 1;
        }
        proof {
            first_bar_characterization(v@, size as int);
        }
        if size > 127 {
            return None;
        }
        assert((size as int) * (size as int + 1) <= 127 * 128) by (nonlinear_arith)
            requires
                0 <= size <= 127,
        ;
        if n != size * (size + 1) {
            return None;
        }
        let mut cells: Vec<PieceState> = Vec::new();
        let mut r: usize = 0;
        while r < size
            invariant
                size <= 127,
                v@ == s@,
                n == v@.len(),
                n == size * (size + 1),
                spec_first_bar(s@) == size as int,
                r <= size,
                cells@.len() == r * size,
                forall|k: int|
                    0 <= k < r * (size as int + 1) ==> if k % (size as int + 1) == size as int {
                        v@[k] == '|'
                    } else {
                        (#[trigger] char_piece(v@[k])) is Some
                    },
                forall|i: int|
                    0 <= i < cells@.len() ==> cells@[i] == char_piece(
                        v@[(i / size as int) * (size as int + 1) + i % size as int],
                    )->Some_0,
            decreases size - r,
        {
            let mut j: usize = 0;
            while j < size
                invariant
                    size <= 127,
                    v@ == s@,
                    n == v@.len(),
                    n == size * (size + 1),
                    spec_first_bar(s@) == size as int,
                    r < size,
                    j <= size,
                    cells@.len() == r * size + j,
                    forall|k: int|
                        0 <= k < r * (size as int + 1) + j ==> if k % (size as int + 1)
                            == size as int {
                            v@[k] == '|'
                        } else {
                            (#[trigger] char_piece(v@[k])) is Some
                        },
                    forall|i: int|
                        0 <= i < cells@.len() ==> cells@[i] == char_piece(
                            v@[(i / size as int) * (size as int + 1) + i % size as int],
                        )->Some_0,
                decreases size - j,
            {
                proof {
                    compressed_position(r as int, j as int, size as int);
                    vstd::arithmetic::div_mod::lemma_fundamental_div_mod_converse(
                        (r as int) * (size as int + 1) + j,
                        size as int + 1,
                        r as int,
                        j as int,
                    );
                }
                let c = v[r * (size + 1) + j];
                let p = if c == 'B' {
                    PieceState::Colour(Colour::Black)
                } else if c == 'W' {
                    PieceState::Colour(Colour::White)
                } else if c == '.' {
                    PieceState::Empty
                } else {
                    proof {
                        let sz = size as int;
                        let k = (r as int) * (sz + 1) + j;
                        assert(char_piece(s@[k]) is None);
                        assert(!compressed_format_ok(s@, sz)) by {
                            assert(0 <= k < s@.len() && k % (sz + 1) == j as int && j < size
                                && char_piece(s@[k]) is None);
                        };
                        assert(spec_from_compressed(s@) is None);
                    }
                    return None;
                };
                cells.push(p);
                proof {
                    let i = (r * size + j) as int;
                    vstd::arithmetic::div_mod::lemma_fundamental_div_mod_converse(
                        i,
                        size as int,
                        r as int,
                        j as int,
                    );
                    assert(cells@.last() == char_piece(
                        v@[(i / size as int) * (size as int + 1) + i % size as int],
                    )->Some_0);
                }
                j = j + 1;
            }
            proof {
                compressed_position(r as int, size as int, size as int);
                vstd::arithmetic::div_mod::lemma_fundamental_div_mod_converse(
                    (r as int) * (size as int + 1) + size,
                    size as int + 1,
                    r as int,
                    size as int,
                );
            }
            let c = v[r * (size + 1) + size];
            if !(c == '|') {
                proof {
                    let sz = size as int;
                    let k = (r as int) * (sz + 1) + size;
                    assert(!compressed_format_ok(s@, sz)) by {
                        assert(0 <= k < s@.len() && k % (sz + 1) == sz && s@[k] != '|');
                        assert(char_piece(s@[k]) is Some || char_piece(s@[k]) is None);
                    };
                    assert(spec_from_compressed(s@) is None);
                }
                return None;
            }
            proof {
                assert((r as int + 1) * (size as int + 1) == (r as int) * (size as int + 1) + size
                    + 1 && (r as int + 1) * (size as int) == (r as int) * (size as int) + size)
                    by (nonlinear_arith);
            }
            r = r + 1;
        }
        proof {
            assert((size as int) * (size as int + 1) == (size as int) * (size as int) + size)
                by (nonlinear_arith);
            assert(compressed_format_ok(s@, size as int));
            assert(cells@ =~= Seq::new(
                ((size as int) * (size as int)) as nat,
                |i: int| char_piece(
                    v@[(i / size as int) * (size as int + 1) + i % size as int],
                )->Some_0,
            ));
        }
        Some(Board { size: size as i8, cells })
    }
}

/// Decoding a board's compressed serialization gives the board back.
pub proof fn compressed_round_trip(cells: Seq<PieceState>, size: int)
    requires
        0 <= size <= 127,
        cells.len() == size * size,
    ensures
        spec_from_compressed(spec_compressed(cells, size)) == Some((size, cells)),
{
    let s = spec_compressed(cells, size);
    assert(s.len() == size * (size + 1));
    if size == 0 {
        assert(s.len() == 0);
        first_bar_characterization(s, 0);
        assert(compressed_format_ok(s, 0));
        assert(spec_from_compressed(s) is Some);
        let dec = spec_from_compressed(s)->Some_0.1;
        assert(dec =~= cells);
    } else {
        assert(size < size * (size + 1)) by (nonlinear_arith)
            requires
                1 <= size,
        ;
        assert forall|j: int| 0 <= j < size implies s[j] != '|' by {
            vstd::arithmetic::div_mod::lemma_fundamental_div_mod_converse(j, size + 1, 0, j);
            assert(s[j] == piece_char(cells[(j / (size + 1)) * size + (j % (size + 1))]));
        };
        vstd::arithmetic::div_mod::lemma_fundamental_div_mod_converse(size, size + 1, 0, size);
        assert(s[size] == '|');
        first_bar_characterization(s, size);
        assert forall|k: int| 0 <= k < s.len() implies (if k % (size + 1) == size {
            s[k] == '|'
        } else {
            (#[trigger] char_piece(s[k])) is Some
        }) by {
            if k % (size + 1) != size {
                assert(s[k] == piece_char(cells[(k / (size + 1)) * size + (k % (size + 1))]));
            }
        };
        assert(compressed_format_ok(s, size));
        assert(spec_from_compressed(s) is Some);
        let dec = spec_from_compressed(s)->Some_0.1;
        assert forall|i: int| 0 <= i < size * size implies dec[i] == cells[i] by {
            grid_div_bounds(i, size);
            let r = i / size;
            let c = i % size;
            let k = r * (size + 1) + c;
            compressed_position(r, c, size);
            vstd::arithmetic::div_mod::lemma_fundamental_div_mod_converse(k, size + 1, r, c);
            assert(s[k] == piece_char(cells[(k / (size + 1)) * size + (k % (size + 1))]));
            assert((k / (size + 1)) * size + (k % (size + 1)) == i) by (nonlinear_arith)
                requires
                    k / (size + 1) == r,
                    k % (size + 1) == c,
                    i == r * size + c,
            ;
            assert(dec[i] == char_piece(s[(i / size) * (size + 1) + i % size])->Some_0);
        };
        assert(dec =~= cells);
    }
}

/// Positions inside one row of the compressed form stay inside the string.
proof fn compressed_position(r: int, j: int, size: int)
    requires
        0 <= r < size,
        0 <= j <= size,
        size <= 127,
    ensures
        0 <= r * (size + 1) + j < size * (size + 1),
        r * (size + 1) + j < r * (size + 1) + size + 1,
        size * (size + 1) <= 127 * 128,
{
    assert(0 <= r * (size + 1) + j < size * (size + 1) && size * (size + 1) <= 127 * 128)
        by (nonlinear_arith)
        requires
            0 <= r < size,
            0 <= j <= size,
            size <= 127,
    ;
}

/// A double-ended walk over the cells of a board snapshot, in row-major
/// order.
pub struct Iter {
    pub cells: Vec<PieceState>,
    pub size: i8,
    pub front: usize,
    pub back: usize,
}

impl Iter {
    pub open spec fn wf(self) -> bool {
        &&& 0 <= self.size <= 127
        &&& self.cells@.len() == (self.size as int) * (self.size as int)
        &&& self.front <= self.back <= self.cells@.len()
    }

    /// The tile at a row-major index of the snapshot.
    pub open spec fn spec_tile_at(self, i: int) -> Tile {
        Tile::Regular((i / self.size as int) as i8, (i % self.size as int) as i8)
    }

    /// The next cell from the front, row-major.
    pub fn next(&mut self) -> (r: Option<(Tile, PieceState)>)
        requires
            old(self).wf(),
        ensures
            final(self).wf(),
            final(self).cells == old(self).cells,
            final(self).size == old(self).size,
            final(self).back == old(self).back,
            r == if old(self).front < old(self).back {
                Some((old(self).spec_tile_at(old(self).front as int), old(self).cells@[old(self).front as int]))
            } else {
                Option::<(Tile, PieceState)>::None
            },
            final(self).front == if old(self).front < old(self).back {
                old(self).front + 1
            } else {
                old(self).front as int
            },
    {
        if self.front < self.back {
            proof {
                grid_div_bounds(self.front as int, self.size as int);
            }
            let i = self.front;
            let tile = Tile::Regular(
                (i / (self.size as usize)) as i8,
                (i % (self.size as usize)) as i8,
            );
            let state = self.cells[i];
            self.front = self.front + 1;
            Some((tile, state))
        } else {
            None
        }
    }

    /// The next cell from the back, reverse row-major.
    pub fn next_back(&mut self) -> (r: Option<(Tile, PieceState)>)
        requires
            old(self).wf(),
        ensures
            final(self).wf(),
            final(self).cells == old(self).cells,
            final(self).size == old(self).size,
            final(self).front == old(self).front,
            r == if old(self).front < old(self).back {
                Some(
                    (
                        old(self).spec_tile_at(old(self).back - 1),
                        old(self).cells@[old(self).back - 1],
                    ),
                )
            } else {
                Option::<(Tile, PieceState)>::None
            },
            final(self).back == if old(self).front < old(self).back {
                old(self).back - 1
            } else {
                old(self).back as int
            },
    {
        if self.front < self.back {
            self.back = self.back - 1;
            proof {
                grid_div_bounds(self.back as int, self.size as int);
            }
            let i = self.back;
            let tile = Tile::Regular(
                (i / (self.size as usize)) as i8,
                (i % (self.size as usize)) as i8,
            );
            let state = self.cells[i];
            Some((tile, state))
        } else {
            None
        }
    }
}

impl Board {
    /// A fresh walk over a snapshot of the whole board.
    pub fn iter(&self) -> (it: Iter)
        requires
            self.wf(),
            self.size <= 127,
        ensures
            it.wf(),
            it.cells@ == self@,
            it.size == self.size,
            it.front == 0,
            it.back == self@.len(),
    {
        let copy = self.duplicate();
        let n = copy.cells.len();
        Iter { cells: copy.cells, size: self.size, front: 0, back: n }
    }
}

/// A row-major cell index lies inside the grid.
pub proof fn index_in_grid(r: int, c: int, size: int)
    requires
        0 <= r < size,
        0 <= c < size,
        size <= 127,
    ensures
        0 <= r * size + c < size * size,
        size * size <= 127 * 127,
        r * size + c == Tile::Regular(r as i8, c as i8).spec_index(size),
{
    assert(0 <= r * size + c < size * size && size * size <= 127 * 127) by (nonlinear_arith)
        requires
            0 <= r < size,
            0 <= c < size,
            size <= 127,
    ;
}

/// Division and remainder of an index inside the grid stay in range.
proof fn grid_div_bounds(idx: int, size: int)
    requires
        0 <= idx < size * size,
        0 <= size,
    ensures
        0 < size,
        0 <= idx / size < size,
        0 <= idx % size < size,
        (idx / size) * size + (idx % size) == idx,
{
    assert(0 < size) by (nonlinear_arith)
        requires
            0 <= idx < size * size,
            0 <= size,
    ;
    vstd::arithmetic::div_mod::lemma_fundamental_div_mod(idx, size);
    assert((idx / size) * size == size * (idx / size)) by (nonlinear_arith);
    assert(0 <= idx / size < size) by (nonlinear_arith)
        requires
            0 < size,
            0 <= idx < size * size,
            idx == size * (idx / size) + idx % size,
            0 <= idx % size < size,
    ;
}

} // verus!
