//! Game state: the board, the side to move, and one connectivity tracker per
//! colour.  Placing a stone joins it with its same-colour neighbours and with
//! its colour's edge sentinels; a win is one connectivity query.

use vstd::prelude::*;

use crate::board;
use crate::board::Board;
use crate::opening;
use crate::rng::Rng;
use crate::tile::{Colour, PieceState, Tile};
use crate::union_find::UnionFind;

verus! {

/// The default board size of a fresh state.
pub const DEFAULT_SIZE: i8 = 10;

/// Who won, seen from the bot.
#[derive(Debug, Clone, Copy, PartialEq, Eq, Structural)]
pub enum Winner {
    Bot,
    Opponent,
}

/// Error of a placement.
#[derive(Debug, Clone, Copy, PartialEq, Eq, Structural)]
pub enum Error {
    TileNotEmpty,
    InvalidTile,
    Board(board::Error),
}

impl From<board::Error> for Error {
    fn from(value: board::Error) -> (r: Error) {
        Error::Board(value)
    }
}

impl vstd::std_specs::convert::FromSpecImpl<board::Error> for Error {
    open spec fn obeys_from_spec() -> bool {
        true
    }

    open spec fn from_spec(value: board::Error) -> Error {
        Error::Board(value)
    }
}

/// The coordinate of a tile on the axis along which `c` connects.
pub open spec fn spec_edge_coord(t: Tile, c: Colour) -> int {
    match c {
        Colour::Black => t->Regular_0 as int,
        Colour::White => t->Regular_1 as int,
    }
}

/// The six hex direction offsets, in the fixed order.
pub open spec fn spec_offset(d: int) -> (int, int) {
    if d == 0 {
        (0, 1)
    } else if d == 1 {
        (1, 0)
    } else if d == 2 {
        (1, -1)
    } else if d == 3 {
        (0, -1)
    } else if d == 4 {
        (-1, 0)
    } else {
        (-1, 1)
    }
}

/// The tile one step from `t` in direction `d`.
pub open spec fn spec_nbr(t: Tile, d: int) -> Tile {
    Tile::Regular(
        (t->Regular_0 + spec_offset(d).0) as i8,
        (t->Regular_1 + spec_offset(d).1) as i8,
    )
}

/// Whether the neighbour of `t` in direction `d` holds a stone of colour `c`.
pub open spec fn spec_nbr_is_colour(
    cells: Seq<PieceState>,
    size: int,
    t: Tile,
    c: Colour,
    d: int,
) -> bool {
    let n = spec_nbr(t, d);
    n.spec_in_range(size) && cells[n.spec_index(size)] == PieceState::Colour(c)
}

/// The tile that joining a fresh stone at `t` unions with in step `i`:
/// first the two edge sentinels, then the six neighbours.
pub open spec fn spec_join_partner(t: Tile, i: int) -> Tile {
    if i == 1 {
        Tile::Edge1
    } else if i == 2 {
        Tile::Edge2
    } else {
        spec_nbr(t, i - 3)
    }
}

/// Whether step `i` of joining a stone at `t` performs its union.
pub open spec fn spec_join_cond(
    cells: Seq<PieceState>,
    size: int,
    t: Tile,
    c: Colour,
    i: int,
) -> bool {
    if i == 1 {
        spec_edge_coord(t, c) == 0
    } else if i == 2 {
        spec_edge_coord(t, c) == size - 1
    } else {
        spec_nbr_is_colour(cells, size, t, c, i - 3)
    }
}

/// Whether `z` is related by `rel` to the stone at `t` or to one of the
/// partners of the first `n` join steps that fire.
pub open spec fn spec_touch_upto(
    rel: spec_fn(Tile, Tile) -> bool,
    cells: Seq<PieceState>,
    size: int,
    t: Tile,
    c: Colour,
    z: Tile,
    n: int,
) -> bool {
    ||| rel(z, t)
    ||| exists|i: int|
        1 <= i <= n && #[trigger] spec_join_cond(cells, size, t, c, i) && rel(
            z,
            spec_join_partner(t, i),
        )
}

/// Whether `z` reaches the newly joined stone at `t`: it is related to the
/// stone itself, to an edge sentinel the stone sits on, or to a same-colour
/// neighbour.
pub open spec fn spec_touches(
    rel: spec_fn(Tile, Tile) -> bool,
    cells: Seq<PieceState>,
    size: int,
    t: Tile,
    c: Colour,
    z: Tile,
) -> bool {
    spec_touch_upto(rel, cells, size, t, c, z, 8)
}

/// The relation after joining the stone at `t`: what was related stays
/// related, and everything touching the stone merges into one set.
pub open spec fn spec_star(
    rel: spec_fn(Tile, Tile) -> bool,
    cells: Seq<PieceState>,
    size: int,
    t: Tile,
    c: Colour,
    a: Tile,
    b: Tile,
) -> bool {
    ||| rel(a, b)
    ||| (spec_touches(rel, cells, size, t, c, a) && spec_touches(rel, cells, size, t, c, b))
}

/// One connectivity tracker per colour.
pub struct Groups {
    pub black: UnionFind,
    pub white: UnionFind,
}

impl Groups {
    /// The tracker of one colour.
    pub open spec fn of(self, c: Colour) -> UnionFind {
        match c {
            Colour::Black => self.black,
            Colour::White => self.white,
        }
    }

    pub open spec fn inv(self) -> bool {
        self.black.inv() && self.white.inv()
    }

    /// Unions a stone of colour `c` at `t` with its colour's edge sentinels
    /// where it sits on them, and with its same-colour neighbours.
    pub fn join(&mut self, t: Tile, c: Colour, b: &Board)
        requires
            old(self).inv(),
            b.wf(),
            b.size <= 127,
            t.spec_in_range(b.size as int),
        ensures
            final(self).inv(),
            final(self).of(c.spec_opponent()) == old(self).of(c.spec_opponent()),
            forall|x: Tile, y: Tile|
                #[trigger] final(self).of(c).same_set(x, y) <==> spec_star(
                    (|p: Tile, q: Tile| old(self).of(c).same_set(p, q)),
                    b@,
                    b.size as int,
                    t,
                    c,
                    x,
                    y,
                ),
    {
        match c {
            Colour::Black => join_into(&mut self.black, t, c, b),
            Colour::White => join_into(&mut self.white, t, c, b),
        }
    }
}

/// The tile at row-major index `i` of a grid.
pub open spec fn spec_grid_tile(i: int, size: int) -> Tile {
    Tile::Regular((i / size) as i8, (i % size) as i8)
}

/// The relation a colour's tracker holds after a from-scratch rescan of the
/// first `k` cells: a fresh tracker, joined for every stone of the colour in
/// row-major order.
pub open spec fn spec_rebuilt(
    cells: Seq<PieceState>,
    size: int,
    c: Colour,
    k: int,
    a: Tile,
    b: Tile,
) -> bool
    decreases k, 1int,
{
    if k <= 0 {
        a == b
    } else if cells[k - 1] == PieceState::Colour(c) {
        spec_rebuilt(cells, size, c, k - 1, a, b) || (spec_rebuilt_touch(cells, size, c, k, a)
            && spec_rebuilt_touch(cells, size, c, k, b))
    } else {
        spec_rebuilt(cells, size, c, k - 1, a, b)
    }
}

/// Whether `z` touches the stone at cell `k - 1` under the relation of the
/// first `k - 1` cells.
pub open spec fn spec_rebuilt_touch(
    cells: Seq<PieceState>,
    size: int,
    c: Colour,
    k: int,
    z: Tile,
) -> bool
    decreases k, 0int,
{
    if k <= 0 {
        false
    } else {
        let t = spec_grid_tile(k - 1, size);
        ||| spec_rebuilt(cells, size, c, k - 1, z, t)
        ||| exists|i: int|
            1 <= i <= 8 && #[trigger] spec_join_cond(cells, size, t, c, i) && spec_rebuilt(
                cells,
                size,
                c,
                k - 1,
                z,
                spec_join_partner(t, i),
            )
    }
}

/// Pointwise equal relations touch the same tiles.
proof fn touches_pointwise(
    rel1: spec_fn(Tile, Tile) -> bool,
    rel2: spec_fn(Tile, Tile) -> bool,
    cells: Seq<PieceState>,
    size: int,
    t: Tile,
    c: Colour,
)
    requires
        forall|p: Tile, q: Tile| #[trigger] rel1(p, q) == rel2(p, q),
    ensures
        forall|z: Tile, n: int|
            #[trigger] spec_touch_upto(rel1, cells, size, t, c, z, n) == spec_touch_upto(
                rel2,
                cells,
                size,
                t,
                c,
                z,
                n,
            ),
{
    assert forall|z: Tile, n: int|
        #[trigger] spec_touch_upto(rel1, cells, size, t, c, z, n) == spec_touch_upto(
            rel2,
            cells,
            size,
            t,
            c,
            z,
            n,
        ) by {
        if spec_touch_upto(rel1, cells, size, t, c, z, n) && !rel1(z, t) {
            let i = choose|i: int|
                1 <= i <= n && #[trigger] spec_join_cond(cells, size, t, c, i) && rel1(
                    z,
                    spec_join_partner(t, i),
                );
            assert(rel2(z, spec_join_partner(t, i)));
        }
        if spec_touch_upto(rel2, cells, size, t, c, z, n) && !rel2(z, t) {
            let i = choose|i: int|
                1 <= i <= n && #[trigger] spec_join_cond(cells, size, t, c, i) && rel2(
                    z,
                    spec_join_partner(t, i),
                );
            assert(rel1(z, spec_join_partner(t, i)));
        }
    };
}

/// A fresh tracker rescanned over a board: the from-scratch relation of the
/// colour's stones.
fn rebuilt_tracker(b: &Board, c: Colour) -> (uf: UnionFind)
    requires
        b.wf(),
        b.size <= 127,
    ensures
        uf.inv(),
        forall|x: Tile, y: Tile|
            #[trigger] uf.same_set(x, y) == spec_rebuilt(
                b@,
                b.size as int,
                c,
                b@.len() as int,
                x,
                y,
            ),
{
    let ghost cells = b@;
    let ghost size = b.size as int;
    let mut uf = UnionFind::new(b.size as usize);
    let n = b.cells.len();
    let mut k: usize = 0;
    while k < n
        invariant
            uf.inv(),
            b.wf(),
            b.size <= 127,
            cells == b@,
            size == b.size as int,
            n == cells.len(),
            k <= n,
            forall|x: Tile, y: Tile|
                #[trigger] uf.same_set(x, y) == spec_rebuilt(cells, size, c, k as int, x, y),
        decreases n - k,
    {
        let is_stone = match b.cells[k] {
            PieceState::Colour(cc) => cc == c,
            PieceState::Empty => false,
        };
        if is_stone {
            let t = b.index_to_tile(k);
            proof {
                grid_tile_in_range(k as int, size);
            }
            let ghost pre = uf;
            join_into(&mut uf, t, c, b);
            proof {
                let rel_uf = (|p: Tile, q: Tile| pre.same_set(p, q));
                let rel_rb = (|p: Tile, q: Tile| spec_rebuilt(cells, size, c, k as int, p, q));
                assert(forall|p: Tile, q: Tile| #[trigger] rel_uf(p, q) == rel_rb(p, q));
                touches_pointwise(rel_uf, rel_rb, cells, size, t, c);
                assert forall|x: Tile, y: Tile|
                    #[trigger] uf.same_set(x, y) == spec_rebuilt(
                        cells,
                        size,
                        c,
                        k + 1,
                        x,
                        y,
                    ) by {
                    assert(uf.same_set(x, y) <==> spec_star(rel_uf, cells, size, t, c, x, y));
                    assert(spec_touch_upto(rel_rb, cells, size, t, c, x, 8)
                        == spec_rebuilt_touch(cells, size, c, k + 1, x)) by {
                        touch_matches_rebuilt(cells, size, c, k + 1, x);
                    };
                    assert(spec_touch_upto(rel_rb, cells, size, t, c, y, 8)
                        == spec_rebuilt_touch(cells, size, c, k + 1, y)) by {
                        touch_matches_rebuilt(cells, size, c, k + 1, y);
                    };
                };
            }
        }
        k = k + 1;
    }
    uf
}

/// The generic touch predicate over the rebuilt relation coincides with the
/// rebuilt touch predicate.
proof fn touch_matches_rebuilt(cells: Seq<PieceState>, size: int, c: Colour, k: int, z: Tile)
    requires
        1 <= k,
    ensures
        spec_touch_upto(
            (|p: Tile, q: Tile| spec_rebuilt(cells, size, c, k - 1, p, q)),
            cells,
            size,
            spec_grid_tile(k - 1, size),
            c,
            z,
            8,
        ) == spec_rebuilt_touch(cells, size, c, k, z),
{
    let rel = (|p: Tile, q: Tile| spec_rebuilt(cells, size, c, k - 1, p, q));
    let t = spec_grid_tile(k - 1, size);
    if spec_touch_upto(rel, cells, size, t, c, z, 8) && !rel(z, t) {
        let i = choose|i: int|
            1 <= i <= 8 && #[trigger] spec_join_cond(cells, size, t, c, i) && rel(
                z,
                spec_join_partner(t, i),
            );
        assert(spec_rebuilt(cells, size, c, k - 1, z, spec_join_partner(t, i)));
        assert(spec_rebuilt_touch(cells, size, c, k, z));
    }
    if spec_rebuilt_touch(cells, size, c, k, z) && !spec_rebuilt(cells, size, c, k - 1, z, t) {
        let i = choose|i: int|
            1 <= i <= 8 && #[trigger] spec_join_cond(cells, size, t, c, i) && spec_rebuilt(
                cells,
                size,
                c,
                k - 1,
                z,
                spec_join_partner(t, i),
            );
        assert(rel(z, spec_join_partner(t, i)));
        assert(spec_touch_upto(rel, cells, size, t, c, z, 8));
    }
}

/// A grid index below the cell count names an in-range tile.
pub proof fn grid_tile_in_range(i: int, size: int)
    requires
        0 <= i < size * size,
        0 <= size <= 127,
    ensures
        spec_grid_tile(i, size).spec_in_range(size),
        spec_grid_tile(i, size) == Tile::Regular((i / size) as i8, (i % size) as i8),
        spec_grid_tile(i, size).spec_index(size) == i,
        0 < size,
        0 <= i / size < size,
        0 <= i % size < size,
{
    assert(0 < size) by (nonlinear_arith)
        requires
            0 <= i < size * size,
            0 <= size,
    ;
    vstd::arithmetic::div_mod::lemma_fundamental_div_mod(i, size);
    assert((i / size) * size == size * (i / size)) by (nonlinear_arith);
    assert(0 <= i / size < size) by (nonlinear_arith)
        requires
            0 < size,
            0 <= i < size * size,
            i == size * (i / size) + i % size,
            0 <= i % size < size,
    ;
}

/// One step of the join keeps the running characterization: everything the
/// step's union merges is already counted by the touch predicate.
proof fn star_extend(
    rel0: spec_fn(Tile, Tile) -> bool,
    pre: UnionFind,
    post: UnionFind,
    cells: Seq<PieceState>,
    size: int,
    t: Tile,
    c: Colour,
    n: int,
    took: bool,
)
    requires
        1 <= n,
        forall|x: Tile| #[trigger] rel0(x, x),
        forall|x: Tile, y: Tile|
            #[trigger] pre.same_set(x, y) <==> rel0(x, y) || (spec_touch_upto(
                rel0,
                cells,
                size,
                t,
                c,
                x,
                n - 1,
            ) && spec_touch_upto(rel0, cells, size, t, c, y, n - 1)),
        took == spec_join_cond(cells, size, t, c, n),
        took ==> forall|x: Tile, y: Tile|
            #[trigger] post.same_set(x, y) <==> pre.same_set(x, y) || (pre.same_set(
                x,
                spec_join_partner(t, n),
            ) && pre.same_set(y, t)) || (pre.same_set(x, t) && pre.same_set(
                y,
                spec_join_partner(t, n),
            )),
        !took ==> post == pre,
    ensures
        forall|x: Tile, y: Tile|
            #[trigger] post.same_set(x, y) <==> rel0(x, y) || (spec_touch_upto(
                rel0,
                cells,
                size,
                t,
                c,
                x,
                n,
            ) && spec_touch_upto(rel0, cells, size, t, c, y, n)),
{
    let z = spec_join_partner(t, n);
    // the touch predicate grows by exactly the new partner when the step
    // fires, and not at all when it does not
    assert forall|w: Tile|
        #[trigger] spec_touch_upto(rel0, cells, size, t, c, w, n) <==> spec_touch_upto(
            rel0,
            cells,
            size,
            t,
            c,
            w,
            n - 1,
        ) || (took && rel0(w, z)) by {
        if spec_touch_upto(rel0, cells, size, t, c, w, n) {
            if !rel0(w, t) {
                let i = choose|i: int|
                    1 <= i <= n && #[trigger] spec_join_cond(cells, size, t, c, i) && rel0(
                        w,
                        spec_join_partner(t, i),
                    );
                if i == n {
                    assert(took && rel0(w, z));
                } else {
                    assert(spec_touch_upto(rel0, cells, size, t, c, w, n - 1));
                }
            }
        }
        if spec_touch_upto(rel0, cells, size, t, c, w, n - 1) || (took && rel0(w, z)) {
            if took && rel0(w, z) {
                assert(1 <= n <= n && spec_join_cond(cells, size, t, c, n) && rel0(
                    w,
                    spec_join_partner(t, n),
                ));
                assert(spec_touch_upto(rel0, cells, size, t, c, w, n));
            }
        }
    };
    if took {
        assert forall|x: Tile, y: Tile|
            #[trigger] post.same_set(x, y) <==> rel0(x, y) || (spec_touch_upto(
                rel0,
                cells,
                size,
                t,
                c,
                x,
                n,
            ) && spec_touch_upto(rel0, cells, size, t, c, y, n)) by {
            pre.same_set_reflexive(t);
            assert(rel0(t, t));
            assert(spec_touch_upto(rel0, cells, size, t, c, t, n - 1));
            if rel0(x, y) || (spec_touch_upto(rel0, cells, size, t, c, x, n) && spec_touch_upto(
                rel0,
                cells,
                size,
                t,
                c,
                y,
                n,
            )) {
                if !rel0(x, y) {
                    assert(pre.same_set(x, t) || pre.same_set(x, z));
                    assert(pre.same_set(y, t) || pre.same_set(y, z));
                    assert(post.same_set(x, t));
                    assert(post.same_set(y, t));
                    post.same_set_symmetric(y, t);
                    post.same_set_transitive(x, t, y);
                }
            }
        };
    }
}

/// Performs the joins of one placed stone on one colour's tracker.
fn join_into(uf: &mut UnionFind, t: Tile, c: Colour, b: &Board)
    requires
        old(uf).inv(),
        b.wf(),
        b.size <= 127,
        t.spec_in_range(b.size as int),
    ensures
        final(uf).inv(),
        forall|x: Tile, y: Tile|
            #[trigger] final(uf).same_set(x, y) <==> spec_star(
                (|p: Tile, q: Tile| old(uf).same_set(p, q)),
                b@,
                b.size as int,
                t,
                c,
                x,
                y,
            ),
{
    let ghost rel0 = (|p: Tile, q: Tile| old(uf).same_set(p, q));
    let ghost cells = b@;
    let ghost size = b.size as int;
    proof {
        assert forall|x: Tile| #[trigger] rel0(x, x) by {
            old(uf).same_set_reflexive(x);
        };
        assert forall|x: Tile, y: Tile|
            #[trigger] uf.same_set(x, y) <==> rel0(x, y) || (spec_touch_upto(
                rel0,
                cells,
                size,
                t,
                c,
                x,
                0,
            ) && spec_touch_upto(rel0, cells, size, t, c, y, 0)) by {
            if rel0(x, t) && rel0(y, t) {
                old(uf).same_set_symmetric(y, t);
                old(uf).same_set_transitive(x, t, y);
            }
        };
    }
    let e = t.edge(c);
    let ghost pre1 = *uf;
    if e == 0 {
        uf.union(Tile::Edge1, t);
    }
    proof {
        star_extend(rel0, pre1, *uf, cells, size, t, c, 1, e == 0);
    }
    let ghost pre2 = *uf;
    if e == b.size - 1 {
        uf.union(t, Tile::Edge2);
    }
    proof {
        star_extend(rel0, pre2, *uf, cells, size, t, c, 2, e == b.size as int - 1);
    }
    let nbrs = b.neighbours(t);
    let mut d: usize = 0;
    while d < 6
        invariant
            uf.inv(),
            b.wf(),
            b.size <= 127,
            t.spec_in_range(b.size as int),
            cells == b@,
            size == b.size as int,
            rel0 == (|p: Tile, q: Tile| old(uf).same_set(p, q)),
            d <= 6,
            nbrs@ =~= seq![
                b.spec_neighbour(t, 0, 1),
                b.spec_neighbour(t, 1, 0),
                b.spec_neighbour(t, 1, -1),
                b.spec_neighbour(t, 0, -1),
                b.spec_neighbour(t, -1, 0),
                b.spec_neighbour(t, -1, 1),
            ],
            forall|x: Tile| #[trigger] rel0(x, x),
            forall|x: Tile, y: Tile|
                #[trigger] uf.same_set(x, y) <==> rel0(x, y) || (spec_touch_upto(
                    rel0,
                    cells,
                    size,
                    t,
                    c,
                    x,
                    d + 2,
                ) && spec_touch_upto(rel0, cells, size, t, c, y, d + 2)),
        decreases 6 - d,
    {
        let ghost pre = *uf;
        let ghost n = d + 3;
        let mut took = false;
        match nbrs[d] {
            Some((nbr, PieceState::Colour(nc))) => {
                if nc == c {
                    uf.union(nbr, t);
                    took = true;
                    proof {
                        assert(nbr == spec_join_partner(t, n as int));
                        assert(spec_join_cond(cells, size, t, c, n as int));
                    }
                }
            },
            _ => {},
        }
        proof {
            if !took {
                assert(!spec_join_cond(cells, size, t, c, n as int));
            }
            star_extend(rel0, pre, *uf, cells, size, t, c, n as int, took);
        }
        d = d + 1;
    }
    proof {
        assert forall|x: Tile, y: Tile|
            #[trigger] uf.same_set(x, y) <==> spec_star(rel0, cells, size, t, c, x, y) by {};
    }
}

/// Full game state.
pub struct State {
    pub size: i8,
    pub board: Board,
    pub to_play: Colour,
    pub groups: Groups,
}

/// The row-major index of the first cell that holds a stone, or the cell
/// count if the board is empty.
pub open spec fn spec_first_stone(cells: Seq<PieceState>, k: int) -> int
    decreases cells.len() - k,
{
    if k < 0 || k >= cells.len() {
        cells.len() as int
    } else if cells[k] != PieceState::Empty {
        k
    } else {
        spec_first_stone(cells, k + 1)
    }
}

/// The first-stone index lies between the start of the scan and the cell
/// count.
pub proof fn first_stone_in_range(cells: Seq<PieceState>, k: int)
    requires
        0 <= k <= cells.len(),
    ensures
        k <= spec_first_stone(cells, k) <= cells.len(),
    decreases cells.len() - k,
{
    if k < cells.len() && cells[k] == PieceState::Empty {
        first_stone_in_range(cells, k + 1);
    }
}

/// If the first `m` cells are empty and cell `m` is a stone or the end, then
/// `m` is the first stone.
proof fn first_stone_characterization(cells: Seq<PieceState>, m: int)
    requires
        0 <= m <= cells.len(),
        forall|j: int| 0 <= j < m ==> cells[j] == PieceState::Empty,
        m == cells.len() || cells[m] != PieceState::Empty,
    ensures
        spec_first_stone(cells, 0) == m,
{
    first_stone_from(cells, 0, m);
}

proof fn first_stone_from(cells: Seq<PieceState>, k: int, m: int)
    requires
        0 <= k <= m <= cells.len(),
        forall|j: int| k <= j < m ==> cells[j] == PieceState::Empty,
        m == cells.len() || cells[m] != PieceState::Empty,
    ensures
        spec_first_stone(cells, k) == m,
    decreases m - k,
{
    if k < m {
        first_stone_from(cells, k + 1, m);
    }
}

impl State {
    /// The trackers match the board size, and the board is well formed.
    pub open spec fn wf(self) -> bool {
        &&& self.board.wf()
        &&& self.size == self.board.size
        &&& 0 <= self.size <= 127
        &&& self.groups.inv()
    }

    /// A fresh state: an empty board, Black to play, empty trackers.
    pub fn new(size: i8) -> (s: State)
        requires
            0 <= size <= 127,
        ensures
            s.wf(),
            s.size == size,
            s.to_play == Colour::Black,
            forall|k: int| 0 <= k < s.board@.len() ==> s.board@[k] == PieceState::Empty,
            forall|x: Tile, y: Tile| #[trigger] s.groups.black.same_set(x, y) <==> x == y,
            forall|x: Tile, y: Tile| #[trigger] s.groups.white.same_set(x, y) <==> x == y,
    {
        State {
            size,
            board: Board::new(size),
            to_play: Colour::Black,
            groups: Groups {
                black: UnionFind::new(size as usize),
                white: UnionFind::new(size as usize),
            },
        }
    }

    /// The current board.
    pub fn get_board(&self) -> (b: &Board)
        ensures
            b == &self.board,
    {
        &self.board
    }

    /// The compressed serialization of the current board.
    pub fn get_compressed(&self) -> (r: String)
        requires
            self.wf(),
        ensures
            r@ == crate::board::spec_compressed(self.board@, self.size as int),
    {
        self.board.get_compressed()
    }

    /// The human-readable rendering of the current board.
    pub fn get_pretty(&self) -> (r: String)
        requires
            self.wf(),
        ensures
            r@ == crate::board::spec_pretty(self.board@, self.size as int),
    {
        self.board.get_pretty()
    }

    /// Mirrors the position without touching the trackers.
    pub fn swap_pieces(&mut self) -> (r: Result<(), Error>)
        requires
            old(self).wf(),
        ensures
            final(self).wf(),
            r is Ok,
            final(self).board@ == crate::board::spec_swapped(
                old(self).board@,
                old(self).size as int,
            ),
            final(self).size == old(self).size,
            final(self).to_play == old(self).to_play,
            final(self).groups == old(self).groups,
    {
        match self.board.swap_pieces() {
            Ok(()) => Ok(()),
            Err(e) => Err(Error::Board(e)),
        }
    }

    /// Judges the first stone on the board for the pie rule: declines stones
    /// near the short diagonal, takes stones in the middle; an empty board is
    /// declined.
    pub fn should_swap(&self, rng: &mut Rng) -> (swap: bool)
        requires
            self.wf(),
        ensures
            ({
                let fs = spec_first_stone(self.board@, 0);
                let size = self.size as int;
                &&& fs == self.board@.len() ==> !swap
                &&& fs < self.board@.len() ==> {
                    let d = fs / size + fs % size;
                    &&& (d < 2 || d > 2 * size - 4) ==> !swap
                    &&& (2 < d < 2 * size - 4) ==> swap
                }
            }),
    {
        let n = self.board.cells.len();
        let mut k: usize = 0;
        while k < n
            invariant
                self.wf(),
                n == self.board@.len(),
                k <= n,
                forall|j: int| 0 <= j < k ==> self.board@[j] == PieceState::Empty,
            decreases n - k,
        {
            let stone = match self.board.cells[k] {
                PieceState::Colour(_) => true,
                PieceState::Empty => false,
            };
            if stone {
                proof {
                    first_stone_characterization(self.board@, k as int);
                    grid_tile_in_range(k as int, self.size as int);
                }
                let size = self.size as usize;
                let r = (k / size) as i8;
                let c = (k % size) as i8;
                return opening::should_swap(r, c, self.size, rng);
            }
            k = k + 1;
        }
        proof {
            first_stone_characterization(self.board@, n as int);
        }
        false
    }

    /// Whether a colour's two edges are connected.
    fn is_connected(&mut self, colour: Colour) -> (r: bool)
        requires
            old(self).wf(),
        ensures
            final(self).wf(),
            r == old(self).groups.of(colour).same_set(Tile::Edge1, Tile::Edge2),
            final(self).board == old(self).board,
            final(self).size == old(self).size,
            final(self).to_play == old(self).to_play,
            forall|cc: Colour, x: Tile, y: Tile|
                #[trigger] final(self).groups.of(cc).same_set(x, y) == old(self).groups.of(
                    cc,
                ).same_set(x, y),
    {
        match colour {
            Colour::Black => self.groups.black.connected(Tile::Edge1, Tile::Edge2),
            Colour::White => self.groups.white.connected(Tile::Edge1, Tile::Edge2),
        }
    }

    /// The winning colour: White if its edges are connected, else Black if
    /// its edges are, else none.
    pub fn check_win(&mut self) -> (r: Option<Colour>)
        requires
            old(self).wf(),
        ensures
            final(self).wf(),
            r == if old(self).groups.white.same_set(Tile::Edge1, Tile::Edge2) {
                Some(Colour::White)
            } else if old(self).groups.black.same_set(Tile::Edge1, Tile::Edge2) {
                Some(Colour::Black)
            } else {
                Option::<Colour>::None
            },
            final(self).board == old(self).board,
            final(self).size == old(self).size,
            final(self).to_play == old(self).to_play,
            forall|cc: Colour, x: Tile, y: Tile|
                #[trigger] final(self).groups.of(cc).same_set(x, y) == old(self).groups.of(
                    cc,
                ).same_set(x, y),
    {
        if self.is_connected(Colour::White) {
            Some(Colour::White)
        } else if self.is_connected(Colour::Black) {
            Some(Colour::Black)
        } else {
            None
        }
    }

    /// The winner from the point of view of the given colour.
    pub fn get_winner(&mut self, colour: Colour) -> (r: Option<Winner>)
        requires
            old(self).wf(),
        ensures
            final(self).wf(),
            r == {
                let w = if old(self).groups.white.same_set(Tile::Edge1, Tile::Edge2) {
                    Some(Colour::White)
                } else if old(self).groups.black.same_set(Tile::Edge1, Tile::Edge2) {
                    Some(Colour::Black)
                } else {
                    None
                };
                match w {
                    Some(wc) => if wc == colour {
                        Some(Winner::Bot)
                    } else {
                        Some(Winner::Opponent)
                    },
                    None => None,
                }
            },
            final(self).board == old(self).board,
            final(self).size == old(self).size,
            final(self).to_play == old(self).to_play,
            forall|cc: Colour, x: Tile, y: Tile|
                #[trigger] final(self).groups.of(cc).same_set(x, y) == old(self).groups.of(
                    cc,
                ).same_set(x, y),
    {
        match self.check_win() {
            Some(w) => {
                if matches!((w, colour), (Colour::White, Colour::White) | (Colour::Black, Colour::Black)) {
                    Some(Winner::Bot)
                } else {
                    Some(Winner::Opponent)
                }
            },
            None => None,
        }
    }

    /// Writes a piece and, for a coloured piece, joins it into its colour's
    /// tracker and passes the turn.
    fn set_piece(&mut self, t: Tile, s: PieceState) -> (r: Result<(), Error>)
        requires
            old(self).wf(),
        ensures
            final(self).wf(),
            final(self).size == old(self).size,
            r is Ok <==> t.spec_in_range(old(self).size as int),
            r is Err ==> *final(self) == *old(self) && r == Err::<(), Error>(
                Error::Board(board::Error::NotInRange),
            ),

            r is Ok ==> final(self).board@ == old(self).board@.update(
                t.spec_index(old(self).size as int),
                s,
            ),
            r is Ok && s is Colour ==> {
                let c = s->Colour_0;
                &&& final(self).to_play == c.spec_opponent()
                &&& final(self).groups.of(c.spec_opponent()) == old(self).groups.of(
                    c.spec_opponent(),
                )
                &&& forall|x: Tile, y: Tile|
                    #[trigger] final(self).groups.of(c).same_set(x, y) <==> spec_star(
                        (|p: Tile, q: Tile| old(self).groups.of(c).same_set(p, q)),
                        final(self).board@,
                        old(self).size as int,
                        t,
                        c,
                        x,
                        y,
                    )
            },
            r is Ok && s is Empty ==> final(self).to_play == old(self).to_play
                && final(self).groups == old(self).groups,
    {
        match self.board.set_tile(t, s) {
            Err(e) => Err(Error::Board(e)),
            Ok(()) => {
                match s {
                    PieceState::Colour(c) => {
                        self.groups.join(t, c, &self.board);
                        self.to_play = c.opponent();
                    },
                    PieceState::Empty => {},
                }
                Ok(())
            },
        }
    }

    /// Writes a piece over a stone of another colour and rebuilds that
    /// colour's tracker from scratch by rescanning the whole board.
    fn replace_piece(&mut self, t: Tile, old_c: Colour, new: PieceState) -> (r: Result<(), Error>)
        requires
            old(self).wf(),
            t.spec_in_range(old(self).size as int),
        ensures
            final(self).wf(),
            r is Ok,
            final(self).size == old(self).size,
            final(self).to_play == old(self).to_play,
            final(self).board@ == old(self).board@.update(
                t.spec_index(old(self).size as int),
                new,
            ),
            final(self).groups.of(old_c.spec_opponent()) == old(self).groups.of(
                old_c.spec_opponent(),
            ),
            forall|x: Tile, y: Tile|
                #[trigger] final(self).groups.of(old_c).same_set(x, y) == spec_rebuilt(
                    final(self).board@,
                    old(self).size as int,
                    old_c,
                    final(self).board@.len() as int,
                    x,
                    y,
                ),
    {
        let result = match self.board.set_tile(t, new) {
            Ok(()) => Ok(()),
            Err(e) => Err(Error::Board(e)),
        };
        let fresh = rebuilt_tracker(&self.board, old_c);
        match old_c {
            Colour::Black => {
                self.groups.black = fresh;
            },
            Colour::White => {
                self.groups.white = fresh;
            },
        }
        result
    }

    /// Places a piece.  Fails only off the board.  Placing over a different
    /// colour (or emptying a stone) rebuilds the old colour's tracker from a
    /// full rescan; any coloured placement then joins the stone and passes
    /// the turn.
    pub fn place_piece(&mut self, t: Tile, s: PieceState) -> (r: Result<(), Error>)
        requires
            old(self).wf(),
        ensures
            final(self).wf(),
            final(self).size == old(self).size,
            r is Ok <==> t.spec_in_range(old(self).size as int),
            r is Err ==> *final(self) == *old(self) && r == Err::<(), Error>(Error::InvalidTile),
            r is Ok ==> final(self).board@ == old(self).board@.update(
                t.spec_index(old(self).size as int),
                s,
            ),
            r is Ok ==> ({
                let size = old(self).size as int;
                let was = old(self).board@[t.spec_index(size)];
                let nb = final(self).board@;
                let n = nb.len() as int;
                &&& (was is Empty && s is Empty) ==> final(self).groups == old(self).groups
                    && final(self).to_play == old(self).to_play
                // a coloured stone is joined into its tracker and the turn passes
                &&& s is Colour ==> {
                    let c = s->Colour_0;
                    &&& final(self).to_play == c.spec_opponent()
                    &&& forall|x: Tile, y: Tile|
                        #[trigger] final(self).groups.of(c).same_set(x, y) <==> spec_star(
                            (|p: Tile, q: Tile| old(self).groups.of(c).same_set(p, q)),
                            nb,
                            size,
                            t,
                            c,
                            x,
                            y,
                        )
                }
                // overwriting a stone of the other colour, or emptying one,
                // rebuilds the old colour's tracker from a full rescan
                &&& (was is Colour && (s is Empty || s->Colour_0 != was->Colour_0)) ==> forall|
                    x: Tile,
                    y: Tile,
                |
                    #[trigger] final(self).groups.of(was->Colour_0).same_set(x, y)
                        == spec_rebuilt(nb, size, was->Colour_0, n, x, y)
                &&& (was is Colour && s is Empty) ==> final(self).groups.of(
                    was->Colour_0.spec_opponent(),
                ) == old(self).groups.of(was->Colour_0.spec_opponent()) && final(self).to_play
                    == old(self).to_play
                &&& (was is Empty && s is Colour) ==> final(self).groups.of(
                    s->Colour_0.spec_opponent(),
                ) == old(self).groups.of(s->Colour_0.spec_opponent())
                &&& (was is Colour && s is Colour && s->Colour_0 == was->Colour_0)
                    ==> final(self).groups.of(s->Colour_0.spec_opponent()) == old(self).groups.of(
                    s->Colour_0.spec_opponent(),
                )
            }),
    {
        let r = match self.board.get_tile(t) {
            None => {
                return Err(Error::InvalidTile);
            },
            Some(p) => p,
        };
        match (r, s) {
            (PieceState::Colour(c0), PieceState::Empty) => {
                let _res = self.replace_piece(t, c0, s);
            },
            (PieceState::Colour(c0), PieceState::Colour(c1)) => {
                if !(c1 == c0) {
                    let _res = self.replace_piece(t, c0, s);
                }
            },
            (PieceState::Empty, _) => {},
        }
        let ghost mid = *self;
        let _res = self.set_piece(t, s);
        proof {
            crate::board::index_in_grid(
                t->Regular_0 as int,
                t->Regular_1 as int,
                old(self).size as int,
            );
            assert(self.board@ =~= old(self).board@.update(
                t.spec_index(old(self).size as int),
                s,
            ));
            assert(self.board@ =~= mid.board@.update(t.spec_index(old(self).size as int), s));
            let size = old(self).size as int;
            let was = old(self).board@[t.spec_index(size)];
            let nb = self.board@;
            if was is Colour {
                // after a rescan the board already holds `s` at the tile, so
                // the final write changes nothing
                assert(nb =~= mid.board@);
            }
            if s is Colour {
                let c = s->Colour_0;
                assert(mid.groups.of(c) == old(self).groups.of(c));
                let rel_mid = (|p: Tile, q: Tile| mid.groups.of(c).same_set(p, q));
                let rel_old = (|p: Tile, q: Tile| old(self).groups.of(c).same_set(p, q));
                assert(forall|p: Tile, q: Tile| #[trigger] rel_mid(p, q) == rel_old(p, q));
                touches_pointwise(rel_mid, rel_old, nb, size, t, c);
                assert forall|x: Tile, y: Tile|
                    #[trigger] self.groups.of(c).same_set(x, y) <==> spec_star(
                        rel_old,
                        nb,
                        size,
                        t,
                        c,
                        x,
                        y,
                    ) by {
                    assert(self.groups.of(c).same_set(x, y) <==> spec_star(
                        rel_mid,
                        nb,
                        size,
                        t,
                        c,
                        x,
                        y,
                    ));
                };
            }
        }
        Ok(())
    }

    /// The strict placement: fails unless the target is currently empty.
    pub fn try_place_piece(&mut self, t: Tile, c: PieceState) -> (r: Result<(), Error>)
        requires
            old(self).wf(),
        ensures
            final(self).wf(),
            final(self).size == old(self).size,
            r is Ok <==> (t.spec_in_range(old(self).size as int) && old(self).board@[t.spec_index(
                old(self).size as int,
            )] == PieceState::Empty),
            r is Err ==> *final(self) == *old(self) && r == Err::<(), Error>(Error::TileNotEmpty),
            r is Ok ==> final(self).board@ == old(self).board@.update(
                t.spec_index(old(self).size as int),
                c,
            ),
            r is Ok && c is Colour ==> {
                let cc = c->Colour_0;
                &&& final(self).to_play == cc.spec_opponent()
                &&& final(self).groups.of(cc.spec_opponent()) == old(self).groups.of(
                    cc.spec_opponent(),
                )
                &&& forall|x: Tile, y: Tile|
                    #[trigger] final(self).groups.of(cc).same_set(x, y) <==> spec_star(
                        (|p: Tile, q: Tile| old(self).groups.of(cc).same_set(p, q)),
                        final(self).board@,
                        old(self).size as int,
                        t,
                        cc,
                        x,
                        y,
                    )
            },
            r is Ok && c is Empty ==> final(self).to_play == old(self).to_play
                && final(self).groups == old(self).groups,
    {
        let empty = match self.board.get_tile(t) {
            Some(PieceState::Empty) => true,
            _ => false,
        };
        if empty {
            let _res = self.set_piece(t, c);
            Ok(())
        } else {
            Err(Error::TileNotEmpty)
        }
    }
}

impl Default for State {
    /// A fresh state of the default size.
    fn default() -> (s: State)
        ensures
            s.wf(),
            s.size == DEFAULT_SIZE,
            s.to_play == Colour::Black,
            forall|k: int| 0 <= k < s.board@.len() ==> s.board@[k] == PieceState::Empty,
            forall|x: Tile, y: Tile| #[trigger] s.groups.black.same_set(x, y) <==> x == y,
            forall|x: Tile, y: Tile| #[trigger] s.groups.white.same_set(x, y) <==> x == y,
    {
        State::new(DEFAULT_SIZE)
    }
}

} // verus!
