//! The potential evaluator: an iterative relaxation that scores every cell's
//! cost of reaching each board edge, plus a bridge-pattern score, and picks
//! the empty cell with the best combined score.
//!
//! The scores are empirically tuned integers; the bridge and move scores keep
//! a fixed scale of 40 so that all arithmetic stays exact.

use vstd::prelude::*;

use crate::board::Board;
use crate::rng::Rng;
use crate::tile::{Colour, PieceState, Tile};

verus! {

/// Potential every cell starts from.
pub const INIT_POTENTIAL: i64 = 20000;

/// Potential an unoccupied edge cell is seeded with.
pub const DEFAULT_POTENTIAL: i64 = 128;

/// Cost of needing to place a new stone on a cell.
pub const DIFF: i64 = 140;

/// The blocked / off-board potential.
pub const MAX_VALUE: i64 = 30000;

/// The most relaxation passes per edge.
pub const ROUNDS: u32 = 1000;

/// Fixed-point scale of the bridge and move scores.
pub const BRIDGE_SCALE: i64 = 40;

/// An edge-pair potential at or below this means the connection is nearly
/// complete.
pub const PP_THRESHOLD: i64 = 268;

/// Bonus for a cell whose edge-pair connection is nearly complete.
pub const MMP_DEDUCTION: i64 = 400;

/// Weight of the quadrant bias.
pub const MOVE_MUL: i64 = 8;

/// Distance-decay factor when the starting colour is Black.
pub const BLACK_FACTOR: i64 = 140;

/// Distance-decay factor when the starting colour is White.
pub const WHITE_FACTOR: i64 = 1;

/// How far below every current potential one relaxation step can reach.
pub const STEP_DROP: i64 = 100;

/// The four board edges a potential is measured against.
#[derive(Debug, Clone, Copy, PartialEq, Eq, Structural)]
pub enum Edge {
    Top,
    Bottom,
    Left,
    Right,
}

impl Edge {
    /// Slot of this edge in a cell's per-edge arrays.
    pub fn idx(self) -> (r: usize)
        ensures
            r == self.spec_idx(),
    {
        match self {
            Edge::Top => 0,
            Edge::Bottom => 1,
            Edge::Left => 2,
            Edge::Right => 3,
        }
    }

    pub open spec fn spec_idx(self) -> int {
        match self {
            Edge::Top => 0,
            Edge::Bottom => 1,
            Edge::Left => 2,
            Edge::Right => 3,
        }
    }

    /// The colour that owns this edge: Black joins top and bottom, White
    /// joins left and right.
    pub fn colour(self) -> (r: Colour)
        ensures
            r == self.spec_colour(),
    {
        match self {
            Edge::Top | Edge::Bottom => Colour::Black,
            Edge::Left | Edge::Right => Colour::White,
        }
    }

    pub open spec fn spec_colour(self) -> Colour {
        match self {
            Edge::Top | Edge::Bottom => Colour::Black,
            Edge::Left | Edge::Right => Colour::White,
        }
    }
}


/// The sum of the first `e` bridge slots of cell `k`.
pub open spec fn sum_bridge(s: PotentialEvaluator, k: int, e: int) -> int
    decreases e,
{
    if e <= 0 {
        0
    } else {
        sum_bridge(s, k, e - 1) + s.bridge@[4 * k + (e - 1)]
    }
}

/// One pass of the double-block adjustment over the six neighbour values:
/// where a value and its opposite are both at the ceiling, the slot between
/// them either raises the block score (a marker) or gains a penalty.
pub open spec fn spec_adjusted(vals: Seq<i64>, idx: int) -> (Seq<i64>, int)
    decreases idx,
{
    if idx <= 0 {
        (vals, 0)
    } else {
        let prev = spec_adjusted(vals, idx - 1);
        let v = prev.0;
        let i = idx - 1;
        if v[i] >= MAX_VALUE && v[(i + 2) % 6] >= MAX_VALUE {
            if v[(i + 1) % 6] < 0 {
                (v, prev.1 + 32)
            } else {
                (v.update((i + 1) % 6, ((v[(i + 1) % 6] as int + 128) as i64)), prev.1)
            }
        } else {
            (v, prev.1)
        }
    }
}

/// The block score earned by pairs of opposite neighbours both at the
/// ceiling, over the first `idx` slots.
pub open spec fn spec_opposite_blocks(vals: Seq<i64>, idx: int) -> int
    decreases idx,
{
    if idx <= 0 {
        0
    } else {
        spec_opposite_blocks(vals, idx - 1) + if vals[idx - 1] >= MAX_VALUE && vals[(idx - 1 + 3)
            % 6] >= MAX_VALUE {
            30int
        } else {
            0int
        }
    }
}

/// The neighbour values with the negative own-stone markers restored.
pub open spec fn spec_restored(vals: Seq<i64>) -> Seq<i64> {
    Seq::new(6, |i: int| if vals[i] < 0 {
        ((vals[i] as int + MAX_VALUE) as i64)
    } else {
        vals[i]
    })
}

/// The bridge weight of each neighbour: a restored own stone weighs ten, any
/// other slot one.
pub open spec fn spec_weights(vals: Seq<i64>) -> Seq<i64> {
    Seq::new(6, |i: int| if vals[i] < 0 {
        10i64
    } else {
        1i64
    })
}

/// The minimum of the first `idx` values, starting from the ceiling.
pub open spec fn spec_min_prefix(vals: Seq<i64>, idx: int) -> i64
    decreases idx,
{
    if idx <= 0 {
        MAX_VALUE
    } else {
        let m = spec_min_prefix(vals, idx - 1);
        if m > vals[idx - 1] {
            vals[idx - 1]
        } else {
            m
        }
    }
}

/// The summed tie weight of the first `idx` neighbour slots whose value
/// equals the minimum.
pub open spec fn spec_tie_weight(weights: Seq<i64>, nbv: Seq<i64>, m: i64, idx: int) -> int
    decreases idx,
{
    if idx <= 0 {
        0
    } else {
        spec_tie_weight(weights, nbv, m, idx - 1) + if nbv[idx - 1] == m {
            weights[idx - 1] as int
        } else {
            0
        }
    }
}

/// The smallest neighbour value strictly above the minimum, over the first
/// `idx` slots; the ceiling when there is none.
pub open spec fn spec_closest_high(nbv: Seq<i64>, m: i64, idx: int) -> i64
    decreases idx,
{
    if idx <= 0 {
        MAX_VALUE
    } else {
        let cur = spec_closest_high(nbv, m, idx - 1);
        if nbv[idx - 1] > m && cur > nbv[idx - 1] {
            nbv[idx - 1]
        } else {
            cur
        }
    }
}

/// Halving that rounds towards zero, as the executable division does.
pub open spec fn spec_half(x: int) -> int {
    if x >= 0 {
        x / 2
    } else {
        -((-x) / 2)
    }
}

/// The bridge score and the adjusted minimum: a pair of tied neighbours is a
/// bridge pattern and earns the edge score and a lower minimum; a lone
/// minimum close to the next value earns a partial score and an averaged
/// minimum.
pub open spec fn spec_bridge_min(weights: Seq<i64>, nbv: Seq<i64>, min_in: i64, own: bool) -> (
    int,
    int,
) {
    let tw = spec_tie_weight(weights, nbv, min_in, 6);
    let ebs: int = if own {
        66 * (BRIDGE_SCALE as int)
    } else {
        52 * (BRIDGE_SCALE as int)
    };
    if 2 <= tw < 10 {
        (ebs + (tw - 2) * (BRIDGE_SCALE as int), min_in - 32)
    } else if tw < 2 {
        let chv = spec_closest_high(nbv, min_in, 6);
        if chv <= min_in + 104 {
            (ebs - (chv - min_in) * 10, spec_half(min_in - 64 + chv))
        } else {
            (tw * 8, spec_half(min_in + chv))
        }
    } else {
        (tw * 8, min_in as int)
    }
}

/// Whether cell `j` is one of the first `d` hex neighbours of `t` that lie
/// on the board.
pub open spec fn spec_is_nbr_upto(size: int, t: Tile, j: int, d: int) -> bool {
    exists|dd: int|
        0 <= dd < d && (#[trigger] crate::state::spec_nbr(t, dd)).spec_in_range(size)
            && crate::state::spec_nbr(t, dd).spec_index(size) == j
}

/// Whether cell `j` is an on-board hex neighbour of `t`.
pub open spec fn spec_is_nbr_cell(size: int, t: Tile, j: int) -> bool {
    spec_is_nbr_upto(size, t, j, 6)
}

/// Taking one more direction into account adds exactly that neighbour.
proof fn nbr_upto_step(size: int, t: Tile, j: int, d: int)
    requires
        0 <= d,
    ensures
        spec_is_nbr_upto(size, t, j, d + 1) == (spec_is_nbr_upto(size, t, j, d) || (
        crate::state::spec_nbr(t, d).spec_in_range(size) && crate::state::spec_nbr(t, d).spec_index(
            size,
        ) == j)),
{
    if spec_is_nbr_upto(size, t, j, d + 1) {
        let dd = choose|dd: int|
            0 <= dd < d + 1 && (#[trigger] crate::state::spec_nbr(t, dd)).spec_in_range(size)
                && crate::state::spec_nbr(t, dd).spec_index(size) == j;
        if dd < d {
            assert(spec_is_nbr_upto(size, t, j, d));
        }
    }
    if spec_is_nbr_upto(size, t, j, d) {
        let dd = choose|dd: int|
            0 <= dd < d && (#[trigger] crate::state::spec_nbr(t, dd)).spec_in_range(size)
                && crate::state::spec_nbr(t, dd).spec_index(size) == j;
        assert(spec_is_nbr_upto(size, t, j, d + 1));
    }
    if crate::state::spec_nbr(t, d).spec_in_range(size) && crate::state::spec_nbr(t, d).spec_index(
        size,
    ) == j {
        assert(spec_is_nbr_upto(size, t, j, d + 1));
    }
}

/// A cell is not its own neighbour: the six offsets are all nonzero.
proof fn nbr_not_self(size: int, t: Tile)
    requires
        t.spec_in_range(size),
        size <= 127,
    ensures
        !spec_is_nbr_cell(size, t, t.spec_index(size)),
{
    if spec_is_nbr_cell(size, t, t.spec_index(size)) {
        let dd = choose|dd: int|
            0 <= dd < 6 && (#[trigger] crate::state::spec_nbr(t, dd)).spec_in_range(size)
                && crate::state::spec_nbr(t, dd).spec_index(size) == t.spec_index(size);
        let n = crate::state::spec_nbr(t, dd);
        crate::board::index_in_grid(t->Regular_0 as int, t->Regular_1 as int, size);
        crate::board::index_in_grid(n->Regular_0 as int, n->Regular_1 as int, size);
        vstd::arithmetic::div_mod::lemma_fundamental_div_mod_converse(
            t.spec_index(size),
            size,
            t->Regular_0 as int,
            t->Regular_1 as int,
        );
        vstd::arithmetic::div_mod::lemma_fundamental_div_mod_converse(
            n.spec_index(size),
            size,
            n->Regular_0 as int,
            n->Regular_1 as int,
        );
        assert(false);
    }
}

/// Multiplies two bounded values; the bounds certify the product fits.
fn mul_i128(a: i128, b: i128, Ghost(ba): Ghost<int>, Ghost(bb): Ghost<int>) -> (r: i128)
    requires
        0 <= ba,
        0 <= bb,
        -ba <= a <= ba,
        -bb <= b <= bb,
        ba * bb < 0x4000_0000_0000_0000_0000_0000_0000_0000,
    ensures
        r == a * b,
        -(ba * bb) <= r <= ba * bb,
{
    proof {
        assert(-(ba * bb) <= a * b <= ba * bb) by (nonlinear_arith)
            requires
                -ba <= a <= ba,
                -bb <= b <= bb,
                0 <= ba,
                0 <= bb,
        ;
    }
    a * b
}

/// The evaluator: a snapshot of the board plus, per cell, four potentials,
/// four bridge scores, and a dirty flag.
pub struct PotentialEvaluator {
    pub board: Board,
    pub active: Colour,
    pub starting: Colour,
    pub potential: Vec<i64>,
    pub bridge: Vec<i64>,
    pub update: Vec<bool>,
}

impl PotentialEvaluator {
    pub open spec fn wf(self) -> bool {
        &&& self.board.wf()
        &&& self.board.size <= 127
        &&& self.potential@.len() == 4 * self.board@.len()
        &&& self.bridge@.len() == 4 * self.board@.len()
        &&& self.update@.len() == self.board@.len()
    }

    /// All potentials lie at or above `lo`.
    pub open spec fn pots_above(self, lo: int) -> bool {
        forall|k: int| 0 <= k < self.potential@.len() ==> (#[trigger] self.potential@[k]) >= lo
    }

    /// All potentials lie at or below `hi`.
    pub open spec fn pots_below(self, hi: int) -> bool {
        forall|k: int| 0 <= k < self.potential@.len() ==> (#[trigger] self.potential@[k]) <= hi
    }

    /// A fresh evaluator over a snapshot of the board: all potentials start
    /// at the ceiling, the bridge scores at zero, every cell clean.
    pub fn new(board: &Board, active: Colour, starting: Colour) -> (ev: PotentialEvaluator)
        requires
            board.wf(),
            board.size <= 127,
        ensures
            ev.wf(),
            ev.board@ == board@,
            ev.board.size == board.size,
            ev.active == active,
            ev.starting == starting,
            ev.pots_above(INIT_POTENTIAL as int),
            ev.pots_below(INIT_POTENTIAL as int),
            forall|k: int| 0 <= k < ev.potential@.len() ==> (#[trigger] ev.potential@[k]) == INIT_POTENTIAL,
            forall|k: int| 0 <= k < ev.bridge@.len() ==> (#[trigger] ev.bridge@[k]) == 0i64,
            forall|k: int| 0 <= k < ev.update@.len() ==> (#[trigger] ev.update@[k]) == false,
    {
        let snapshot = board.duplicate();
        let n = snapshot.cells.len();
        assert(n <= 127 * 127) by (nonlinear_arith)
            requires
                n == (board.size as int) * (board.size as int),
                0 <= board.size <= 127,
        ;
        let mut potential: Vec<i64> = Vec::new();
        let mut bridge: Vec<i64> = Vec::new();
        let mut update: Vec<bool> = Vec::new();
        let mut k: usize = 0;
        while k < 4 * n
            invariant
                n <= 127 * 127,
                k <= 4 * n,
                potential@.len() == k as int,
                bridge@.len() == k as int,
                forall|j: int| 0 <= j < k ==> (#[trigger] potential@[j]) == INIT_POTENTIAL,
                forall|j: int| 0 <= j < k ==> (#[trigger] bridge@[j]) == 0i64,
            decreases 4 * n - k,
        {
            potential.push(INIT_POTENTIAL);
            bridge.push(0);
            k = k + 1;
        }
        let mut k: usize = 0;
        while k < n
            invariant
                k <= n,
                update@.len() == k as int,
                forall|j: int| 0 <= j < k ==> (#[trigger] update@[j]) == false,
            decreases n - k,
        {
            update.push(false);
            k = k + 1;
        }
        PotentialEvaluator { board: snapshot, active, starting, potential, bridge, update }
    }

    /// Marks every cell dirty.
    fn reset_update(&mut self)
        requires
            old(self).wf(),
        ensures
            final(self).wf(),
            final(self).board == old(self).board,
            final(self).active == old(self).active,
            final(self).starting == old(self).starting,
            final(self).potential == old(self).potential,
            final(self).bridge == old(self).bridge,
            final(self).update@.len() == old(self).update@.len(),
            forall|j: int|
                0 <= j < final(self).update@.len() ==> (#[trigger] final(self).update@[j]) == true,
    {
        let n = self.update.len();
        let mut k: usize = 0;
        while k < n
            invariant
                self.wf(),
                self.board == old(self).board,
                self.active == old(self).active,
                self.starting == old(self).starting,
                self.potential == old(self).potential,
                self.bridge == old(self).bridge,
                n == self.update@.len(),
                k <= n,
                forall|j: int| 0 <= j < k ==> (#[trigger] self.update@[j]) == true,
            decreases n - k,
        {
            self.update.set(k, true);
            k = k + 1;
        }
    }

    /// Whether the tile is one of the four board corners.
    fn is_corner_tile(&self, tile: Tile) -> (r: bool)
        requires
            0 <= self.board.size,
        ensures
            r == match tile {
                Tile::Regular(tr, tc) => (tr == 0 || tr == self.board.size - 1) && (tc == 0 || tc
                    == self.board.size - 1),
                _ => false,
            },
    {
        match tile {
            Tile::Regular(r, c) => (r == 0 || r == self.board.size - 1) && (c == 0 || c
                == self.board.size - 1),
            _ => false,
        }
    }

    /// Whether the tile is strictly inside the board rim.
    fn is_inside_tile(&self, tile: Tile) -> (r: bool)
        requires
            0 <= self.board.size,
        ensures
            r == match tile {
                Tile::Regular(tr, tc) => 0 < tr && tr < self.board.size - 1 && 0 < tc && tc
                    < self.board.size - 1,
                _ => false,
            },
    {
        match tile {
            Tile::Regular(r, c) => 0 < r && r < self.board.size - 1 && 0 < c && c < self.board.size
                - 1,
            _ => false,
        }
    }

    /// The four edge cells in line `i`: one on each board edge.
    fn get_edges(&self, i: i8) -> (r: [(Edge, Tile); 4])
        requires
            self.wf(),
        ensures
            r@ =~= seq![
                (Edge::Top, Tile::Regular(0, i)),
                (Edge::Bottom, Tile::Regular((self.board.size - 1) as i8, i)),
                (Edge::Left, Tile::Regular(i, 0)),
                (Edge::Right, Tile::Regular(i, (self.board.size - 1) as i8)),
            ],
    {
        [
            (Edge::Top, Tile::Regular(0, i)),
            (Edge::Bottom, Tile::Regular(self.board.size - 1, i)),
            (Edge::Left, Tile::Regular(i, 0)),
            (Edge::Right, Tile::Regular(i, self.board.size - 1)),
        ]
    }

    /// Whether the cell lies on the border line that edge slot `e` owns:
    /// row 0 for Top, row `size - 1` for Bottom, column 0 for Left, column
    /// `size - 1` for Right.
    pub open spec fn spec_on_edge_line(size: int, cell: int, e: int) -> bool {
        if e == 0 {
            cell / size == 0
        } else if e == 1 {
            cell / size == size - 1
        } else if e == 2 {
            cell % size == 0
        } else {
            cell % size == size - 1
        }
    }

    /// The colour that owns edge slot `e`.
    pub open spec fn spec_edge_owner(e: int) -> Colour {
        if e <= 1 {
            Colour::Black
        } else {
            Colour::White
        }
    }

    /// The potential a border cell is seeded with: zero for a stone of the
    /// edge's own colour, the small default otherwise.
    pub open spec fn spec_seed_value(cells: Seq<PieceState>, cell: int, e: int) -> i64 {
        if cells[cell] == PieceState::Colour(Self::spec_edge_owner(e)) {
            0
        } else {
            DEFAULT_POTENTIAL
        }
    }

    /// Seeds the edge cells: zero for a stone of the edge's own colour, the
    /// small default otherwise; every other potential is untouched.
    fn init_tile_potential(&mut self)
        requires
            old(self).wf(),
            old(self).pots_above(0),
            old(self).pots_below(INIT_POTENTIAL as int),
        ensures
            final(self).wf(),
            final(self).board == old(self).board,
            final(self).active == old(self).active,
            final(self).starting == old(self).starting,
            final(self).bridge == old(self).bridge,
            final(self).update == old(self).update,
            final(self).potential@.len() == old(self).potential@.len(),
            forall|k: int|
                0 <= k < final(self).potential@.len() ==> (#[trigger] final(self).potential@[k])
                    == if Self::spec_on_edge_line(old(self).board.size as int, k / 4, k % 4) {
                    Self::spec_seed_value(old(self).board@, k / 4, k % 4)
                } else {
                    old(self).potential@[k]
                },
            final(self).pots_above(0),
            final(self).pots_below(INIT_POTENTIAL as int),
    {
        let size = self.board.size as usize;
        let n = self.board.cells.len();
        assert(n <= 16129) by (nonlinear_arith)
            requires
                n == (self.board.size as int) * (self.board.size as int),
                0 <= self.board.size <= 127,
        ;
        let ghost sz = self.board.size as int;
        let mut cell: usize = 0;
        while cell < n
            invariant
                self.wf(),
                self.board == old(self).board,
                self.active == old(self).active,
                self.starting == old(self).starting,
                self.bridge == old(self).bridge,
                self.update == old(self).update,
                self.potential@.len() == old(self).potential@.len(),
                size == sz,
                sz == self.board.size as int,
                n == self.board@.len(),
                n <= 16129,
                cell <= n,
                forall|k: int|
                    0 <= k < self.potential@.len() ==> (#[trigger] self.potential@[k]) == if k < 4
                        * cell && Self::spec_on_edge_line(sz, k / 4, k % 4) {
                        Self::spec_seed_value(self.board@, k / 4, k % 4)
                    } else {
                        old(self).potential@[k]
                    },
                self.pots_above(0),
                self.pots_below(INIT_POTENTIAL as int),
            decreases n - cell,
        {
            proof {
                crate::state::grid_tile_in_range(cell as int, sz);
            }
            let row = cell / size;
            let col = cell % size;
            let mut e: usize = 0;
            while e < 4
                invariant
                    self.wf(),
                    self.board == old(self).board,
                    self.active == old(self).active,
                    self.starting == old(self).starting,
                    self.bridge == old(self).bridge,
                    self.update == old(self).update,
                    self.potential@.len() == old(self).potential@.len(),
                    size == sz,
                    sz == self.board.size as int,
                    n == self.board@.len(),
                    cell < n,
                    e <= 4,
                    row == (cell as int) / sz,
                    col == (cell as int) % sz,
                    row < size,
                    col < size,
                    n <= 16129,
                    forall|k: int|
                        0 <= k < self.potential@.len() ==> (#[trigger] self.potential@[k]) == if k
                            < 4 * cell + e && Self::spec_on_edge_line(sz, k / 4, k % 4) {
                            Self::spec_seed_value(self.board@, k / 4, k % 4)
                        } else {
                            old(self).potential@[k]
                        },
                    self.pots_above(0),
                    self.pots_below(INIT_POTENTIAL as int),
                decreases 4 - e,
            {
                let on_line = if e == 0 {
                    row == 0
                } else if e == 1 {
                    row + 1 == size
                } else if e == 2 {
                    col == 0
                } else {
                    col + 1 == size
                };
                proof {
                    vstd::arithmetic::div_mod::lemma_fundamental_div_mod_converse(
                        4 * (cell as int) + (e as int),
                        4,
                        cell as int,
                        e as int,
                    );
                }
                if on_line {
                    let owner = if e <= 1 {
                        Colour::Black
                    } else {
                        Colour::White
                    };
                    let own = match self.board.cells[cell] {
                        PieceState::Colour(c) => matches!(
                            (c, owner),
                            (Colour::Black, Colour::Black) | (Colour::White, Colour::White)
                        ),
                        PieceState::Empty => false,
                    };
                    let v: i64 = if own {
                        0
                    } else {
                        DEFAULT_POTENTIAL
                    };
                    self.potential.set(4 * cell + e, v);
                }
                e = e + 1;
            }
            cell = cell + 1;
        }
    }

    /// The stored potential of a cell for one edge.
    fn get_potential(&self, r: i8, c: i8, edge: Edge) -> (v: i64)
        requires
            self.wf(),
            Tile::Regular(r, c).spec_in_range(self.board.size as int),
        ensures
            v == self.potential@[4 * Tile::Regular(r, c).spec_index(self.board.size as int)
                + edge.spec_idx()],
    {
        proof {
            crate::board::index_in_grid(r as int, c as int, self.board.size as int);
        }
        let idx = (r as usize) * (self.board.size as usize) + (c as usize);
        self.potential[4 * idx + edge.idx()]
    }

    /// Marks the six on-board neighbours of a tile dirty; nothing else
    /// changes.
    fn update_neighbours(&mut self, tile: Tile)
        requires
            old(self).wf(),
            tile.spec_in_range(old(self).board.size as int),
        ensures
            final(self).wf(),
            final(self).board == old(self).board,
            final(self).active == old(self).active,
            final(self).starting == old(self).starting,
            final(self).potential == old(self).potential,
            final(self).bridge == old(self).bridge,
            final(self).update@.len() == old(self).update@.len(),
            forall|j: int|
                0 <= j < final(self).update@.len() ==> (#[trigger] final(self).update@[j])
                    == if spec_is_nbr_cell(old(self).board.size as int, tile, j) {
                    true
                } else {
                    old(self).update@[j]
                },
    {
        let nbrs = self.board.neighbours(tile);
        let ghost size = self.board.size as int;
        let mut d: usize = 0;
        while d < 6
            invariant
                self.wf(),
                self.board == old(self).board,
                self.active == old(self).active,
                self.starting == old(self).starting,
                self.potential == old(self).potential,
                self.bridge == old(self).bridge,
                self.update@.len() == old(self).update@.len(),
                tile.spec_in_range(size),
                size == self.board.size as int,
                d <= 6,
                nbrs@ =~= seq![
                    self.board.spec_neighbour(tile, 0, 1),
                    self.board.spec_neighbour(tile, 1, 0),
                    self.board.spec_neighbour(tile, 1, -1),
                    self.board.spec_neighbour(tile, 0, -1),
                    self.board.spec_neighbour(tile, -1, 0),
                    self.board.spec_neighbour(tile, -1, 1),
                ],
                forall|j: int|
                    0 <= j < self.update@.len() ==> (#[trigger] self.update@[j])
                        == if spec_is_nbr_upto(size, tile, j, d as int) {
                        true
                    } else {
                        old(self).update@[j]
                    },
            decreases 6 - d,
        {
            let ghost nt = crate::state::spec_nbr(tile, d as int);
            proof {
                assert(nbrs@[d as int] == self.board.spec_neighbour(
                    tile,
                    crate::state::spec_offset(d as int).0,
                    crate::state::spec_offset(d as int).1,
                ));
            }
            match nbrs[d] {
                Some((n, _)) => {
                    match n.to_index(self.board.size) {
                        Some(idx) => {
                            proof {
                                crate::board::index_in_grid(
                                    n->Regular_0 as int,
                                    n->Regular_1 as int,
                                    size,
                                );
                                assert(n == nt);
                            }
                            self.update.set(idx, true);
                        },
                        None => {},
                    }
                },
                None => {},
            }
            proof {
                assert forall|j: int| 0 <= j < self.update@.len() implies (
                #[trigger] self.update@[j]) == if spec_is_nbr_upto(size, tile, j, d + 1) {
                    true
                } else {
                    old(self).update@[j]
                } by {
                    nbr_upto_step(size, tile, j, d as int);
                };
            }
            d = d + 1;
        }
    }

    /// The potential a neighbour slot contributes for an edge, over the given
    /// potential vector.
    pub open spec fn spec_pot_val(self, pot: Seq<i64>, t: Option<(Tile, PieceState)>, edge: Edge) -> i64 {
        match t {
            Some((tl, st)) => if st == PieceState::Colour(edge.spec_colour().spec_opponent()) {
                MAX_VALUE
            } else if st is Empty {
                pot[4 * tl.spec_index(self.board.size as int) + edge.spec_idx()]
            } else {
                ((pot[4 * tl.spec_index(self.board.size as int) + edge.spec_idx()]
                    as int - MAX_VALUE as int) as i64)
            },
            None => MAX_VALUE,
        }
    }

    /// The six raw neighbour values of a cell for an edge.
    pub open spec fn spec_raws(self, pot: Seq<i64>, t: Tile, edge: Edge) -> Seq<i64> {
        Seq::new(
            6,
            |d: int| self.spec_pot_val(
                pot,
                self.board.spec_neighbour(t, crate::state::spec_offset(d).0, crate::state::spec_offset(d).1),
                edge,
            ),
        )
    }

    /// The block score of one relaxation step.
    pub open spec fn spec_step_block(self, pot: Seq<i64>, t: Tile, edge: Edge) -> int {
        let adj = spec_adjusted(self.spec_raws(pot, t, edge), 6);
        adj.1 + spec_opposite_blocks(adj.0, 6)
    }

    /// The bridge score one step stores before the block adjustments, and the
    /// adjusted minimum neighbour potential.
    pub open spec fn spec_step_bridge_min(self, pot: Seq<i64>, t: Tile, edge: Edge) -> (int, int) {
        let adj = spec_adjusted(self.spec_raws(pot, t, edge), 6);
        let restored = spec_restored(adj.0);
        spec_bridge_min(
            spec_weights(adj.0),
            restored,
            spec_min_prefix(restored, 6),
            edge.spec_colour() == self.active,
        )
    }

    /// A neighbour slot is either an ordinary potential at or above the
    /// floor, or a negative own-stone marker.
    pub open spec fn nb_ok(v: int, lo: int) -> bool {
        lo <= v || (v < 0 && lo - MAX_VALUE <= v)
    }

    /// Whether the cell is blocked for an edge: it holds a stone of the
    /// opposing colour, so the step skips it.
    pub open spec fn spec_step_blocked(self, t: Tile, edge: Edge) -> bool {
        self.board@[t.spec_index(self.board.size as int)] == PieceState::Colour(
            edge.spec_colour().spec_opponent(),
        )
    }

    /// The candidate potential of one step: the adjusted minimum, plus the
    /// placement cost for a cell not already of the edge's colour.
    pub open spec fn spec_step_candidate(self, pot: Seq<i64>, t: Tile, edge: Edge) -> int {
        let m = self.spec_step_bridge_min(pot, t, edge).1;
        if self.board@[t.spec_index(self.board.size as int)] == PieceState::Colour(
            edge.spec_colour(),
        ) {
            m
        } else {
            m + DIFF as int
        }
    }

    /// The bridge score one step leaves in the cell's slot: the raw score
    /// plus the block score inside the rim (a small penalty on the rim),
    /// halved in a corner, capped at the ceiling.
    pub open spec fn spec_step_bridge(self, pot: Seq<i64>, t: Tile, edge: Edge) -> int {
        let b0 = self.spec_step_bridge_min(pot, t, edge).0;
        let block = self.spec_step_block(pot, t, edge);
        let size = self.board.size as int;
        let r = t->Regular_0 as int;
        let c = t->Regular_1 as int;
        let inside = 0 < r && r < size - 1 && 0 < c && c < size - 1;
        let corner = (r == 0 || r == size - 1) && (c == 0 || c == size - 1);
        let b1 = if inside {
            b0 + block * (BRIDGE_SCALE as int)
        } else {
            b0 - 2 * (BRIDGE_SCALE as int)
        };
        let b2 = if corner {
            spec_half(b1)
        } else {
            b1
        };
        if b2 > 68 * (BRIDGE_SCALE as int) {
            68 * (BRIDGE_SCALE as int)
        } else {
            b2
        }
    }

    /// Whether one step accepts an update: the cell is not blocked and the
    /// candidate strictly improves the stored potential.
    pub open spec fn spec_step_accepts(self, pot: Seq<i64>, t: Tile, edge: Edge) -> bool {
        !self.spec_step_blocked(t, edge) && self.spec_step_candidate(pot, t, edge) < pot[4
            * t.spec_index(self.board.size as int) + edge.spec_idx()]
    }

    /// One relaxation step on an abstract evaluator state (potentials,
    /// bridge scores, dirty flags), together with whether it accepted.
    pub open spec fn spec_sweep_step(
        self,
        st: (Seq<i64>, Seq<i64>, Seq<bool>),
        c: int,
        edge: Edge,
    ) -> ((Seq<i64>, Seq<i64>, Seq<bool>), int) {
        let size = self.board.size as int;
        let t = crate::state::spec_grid_tile(c, size);
        let slot = 4 * c + edge.spec_idx();
        if self.spec_step_blocked(t, edge) {
            ((st.0, st.1.update(slot, 0i64), st.2.update(c, false)), 0)
        } else {
            let cand = self.spec_step_candidate(st.0, t, edge);
            let accepts = cand < st.0[slot];
            (
                (
                    if accepts {
                        st.0.update(slot, cand as i64)
                    } else {
                        st.0
                    },
                    st.1.update(slot, self.spec_step_bridge(st.0, t, edge) as i64),
                    Seq::new(
                        st.2.len(),
                        |j: int|
                            if accepts && spec_is_nbr_cell(size, t, j) {
                                true
                            } else if j == c {
                                false
                            } else {
                                st.2[j]
                            },
                    ),
                ),
                if accepts {
                    1int
                } else {
                    0int
                },
            )
        }
    }

    /// A forward sweep over the first `k` cells: every dirty cell takes one
    /// step, in row-major order.
    pub open spec fn spec_sweep_fwd(
        self,
        st: (Seq<i64>, Seq<i64>, Seq<bool>),
        edge: Edge,
        k: int,
    ) -> ((Seq<i64>, Seq<i64>, Seq<bool>), int)
        decreases k,
    {
        if k <= 0 {
            (st, 0)
        } else {
            let prev = self.spec_sweep_fwd(st, edge, k - 1);
            if prev.0.2[k - 1] {
                let s2 = self.spec_sweep_step(prev.0, k - 1, edge);
                (s2.0, prev.1 + s2.1)
            } else {
                prev
            }
        }
    }

    /// A backward sweep over the last `cnt` cells, from the high end down.
    pub open spec fn spec_sweep_bwd(
        self,
        st: (Seq<i64>, Seq<i64>, Seq<bool>),
        edge: Edge,
        cnt: int,
    ) -> ((Seq<i64>, Seq<i64>, Seq<bool>), int)
        decreases cnt,
    {
        if cnt <= 0 {
            (st, 0)
        } else {
            let prev = self.spec_sweep_bwd(st, edge, cnt - 1);
            let c = self.board@.len() - cnt;
            if prev.0.2[c] {
                let s2 = self.spec_sweep_step(prev.0, c, edge);
                (s2.0, prev.1 + s2.1)
            } else {
                prev
            }
        }
    }

    /// Rounds of a forward then a backward sweep, stopping after the first
    /// round that accepts nothing, or when the round budget runs out.
    pub open spec fn spec_relax_rounds(
        self,
        st: (Seq<i64>, Seq<i64>, Seq<bool>),
        edge: Edge,
        round: int,
    ) -> (Seq<i64>, Seq<i64>, Seq<bool>)
        decreases ROUNDS - round,
    {
        if round >= ROUNDS {
            st
        } else {
            let n = self.board@.len() as int;
            let f = self.spec_sweep_fwd(st, edge, n);
            let b = self.spec_sweep_bwd(f.0, edge, n);
            if f.1 + b.1 == 0 {
                b.0
            } else {
                self.spec_relax_rounds(b.0, edge, round + 1)
            }
        }
    }

    /// The sweep step reads only the board and the active colour of its
    /// carrier.
    proof fn sweep_step_transfer(
        a: Self,
        b: Self,
        st: (Seq<i64>, Seq<i64>, Seq<bool>),
        c: int,
        edge: Edge,
    )
        requires
            a.board == b.board,
            a.active == b.active,
        ensures
            a.spec_sweep_step(st, c, edge) == b.spec_sweep_step(st, c, edge),
    {
        let size = a.board.size as int;
        let t = crate::state::spec_grid_tile(c, size);
        Self::step_specs_transfer(a, b, st.0, t, edge);
        assert(a.spec_sweep_step(st, c, edge).0.0 =~= b.spec_sweep_step(st, c, edge).0.0);
        assert(a.spec_sweep_step(st, c, edge).0.1 =~= b.spec_sweep_step(st, c, edge).0.1);
        assert(a.spec_sweep_step(st, c, edge).0.2 =~= b.spec_sweep_step(st, c, edge).0.2);
    }

    /// So does the forward sweep.
    proof fn sweep_fwd_transfer(
        a: Self,
        b: Self,
        st: (Seq<i64>, Seq<i64>, Seq<bool>),
        edge: Edge,
        k: int,
    )
        requires
            a.board == b.board,
            a.active == b.active,
        ensures
            a.spec_sweep_fwd(st, edge, k) == b.spec_sweep_fwd(st, edge, k),
        decreases k,
    {
        if k > 0 {
            Self::sweep_fwd_transfer(a, b, st, edge, k - 1);
            let prev = a.spec_sweep_fwd(st, edge, k - 1);
            if prev.0.2[k - 1] {
                Self::sweep_step_transfer(a, b, prev.0, k - 1, edge);
            }
        }
    }

    /// So does the backward sweep.
    proof fn sweep_bwd_transfer(
        a: Self,
        b: Self,
        st: (Seq<i64>, Seq<i64>, Seq<bool>),
        edge: Edge,
        cnt: int,
    )
        requires
            a.board == b.board,
            a.active == b.active,
        ensures
            a.spec_sweep_bwd(st, edge, cnt) == b.spec_sweep_bwd(st, edge, cnt),
        decreases cnt,
    {
        if cnt > 0 {
            Self::sweep_bwd_transfer(a, b, st, edge, cnt - 1);
            let prev = a.spec_sweep_bwd(st, edge, cnt - 1);
            if prev.0.2[a.board@.len() - cnt] {
                Self::sweep_step_transfer(a, b, prev.0, a.board@.len() - cnt, edge);
            }
        }
    }

    /// And the round recurrence.
    proof fn relax_transfer(
        a: Self,
        b: Self,
        st: (Seq<i64>, Seq<i64>, Seq<bool>),
        edge: Edge,
        round: int,
    )
        requires
            a.board == b.board,
            a.active == b.active,
        ensures
            a.spec_relax_rounds(st, edge, round) == b.spec_relax_rounds(st, edge, round),
        decreases ROUNDS - round,
    {
        if round < ROUNDS {
            let n = a.board@.len() as int;
            Self::sweep_fwd_transfer(a, b, st, edge, n);
            let f = a.spec_sweep_fwd(st, edge, n);
            Self::sweep_bwd_transfer(a, b, f.0, edge, n);
            let bw = a.spec_sweep_bwd(f.0, edge, n);
            if f.1 + bw.1 != 0 {
                Self::relax_transfer(a, b, bw.0, edge, round + 1);
            }
        }
    }

    /// The potential a neighbour contributes: blocked or off-board cells
    /// contribute the ceiling; a stone of the edge's own colour marks its
    /// potential by subtracting the ceiling.
    fn pot_val(&self, t: Option<(Tile, PieceState)>, edge: Edge, Ghost(lo): Ghost<int>) -> (v: i64)
        requires
            self.wf(),
            self.pots_above(lo),
            self.pots_below(INIT_POTENTIAL as int),
            -1000000000000 <= lo <= INIT_POTENTIAL,
            t is Some ==> t->Some_0.0.spec_in_range(self.board.size as int) && t->Some_0.1
                == self.board@[t->Some_0.0.spec_index(self.board.size as int)],
        ensures
            v == self.spec_pot_val(self.potential@, t, edge),
            Self::nb_ok(v as int, lo),
            v <= MAX_VALUE,
    {
        match t {
            Some((tile, state)) => {
                let ec = edge.colour();
                let blocked = match state {
                    PieceState::Colour(c) => matches!(
                        (c, ec),
                        (Colour::Black, Colour::White) | (Colour::White, Colour::Black)
                    ),
                    PieceState::Empty => false,
                };
                if blocked {
                    return MAX_VALUE;
                }
                let (r, c) = match tile {
                    Tile::Regular(r, c) => (r, c),
                    _ => (0, 0),
                };
                let p = self.get_potential(r, c, edge);
                proof {
                    crate::board::index_in_grid(r as int, c as int, self.board.size as int);
                }
                match state {
                    PieceState::Empty => p,
                    PieceState::Colour(_) => p - MAX_VALUE,
                }
            },
            None => MAX_VALUE,
        }
    }

    /// Derives a cell's candidate potential and block score from its six
    /// neighbours, and stores the cell's bridge score for this edge.
    fn calculate_potential(&mut self, tile: Tile, edge: Edge, Ghost(lo): Ghost<int>) -> (r: (
        i64,
        i64,
    ))
        requires
            old(self).wf(),
            tile.spec_in_range(old(self).board.size as int),
            old(self).pots_above(lo),
            old(self).pots_below(INIT_POTENTIAL as int),
            -1000000000000 <= lo <= INIT_POTENTIAL,
        ensures
            final(self).wf(),
            final(self).board == old(self).board,
            final(self).active == old(self).active,
            final(self).starting == old(self).starting,
            final(self).potential == old(self).potential,
            final(self).update == old(self).update,
            final(self).bridge@.len() == old(self).bridge@.len(),
            ({
                let slot = 4 * tile.spec_index(old(self).board.size as int) + edge.spec_idx();
                &&& final(self).bridge@ == old(self).bridge@.update(
                    slot,
                    old(self).spec_step_bridge_min(old(self).potential@, tile, edge).0 as i64,
                )
                &&& 0 <= old(self).spec_step_bridge_min(old(self).potential@, tile, edge).0 <= 5000
                &&& 0 <= final(self).bridge@[slot] <= 5000
            }),
            r.0 as int == old(self).spec_step_block(old(self).potential@, tile, edge),
            r.1 as int == old(self).spec_step_bridge_min(old(self).potential@, tile, edge).1,
            0 <= r.0 <= 400,
            lo - STEP_DROP <= r.1 <= 40000,
    {
        let nb = self.board.neighbours(tile);
        let ghost raws = old(self).spec_raws(old(self).potential@, tile, edge);
        let mut nbv: Vec<i64> = Vec::new();
        let mut d: usize = 0;
        while d < 6
            invariant
                *self == *old(self),
                self.wf(),
                tile.spec_in_range(self.board.size as int),
                self.pots_above(lo),
                self.pots_below(INIT_POTENTIAL as int),
                -1000000000000 <= lo <= INIT_POTENTIAL,
                d <= 6,
                nbv@.len() == d as int,
                nb@.len() == 6,
                raws == self.spec_raws(self.potential@, tile, edge),
                nb@ =~= seq![
                    self.board.spec_neighbour(tile, 0, 1),
                    self.board.spec_neighbour(tile, 1, 0),
                    self.board.spec_neighbour(tile, 1, -1),
                    self.board.spec_neighbour(tile, 0, -1),
                    self.board.spec_neighbour(tile, -1, 0),
                    self.board.spec_neighbour(tile, -1, 1),
                ],
                forall|j: int|
                    0 <= j < 6 ==> ((#[trigger] nb@[j]) is Some ==> nb@[j]->Some_0.0.spec_in_range(
                        self.board.size as int,
                    ) && nb@[j]->Some_0.1 == self.board@[nb@[j]->Some_0.0.spec_index(
                        self.board.size as int,
                    )]),
                forall|j: int| 0 <= j < d ==> (#[trigger] nbv@[j]) == raws[j],
                forall|j: int| 0 <= j < d ==> Self::nb_ok((#[trigger] nbv@[j]) as int, lo),
                forall|j: int| 0 <= j < d ==> (#[trigger] nbv@[j]) <= MAX_VALUE,
            decreases 6 - d,
        {
            let v = self.pot_val(nb[d], edge, Ghost(lo));
            proof {
                assert(nb@[d as int] == self.board.spec_neighbour(
                    tile,
                    crate::state::spec_offset(d as int).0,
                    crate::state::spec_offset(d as int).1,
                ));
                assert(raws[d as int] == self.spec_pot_val(self.potential@, nb@[d as int], edge));
            }
            nbv.push(v);
            d = d + 1;
        }
        proof {
            assert(nbv@ =~= raws);
        }
        let mut block_score: i64 = 0;
        let mut i: usize = 0;
        while i < 6
            invariant
                raws.len() == 6,
                nbv@.len() == 6,
                i <= 6,
                0 <= block_score <= 32 * (i as int),
                (nbv@, block_score as int) == spec_adjusted(raws, i as int),
                forall|j: int| 0 <= j < 6 ==> Self::nb_ok((#[trigger] nbv@[j]) as int, lo),
                forall|j: int|
                    0 <= j < 6 ==> (#[trigger] nbv@[j]) <= MAX_VALUE + 128 * (i as int),
                -1000000000000 <= lo <= INIT_POTENTIAL,
            decreases 6 - i,
        {
            if nbv[i] >= MAX_VALUE && nbv[(i + 2) % 6] >= MAX_VALUE {
                if nbv[(i + 1) % 6] < 0 {
                    block_score = block_score + 32;
                } else {
                    let t = nbv[(i + 1) % 6];
                    nbv.set((i + 1) % 6, t + 128);
                }
            }
            proof {
                assert(spec_adjusted(raws, i + 1) == (nbv@, block_score as int));
            }
            i = i + 1;
        }
        let ghost adj = spec_adjusted(raws, 6);
        let ghost block1 = block_score as int;
        let mut i: usize = 0;
        while i < 6
            invariant
                nbv@.len() == 6,
                i <= 6,
                nbv@ == adj.0,
                block1 == adj.1,
                block_score as int == block1 + spec_opposite_blocks(adj.0, i as int),
                0 <= block_score <= 192 + 30 * (i as int),
                forall|j: int| 0 <= j < 6 ==> Self::nb_ok((#[trigger] nbv@[j]) as int, lo),
                forall|j: int| 0 <= j < 6 ==> (#[trigger] nbv@[j]) <= MAX_VALUE + 768,
                -1000000000000 <= lo <= INIT_POTENTIAL,
            decreases 6 - i,
        {
            if nbv[i] >= MAX_VALUE && nbv[(i + 3) % 6] >= MAX_VALUE {
                block_score = block_score + 30;
            }
            proof {
                assert(spec_opposite_blocks(adj.0, i + 1) == spec_opposite_blocks(adj.0, i as int)
                    + if adj.0[i as int] >= MAX_VALUE && adj.0[(i as int + 3) % 6] >= MAX_VALUE {
                    30int
                } else {
                    0int
                });
            }
            i = i + 1;
        }
        let mut weights: Vec<i64> = Vec::new();
        let mut min_potential: i64 = MAX_VALUE;
        let mut i: usize = 0;
        while i < 6
            invariant
                nbv@.len() == 6,
                adj.0.len() == 6,
                i <= 6,
                weights@.len() == i as int,
                lo <= min_potential <= MAX_VALUE,
                -1000000000000 <= lo <= INIT_POTENTIAL,
                min_potential == spec_min_prefix(spec_restored(adj.0), i as int),
                forall|j: int| 0 <= j < i ==> (#[trigger] nbv@[j]) == spec_restored(adj.0)[j],
                forall|j: int| 0 <= j < i ==> (#[trigger] weights@[j]) == spec_weights(adj.0)[j],
                forall|j: int| (i as int) <= j < 6 ==> (#[trigger] nbv@[j]) == adj.0[j],
                forall|j: int| 0 <= j < i ==> lo <= (#[trigger] nbv@[j]) <= MAX_VALUE + 768,
                forall|j: int|
                    (i as int) <= j < 6 ==> Self::nb_ok((#[trigger] nbv@[j]) as int, lo),
                forall|j: int| (i as int) <= j < 6 ==> (#[trigger] nbv@[j]) <= MAX_VALUE + 768,
                forall|j: int| 0 <= j < i ==> 1 <= (#[trigger] weights@[j]) <= 10,
            decreases 6 - i,
        {
            let v = nbv[i];
            if v < 0 {
                nbv.set(i, v + MAX_VALUE);
                weights.push(10);
            } else {
                weights.push(1);
            }
            let w = nbv[i];
            if min_potential > w {
                min_potential = w;
            }
            i = i + 1;
        }
        proof {
            assert(nbv@ =~= spec_restored(adj.0));
            assert(weights@ =~= spec_weights(adj.0));
        }
        let min_potential = self.score_bridge(edge, tile, &weights, &nbv, min_potential, Ghost(lo));
        (block_score, min_potential)
    }

    /// Weighs how many neighbours tie at the minimum to score bridge
    /// patterns, stores the bridge score, and adjusts the minimum.
    fn score_bridge(
        &mut self,
        edge: Edge,
        tile: Tile,
        weights: &Vec<i64>,
        nbv: &Vec<i64>,
        min_in: i64,
        Ghost(lo): Ghost<int>,
    ) -> (r: i64)
        requires
            old(self).wf(),
            tile.spec_in_range(old(self).board.size as int),
            weights@.len() == 6,
            nbv@.len() == 6,
            forall|j: int| 0 <= j < 6 ==> 1 <= (#[trigger] weights@[j]) <= 10,
            forall|j: int| 0 <= j < 6 ==> lo <= (#[trigger] nbv@[j]) <= MAX_VALUE + 768,
            lo <= min_in <= MAX_VALUE,
            -1000000000000 <= lo <= INIT_POTENTIAL,
        ensures
            final(self).wf(),
            final(self).board == old(self).board,
            final(self).active == old(self).active,
            final(self).starting == old(self).starting,
            final(self).potential == old(self).potential,
            final(self).update == old(self).update,
            final(self).bridge@.len() == old(self).bridge@.len(),
            ({
                let slot = 4 * tile.spec_index(old(self).board.size as int) + edge.spec_idx();
                let own = edge.spec_colour() == old(self).active;
                let bm = spec_bridge_min(weights@, nbv@, min_in, own);
                &&& final(self).bridge@ == old(self).bridge@.update(slot, bm.0 as i64)
                &&& r as int == bm.1
                &&& 0 <= bm.0 <= 5000
                &&& 0 <= final(self).bridge@[slot] <= 5000
            }),
            lo - STEP_DROP <= r <= 40000,
    {
        proof {
            crate::board::index_in_grid(
                tile->Regular_0 as int,
                tile->Regular_1 as int,
                self.board.size as int,
            );
        }
        let mut min_potential = min_in;
        let mut total_weight: i64 = 0;
        let mut i: usize = 0;
        while i < 6
            invariant
                weights@.len() == 6,
                nbv@.len() == 6,
                i <= 6,
                0 <= total_weight <= 10 * (i as int),
                min_potential == min_in,
                total_weight as int == spec_tie_weight(weights@, nbv@, min_in, i as int),
                forall|j: int| 0 <= j < 6 ==> 1 <= (#[trigger] weights@[j]) <= 10,
            decreases 6 - i,
        {
            if nbv[i] == min_potential {
                total_weight = total_weight + weights[i];
            }
            i = i + 1;
        }
        let own_edge = {
            let ec = edge.colour();
            matches!(
                (ec, self.active),
                (Colour::Black, Colour::Black) | (Colour::White, Colour::White)
            )
        };
        let edge_bridge_score: i64 = if own_edge {
            66 * BRIDGE_SCALE
        } else {
            52 * BRIDGE_SCALE
        };
        let mut bridge_score: i64 = total_weight * 8;
        if 2 <= total_weight && total_weight < 10 {
            bridge_score = edge_bridge_score + (total_weight - 2) * BRIDGE_SCALE;
            min_potential = min_potential - 32;
        }
        if total_weight < 2 {
            let mut closest_high_value: i64 = MAX_VALUE;
            let mut i: usize = 0;
            while i < 6
                invariant
                    nbv@.len() == 6,
                    i <= 6,
                    min_potential == min_in,
                    min_potential < closest_high_value <= MAX_VALUE || closest_high_value
                        == MAX_VALUE,
                    closest_high_value == spec_closest_high(nbv@, min_in, i as int),
                    forall|j: int| 0 <= j < 6 ==> lo <= (#[trigger] nbv@[j]) <= MAX_VALUE + 768,
                    lo <= min_potential <= MAX_VALUE,
                    -1000000000000 <= lo <= INIT_POTENTIAL,
                decreases 6 - i,
            {
                let val = nbv[i];
                if val > min_potential && closest_high_value > val {
                    closest_high_value = val;
                }
                i = i + 1;
            }
            if closest_high_value <= min_potential + 104 {
                bridge_score = edge_bridge_score - (closest_high_value - min_potential) * 10;
                min_potential = min_potential - 64;
            }
            min_potential = min_potential + closest_high_value;
            min_potential = if min_potential >= 0 {
                min_potential / 2
            } else {
                -((-min_potential) / 2)
            };
        }
        let idx = tile.to_index(self.board.size).unwrap();
        self.bridge.set(4 * idx + edge.idx(), bridge_score);
        min_potential
    }


    /// The step quantities read only the board, the given potentials and the
    /// active colour, so equal fields give equal values.
    proof fn step_specs_transfer(a: Self, b: Self, pot: Seq<i64>, t: Tile, edge: Edge)
        requires
            a.board == b.board,
            a.active == b.active,
        ensures
            a.spec_raws(pot, t, edge) == b.spec_raws(pot, t, edge),
            a.spec_step_block(pot, t, edge) == b.spec_step_block(pot, t, edge),
            a.spec_step_bridge_min(pot, t, edge) == b.spec_step_bridge_min(pot, t, edge),
            a.spec_step_blocked(t, edge) == b.spec_step_blocked(t, edge),
            a.spec_step_candidate(pot, t, edge) == b.spec_step_candidate(pot, t, edge),
            a.spec_step_bridge(pot, t, edge) == b.spec_step_bridge(pot, t, edge),
            a.spec_step_accepts(pot, t, edge) == b.spec_step_accepts(pot, t, edge),
    {
        assert(a.spec_raws(pot, t, edge) =~= b.spec_raws(pot, t, edge));
    }

    /// One relaxation step of a cell for one edge: clear the dirty flag,
    /// refresh the bridge score, skip a blocked cell, and accept the
    /// candidate potential exactly when it strictly improves the stored one,
    /// then mark the six neighbours dirty.
    fn set_pot(&mut self, tile: Tile, state: PieceState, edge: Edge, Ghost(lo): Ghost<int>) -> (set:
        i64)
        requires
            old(self).wf(),
            tile.spec_in_range(old(self).board.size as int),
            state == old(self).board@[tile.spec_index(old(self).board.size as int)],
            old(self).pots_above(lo),
            old(self).pots_below(INIT_POTENTIAL as int),
            -1000000000000 <= lo <= INIT_POTENTIAL,
        ensures
            final(self).wf(),
            final(self).board == old(self).board,
            final(self).active == old(self).active,
            final(self).starting == old(self).starting,
            final(self).potential@.len() == old(self).potential@.len(),
            final(self).pots_above(lo - STEP_DROP),
            final(self).pots_below(INIT_POTENTIAL as int),
            0 <= set <= 1,
            ({
                let size = old(self).board.size as int;
                let ci = tile.spec_index(size);
                let slot = 4 * ci + edge.spec_idx();
                &&& old(self).spec_step_blocked(tile, edge) ==> {
                    &&& set == 0
                    &&& final(self).potential == old(self).potential
                    &&& final(self).bridge@ == old(self).bridge@.update(slot, 0i64)
                    &&& final(self).update@ == old(self).update@.update(ci, false)
                }
                &&& !old(self).spec_step_blocked(tile, edge) ==> {
                    let cand = old(self).spec_step_candidate(old(self).potential@, tile, edge);
                    &&& lo - STEP_DROP <= cand <= 41000
                    &&& set == if old(self).spec_step_accepts(old(self).potential@, tile, edge) {
                        1int
                    } else {
                        0int
                    }
                    &&& final(self).potential@ == if old(self).spec_step_accepts(
                        old(self).potential@,
                        tile,
                        edge,
                    ) {
                        old(self).potential@.update(slot, cand as i64)
                    } else {
                        old(self).potential@
                    }
                    &&& final(self).bridge@ == old(self).bridge@.update(
                        slot,
                        old(self).spec_step_bridge(old(self).potential@, tile, edge) as i64,
                    )
                    &&& forall|j: int|
                        0 <= j < final(self).update@.len() ==> (#[trigger] final(self).update@[j])
                            == if old(self).spec_step_accepts(
                            old(self).potential@,
                            tile,
                            edge,
                        ) && spec_is_nbr_cell(
                            size,
                            tile,
                            j,
                        ) {
                            true
                        } else if j == ci {
                            false
                        } else {
                            old(self).update@[j]
                        }
                }
            }),
    {
        proof {
            crate::board::index_in_grid(
                tile->Regular_0 as int,
                tile->Regular_1 as int,
                self.board.size as int,
            );
        }
        let index = tile.to_index(self.board.size).unwrap();
        self.update.set(index, false);
        let eidx = edge.idx();
        self.bridge.set(4 * index + eidx, 0);
        let blocked = match state {
            PieceState::Colour(c) => {
                let ec = edge.colour();
                matches!(
                    (c, ec),
                    (Colour::Black, Colour::White) | (Colour::White, Colour::Black)
                )
            },
            PieceState::Empty => false,
        };
        if blocked {
            return 0;
        }
        let ghost pre = *self;
        let (block_score, min_potential) = self.calculate_potential(tile, edge, Ghost(lo));
        proof {
            Self::step_specs_transfer(*old(self), pre, old(self).potential@, tile, edge);
        }
        let bslot = 4 * index + eidx;
        let mut b = self.bridge[bslot];
        if self.is_inside_tile(tile) {
            b = b + block_score * BRIDGE_SCALE;
        } else {
            b = b - 2 * BRIDGE_SCALE;
        }
        if self.is_corner_tile(tile) {
            b = if b >= 0 {
                b / 2
            } else {
                -((-b) / 2)
            };
        }
        if b > 68 * BRIDGE_SCALE {
            b = 68 * BRIDGE_SCALE;
        }
        proof {
            assert(b as int == old(self).spec_step_bridge(old(self).potential@, tile, edge));
        }
        self.bridge.set(bslot, b);
        proof {
            assert(self.bridge@ =~= old(self).bridge@.update(
                4 * tile.spec_index(old(self).board.size as int) + edge.spec_idx(),
                old(self).spec_step_bridge(old(self).potential@, tile, edge) as i64,
            ));
        }
        let pslot = 4 * index + eidx;
        let cur = self.potential[pslot];
        let own = match state {
            PieceState::Colour(c) => {
                let ec = edge.colour();
                matches!(
                    (c, ec),
                    (Colour::Black, Colour::Black) | (Colour::White, Colour::White)
                )
            },
            PieceState::Empty => false,
        };
        let ghost ci = tile.spec_index(old(self).board.size as int);
        proof {
            nbr_not_self(old(self).board.size as int, tile);
        }
        if own {
            if min_potential < cur {
                self.potential.set(pslot, min_potential);
                self.update_neighbours(tile);
                1
            } else {
                0
            }
        } else {
            if min_potential + DIFF < cur {
                self.potential.set(pslot, min_potential + DIFF);
                self.update_neighbours(tile);
                1
            } else {
                0
            }
        }
    }

    /// Relaxes one edge's potentials to a fixed point: bounded rounds of a
    /// forward sweep and a backward sweep over the dirty cells, stopping
    /// early once a full round accepts no update.
    fn evaluate_side(&mut self, edge: Edge, Ghost(lo): Ghost<int>)
        requires
            old(self).wf(),
            old(self).pots_above(lo),
            old(self).pots_below(INIT_POTENTIAL as int),
            -100000000000 <= lo <= INIT_POTENTIAL,
        ensures
            final(self).wf(),
            final(self).board == old(self).board,
            final(self).active == old(self).active,
            final(self).starting == old(self).starting,
            final(self).potential@.len() == old(self).potential@.len(),
            final(self).bridge@.len() == old(self).bridge@.len(),
            final(self).update@.len() == old(self).update@.len(),
            final(self).pots_above(lo - 3_300_000_000),
            final(self).pots_below(INIT_POTENTIAL as int),
            // relaxation only lowers potentials, and touches only this edge's
            // slots
            forall|k2: int|
                0 <= k2 < final(self).potential@.len() ==> (#[trigger] final(self).potential@[k2])
                    <= old(self).potential@[k2],
            forall|k2: int|
                0 <= k2 < final(self).potential@.len() && k2 % 4 != edge.spec_idx() ==> (
                #[trigger] final(self).potential@[k2]) == old(self).potential@[k2],
            forall|k2: int|
                0 <= k2 < final(self).bridge@.len() && k2 % 4 != edge.spec_idx() ==> (
                #[trigger] final(self).bridge@[k2]) == old(self).bridge@[k2],
            // the final state is exactly the one the sweep recurrence
            // produces from the all-dirty entry state
            ({
                let out = old(self).spec_relax_rounds(
                    (
                        old(self).potential@,
                        old(self).bridge@,
                        Seq::new(old(self).update@.len(), |j: int| true),
                    ),
                    edge,
                    1,
                );
                &&& final(self).potential@ == out.0
                &&& final(self).bridge@ == out.1
                &&& final(self).update@ == out.2
            }),
    {
        let ghost entry_st = (
            old(self).potential@,
            old(self).bridge@,
            Seq::new(old(self).update@.len(), |j: int| true),
        );
        self.reset_update();
        proof {
            assert(self.update@ =~= entry_st.2);
        }
        let n = self.board.cells.len();
        let ghost nn = n as int;
        assert(nn <= 16129) by (nonlinear_arith)
            requires
                nn == (self.board.size as int) * (self.board.size as int),
                0 <= self.board.size <= 127,
        ;
        proof {
            assert((1int - 1) * 200 * nn == 0) by (nonlinear_arith);
        }
        let mut round: u32 = 1;
        let mut done = false;
        while round < ROUNDS && !done
            invariant
                self.wf(),
                self.board == old(self).board,
                self.active == old(self).active,
                self.starting == old(self).starting,
                self.potential@.len() == old(self).potential@.len(),
                self.pots_below(INIT_POTENTIAL as int),
                n == self.board@.len(),
                nn == n as int,
                nn <= 16129,
                1 <= round <= ROUNDS,
                -100000000000 <= lo <= INIT_POTENTIAL,
                self.pots_above(lo - (round - 1) * 200 * nn),
                (round - 1) * 200 * nn <= 3_300_000_000,
                forall|k2: int|
                    0 <= k2 < self.potential@.len() ==> (#[trigger] self.potential@[k2])
                        <= old(self).potential@[k2],
                forall|k2: int|
                    0 <= k2 < self.potential@.len() && k2 % 4 != edge.spec_idx() ==> (
                    #[trigger] self.potential@[k2]) == old(self).potential@[k2],
                forall|k2: int|
                    0 <= k2 < self.bridge@.len() && k2 % 4 != edge.spec_idx() ==> (
                    #[trigger] self.bridge@[k2]) == old(self).bridge@[k2],
                self.bridge@.len() == old(self).bridge@.len(),
                self.update@.len() == old(self).update@.len(),
                entry_st == (
                    old(self).potential@,
                    old(self).bridge@,
                    Seq::new(old(self).update@.len(), |j: int| true),
                ),
                old(self).spec_relax_rounds(entry_st, edge, 1) == if done {
                    (self.potential@, self.bridge@, self.update@)
                } else {
                    old(self).spec_relax_rounds(
                        (self.potential@, self.bridge@, self.update@),
                        edge,
                        round as int,
                    )
                },
            decreases ROUNDS - round,
        {
            let ghost base = lo - (round - 1) * 200 * nn;
            proof {
                assert((round as int - 1) * 200 * nn >= 0) by (nonlinear_arith)
                    requires
                        1 <= round,
                        0 <= nn,
                ;
            }
            let ghost round_st = (self.potential@, self.bridge@, self.update@);
            let mut set: i64 = 0;
            let mut k: usize = 0;
            while k < n
                invariant
                    self.wf(),
                    self.board == old(self).board,
                    self.active == old(self).active,
                    self.starting == old(self).starting,
                    self.potential@.len() == old(self).potential@.len(),
                    self.pots_below(INIT_POTENTIAL as int),
                    n == self.board@.len(),
                    nn == n as int,
                    nn <= 16129,
                    k <= n,
                    -3_300_000_000 - 100000000000 <= base <= lo <= INIT_POTENTIAL,
                    self.pots_above(base - 100 * (k as int)),
                    0 <= set <= k as int,
                    ((self.potential@, self.bridge@, self.update@), set as int) == old(
                        self,
                    ).spec_sweep_fwd(round_st, edge, k as int),
                forall|k2: int|
                    0 <= k2 < self.potential@.len() ==> (#[trigger] self.potential@[k2])
                        <= old(self).potential@[k2],
                forall|k2: int|
                    0 <= k2 < self.potential@.len() && k2 % 4 != edge.spec_idx() ==> (
                    #[trigger] self.potential@[k2]) == old(self).potential@[k2],
                forall|k2: int|
                    0 <= k2 < self.bridge@.len() && k2 % 4 != edge.spec_idx() ==> (
                    #[trigger] self.bridge@[k2]) == old(self).bridge@[k2],
                self.bridge@.len() == old(self).bridge@.len(),
                self.update@.len() == old(self).update@.len(),
                decreases n - k,
            {
                let dirty = self.update[k];
                if dirty {
                    let t = self.board.index_to_tile(k);
                    proof {
                        crate::state::grid_tile_in_range(k as int, self.board.size as int);
                    }
                    let st = self.board.cells[k];
                    proof {
                        vstd::arithmetic::div_mod::lemma_fundamental_div_mod_converse(
                            4 * (k as int) + edge.spec_idx(),
                            4,
                            k as int,
                            edge.spec_idx(),
                        );
                        assert(0 <= 4 * (k as int) + edge.spec_idx() < self.potential@.len());
                    }
                    let ghost pre = *self;
                    let added = self.set_pot(t, st, edge, Ghost(base - 100 * (k as int)));
                    proof {
                        Self::step_specs_transfer(*old(self), pre, pre.potential@, t, edge);
                        let prev = ((pre.potential@, pre.bridge@, pre.update@), set as int);
                        let s2 = old(self).spec_sweep_step(prev.0, k as int, edge);
                        assert(self.potential@ =~= s2.0.0);
                        assert(self.bridge@ =~= s2.0.1);
                        assert(self.update@ =~= s2.0.2);
                        assert(added as int == s2.1);
                        assert(old(self).spec_sweep_fwd(round_st, edge, k + 1) == (
                            (self.potential@, self.bridge@, self.update@),
                            set as int + added as int,
                        ));
                    }
                    set = set + added;
                } else {
                    proof {
                        assert(old(self).spec_sweep_fwd(round_st, edge, k + 1) == old(
                            self,
                        ).spec_sweep_fwd(round_st, edge, k as int));
                    }
                }
                k = k + 1;
            }
            let ghost mid = base - 100 * nn;
            let ghost fwd_res = old(self).spec_sweep_fwd(round_st, edge, nn);
            let mut k: usize = n;
            while k > 0
                invariant
                    self.wf(),
                    self.board == old(self).board,
                    self.active == old(self).active,
                    self.starting == old(self).starting,
                    self.potential@.len() == old(self).potential@.len(),
                    self.pots_below(INIT_POTENTIAL as int),
                    n == self.board@.len(),
                    nn == n as int,
                    nn <= 16129,
                    k <= n,
                    mid == base - 100 * nn,
                    -3_300_000_000 - 100000000000 <= base <= lo <= INIT_POTENTIAL,
                    self.pots_above(mid - 100 * (nn - k as int)),
                    0 <= set <= nn + (nn - k as int),
                    fwd_res == old(self).spec_sweep_fwd(round_st, edge, nn),
                    ({
                        let b = old(self).spec_sweep_bwd(fwd_res.0, edge, nn - k as int);
                        (self.potential@, self.bridge@, self.update@) == b.0 && set as int
                            == fwd_res.1 + b.1
                    }),
                forall|k2: int|
                    0 <= k2 < self.potential@.len() ==> (#[trigger] self.potential@[k2])
                        <= old(self).potential@[k2],
                forall|k2: int|
                    0 <= k2 < self.potential@.len() && k2 % 4 != edge.spec_idx() ==> (
                    #[trigger] self.potential@[k2]) == old(self).potential@[k2],
                forall|k2: int|
                    0 <= k2 < self.bridge@.len() && k2 % 4 != edge.spec_idx() ==> (
                    #[trigger] self.bridge@[k2]) == old(self).bridge@[k2],
                self.bridge@.len() == old(self).bridge@.len(),
                self.update@.len() == old(self).update@.len(),
                decreases k,
            {
                k = k - 1;
                let dirty = self.update[k];
                if dirty {
                    let t = self.board.index_to_tile(k);
                    proof {
                        crate::state::grid_tile_in_range(k as int, self.board.size as int);
                    }
                    let st = self.board.cells[k];
                    proof {
                        vstd::arithmetic::div_mod::lemma_fundamental_div_mod_converse(
                            4 * (k as int) + edge.spec_idx(),
                            4,
                            k as int,
                            edge.spec_idx(),
                        );
                        assert(0 <= 4 * (k as int) + edge.spec_idx() < self.potential@.len());
                    }
                    let ghost pre = *self;
                    let added = self.set_pot(t, st, edge, Ghost(mid - 100 * (nn - (k as int) - 1)));
                    proof {
                        Self::step_specs_transfer(*old(self), pre, pre.potential@, t, edge);
                        let prevb = old(self).spec_sweep_bwd(fwd_res.0, edge, nn - (k as int) - 1);
                        let s2 = old(self).spec_sweep_step(prevb.0, k as int, edge);
                        assert(self.potential@ =~= s2.0.0);
                        assert(self.bridge@ =~= s2.0.1);
                        assert(self.update@ =~= s2.0.2);
                        assert(added as int == s2.1);
                        assert(old(self).spec_sweep_bwd(fwd_res.0, edge, nn - k as int) == (
                            s2.0,
                            prevb.1 + s2.1,
                        ));
                    }
                    set = set + added;
                } else {
                    proof {
                        assert(old(self).spec_sweep_bwd(fwd_res.0, edge, nn - k as int) == old(
                            self,
                        ).spec_sweep_bwd(fwd_res.0, edge, nn - (k as int) - 1));
                    }
                }
            }
            proof {
                let b = old(self).spec_sweep_bwd(fwd_res.0, edge, nn);
                assert(old(self).spec_relax_rounds(round_st, edge, round as int) == if fwd_res.1
                    + b.1 == 0 {
                    b.0
                } else {
                    old(self).spec_relax_rounds(b.0, edge, round as int + 1)
                });
            }
            if set == 0 {
                done = true;
            }
            proof {
                assert((round as int) * 200 * nn == (round as int - 1) * 200 * nn + 200 * nn)
                    by (nonlinear_arith);
                assert((round as int) * 200 * nn <= 999 * 200 * 16129) by (nonlinear_arith)
                    requires
                        1 <= round < 1000,
                        0 <= nn <= 16129,
                ;
            }
            round = round + 1;
        }
        proof {
            if !done {
                assert(old(self).spec_relax_rounds(
                    (self.potential@, self.bridge@, self.update@),
                    edge,
                    round as int,
                ) == (self.potential@, self.bridge@, self.update@));
            }
        }
        proof {
            assert((round as int - 1) * 200 * nn >= 0) by (nonlinear_arith)
                requires
                    1 <= round,
                    0 <= nn,
            ;
        }
    }

    /// The seeded potentials: border cells take their edge seeds, everything
    /// else keeps its value.
    pub open spec fn spec_seeded(self) -> Seq<i64> {
        Seq::new(
            self.potential@.len(),
            |k: int|
                if Self::spec_on_edge_line(self.board.size as int, k / 4, k % 4) {
                    Self::spec_seed_value(self.board@, k / 4, k % 4)
                } else {
                    self.potential@[k]
                },
        )
    }

    /// The exact state evaluation produces: the edge cells are seeded, then
    /// each edge's potentials are relaxed by the sweep recurrence in the
    /// fixed order left, right, top, bottom, each from an all-dirty start.
    pub open spec fn spec_evaluated(self) -> (Seq<i64>, Seq<i64>, Seq<bool>) {
        let all = Seq::new(self.update@.len(), |j: int| true);
        let s1 = self.spec_relax_rounds((self.spec_seeded(), self.bridge@, all), Edge::Left, 1);
        let s2 = self.spec_relax_rounds((s1.0, s1.1, all), Edge::Right, 1);
        let s3 = self.spec_relax_rounds((s2.0, s2.1, all), Edge::Top, 1);
        self.spec_relax_rounds((s3.0, s3.1, all), Edge::Bottom, 1)
    }

    /// Runs the relaxation for all four edges after seeding the edge cells:
    /// the result is exactly the one the sweep recurrence produces, and no
    /// potential exceeds its seeded value.
    pub fn evaluate(&mut self)
        requires
            old(self).wf(),
            old(self).pots_above(0),
            old(self).pots_below(INIT_POTENTIAL as int),
        ensures
            final(self).wf(),
            final(self).board == old(self).board,
            final(self).active == old(self).active,
            final(self).starting == old(self).starting,
            final(self).potential@.len() == old(self).potential@.len(),
            final(self).pots_above(-14_000_000_000),
            final(self).pots_below(INIT_POTENTIAL as int),
            forall|k: int|
                0 <= k < final(self).potential@.len() ==> (#[trigger] final(self).potential@[k])
                    <= if Self::spec_on_edge_line(old(self).board.size as int, k / 4, k % 4) {
                    Self::spec_seed_value(old(self).board@, k / 4, k % 4)
                } else {
                    old(self).potential@[k]
                },
            final(self).potential@ == old(self).spec_evaluated().0,
            final(self).bridge@ == old(self).spec_evaluated().1,
            final(self).update@ == old(self).spec_evaluated().2,
    {
        self.init_tile_potential();
        proof {
            assert(self.potential@ =~= old(self).spec_seeded());
        }
        let ghost c1 = *self;
        self.evaluate_side(Edge::Left, Ghost(0int));
        proof {
            Self::relax_transfer(
                c1,
                *old(self),
                (c1.potential@, c1.bridge@, Seq::new(c1.update@.len(), |j: int| true)),
                Edge::Left,
                1,
            );
        }
        let ghost c2 = *self;
        self.evaluate_side(Edge::Right, Ghost(-3_300_000_000int));
        proof {
            Self::relax_transfer(
                c2,
                *old(self),
                (c2.potential@, c2.bridge@, Seq::new(c2.update@.len(), |j: int| true)),
                Edge::Right,
                1,
            );
        }
        let ghost c3 = *self;
        self.evaluate_side(Edge::Top, Ghost(-6_600_000_000int));
        proof {
            Self::relax_transfer(
                c3,
                *old(self),
                (c3.potential@, c3.bridge@, Seq::new(c3.update@.len(), |j: int| true)),
                Edge::Top,
                1,
            );
        }
        let ghost c4 = *self;
        self.evaluate_side(Edge::Bottom, Ghost(-9_900_000_000int));
        proof {
            Self::relax_transfer(
                c4,
                *old(self),
                (c4.potential@, c4.bridge@, Seq::new(c4.update@.len(), |j: int| true)),
                Edge::Bottom,
                1,
            );
        }
    }

    /// The aggregate offset of the stones from the board centre over the
    /// first `k` cells, along the rows or along the columns.
    pub open spec fn spec_quad_sum(cells: Seq<PieceState>, size: int, k: int, rows: bool) -> int
        decreases k,
    {
        if k <= 0 {
            0
        } else {
            Self::spec_quad_sum(cells, size, k - 1, rows) + if cells[k - 1] != PieceState::Empty {
                2 * (if rows {
                    (k - 1) / size
                } else {
                    (k - 1) % size
                }) + 1 - size
            } else {
                0
            }
        }
    }

    /// The sign of a number.
    pub open spec fn spec_sign(x: int) -> int {
        if x > 0 {
            1
        } else if x < 0 {
            -1
        } else {
            0
        }
    }

    /// Which quadrant the played stones lean towards, as two signs.
    fn get_quadrant(&self) -> (q: (i8, i8))
        requires
            self.wf(),
        ensures
            q.0 == Self::spec_sign(
                Self::spec_quad_sum(
                    self.board@,
                    self.board.size as int,
                    self.board@.len() as int,
                    true,
                ),
            ),
            q.1 == Self::spec_sign(
                Self::spec_quad_sum(
                    self.board@,
                    self.board.size as int,
                    self.board@.len() as int,
                    false,
                ),
            ),
            -1 <= q.0 <= 1,
            -1 <= q.1 <= 1,
    {
        let size = self.board.size as usize;
        let n = self.board.cells.len();
        assert(n <= 16129) by (nonlinear_arith)
            requires
                n == (self.board.size as int) * (self.board.size as int),
                0 <= self.board.size <= 127,
        ;
        let mut iq: i64 = 0;
        let mut jq: i64 = 0;
        let mut k: usize = 0;
        while k < n
            invariant
                self.wf(),
                n == self.board@.len(),
                size == self.board.size as int,
                k <= n,
                -255 * (k as int) <= iq <= 255 * (k as int),
                -255 * (k as int) <= jq <= 255 * (k as int),
                iq == Self::spec_quad_sum(self.board@, size as int, k as int, true),
                jq == Self::spec_quad_sum(self.board@, size as int, k as int, false),
                n <= 16129,
            decreases n - k,
        {
            let occupied = match self.board.cells[k] {
                PieceState::Colour(_) => true,
                PieceState::Empty => false,
            };
            if occupied {
                proof {
                    crate::state::grid_tile_in_range(k as int, self.board.size as int);
                }
                let i = (k / size) as i64;
                let j = (k % size) as i64;
                iq = iq + 2 * i + 1 - (self.board.size as i64);
                jq = jq + 2 * j + 1 - (self.board.size as i64);
            }
            proof {
                assert(Self::spec_quad_sum(self.board@, size as int, k + 1, true)
                    == Self::spec_quad_sum(self.board@, size as int, k as int, true) + if self.board@[k as int]
                    != PieceState::Empty {
                    2 * ((k as int) / (size as int)) + 1 - (size as int)
                } else {
                    0
                });
                assert(Self::spec_quad_sum(self.board@, size as int, k + 1, false)
                    == Self::spec_quad_sum(self.board@, size as int, k as int, false) + if self.board@[k as int]
                    != PieceState::Empty {
                    2 * ((k as int) % (size as int)) + 1 - (size as int)
                } else {
                    0
                });
            }
            k = k + 1;
        }
        let qi: i8 = if iq > 0 {
            1
        } else if iq < 0 {
            -1
        } else {
            0
        };
        let qj: i8 = if jq > 0 {
            1
        } else if jq < 0 {
            -1
        } else {
            0
        };
        (qi, qj)
    }


    /// The common denominator of every score term for a move count.
    pub open spec fn spec_denominator(mc: int) -> int {
        40 * (if mc > 0 {
            mc * mc
        } else {
            1
        }) * (mc + 1)
    }

    /// Whether cell `b` is the first empty cell of minimal score, for the
    /// given jitters and quadrant signs.
    pub open spec fn spec_is_best_cell(
        self,
        jit: Seq<int>,
        mc: int,
        qi: int,
        qj: int,
        b: int,
    ) -> bool {
        forall|k: int|
            0 <= k < self.board@.len() && self.board@[k] == PieceState::Empty ==> (
            #[trigger] self.spec_cell_score(k, jit[k], mc, qi, qj)) >= self.spec_cell_score(
                b,
                jit[b],
                mc,
                qi,
                qj,
            ) && (k < b ==> self.spec_cell_score(k, jit[k], mc, qi, qj) > self.spec_cell_score(
                b,
                jit[b],
                mc,
                qi,
                qj,
            ))
    }

    /// The composite score of the empty cell at row-major index `k`, given
    /// the jitter drawn for it and the quadrant signs: centre distance scaled
    /// by the decaying factor, the quadrant bias, the bridge scores
    /// (subtracted), the potential sums towards both edge pairs, and the
    /// bonus when one pair is nearly connected.  All terms share the
    /// denominator `40 * max(mc, 1)^2 * (mc + 1)`.
    pub open spec fn spec_cell_score(self, k: int, jitter: int, mc: int, qi: int, qj: int) -> int {
        let size = self.board.size as int;
        let half = size / 2;
        let i = k / size;
        let j = k % size;
        let dist = (if i >= half {
            i - half
        } else {
            half - i
        }) + (if j >= half {
            j - half
        } else {
            half - j
        });
        let factor = if self.starting == Colour::Black {
            BLACK_FACTOR as int
        } else {
            WHITE_FACTOR as int
        };
        let m2 = if mc > 0 {
            mc * mc
        } else {
            1
        };
        let d = 40 * m2 * (mc + 1);
        let sb = self.bridge@[4 * k] + self.bridge@[4 * k + 1] + self.bridge@[4 * k + 2]
            + self.bridge@[4 * k + 3];
        let pp0 = self.potential@[4 * k] + self.potential@[4 * k + 1];
        let pp1 = self.potential@[4 * k + 2] + self.potential@[4 * k + 3];
        (if mc > 0 {
            dist * factor * 40 * (mc + 1)
        } else {
            0
        }) + jitter + (MOVE_MUL as int) * (qi * (i - half) + qj * (j - half)) * 40 * m2 - sb * m2
            * (mc + 1) + (pp0 + pp1) * d + (if pp0 <= PP_THRESHOLD || pp1 <= PP_THRESHOLD {
            -(MMP_DEDUCTION as int) * d
        } else {
            0
        })
    }

    /// Computes the cell score exactly.
    #[verifier::rlimit(30)]
    #[verifier::spinoff_prover]
    fn cell_score(&self, k: usize, jitter: u64, move_count: u16, qi: i8, qj: i8) -> (v: i128)
        requires
            self.wf(),
            self.pots_above(-100_000_000_000),
            self.pots_below(INIT_POTENTIAL as int),
            k < self.board@.len(),
            -1 <= qi <= 1,
            -1 <= qj <= 1,
        ensures
            v == self.spec_cell_score(
                k as int,
                jitter as int,
                move_count as int,
                qi as int,
                qj as int,
            ),
    {
        let size = self.board.size as usize;
        assert(self.board@.len() <= 16129) by (nonlinear_arith)
            requires
                self.board@.len() == (self.board.size as int) * (self.board.size as int),
                0 <= self.board.size <= 127,
        ;
        proof {
            crate::state::grid_tile_in_range(k as int, self.board.size as int);
        }
        let m: u64 = move_count as u64;
        assert(m >= 1 ==> 1 <= m * m <= 0xFFFF * 0xFFFF) by (nonlinear_arith)
            requires
                0 <= m <= 0xFFFF,
        ;
        let m2: u64 = if m > 0 {
            m * m
        } else {
            1
        };
        let half = (self.board.size / 2) as i64;
        let i = (k / size) as i64;
        let j = (k % size) as i64;
        let dist = {
            let di = if i >= half {
                i - half
            } else {
                half - i
            };
            let dj = if j >= half {
                j - half
            } else {
                half - j
            };
            di + dj
        };
        let factor: i64 = match self.starting {
            Colour::Black => BLACK_FACTOR,
            Colour::White => WHITE_FACTOR,
        };
        let mut mmp: i128 = 0;
        if m > 0 {
            let t1 = mul_i128(dist as i128, factor as i128, Ghost(512int), Ghost(140int));
            mmp = mul_i128(t1 * 40, (m as i128) + 1, Ghost(2867200int), Ghost(65536int));
        }
        mmp = mmp + (jitter as i128);
        let qa = mul_i128(qi as i128, (i - half) as i128, Ghost(1int), Ghost(189int));
        let qb = mul_i128(qj as i128, (j - half) as i128, Ghost(1int), Ghost(189int));
        let q = qa + qb;
        let tq = mul_i128(q * 320, m2 as i128, Ghost(120960int), Ghost(0x1_0000_0000int));
        mmp = mmp + tq;
        let mut e: usize = 0;
        let mut sb: i128 = 0;
        while e < 4
            invariant
                self.wf(),
                k < self.board@.len(),
                self.board@.len() <= 16129,
                e <= 4,
                -(e as i128) * 0x8000_0000_0000_0000 <= sb <= (e as i128) * 0x8000_0000_0000_0000,
                sb == sum_bridge(*self, k as int, e as int),
            decreases 4 - e,
        {
            sb = sb + (self.bridge[4 * k + e] as i128);
            e = e + 1;
        }
        proof {
            let ki = k as int;
            assert(sum_bridge(*self, ki, 0) == 0);
            assert(sum_bridge(*self, ki, 1) == sum_bridge(*self, ki, 0) + self.bridge@[4 * ki]);
            assert(sum_bridge(*self, ki, 2) == sum_bridge(*self, ki, 1) + self.bridge@[4 * ki
                + 1]);
            assert(sum_bridge(*self, ki, 3) == sum_bridge(*self, ki, 2) + self.bridge@[4 * ki
                + 2]);
            assert(sum_bridge(*self, ki, 4) == sum_bridge(*self, ki, 3) + self.bridge@[4 * ki
                + 3]);
        }
        let tb1 = mul_i128(sb, m2 as i128, Ghost(0x2_0000_0000_0000_0000int), Ghost(0x1_0000_0000int));
        let tb = mul_i128(
            tb1,
            (m as i128) + 1,
            Ghost(0x2_0000_0000_0000_0000_0000_0000int),
            Ghost(65536int),
        );
        mmp = mmp - tb;
        let pp0 = (self.potential[4 * k] as i128) + (self.potential[4 * k + 1] as i128);
        let pp1 = (self.potential[4 * k + 2] as i128) + (self.potential[4 * k + 3] as i128);
        assert(40 * m2 * (m + 1) <= 40 * 0x1_0000_0000 * 0x1_0001) by (nonlinear_arith)
            requires
                1 <= m2 <= 0x1_0000_0000,
                0 <= m <= 0xFFFF,
        ;
        let d_u64: u64 = 40 * m2 * (m + 1);
        let tp = mul_i128(
            pp0 + pp1,
            d_u64 as i128,
            Ghost(400_000_000_000int),
            Ghost(20_000_000_000_000_000int),
        );
        mmp = mmp + tp;
        if pp0 <= (PP_THRESHOLD as i128) || pp1 <= (PP_THRESHOLD as i128) {
            mmp = mmp - 400 * (d_u64 as i128);
        }
        mmp
    }

    /// Scores every empty cell and picks the one with the least score.  The
    /// result is a fresh empty cell; moreover, for some drawn jitters and
    /// quadrant signs, it is the first cell whose score is minimal.
    pub fn get_best_move(&self, move_count: u16, rng: &mut Rng) -> (mv: Tile)
        requires
            self.wf(),
            self.pots_above(-100_000_000_000),
            self.pots_below(INIT_POTENTIAL as int),
            exists|k: int|
                0 <= k < self.board@.len() && (#[trigger] self.board@[k]) == PieceState::Empty,
        ensures
            mv.spec_in_range(self.board.size as int),
            self.board@[mv.spec_index(self.board.size as int)] == PieceState::Empty,
            exists|jit: Seq<int>|
                {
                    &&& jit.len() == self.board@.len()
                    &&& forall|k: int|
                        0 <= k < jit.len() ==> 0 <= (#[trigger] jit[k]) < Self::spec_denominator(
                            move_count as int,
                        )
                    &&& #[trigger] self.spec_is_best_cell(
                        jit,
                        move_count as int,
                        Self::spec_sign(
                            Self::spec_quad_sum(
                                self.board@,
                                self.board.size as int,
                                self.board@.len() as int,
                                true,
                            ),
                        ),
                        Self::spec_sign(
                            Self::spec_quad_sum(
                                self.board@,
                                self.board.size as int,
                                self.board@.len() as int,
                                false,
                            ),
                        ),
                        mv.spec_index(self.board.size as int),
                    )
                },
    {
        let size = self.board.size as usize;
        let n = self.board.cells.len();
        assert(n <= 16129) by (nonlinear_arith)
            requires
                n == (self.board.size as int) * (self.board.size as int),
                0 <= self.board.size <= 127,
        ;
        let (qi, qj) = self.get_quadrant();
        let m: u64 = move_count as u64;
        assert(m >= 1 ==> 1 <= m * m <= 0xFFFF * 0xFFFF) by (nonlinear_arith)
            requires
                0 <= m <= 0xFFFF,
        ;
        let m2: u64 = if m > 0 {
            m * m
        } else {
            1
        };
        assert(40 * m2 * (m + 1) <= 40 * 0x1_0000_0000 * 0x1_0001 && 40 * m2 * (m + 1) >= 40)
            by (nonlinear_arith)
            requires
                1 <= m2 <= 0x1_0000_0000,
                0 <= m <= 0xFFFF,
        ;
        // the common denominator of every score term
        let d_u64: u64 = 40 * m2 * (m + 1);
        let mut best: Option<Tile> = None;
        let mut best_score: i128 = 0;
        let ghost mut jits: Seq<int> = Seq::empty();
        let ghost mut best_k: int = 0;
        let mut k: usize = 0;
        while k < n
            invariant
                self.wf(),
                self.pots_above(-100_000_000_000),
                self.pots_below(INIT_POTENTIAL as int),
                n == self.board@.len(),
                size == self.board.size as int,
                n <= 16129,
                k <= n,
                d_u64 >= 40,
                d_u64 == Self::spec_denominator(move_count as int),
                forall|j: int| 0 <= j < jits.len() ==> 0 <= (#[trigger] jits[j]) < d_u64,
                -1 <= qi <= 1,
                -1 <= qj <= 1,
                qi as int == Self::spec_sign(
                    Self::spec_quad_sum(self.board@, size as int, n as int, true),
                ),
                qj as int == Self::spec_sign(
                    Self::spec_quad_sum(self.board@, size as int, n as int, false),
                ),
                jits.len() == k as int,
                best is None ==> forall|j: int|
                    0 <= j < k ==> (#[trigger] self.board@[j]) != PieceState::Empty,
                best is Some ==> {
                    &&& 0 <= best_k < k as int
                    &&& self.board@[best_k] == PieceState::Empty
                    &&& (best->Some_0).spec_in_range(self.board.size as int)
                    &&& (best->Some_0).spec_index(self.board.size as int) == best_k
                    &&& best_score == self.spec_cell_score(
                        best_k,
                        jits[best_k],
                        move_count as int,
                        qi as int,
                        qj as int,
                    )
                    &&& forall|j: int|
                        0 <= j < k && self.board@[j] == PieceState::Empty ==> (
                        #[trigger] self.spec_cell_score(
                            j,
                            jits[j],
                            move_count as int,
                            qi as int,
                            qj as int,
                        )) >= best_score && (j < best_k ==> self.spec_cell_score(
                            j,
                            jits[j],
                            move_count as int,
                            qi as int,
                            qj as int,
                        ) > best_score)
                },
            decreases n - k,
        {
            let empty = match self.board.cells[k] {
                PieceState::Empty => true,
                PieceState::Colour(_) => false,
            };
            if empty {
                proof {
                    crate::state::grid_tile_in_range(k as int, self.board.size as int);
                }
                let jitter = rng.below(d_u64);
                let mmp = self.cell_score(k, jitter, move_count, qi, qj);
                proof {
                    jits = jits.push(jitter as int);
                }
                let better = match best {
                    None => true,
                    Some(_) => mmp < best_score,
                };
                if better {
                    best = Some(Tile::Regular((k / size) as i8, (k % size) as i8));
                    best_score = mmp;
                    proof {
                        best_k = k as int;
                    }
                }
            } else {
                proof {
                    jits = jits.push(0);
                }
            }
            k = k + 1;
        }
        match best {
            Some(t) => {
                proof {
                    let b = t.spec_index(self.board.size as int);
                    assert(self.spec_is_best_cell(jits, move_count as int, qi as int, qj as int, b));
                }
                t
            },
            None => {
                proof {
                    assert(false);
                }
                Tile::Invalid
            },
        }
    }
}

} // verus!
