//! Stateless move computation: every input, including the board and an
//! explicit seed, is passed in, so one call computes one move with no state
//! kept between calls.

use vstd::prelude::*;

use crate::board::{spec_compressed, spec_from_compressed, Board};
use crate::eval::PotentialEvaluator;
use crate::opening;
use crate::rng::Rng;
use crate::tile::{Colour, PieceState, Tile};

verus! {

/// The packed result that reports a pie-rule swap.
pub const SWAP_SENTINEL: u32 = 0xffff0000;

/// The colour a boolean flag selects.
pub open spec fn spec_colour_of(white: bool) -> Colour {
    if white {
        Colour::White
    } else {
        Colour::Black
    }
}

/// The colour a boolean flag selects.
fn colour_of(white: bool) -> (c: Colour)
    ensures
        c == spec_colour_of(white),
{
    if white {
        Colour::White
    } else {
        Colour::Black
    }
}

/// The cells of an empty board.
pub open spec fn spec_empty_cells(size: int) -> Seq<PieceState> {
    Seq::new((size * size) as nat, |i: int| PieceState::Empty)
}

/// The compressed serialization of a blank board.
pub fn get_board(size: i8) -> (r: String)
    requires
        0 <= size <= 127,
    ensures
        r@ == spec_compressed(spec_empty_cells(size as int), size as int),
{
    let b = Board::new(size);
    let s = b.get_compressed();
    proof {
        assert(b@ =~= spec_empty_cells(size as int));
    }
    s
}

/// Plays the bot's first move on a blank board and returns the compressed
/// result: a blank board with exactly one near-corner stone of the bot's
/// colour.
pub fn get_first_move(bot_is_white: bool, size: i8, seed: u64) -> (r: String)
    requires
        4 <= size <= 127,
    ensures
        exists|k: int|
            0 <= k < (size as int) * (size as int) && r@ == spec_compressed(
                #[trigger] spec_empty_cells(size as int).update(
                    k,
                    PieceState::Colour(spec_colour_of(bot_is_white)),
                ),
                size as int,
            ),
{
    let mut rng = Rng::new_seeded(seed);
    let mut board = Board::new(size);
    let (i, j) = opening::first_move(size, &mut rng);
    let colour = colour_of(bot_is_white);
    let _res = board.set_tile(Tile::Regular(i, j), PieceState::Colour(colour));
    let s = board.get_compressed();
    proof {
        crate::board::index_in_grid(i as int, j as int, size as int);
        let k = (i as int) * (size as int) + (j as int);
        assert(board@ =~= spec_empty_cells(size as int).update(k, PieceState::Colour(colour)));
        assert(s@ == spec_compressed(
            spec_empty_cells(size as int).update(
                k,
                PieceState::Colour(spec_colour_of(bot_is_white)),
            ),
            size as int,
        ));
    }
    s
}

/// Whether a cell sequence holds an empty cell.
pub open spec fn spec_has_empty(cells: Seq<PieceState>) -> bool {
    exists|k: int| 0 <= k < cells.len() && (#[trigger] cells[k]) == PieceState::Empty
}

/// Computes one bot move from a compressed board, the player's last move
/// packed as `row << 8 | col`, the move count and a seed.  The result packs
/// the chosen cell the same way; the sentinel reports a swap.  It is `None`
/// exactly when the board string does not parse, or when the board is full
/// and no swap applies.
pub fn pincerhex_move(
    bot_is_white: bool,
    bot_started_white: bool,
    player_move: u16,
    board: &str,
    move_count: u16,
    seed: u64,
) -> (r: Option<u32>)
    ensures
        ({
            let dec = spec_from_compressed(board@);
            &&& dec is None ==> r is None
            &&& r is Some ==> dec is Some
            &&& (dec is Some && spec_has_empty(dec->Some_0.1)) ==> r is Some
            &&& (r is Some && r->Some_0 != SWAP_SENTINEL) ==> {
                let size = dec->Some_0.0;
                let cells = dec->Some_0.1;
                let rr = r->Some_0 as int / 256;
                let cc = r->Some_0 as int % 256;
                &&& 0 <= rr < size
                &&& 0 <= cc < size
                &&& cells[rr * size + cc] == PieceState::Empty
            }
            &&& r == Some(SWAP_SENTINEL) ==> move_count == 1
            // the responder's judgment away from the zone boundary is
            // deterministic
            &&& ({
                let d = ((player_move >> 8) as i8) + ((player_move & 0xff) as i8);
                let size = dec->Some_0.0;
                &&& (dec is Some && move_count == 1 && 2 < d < 2 * size - 4) ==> r == Some(
                    SWAP_SENTINEL,
                )
                &&& (dec is Some && spec_has_empty(dec->Some_0.1) && (move_count != 1 || d < 2
                    || d > 2 * size - 4)) ==> r is Some && r != Some(SWAP_SENTINEL)
            })
        }),
{
    let mut rng = Rng::new_seeded(seed);
    let b = match Board::from_compressed(board) {
        None => {
            return None;
        },
        Some(b) => b,
    };
    let colour = if bot_is_white {
        Colour::White
    } else {
        Colour::Black
    };
    let starting = if bot_started_white {
        Colour::White
    } else {
        Colour::Black
    };
    let pr = (player_move >> 8) as i8;
    let pc = (player_move & 0xff) as i8;
    if move_count == 1 && opening::should_swap(pr, pc, b.size, &mut rng) {
        return Some(SWAP_SENTINEL);
    }
    let mut has_empty = false;
    let mut k: usize = 0;
    let n = b.cells.len();
    while k < n
        invariant
            b.wf(),
            n == b@.len(),
            k <= n,
            has_empty <==> exists|j: int|
                0 <= j < k && (#[trigger] b@[j]) == PieceState::Empty,
        decreases n - k,
    {
        let e = match b.cells[k] {
            PieceState::Empty => true,
            PieceState::Colour(_) => false,
        };
        if e {
            has_empty = true;
        }
        k = k + 1;
    }
    if !has_empty {
        return None;
    }
    let mut ev = PotentialEvaluator::new(&b, colour, starting);
    ev.evaluate();
    let mv = ev.get_best_move(move_count, &mut rng);
    let (mr, mc) = match mv {
        Tile::Regular(mr, mc) => (mr, mc),
        _ => (0, 0),
    };
    let packed = ((mr as u32) << 8) | (mc as u32);
    proof {
        assert(packed == (mr as u32) * 256 + (mc as u32)) by (bit_vector)
            requires
                packed == ((mr as u32) << 8) | (mc as u32),
                (mr as u32) < 128,
                (mc as u32) < 128,
        ;
        vstd::arithmetic::div_mod::lemma_fundamental_div_mod_converse(
            (mr as int) * 256 + (mc as int),
            256,
            mr as int,
            mc as int,
        );
    }
    Some(packed)
}

} // verus!
