//! The playing agent: owns the game state, handles the pie-rule opening, and
//! asks the evaluator for regular moves.

use vstd::prelude::*;

use crate::eval::PotentialEvaluator;
use crate::opening;
use crate::rng::Rng;
use crate::state;
use crate::state::{State, Winner, DEFAULT_SIZE};
use crate::tile;
use crate::tile::{Colour, Move, PieceState, SwapRole, Tile};

verus! {

/// Whether to play with the pie rule.
pub const SWAP_RULE: bool = true;

/// The first stone on the board sits strictly inside the middle band, so the
/// responder is owed a swap.
pub open spec fn spec_swap_taken(cells: Seq<PieceState>, size: int) -> bool {
    let fs = crate::state::spec_first_stone(cells, 0);
    fs < cells.len() && 2 < fs / size + fs % size < 2 * size - 4
}

/// The board is blank or its first stone sits in the near-corner decline
/// zone, so the responder is owed a regular move.
pub open spec fn spec_swap_declined(cells: Seq<PieceState>, size: int) -> bool {
    let fs = crate::state::spec_first_stone(cells, 0);
    fs == cells.len() || fs / size + fs % size < 2 || fs / size + fs % size > 2 * size - 4
}

/// Error of a bot command.
#[derive(Debug, Clone, Copy, PartialEq, Eq, Structural)]
pub enum BotError {
    State(state::Error),
    EmptyMove,
    InvalidMove(tile::Error),
}

impl From<state::Error> for BotError {
    fn from(v: state::Error) -> (r: BotError) {
        BotError::State(v)
    }
}

impl vstd::std_specs::convert::FromSpecImpl<state::Error> for BotError {
    open spec fn obeys_from_spec() -> bool {
        true
    }

    open spec fn from_spec(v: state::Error) -> BotError {
        BotError::State(v)
    }
}

/// The agent.
pub struct HexBot {
    pub colour: Colour,
    pub starting: Colour,
    pub state: State,
    pub size: i8,
    pub swap_state: Option<SwapRole>,
    pub move_count: u16,
    pub rng: Rng,
}

impl HexBot {
    pub open spec fn wf(self) -> bool {
        &&& self.state.wf()
        &&& self.size == self.state.size
    }

    /// A fresh bot of the given colour on the default board.
    pub fn new(c: Colour) -> (bot: HexBot)
        ensures
            bot.wf(),
            bot.colour == c,
            bot.starting == c,
            bot.size == DEFAULT_SIZE,
            bot.move_count == 0,
            bot.swap_state == Some(SwapRole::from_spec_for(c)),
            forall|k: int|
                0 <= k < bot.state.board@.len() ==> bot.state.board@[k] == PieceState::Empty,
            forall|x: Tile, y: Tile| #[trigger] bot.state.groups.black.same_set(x, y) <==> x == y,
            forall|x: Tile, y: Tile| #[trigger] bot.state.groups.white.same_set(x, y) <==> x == y,
    {
        let swap_state = Some(role_of(c));
        HexBot {
            colour: c,
            starting: c,
            state: State::default(),
            size: DEFAULT_SIZE,
            swap_state,
            move_count: 0,
            rng: Rng::fresh(),
        }
    }

    /// The colour the bot is playing.
    pub fn colour(&self) -> (c: Colour)
        ensures
            c == self.colour,
    {
        self.colour
    }

    /// Resets the game to a fresh board of the given size.
    pub fn init_board(&mut self, size: i8)
        requires
            0 <= size <= 127,
        ensures
            final(self).wf(),
            final(self).size == size,
            final(self).colour == old(self).colour,
            final(self).starting == old(self).starting,
            final(self).move_count == 0,
            final(self).swap_state == Some(SwapRole::from_spec_for(old(self).colour)),
            forall|k: int|
                0 <= k < final(self).state.board@.len() ==> final(self).state.board@[k]
                    == PieceState::Empty,
            forall|x: Tile, y: Tile|
                #[trigger] final(self).state.groups.black.same_set(x, y) <==> x == y,
            forall|x: Tile, y: Tile|
                #[trigger] final(self).state.groups.white.same_set(x, y) <==> x == y,
    {
        self.state = State::new(size);
        self.size = size;
        self.swap_state = Some(role_of(self.colour));
        self.move_count = 0;
    }

    /// Places a piece on the tile named by the move text: fails on a missing
    /// move, on malformed notation, and on an off-board tile, and then
    /// changes nothing.
    pub fn set_tile(&mut self, mv: Option<&&str>, s: PieceState) -> (r: Result<(), BotError>)
        requires
            old(self).wf(),
        ensures
            final(self).wf(),
            final(self).size == old(self).size,
            final(self).colour == old(self).colour,
            mv is None ==> r == Err::<(), BotError>(BotError::EmptyMove) && *final(self) == *old(
                self,
            ),
            mv is Some ==> match crate::tile::spec_parse(mv->Some_0@) {
                Err(e) => r == Err::<(), BotError>(BotError::InvalidMove(e)) && *final(self)
                    == *old(self),
                Ok(t) => {
                    &&& (r is Ok <==> t.spec_in_range(old(self).size as int))
                    &&& r is Err ==> r == Err::<(), BotError>(
                        BotError::State(state::Error::InvalidTile),
                    ) && *final(self) == *old(self)
                    &&& r is Ok ==> final(self).state.board@ == old(self).state.board@.update(
                        t.spec_index(old(self).size as int),
                        s,
                    )
                },
            },
    {
        let text = match mv {
            None => {
                return Err(BotError::EmptyMove);
            },
            Some(t) => *t,
        };
        let t = match Tile::parse(text) {
            Err(e) => {
                return Err(BotError::InvalidMove(e));
            },
            Ok(t) => t,
        };
        match self.state.place_piece(t, s) {
            Ok(()) => Ok(()),
            Err(e) => Err(BotError::State(e)),
        }
    }

    /// The compressed serialization of the current board.
    pub fn get_compressed(&self) -> (r: String)
        requires
            self.wf(),
        ensures
            r@ == crate::board::spec_compressed(self.state.board@, self.size as int),
    {
        self.state.get_compressed()
    }

    /// The human-readable rendering of the current board.
    pub fn get_pretty(&self) -> (r: String)
        requires
            self.wf(),
        ensures
            r@ == crate::board::spec_pretty(self.state.board@, self.size as int),
    {
        self.state.get_pretty()
    }

    /// Plays one bot move: the pie-rule opening or response while the swap
    /// state is unresolved, an evaluated move afterwards.  Always succeeds.
    pub fn make_move(&mut self) -> (r: Result<Move, BotError>)
        requires
            old(self).wf(),
            old(self).move_count < 0xFFFF,
            old(self).swap_state == Some(SwapRole::Start) ==> 4 <= old(self).size,
            old(self).swap_state != Some(SwapRole::Start) ==> exists|k: int|
                0 <= k < old(self).state.board@.len() && (#[trigger] old(self).state.board@[k])
                    == PieceState::Empty,
        ensures
            final(self).wf(),
            final(self).size == old(self).size,
            final(self).swap_state is None,
            r is Ok,
            match r {
                Ok(Move::Move(t)) => {
                    &&& t.spec_in_range(old(self).size as int)
                    &&& final(self).state.board@ == old(self).state.board@.update(
                        t.spec_index(old(self).size as int),
                        PieceState::Colour(old(self).colour),
                    )
                    &&& final(self).colour == old(self).colour
                    &&& final(self).move_count == old(self).move_count + 1
                },
                Ok(Move::Swap) => {
                    &&& final(self).colour == old(self).colour.spec_opponent()
                    &&& final(self).state.board@ == old(self).state.board@
                    &&& final(self).move_count == old(self).move_count
                },
                Err(_) => false,
            },
            // a swap answer can only come from an unresolved responder
            r == Ok::<Move, BotError>(Move::Swap) ==> old(self).swap_state == Some(SwapRole::Swap),
            // an opener always places, in a near-corner zone
            old(self).swap_state == Some(SwapRole::Start) ==> r->Ok_0 is Move
                && opening::spec_corner_zone(
                old(self).size as int,
                r->Ok_0->Move_0->Regular_0 as int,
                r->Ok_0->Move_0->Regular_1 as int,
            ),
            // the responder's judgment is deterministic away from the boundary
            old(self).swap_state == Some(SwapRole::Swap) && spec_swap_taken(
                old(self).state.board@,
                old(self).size as int,
            ) ==> r == Ok::<Move, BotError>(Move::Swap),
            old(self).swap_state == Some(SwapRole::Swap) && spec_swap_declined(
                old(self).state.board@,
                old(self).size as int,
            ) ==> r->Ok_0 is Move,
            // a resolved bot always places
            old(self).swap_state is None ==> r->Ok_0 is Move,
            // every non-opening placement lands on a cell that was empty
            old(self).swap_state != Some(SwapRole::Start) && r->Ok_0 is Move ==> old(
                self,
            ).state.board@[r->Ok_0->Move_0.spec_index(old(self).size as int)]
                == PieceState::Empty,
    {
        let role = self.swap_state;
        match role {
            Some(s) if SWAP_RULE => {
                let mv = self.handle_swap(s);
                self.swap_state = None;
                Ok(mv)
            },
            _ => {
                self.swap_state = None;
                Ok(Move::Move(self.regular_move()))
            },
        }
    }

    /// Resolves the pie rule: an opener plays the canonical weak near-corner
    /// stone; a responder swaps when the opponent's stone is judged strong,
    /// else answers with a regular move.
    fn handle_swap(&mut self, s: SwapRole) -> (r: Move)
        requires
            old(self).wf(),
            old(self).move_count < 0xFFFF,
            s == SwapRole::Start ==> 4 <= old(self).size,
            s != SwapRole::Start ==> exists|k: int|
                0 <= k < old(self).state.board@.len() && (#[trigger] old(self).state.board@[k])
                    == PieceState::Empty,
        ensures
            final(self).wf(),
            final(self).size == old(self).size,
            final(self).swap_state == old(self).swap_state,
            match r {
                Move::Move(t) => {
                    &&& t.spec_in_range(old(self).size as int)
                    &&& final(self).state.board@ == old(self).state.board@.update(
                        t.spec_index(old(self).size as int),
                        PieceState::Colour(old(self).colour),
                    )
                    &&& final(self).colour == old(self).colour
                    &&& final(self).move_count == old(self).move_count + 1
                },
                Move::Swap => {
                    &&& final(self).colour == old(self).colour.spec_opponent()
                    &&& final(self).state.board@ == old(self).state.board@
                    &&& final(self).move_count == old(self).move_count
                },
            },
            s == SwapRole::Start ==> r is Move && opening::spec_corner_zone(
                old(self).size as int,
                r->Move_0->Regular_0 as int,
                r->Move_0->Regular_1 as int,
            ),
            s == SwapRole::Swap && spec_swap_taken(old(self).state.board@, old(self).size as int)
                ==> r == Move::Swap,
            s == SwapRole::Swap && spec_swap_declined(
                old(self).state.board@,
                old(self).size as int,
            ) ==> r is Move,
            s == SwapRole::Swap && r is Move ==> old(self).state.board@[r->Move_0.spec_index(
                old(self).size as int,
            )] == PieceState::Empty,
    {
        match s {
            SwapRole::Start => {
                let (i, j) = opening::first_move(self.size, &mut self.rng);
                let mv = Tile::Regular(i, j);
                let _res = self.state.place_piece(mv, PieceState::Colour(self.colour));
                self.move_count = self.move_count + 1;
                Move::Move(mv)
            },
            SwapRole::Swap => {
                let swap = self.state.should_swap(&mut self.rng);
                proof {
                    let cells = old(self).state.board@;
                    let size = old(self).size as int;
                    assert(self.state.board@ == cells);
                    assert(self.state.size as int == size);
                    let fs = crate::state::spec_first_stone(cells, 0);
                    crate::state::first_stone_in_range(cells, 0);
                    if spec_swap_taken(cells, size) {
                        assert(fs < cells.len() && 2 < fs / size + fs % size < 2 * size - 4);
                        assert(swap);
                    }
                    if spec_swap_declined(cells, size) {
                        if fs == cells.len() {
                            assert(!swap);
                        } else {
                            assert(fs / size + fs % size < 2 || fs / size + fs % size > 2 * size
                                - 4);
                            assert(!swap);
                        }
                    }
                }
                if swap {
                    self.colour = self.colour.opponent();
                    Move::Swap
                } else {
                    Move::Move(self.regular_move())
                }
            },
        }
    }

    /// Evaluates the position and plays the best empty cell.
    fn regular_move(&mut self) -> (mv: Tile)
        requires
            old(self).wf(),
            old(self).move_count < 0xFFFF,
            exists|k: int|
                0 <= k < old(self).state.board@.len() && (#[trigger] old(self).state.board@[k])
                    == PieceState::Empty,
        ensures
            final(self).wf(),
            final(self).size == old(self).size,
            final(self).colour == old(self).colour,
            final(self).swap_state == old(self).swap_state,
            mv.spec_in_range(old(self).size as int),
            old(self).state.board@[mv.spec_index(old(self).size as int)] == PieceState::Empty,
            final(self).state.board@ == old(self).state.board@.update(
                mv.spec_index(old(self).size as int),
                PieceState::Colour(old(self).colour),
            ),
            final(self).move_count == old(self).move_count + 1,
    {
        let mut ev = PotentialEvaluator::new(self.state.get_board(), self.colour, self.starting);
        ev.evaluate();
        let mv = ev.get_best_move(self.move_count, &mut self.rng);
        let _res = self.state.place_piece(mv, PieceState::Colour(self.colour));
        self.move_count = self.move_count + 1;
        mv
    }

    /// The winner from the bot's point of view: White's connection is checked
    /// first, then Black's.
    pub fn check_win(&mut self) -> (r: Option<Winner>)
        requires
            old(self).wf(),
        ensures
            final(self).wf(),
            final(self).state.board == old(self).state.board,
            final(self).size == old(self).size,
            final(self).colour == old(self).colour,
            r == {
                let w = if old(self).state.groups.white.same_set(Tile::Edge1, Tile::Edge2) {
                    Some(Colour::White)
                } else if old(self).state.groups.black.same_set(Tile::Edge1, Tile::Edge2) {
                    Some(Colour::Black)
                } else {
                    None
                };
                match w {
                    Some(wc) => if wc == old(self).colour {
                        Some(Winner::Bot)
                    } else {
                        Some(Winner::Opponent)
                    },
                    None => None,
                }
            },
    {
        self.state.get_winner(self.colour)
    }

    /// Swaps the bot's identity: it keeps the board and plays the other
    /// colour from now on.
    pub fn swap(&mut self) -> (r: Result<(), BotError>)
        ensures
            final(self).colour == old(self).colour.spec_opponent(),
            final(self).state == old(self).state,
            final(self).size == old(self).size,
            final(self).starting == old(self).starting,
            final(self).move_count == old(self).move_count,
            final(self).swap_state == old(self).swap_state,
            r is Ok,
    {
        self.colour = self.colour.opponent();
        Ok(())
    }
}

impl SwapRole {
    /// The role a colour takes under the pie rule: Black opens, White may
    /// swap.
    pub open spec fn from_spec_for(c: Colour) -> SwapRole {
        match c {
            Colour::Black => SwapRole::Start,
            Colour::White => SwapRole::Swap,
        }
    }
}

/// The pie-rule role of a colour.
fn role_of(c: Colour) -> (r: SwapRole)
    ensures
        r == SwapRole::from_spec_for(c),
{
    match c {
        Colour::Black => SwapRole::Start,
        Colour::White => SwapRole::Swap,
    }
}

} // verus!
