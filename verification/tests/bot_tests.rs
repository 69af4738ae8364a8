use pincerhex::board::Board;
use pincerhex::bot::HexBot;
use pincerhex::eval::PotentialEvaluator;
use pincerhex::rng::Rng;
use pincerhex::state::Winner;
use pincerhex::stateless;
use pincerhex::tile::{Colour, Move, PieceState, Tile};

#[test]
fn opener_plays_a_near_corner_stone() {
    let mut bot = HexBot::new(Colour::Black);
    bot.init_board(8);
    let mv = bot.make_move().expect("a first move");
    match mv {
        Move::Move(Tile::Regular(r, c)) => {
            let near = (r < 3 && c < 3) || (r > 4 && c > 4);
            assert!(near, "first stone at ({r}, {c}) is not near a corner");
        }
        other => panic!("expected a placement, got {other:?}"),
    }
}

#[test]
fn responder_declines_a_corner_stone() {
    let mut bot = HexBot::new(Colour::White);
    bot.init_board(10);
    // the opponent opened on the short diagonal corner: decline the swap
    bot.set_tile(Some(&"a1"), PieceState::Colour(Colour::Black))
        .expect("a valid opponent move");
    let mv = bot.make_move().expect("a response");
    assert!(matches!(mv, Move::Move(_)));
    assert_eq!(bot.colour(), Colour::White);
}

#[test]
fn bot_reports_win() {
    let mut bot = HexBot::new(Colour::White);
    bot.init_board(4);
    for col in ["a1", "a2", "a3", "a4"] {
        bot.set_tile(Some(&col), PieceState::Colour(Colour::White))
            .expect("a valid placement");
    }
    assert_eq!(bot.check_win(), Some(Winner::Bot));
    let mut loser = HexBot::new(Colour::Black);
    loser.init_board(4);
    for col in ["a1", "a2", "a3", "a4"] {
        loser
            .set_tile(Some(&col), PieceState::Colour(Colour::White))
            .expect("a valid placement");
    }
    assert_eq!(loser.check_win(), Some(Winner::Opponent));
}

#[test]
fn bot_errors() {
    let mut bot = HexBot::new(Colour::Black);
    bot.init_board(4);
    assert!(matches!(
        bot.set_tile(None, PieceState::Empty),
        Err(pincerhex::bot::BotError::EmptyMove)
    ));
    assert!(matches!(
        bot.set_tile(Some(&"zz"), PieceState::Empty),
        Err(pincerhex::bot::BotError::InvalidMove(_))
    ));
    assert!(matches!(
        bot.set_tile(Some(&"j10"), PieceState::Empty),
        Err(pincerhex::bot::BotError::State(_))
    ));
}

#[test]
fn evaluator_converges_on_blank_board() {
    let board = Board::new(4);
    let mut ev = PotentialEvaluator::new(&board, Colour::Black, Colour::Black);
    ev.evaluate();
    let mut rng = Rng::new_seeded(7);
    let mv = ev.get_best_move(0, &mut rng);
    match mv {
        Tile::Regular(r, c) => {
            assert!(0 <= r && r < 4 && 0 <= c && c < 4);
            assert_eq!(board.get_tile(mv), Some(PieceState::Empty));
        }
        other => panic!("expected a cell, got {other:?}"),
    }
}

#[test]
fn evaluator_avoids_occupied_cells() {
    let mut board = Board::new(3);
    for (r, c) in [(0, 0), (0, 1), (1, 0), (1, 1), (2, 0), (2, 1), (0, 2), (1, 2)] {
        let colour = if (r + c) % 2 == 0 { Colour::Black } else { Colour::White };
        board
            .set_tile(Tile::Regular(r, c), PieceState::Colour(colour))
            .expect("a valid placement");
    }
    let mut ev = PotentialEvaluator::new(&board, Colour::White, Colour::Black);
    ev.evaluate();
    let mut rng = Rng::new_seeded(1);
    let mv = ev.get_best_move(8, &mut rng);
    assert_eq!(mv, Tile::Regular(2, 2));
}

#[test]
fn stateless_blank_board() {
    assert_eq!(stateless::get_board(4), "....|....|....|....|");
}

#[test]
fn stateless_first_move_places_one_stone() {
    let text = stateless::get_first_move(true, 10, 42);
    let whites = text.chars().filter(|&c| c == 'W').count();
    let blacks = text.chars().filter(|&c| c == 'B').count();
    assert_eq!(whites, 1);
    assert_eq!(blacks, 0);
    assert!(Board::from_compressed(&text).is_some());
}

#[test]
fn stateless_move_swaps_on_a_strong_stone() {
    // the player's first stone sits mid-board: the bot swaps
    let mut board = Board::new(10);
    board
        .set_tile(Tile::Regular(5, 5), PieceState::Colour(Colour::Black))
        .expect("a valid placement");
    let text = board.get_compressed();
    let packed = (5u16 << 8) | 5u16;
    let r = stateless::pincerhex_move(true, true, packed, &text, 1, 3);
    assert_eq!(r, Some(stateless::SWAP_SENTINEL));
}

#[test]
fn stateless_move_declines_a_corner_stone() {
    let mut board = Board::new(10);
    board
        .set_tile(Tile::Regular(0, 0), PieceState::Colour(Colour::Black))
        .expect("a valid placement");
    let text = board.get_compressed();
    let r = stateless::pincerhex_move(true, true, 0, &text, 1, 3).expect("a move");
    assert_ne!(r, stateless::SWAP_SENTINEL);
    let (row, col) = ((r >> 8) as i8, (r & 0xff) as i8);
    assert_eq!(board.get_tile(Tile::Regular(row, col)), Some(PieceState::Empty));
}

#[test]
fn stateless_move_rejects_junk() {
    assert_eq!(stateless::pincerhex_move(true, true, 0, "???", 2, 1), None);
}

#[test]
fn evaluate_seeds_and_descends() {
    // after evaluation no potential exceeds its seeded value: border cells
    // carry their edge seed, everything else stays at or below the ceiling
    let board = Board::new(4);
    let mut ev = PotentialEvaluator::new(&board, Colour::White, Colour::White);
    ev.evaluate();
    for cell in 0..16usize {
        let (row, col) = (cell / 4, cell % 4);
        for e in 0..4usize {
            let on_line = match e {
                0 => row == 0,
                1 => row == 3,
                2 => col == 0,
                _ => col == 3,
            };
            let cap = if on_line { 128 } else { 20000 };
            assert!(ev.potential[4 * cell + e] <= cap);
        }
    }
}

#[test]
fn relaxation_updates_a_blocked_cell_no_further() {
    // a cell holding the opponent of an edge's colour keeps the ceiling for
    // that edge: the relaxation never writes it
    let mut board = Board::new(3);
    board
        .set_tile(Tile::Regular(1, 1), PieceState::Colour(Colour::Black))
        .expect("a valid placement");
    let mut ev = PotentialEvaluator::new(&board, Colour::White, Colour::White);
    ev.evaluate();
    // cell (1,1) is Black: blocked for Left (slot 2) and Right (slot 3)
    let cell = 4usize;
    assert_eq!(ev.potential[4 * cell + 2], 20000);
    assert_eq!(ev.potential[4 * cell + 3], 20000);
}
