use pincerhex::rng::Rng;
use pincerhex::state::{Error, State, Winner};
use pincerhex::tile::{Colour, PieceState, Tile};

fn place(state: &mut State, row: i8, col: i8, colour: Colour) {
    let res = state.place_piece(Tile::Regular(row, col), PieceState::Colour(colour));
    assert!(matches!(res, Ok(())));
}

#[test]
fn first_edge_win() {
    let mut state = State::new(4);
    place(&mut state, 0, 0, Colour::White);
    place(&mut state, 0, 1, Colour::White);
    place(&mut state, 0, 2, Colour::White);
    place(&mut state, 0, 3, Colour::White);
    assert_eq!(state.check_win(), Some(Colour::White));
    assert_eq!(state.get_winner(Colour::White), Some(Winner::Bot));
    assert_eq!(state.get_winner(Colour::Black), Some(Winner::Opponent));
}

#[test]
fn black_connects_top_to_bottom() {
    let mut state = State::new(3);
    place(&mut state, 0, 1, Colour::Black);
    place(&mut state, 1, 1, Colour::Black);
    assert_eq!(state.check_win(), None);
    place(&mut state, 2, 1, Colour::Black);
    assert_eq!(state.check_win(), Some(Colour::Black));
}

#[test]
fn win_appears_only_at_the_last_move() {
    // legal alternating placements; no winner before the winning stone, one
    // winner after it
    let mut state = State::new(3);
    let moves = [
        (0, 0, Colour::White),
        (0, 1, Colour::Black),
        (1, 0, Colour::White),
        (1, 1, Colour::Black),
        (2, 2, Colour::White),
        (2, 1, Colour::Black),
    ];
    for (i, &(r, c, col)) in moves.iter().enumerate() {
        if i + 1 < moves.len() {
            assert_eq!(state.check_win(), None);
        }
        let res = state.try_place_piece(Tile::Regular(r, c), PieceState::Colour(col));
        assert!(matches!(res, Ok(())));
    }
    assert_eq!(state.check_win(), Some(Colour::Black));
}

#[test]
fn replace_restores_connectivity() {
    let mut state = State::new(4);
    place(&mut state, 0, 0, Colour::White);
    place(&mut state, 0, 1, Colour::White);
    place(&mut state, 0, 3, Colour::White);
    assert_eq!(state.check_win(), None);
    // placing the missing stone connects, removing it disconnects again
    place(&mut state, 0, 2, Colour::White);
    assert_eq!(state.check_win(), Some(Colour::White));
    let res = state.place_piece(Tile::Regular(0, 2), PieceState::Empty);
    assert!(matches!(res, Ok(())));
    assert_eq!(state.check_win(), None);
    place(&mut state, 0, 2, Colour::White);
    assert_eq!(state.check_win(), Some(Colour::White));
}

#[test]
fn recolour_rebuilds_both_sides() {
    let mut state = State::new(2);
    place(&mut state, 0, 0, Colour::White);
    place(&mut state, 0, 1, Colour::White);
    assert_eq!(state.check_win(), Some(Colour::White));
    // recolour one stone: the White connection breaks
    place(&mut state, 0, 1, Colour::Black);
    assert_eq!(state.check_win(), None);
}

#[test]
fn placement_errors() {
    let mut state = State::new(4);
    let res = state.place_piece(Tile::Regular(9, 0), PieceState::Colour(Colour::Black));
    assert!(matches!(res, Err(Error::InvalidTile)));
    let res = state.place_piece(Tile::Edge1, PieceState::Colour(Colour::Black));
    assert!(matches!(res, Err(Error::InvalidTile)));
    place(&mut state, 1, 1, Colour::Black);
    let res = state.try_place_piece(Tile::Regular(1, 1), PieceState::Colour(Colour::White));
    assert!(matches!(res, Err(Error::TileNotEmpty)));
    let res = state.try_place_piece(Tile::Regular(9, 9), PieceState::Colour(Colour::White));
    assert!(matches!(res, Err(Error::TileNotEmpty)));
}

#[test]
fn swap_reflection() {
    // a stone on the short diagonal corner is declined deterministically
    let mut state = State::new(10);
    place(&mut state, 0, 0, Colour::White);
    for seed in 0..10u64 {
        let mut rng = Rng::new_seeded(seed);
        assert!(!state.should_swap(&mut rng));
    }
    // a stone in the middle is taken deterministically
    let mut mid = State::new(10);
    place(&mut mid, 5, 5, Colour::White);
    for seed in 0..10u64 {
        let mut rng = Rng::new_seeded(seed);
        assert!(mid.should_swap(&mut rng));
    }
}

#[test]
fn state_swap_pieces_mirrors() {
    let mut state = State::new(3);
    place(&mut state, 0, 1, Colour::Black);
    let res = state.swap_pieces();
    assert!(matches!(res, Ok(())));
    assert_eq!(
        state.get_board().get_tile(Tile::Regular(1, 0)),
        Some(PieceState::Colour(Colour::White))
    );
}
