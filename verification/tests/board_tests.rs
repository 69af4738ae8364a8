use pincerhex::board::Board;
use pincerhex::tile::{Colour, PieceState, Tile};
use pincerhex::union_find::UnionFind;

fn set(board: &mut Board, row: i8, col: i8, colour: Colour) {
    let res = board.set_tile(Tile::Regular(row, col), PieceState::Colour(colour));
    assert!(matches!(res, Ok(())));
}

#[test]
fn board_drawing() {
    let mut board = Board::new(4);

    set(&mut board, 0, 0, Colour::Black);
    set(&mut board, 1, 1, Colour::Black);
    set(&mut board, 2, 2, Colour::Black);
    set(&mut board, 3, 3, Colour::Black);

    set(&mut board, 3, 0, Colour::White);
    set(&mut board, 3, 2, Colour::White);
    set(&mut board, 1, 2, Colour::White);

    let expected = "B . . . \n . B W . \n  . . B . \n   W . W B \n------------------";

    assert_eq!(board.get_pretty(), expected);

    set(&mut board, 0, 1, Colour::Black);
    set(&mut board, 0, 2, Colour::Black);
    set(&mut board, 0, 3, Colour::Black);

    let expected2 = "B B B B \n . B W . \n  . . B . \n   W . W B \n------------------";

    assert_eq!(board.get_pretty(), expected2);
}

#[test]
fn lib_drawing() {
    let mut board = Board::new(4);

    set(&mut board, 0, 0, Colour::Black);
    set(&mut board, 1, 1, Colour::Black);
    set(&mut board, 2, 2, Colour::Black);
    set(&mut board, 3, 3, Colour::Black);

    set(&mut board, 3, 0, Colour::White);
    set(&mut board, 3, 2, Colour::White);
    set(&mut board, 1, 2, Colour::White);

    let expected = "B . . . \n . B W . \n  . . B . \n   W . W B \n------------------";

    assert_eq!(board.get_pretty(), expected);

    set(&mut board, 0, 1, Colour::Black);
    set(&mut board, 0, 2, Colour::Black);
    set(&mut board, 0, 3, Colour::Black);

    let expected2 = "B B B B \n . B W . \n  . . B . \n   W . W B \n------------------";

    assert_eq!(board.get_pretty(), expected2);
}

#[test]
fn test_union() {
    let mut uf = UnionFind::new(0);
    assert!(!uf.connected(Tile::Edge1, Tile::Edge2));
    uf.union(Tile::Edge1, Tile::Edge2);
    assert!(uf.connected(Tile::Edge1, Tile::Edge2));
}

#[test]
fn union_find_history() {
    let mut uf = UnionFind::new(4);
    let a = Tile::Regular(0, 0);
    let b = Tile::Regular(0, 1);
    let c = Tile::Regular(1, 0);
    let d = Tile::Regular(1, 1);
    assert!(uf.connected(a, a));
    assert!(!uf.connected(a, b));
    uf.union(a, b);
    uf.union(c, d);
    assert!(uf.connected(a, b));
    assert!(uf.connected(c, d));
    assert!(!uf.connected(a, c));
    uf.union(b, c);
    assert!(uf.connected(a, d));
    assert_eq!(uf.find(a), uf.find(d));
}

#[test]
fn empty_board_compressed() {
    assert_eq!(Board::new(4).get_compressed(), "....|....|....|....|");
}

#[test]
fn compressed_round_trips() {
    let mut board = Board::new(5);
    set(&mut board, 0, 0, Colour::Black);
    set(&mut board, 2, 3, Colour::White);
    set(&mut board, 4, 4, Colour::Black);
    let text = board.get_compressed();
    let back = Board::from_compressed(&text).expect("a serialized board decodes");
    assert_eq!(back.size, 5);
    assert_eq!(back.get_compressed(), text);
    assert_eq!(
        back.get_tile(Tile::Regular(2, 3)),
        Some(PieceState::Colour(Colour::White))
    );
}

#[test]
fn compressed_rejects_junk() {
    assert!(Board::from_compressed("abc").is_none());
    assert!(Board::from_compressed("..|.|").is_none());
    assert!(Board::from_compressed("..x.|....|....|....|").is_none());
    assert!(Board::from_compressed("....|....|....|....").is_none());
}

#[test]
fn swap_pieces_transposes_and_flips() {
    let mut board = Board::new(3);
    set(&mut board, 0, 1, Colour::Black);
    set(&mut board, 2, 0, Colour::White);
    let res = board.swap_pieces();
    assert!(matches!(res, Ok(())));
    assert_eq!(
        board.get_tile(Tile::Regular(1, 0)),
        Some(PieceState::Colour(Colour::White))
    );
    assert_eq!(
        board.get_tile(Tile::Regular(0, 2)),
        Some(PieceState::Colour(Colour::Black))
    );
    assert_eq!(board.get_tile(Tile::Regular(0, 1)), Some(PieceState::Empty));
}

#[test]
fn set_tile_out_of_range() {
    let mut board = Board::new(4);
    let res = board.set_tile(Tile::Regular(4, 0), PieceState::Empty);
    assert!(matches!(res, Err(pincerhex::board::Error::NotInRange)));
    let res = board.set_tile(Tile::Edge1, PieceState::Empty);
    assert!(matches!(res, Err(pincerhex::board::Error::NotInRange)));
    assert_eq!(board.get_tile(Tile::Regular(4, 0)), None);
    assert_eq!(board.get(3, 3), Some(PieceState::Empty));
}

#[test]
fn neighbours_at_the_rim() {
    let mut board = Board::new(3);
    set(&mut board, 0, 1, Colour::Black);
    let n = board.neighbours(Tile::Regular(0, 0));
    assert_eq!(n[0], Some((Tile::Regular(0, 1), PieceState::Colour(Colour::Black))));
    assert_eq!(n[1], Some((Tile::Regular(1, 0), PieceState::Empty)));
    assert_eq!(n[2], None);
    assert_eq!(n[3], None);
    assert_eq!(n[4], None);
    assert_eq!(n[5], None);
}

#[test]
fn board_iter_both_ways() {
    let mut board = Board::new(2);
    set(&mut board, 0, 0, Colour::Black);
    let mut it = board.iter();
    assert_eq!(
        it.next(),
        Some((Tile::Regular(0, 0), PieceState::Colour(Colour::Black)))
    );
    assert_eq!(it.next(), Some((Tile::Regular(0, 1), PieceState::Empty)));
    let mut back = board.iter();
    assert_eq!(back.next_back(), Some((Tile::Regular(1, 1), PieceState::Empty)));
    assert_eq!(back.next_back(), Some((Tile::Regular(1, 0), PieceState::Empty)));
}
