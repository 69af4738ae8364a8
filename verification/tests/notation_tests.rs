use pincerhex::tile::{Colour, Error, Tile};

#[test]
fn move_notation() {
    assert_eq!(Tile::Regular(0, 0).to_string(), "a1");
    assert_eq!(Tile::parse("a1"), Ok(Tile::Regular(0, 0)));
    assert_eq!(Tile::parse("j10"), Ok(Tile::Regular(9, 9)));
    assert_eq!(Tile::Regular(2, 3).to_string(), "c4");
    assert_eq!(Tile::parse("c4"), Ok(Tile::Regular(2, 3)));
}

#[test]
fn notation_round_trips() {
    for r in 0..26i8 {
        for c in 0..127i8 {
            let t = Tile::Regular(r, c);
            assert_eq!(Tile::parse(&t.to_string()), Ok(t));
        }
    }
}

#[test]
fn notation_errors() {
    assert_eq!(Tile::parse(""), Err(Error::InvalidRow));
    assert_eq!(Tile::parse("5a"), Err(Error::InvalidRow));
    assert_eq!(Tile::parse("A1"), Err(Error::InvalidRow));
    assert_eq!(Tile::parse("a"), Err(Error::InvalidCol));
    assert_eq!(Tile::parse("ax"), Err(Error::InvalidCol));
    assert_eq!(Tile::parse("a128"), Err(Error::InvalidCol));
    assert_eq!(Tile::parse("a0"), Ok(Tile::Regular(0, -1)));
}

#[test]
fn sentinel_names() {
    assert_eq!(Tile::Edge1.to_string(), "edge1");
    assert_eq!(Tile::Edge2.to_string(), "edge2");
    assert_eq!(Tile::Invalid.to_string(), "invalid");
}

#[test]
fn opponent_is_involutive() {
    assert_eq!(Colour::Black.opponent().opponent(), Colour::Black);
    assert_eq!(Colour::White.opponent().opponent(), Colour::White);
    assert_eq!(Colour::Black.opponent(), Colour::White);
}

#[test]
fn colour_values() {
    assert_eq!(Colour::Black.group_idx(), 0);
    assert_eq!(Colour::White.group_idx(), 1);
    assert_eq!(Colour::Black.val(), -1);
    assert_eq!(Colour::White.val(), 1);
}

#[test]
fn tile_indexing() {
    assert_eq!(Tile::Regular(2, 3).to_index(4), Some(11));
    assert_eq!(Tile::Regular(4, 0).to_index(4), None);
    assert_eq!(Tile::Regular(-1, 0).to_index(4), None);
    assert_eq!(Tile::Edge1.to_index(4), None);
    assert_eq!(Tile::Regular(1, 1).neighbour(1, -1), Tile::Regular(2, 0));
    assert_eq!(Tile::Edge2.neighbour(1, 0), Tile::Invalid);
    assert_eq!(Tile::Regular(3, 5).edge(Colour::Black), 3);
    assert_eq!(Tile::Regular(3, 5).edge(Colour::White), 5);
}
