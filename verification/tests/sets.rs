use chess_rules::board::Board;
use chess_rules::pieces::{ChessPieceColour, ChessPieceKind};
use chess_rules::resolver::is_between;
use chess_rules::sets::{MoveSet, SquareSet};
use chess_rules::squares::{BoardPos, Move};

fn square(x: u32, y: u32) -> BoardPos {
    BoardPos { x, y }
}

fn squares(list: &[(u32, u32)]) -> SquareSet {
    let mut set = SquareSet::new();
    for &(x, y) in list {
        set.insert(square(x, y));
    }
    set
}

fn listed(list: &[(u32, u32)]) -> Vec<BoardPos> {
    list.iter().map(|&(x, y)| square(x, y)).collect()
}

#[test]
fn square_set_basics() {
    let mut set = SquareSet::new();
    assert!(set.is_empty());
    assert!(set.to_vec().is_empty());
    set.insert(square(3, 4));
    set.insert(square(0, 0));
    set.insert(square(3, 4));
    set.insert(square(7, 7));
    assert!(!set.is_empty());
    assert!(set.contains(&square(3, 4)));
    assert!(!set.contains(&square(4, 3)));
    assert!(!set.contains(&square(8, 0)));
    assert!(!set.contains(&square(3, 12)));
    assert_eq!(listed(&[(0, 0), (3, 4), (7, 7)]), set.to_vec());
}

#[test]
fn square_set_lists_by_rank_then_file() {
    let set = squares(&[(5, 1), (1, 5), (0, 2), (7, 1), (0, 1)]);
    assert_eq!(listed(&[(0, 1), (5, 1), (7, 1), (0, 2), (1, 5)]), set.to_vec());
}

#[test]
fn square_set_union() {
    let a = squares(&[(1, 1), (2, 2)]);
    let b = squares(&[(2, 2), (3, 3)]);
    assert_eq!(listed(&[(1, 1), (2, 2), (3, 3)]), a.union(&b).to_vec());
    assert_eq!(a.to_vec(), a.union(&SquareSet::new()).to_vec());
}

#[test]
fn between_walks_a_file_until_the_run_ends() {
    let full = squares(&[(2, 3), (2, 4), (2, 5)]);
    assert_eq!(
        listed(&[(2, 3), (2, 4), (2, 5)]),
        full.between(square(2, 2), square(2, 6)).to_vec()
    );
    assert_eq!(
        listed(&[(2, 3), (2, 4), (2, 5)]),
        full.between(square(2, 6), square(2, 2)).to_vec()
    );

    let gap = squares(&[(2, 3), (2, 5)]);
    assert_eq!(listed(&[(2, 3)]), gap.between(square(2, 2), square(2, 6)).to_vec());
    assert_eq!(listed(&[(2, 5)]), gap.between(square(2, 6), square(2, 2)).to_vec());

    let late = squares(&[(2, 4), (2, 5)]);
    assert!(late.between(square(2, 2), square(2, 6)).is_empty());
}

#[test]
fn between_stops_short_of_the_far_square() {
    let set = squares(&[(2, 3), (2, 4), (2, 5), (2, 6), (2, 7), (2, 2)]);
    assert_eq!(listed(&[(2, 3), (2, 4)]), set.between(square(2, 2), square(2, 5)).to_vec());
    assert!(set.between(square(2, 2), square(2, 3)).is_empty());
    assert!(set.between(square(2, 2), square(2, 2)).is_empty());
}

#[test]
fn between_follows_ranks_and_diagonals() {
    let mut all = SquareSet::new();
    for x in 0..8 {
        for y in 0..8 {
            all.insert(square(x, y));
        }
    }
    assert_eq!(
        listed(&[(1, 3), (2, 3), (3, 3)]),
        all.between(square(4, 3), square(0, 3)).to_vec()
    );
    assert_eq!(
        listed(&[(1, 1), (2, 2), (3, 3)]),
        all.between(square(0, 0), square(4, 4)).to_vec()
    );
    assert_eq!(listed(&[(5, 2), (4, 3)]), all.between(square(6, 1), square(3, 4)).to_vec());
    assert!(all.between(square(0, 0), square(1, 2)).is_empty());
    assert!(all.between(square(0, 0), square(3, 7)).is_empty());
    assert!(all.between(square(9, 9), square(12, 12)).is_empty());
    assert_eq!(listed(&[(7, 7)]), all.between(square(8, 8), square(6, 6)).to_vec());
}

#[test]
fn between_over_a_rooks_threats_is_the_open_line_to_the_king() {
    let mut board = Board::new();
    board.set(4, 0, ChessPieceColour::White, ChessPieceKind::King);
    board.set(4, 5, ChessPieceColour::Black, ChessPieceKind::Rook);
    let threats = board.get_threatened_tiles(4, 5).unwrap();
    assert_eq!(
        listed(&[(4, 1), (4, 2), (4, 3), (4, 4)]),
        threats.between(square(4, 0), square(4, 5)).to_vec()
    );
}

#[test]
fn move_set_basics() {
    let mut set = MoveSet::new();
    assert!(set.is_empty());
    set.insert(Move { x: 1, y: 2, takes: true });
    set.insert(Move { x: 1, y: 2, takes: false });
    set.insert(Move { x: 0, y: 2, takes: true });
    set.insert(Move { x: 7, y: 0, takes: false });
    set.insert(Move { x: 7, y: 0, takes: false });
    assert!(!set.is_empty());
    assert!(set.contains(&Move { x: 1, y: 2, takes: true }));
    assert!(set.contains(&Move { x: 1, y: 2, takes: false }));
    assert!(!set.contains(&Move { x: 0, y: 2, takes: false }));
    assert!(!set.contains(&Move { x: 9, y: 2, takes: false }));
    assert_eq!(
        vec![
            Move { x: 7, y: 0, takes: false },
            Move { x: 0, y: 2, takes: true },
            Move { x: 1, y: 2, takes: false },
            Move { x: 1, y: 2, takes: true },
        ],
        set.to_vec()
    );
}

#[test]
fn move_set_union_and_filters() {
    let mut a = MoveSet::new();
    a.insert(Move { x: 1, y: 1, takes: false });
    a.insert(Move { x: 2, y: 2, takes: true });
    let mut b = MoveSet::new();
    b.insert(Move { x: 2, y: 2, takes: false });
    b.insert(Move { x: 3, y: 3, takes: true });
    let both = a.union(&b);
    assert_eq!(
        vec![
            Move { x: 1, y: 1, takes: false },
            Move { x: 2, y: 2, takes: false },
            Move { x: 2, y: 2, takes: true },
            Move { x: 3, y: 3, takes: true },
        ],
        both.to_vec()
    );
    let keep = squares(&[(2, 2), (5, 5)]);
    assert_eq!(
        vec![Move { x: 2, y: 2, takes: false }, Move { x: 2, y: 2, takes: true }],
        both.only_squares(&keep).to_vec()
    );
    assert_eq!(
        vec![Move { x: 1, y: 1, takes: false }, Move { x: 3, y: 3, takes: true }],
        both.without_squares(&keep).to_vec()
    );
    assert!(both.only_squares(&SquareSet::new()).is_empty());
    assert_eq!(both.to_vec(), both.without_squares(&SquareSet::new()).to_vec());
}

#[test]
fn is_between_is_strict_and_needs_a_shared_line() {
    assert!(is_between(0, 0, 0, 3, 0, 5));
    assert!(is_between(0, 5, 0, 3, 0, 0));
    assert!(!is_between(0, 0, 0, 5, 0, 5));
    assert!(!is_between(0, 0, 0, 0, 0, 5));
    assert!(!is_between(0, 0, 0, 6, 0, 5));
    assert!(!is_between(0, 0, 1, 3, 0, 5));
    assert!(is_between(1, 1, 3, 3, 4, 4));
    assert!(is_between(6, 1, 4, 3, 2, 5));
    assert!(!is_between(6, 1, 4, 4, 2, 5));
    assert!(is_between(7, 2, 4, 2, 3, 2));
    assert!(!is_between(0, 0, 1, 1, 2, 3));
    assert!(!is_between(3, 3, 3, 3, 3, 3));
}

#[test]
fn path_clear_looks_only_strictly_between() {
    let mut board = Board::new();
    board.set(0, 0, ChessPieceColour::White, ChessPieceKind::Rook);
    board.set(0, 5, ChessPieceColour::Black, ChessPieceKind::Rook);
    assert!(board.path_clear(0, 0, 0, 5));
    assert!(board.path_clear(0, 5, 0, 0));
    assert!(!board.path_clear(0, 0, 0, 6));
    assert!(board.path_clear(0, 0, 0, 1));
    assert!(board.path_clear(0, 0, 0, 0));
    board.set(3, 3, ChessPieceColour::Black, ChessPieceKind::Pawn);
    assert!(!board.path_clear(1, 1, 5, 5));
    assert!(!board.path_clear(5, 5, 1, 1));
    assert!(board.path_clear(1, 1, 3, 3));
    assert!(board.path_clear(4, 2, 2, 4) == false);
    // no shared line: nothing lies between
    assert!(board.path_clear(2, 2, 4, 5));
}
