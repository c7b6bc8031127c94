use peg_solitaire::board::Board;
use peg_solitaire::board::Space::{Empty, NotPartOfBoard, Occupied};
use peg_solitaire::error::Error::GridFormatError;
use peg_solitaire::position::Position;

#[test]
fn text_read_back_gives_the_same_text() {
    let mut board = Board::new();
    loop {
        let text = board.serialize();
        assert_eq!(57, text.chars().count());
        assert!(Board::fits(&text));
        let back = Board::deserialize(&text).unwrap();
        assert_eq!(board, back);
        assert_eq!(text, back.serialize());

        let moves = board.find_moves();
        if moves.is_empty() {
            break;
        }
        let m = moves[moves.len() / 2];
        board = board.move_piece(m.from, m.to).expect("valid move");
    }
}

#[test]
fn any_board_is_read_back_from_its_text() {
    let board = Board::from_array([
        [Occupied, Empty, NotPartOfBoard, Empty, Occupied, Occupied, Empty],
        [Empty; 7],
        [NotPartOfBoard; 7],
        [Occupied; 7],
        [Empty, Occupied, Empty, Occupied, Empty, Occupied, Empty],
        [NotPartOfBoard, Occupied, NotPartOfBoard, Occupied, Empty, Empty, Empty],
        [Empty, Empty, Empty, Empty, Empty, Empty, Occupied],
    ]);
    let text = board.serialize();
    assert_eq!(
        "\n*- -**-\n-------\n       \n*******\n-*-*-*-\n * *---\n------*\n",
        text
    );
    assert_eq!(board, Board::deserialize(&text).unwrap());
}

#[test]
fn empty_text_gives_the_starting_board() {
    assert_eq!(Board::new(), Board::deserialize("").unwrap());
    assert_eq!(Board::new(), Board::deserialize("\n").unwrap());
}

#[test]
fn first_character_is_skipped() {
    assert_eq!(Board::new(), Board::deserialize("x").unwrap());
    let board = Board::deserialize("?--").unwrap();
    assert_eq!(Empty, board.at(Position { x: 0, y: 0 }));
    assert_eq!(Empty, board.at(Position { x: 1, y: 0 }));
    assert_eq!(Occupied, board.at(Position { x: 2, y: 0 }));
    let board = Board::deserialize("*--").unwrap();
    assert_eq!(Empty, board.at(Position { x: 0, y: 0 }));
    assert_eq!(Empty, board.at(Position { x: 1, y: 0 }));
    assert_eq!(Occupied, board.at(Position { x: 2, y: 0 }));
}

#[test]
fn text_that_ends_early_leaves_the_rest_as_at_the_start() {
    let board = Board::deserialize("\n--\n\n*").unwrap();
    let start = Board::new();
    for y in 0..7usize {
        for x in 0..7usize {
            let p = Position { x, y };
            let expected = if y == 0 && x < 2 {
                Empty
            } else if y == 2 && x == 0 {
                Occupied
            } else {
                start.at(p)
            };
            assert_eq!(expected, board.at(p));
        }
    }
    assert_eq!(NotPartOfBoard, board.at(Position { x: 5, y: 0 }));
}

#[test]
fn short_rows_and_extra_row_ends_are_read() {
    let board = Board::deserialize("\n*\n-\n \n\n\n\n------*\n\n\n").unwrap();
    assert_eq!(Occupied, board.at(Position { x: 0, y: 0 }));
    assert_eq!(Empty, board.at(Position { x: 0, y: 1 }));
    assert_eq!(NotPartOfBoard, board.at(Position { x: 0, y: 2 }));
    assert_eq!(Occupied, board.at(Position { x: 6, y: 6 }));
    assert_eq!(Empty, board.at(Position { x: 5, y: 6 }));
    assert_eq!(Occupied, board.at(Position { x: 3, y: 4 }));
}

#[test]
fn unknown_character_is_a_format_error() {
    assert_eq!(Err(GridFormatError('x')), Board::deserialize("\n  *x*  \n"));
    assert_eq!(Err(GridFormatError('o')), Board::deserialize("\n---\n-o-\n-#-"));
    assert_eq!(Err(GridFormatError('\t')), Board::deserialize("\n\t"));
    assert_eq!(Err(GridFormatError('é')), Board::deserialize("\n*-é"));
    assert_eq!(Err(GridFormatError('\r')), Board::deserialize("\n  ***  \r\n"));
}

#[test]
fn fits_tells_rows_and_columns_beyond_the_grid() {
    assert!(Board::fits(""));
    assert!(Board::fits("\n"));
    assert!(Board::fits("\n-------\n-------\n-------\n-------\n-------\n-------\n-------\n"));
    assert!(Board::fits("\n-------\n-------\n-------\n-------\n-------\n-------\n-------\n\n\n"));
    assert!(!Board::fits("\n--------\n"));
    assert!(!Board::fits("\n\n\n\n\n\n\n\n*"));
    assert!(!Board::fits("\n-------\n-------\n-------\n-------\n-------\n-------\n-------\n \n"));
    assert!(Board::fits("--------"));
    assert!(!Board::fits("---------"));
}

#[test]
fn fits_looks_no_further_than_an_unknown_character() {
    assert!(Board::fits("\n---x--------------"));
    assert!(!Board::fits("\n--------x"));
    assert_eq!(
        Err(GridFormatError('x')),
        Board::deserialize("\n---x--------------")
    );
}
