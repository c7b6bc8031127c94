use peg_solitaire::board::Board;
use peg_solitaire::move_struct::Move;
use peg_solitaire::position::Position;

#[test]
fn simples_move_list() {
    let board = Board::deserialize(
        "
  ---  
  ---  
-------
----*--
----*--
  ---  
  ---  
",
    )
    .unwrap();

    let mut expected = vec![
        Move {
            from: Position { x: 4, y: 4 },
            to: Position { x: 4, y: 2 },
        },
        Move {
            from: Position { x: 4, y: 3 },
            to: Position { x: 4, y: 5 },
        },
    ];

    let mut got = board.find_moves();

    // the order does not matter
    expected.sort();
    got.sort();

    assert_eq!(expected, got)
}

#[test]
fn three_piece_move_list() {
    let board = Board::deserialize(
        "
  ---  
  ---  
-------
----*--
----**-
  ---  
  ---  
",
    )
    .unwrap();

    let mut expected = vec![
        Move {
            from: Position { x: 4, y: 4 },
            to: Position { x: 4, y: 2 },
        },
        Move {
            from: Position { x: 4, y: 3 },
            to: Position { x: 4, y: 5 },
        },
        Move {
            from: Position { x: 4, y: 4 },
            to: Position { x: 6, y: 4 },
        },
        Move {
            from: Position { x: 5, y: 4 },
            to: Position { x: 3, y: 4 },
        },
    ];

    let mut got = board.find_moves();

    // the order does not matter
    expected.sort();
    got.sort();

    assert_eq!(expected, got)
}

#[test]
fn simplest_position_list() {
    let board = Board::deserialize(
        "
  ---  
  ---  
-------
----*--
----*--
  ---  
  ---  
",
    )
    .unwrap();

    let mut expected = vec![Position { x: 4, y: 4 }, Position { x: 4, y: 3 }];

    let mut got = board.find_pieces();

    // the order does not matter
    expected.sort();
    got.sort();

    assert_eq!(expected, got)
}
