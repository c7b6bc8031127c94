use peg_solitaire::board::Board;
use peg_solitaire::board::Space::{Empty, Occupied};
use peg_solitaire::move_struct::Move;
use peg_solitaire::position::Position;

#[test]
fn neighbors_in_the_middle_come_in_a_fixed_order() {
    let board = Board::new();
    assert_eq!(
        vec![
            Position { x: 1, y: 3 },
            Position { x: 5, y: 3 },
            Position { x: 3, y: 1 },
            Position { x: 3, y: 5 },
        ],
        board.neighbors(Position { x: 3, y: 3 })
    );
}

#[test]
fn neighbors_beyond_the_edge_are_left_out() {
    let board = Board::new();
    assert_eq!(
        vec![Position { x: 2, y: 0 }, Position { x: 0, y: 2 }],
        board.neighbors(Position { x: 0, y: 0 })
    );
    assert_eq!(
        vec![Position { x: 4, y: 6 }, Position { x: 6, y: 4 }],
        board.neighbors(Position { x: 6, y: 6 })
    );
    assert_eq!(
        vec![
            Position { x: 3, y: 5 },
            Position { x: 1, y: 3 },
        ],
        board.neighbors(Position { x: 1, y: 5 })
    );
    assert_eq!(
        vec![
            Position { x: 3, y: 1 },
            Position { x: 5, y: 3 },
        ],
        board.neighbors(Position { x: 5, y: 1 })
    );
    assert_eq!(
        vec![
            Position { x: 0, y: 4 },
            Position { x: 4, y: 4 },
            Position { x: 2, y: 2 },
            Position { x: 2, y: 6 },
        ],
        board.neighbors(Position { x: 2, y: 4 })
    );
}

#[test]
fn pieces_are_found_row_by_row() {
    let board = Board::deserialize(
        "\n  ---  \n  -*-  \n*-----*\n-------\n---**--\n  ---  \n  *--  \n",
    )
    .unwrap();
    assert_eq!(
        vec![
            Position { x: 3, y: 1 },
            Position { x: 0, y: 2 },
            Position { x: 6, y: 2 },
            Position { x: 3, y: 4 },
            Position { x: 4, y: 4 },
            Position { x: 2, y: 6 },
        ],
        board.find_pieces()
    );
}

#[test]
fn moves_are_listed_peg_by_peg_in_neighbor_order() {
    let board = Board::deserialize(
        "\n  ---  \n  ---  \n-------\n----*--\n----**-\n  ---  \n  ---  \n",
    )
    .unwrap();
    assert_eq!(
        vec![
            Move {
                from: Position { x: 4, y: 3 },
                to: Position { x: 4, y: 5 },
            },
            Move {
                from: Position { x: 4, y: 4 },
                to: Position { x: 6, y: 4 },
            },
            Move {
                from: Position { x: 4, y: 4 },
                to: Position { x: 4, y: 2 },
            },
            Move {
                from: Position { x: 5, y: 4 },
                to: Position { x: 3, y: 4 },
            },
        ],
        board.find_moves()
    );
}

#[test]
fn starting_board_allows_four_moves_into_the_centre() {
    let centre = Position { x: 3, y: 3 };
    assert_eq!(
        vec![
            Move {
                from: Position { x: 3, y: 1 },
                to: centre,
            },
            Move {
                from: Position { x: 1, y: 3 },
                to: centre,
            },
            Move {
                from: Position { x: 5, y: 3 },
                to: centre,
            },
            Move {
                from: Position { x: 3, y: 5 },
                to: centre,
            },
        ],
        Board::new().find_moves()
    );
}

#[test]
fn listed_moves_are_exactly_the_legal_ones() {
    let mut board = Board::new();
    for _ in 0..12 {
        let listed = board.find_moves();
        for i in 0..49usize {
            for j in 0..49usize {
                let m = Move {
                    from: Position { x: i % 7, y: i / 7 },
                    to: Position { x: j % 7, y: j / 7 },
                };
                assert_eq!(board.valid_move(m).is_ok(), listed.contains(&m));
            }
        }
        if listed.is_empty() {
            break;
        }
        let m = listed[listed.len() - 1];
        board = board.move_piece(m.from, m.to).expect("valid move");
    }
}

#[test]
fn isolated_peg_has_no_move() {
    let board = Board::deserialize(
        "\n  ---  \n  ---  \n-------\n---*---\n-------\n  ---  \n  ---  \n",
    )
    .unwrap();
    assert_eq!(vec![Position { x: 3, y: 3 }], board.find_pieces());
    assert_eq!(Vec::<Move>::new(), board.find_moves());
}

#[test]
fn pegs_do_not_jump_out_of_the_playing_area() {
    let mut rows = [[Empty; 7]; 7];
    rows[0][2] = Occupied;
    rows[0][3] = Occupied;
    let board = Board::from_array(rows);
    assert_eq!(
        vec![
            Move {
                from: Position { x: 2, y: 0 },
                to: Position { x: 4, y: 0 },
            },
            Move {
                from: Position { x: 3, y: 0 },
                to: Position { x: 1, y: 0 },
            },
        ],
        board.find_moves()
    );
    let board = Board::deserialize(
        "\n  **-  \n  ---  \n-------\n-------\n-------\n  ---  \n  ---  \n",
    )
    .unwrap();
    assert_eq!(
        vec![Move {
            from: Position { x: 2, y: 0 },
            to: Position { x: 4, y: 0 },
        }],
        board.find_moves()
    );
}
