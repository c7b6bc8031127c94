use peg_solitaire::board::Board;
use peg_solitaire::error::Error::GridFormatError;
use peg_solitaire::move_struct::Move;
use peg_solitaire::position::Position;
use peg_solitaire::solver::Solver;

#[test]
fn single_peg_is_solved_without_a_move() {
    let mut solver = Solver::from_str(
        "\n  ---  \n  ---  \n-------\n---*---\n-------\n  ---  \n  ---  \n",
    )
    .unwrap();
    assert_eq!(Some(Vec::<Move>::new()), solver.solve());
}

#[test]
fn pegs_out_of_reach_of_each_other_have_no_solution() {
    let text = "\n  *--  \n  ---  \n-------\n-------\n-------\n  ---  \n  --*  \n";
    assert!(Board::deserialize(text).unwrap().find_moves().is_empty());
    let mut solver = Solver::from_str(text).unwrap();
    assert_eq!(None, solver.solve());
}

#[test]
fn board_without_pegs_has_no_solution() {
    let mut solver = Solver::from_str(
        "\n  ---  \n  ---  \n-------\n-------\n-------\n  ---  \n  ---  \n",
    )
    .unwrap();
    assert_eq!(None, solver.solve());
}

#[test]
fn dead_end_after_the_only_move_has_no_solution() {
    let mut solver = Solver::from_str(
        "\n  ---  \n  ---  \n**----*\n-------\n-------\n  ---  \n  ---  \n",
    )
    .unwrap();
    assert_eq!(None, solver.solve());
}

#[test]
fn search_goes_back_to_the_next_move_after_a_dead_end() {
    let text = "\n  ---  \n  ---  \n-*-**--\n-------\n-------\n  ---  \n  ---  \n";
    let first_listed = Move {
        from: Position { x: 3, y: 2 },
        to: Position { x: 5, y: 2 },
    };
    let board = Board::deserialize(text).unwrap();
    assert_eq!(first_listed, board.find_moves()[0]);
    let dead_end = board
        .move_piece(first_listed.from, first_listed.to)
        .expect("valid move");
    assert!(dead_end.find_moves().is_empty());
    assert_eq!(2, dead_end.find_pieces().len());

    let mut solver = Solver::from_str(text).unwrap();
    assert_eq!(
        Some(vec![
            Move {
                from: Position { x: 4, y: 2 },
                to: Position { x: 2, y: 2 },
            },
            Move {
                from: Position { x: 1, y: 2 },
                to: Position { x: 3, y: 2 },
            },
        ]),
        solver.solve()
    );
}

#[test]
fn solver_can_be_asked_again() {
    let mut solver = Solver::from_str(
        "\n  ---  \n  ---  \n-*-*---\n----*--\n----*--\n  ---  \n  ---  \n",
    )
    .unwrap();
    let first = solver.solve();
    let second = solver.solve();
    assert!(first.is_some());
    assert_eq!(first, second);
}

#[test]
fn solver_refuses_text_with_an_unknown_character() {
    assert_eq!(
        Some(GridFormatError('o')),
        Solver::from_str("\n  ---  \n  -o-  \n").err()
    );
}

#[test]
fn starting_board_is_solved_in_thirty_one_moves() {
    let mut solver = Solver::new();
    let moves = solver.solve().expect("There is a valida solution here");
    assert_eq!(1, moves.len() % 2);
    assert_eq!(31, moves.len());

    let mut board = Board::new();
    for m in moves.iter() {
        assert!(board.find_moves().contains(m));
        board = board.move_piece(m.from, m.to).expect("valid move");
    }
    assert_eq!(1, board.find_pieces().len());
    assert!(board.find_moves().is_empty());
}

#[test]
fn starting_board_is_solved_by_the_first_moves_in_listing_order() {
    let coordinates: Vec<(usize, usize, usize, usize)> = vec![
        (3, 1, 3, 3),
        (1, 2, 3, 2),
        (2, 0, 2, 2),
        (4, 0, 2, 0),
        (3, 2, 1, 2),
        (0, 2, 2, 2),
        (4, 2, 4, 0),
        (6, 2, 4, 2),
        (2, 3, 2, 1),
        (2, 0, 2, 2),
        (0, 3, 2, 3),
        (2, 3, 2, 1),
        (4, 3, 2, 3),
        (6, 3, 4, 3),
        (4, 3, 4, 1),
        (4, 0, 4, 2),
        (2, 4, 2, 2),
        (2, 1, 2, 3),
        (0, 4, 2, 4),
        (3, 4, 1, 4),
        (4, 5, 4, 3),
        (6, 4, 4, 4),
        (2, 6, 2, 4),
        (2, 3, 2, 5),
        (4, 6, 2, 6),
        (2, 6, 2, 4),
        (1, 4, 3, 4),
        (3, 4, 5, 4),
        (4, 2, 4, 4),
        (5, 4, 3, 4),
        (3, 4, 3, 6),
    ];
    let expected: Vec<Move> = coordinates
        .iter()
        .map(|c| Move {
            from: Position { x: c.0, y: c.1 },
            to: Position { x: c.2, y: c.3 },
        })
        .collect();
    assert_eq!(Some(expected), Solver::new().solve());
}

#[test]
fn solver_for_the_text_of_the_starting_board_finds_the_same_moves() {
    let mut from_text = Solver::from_str(&Board::new().serialize()).unwrap();
    let mut from_start = Solver::new();
    assert_eq!(from_start.solve(), from_text.solve());
}
