use peg_solitaire::board::Board;
use peg_solitaire::board::Space::{Empty, NotPartOfBoard, Occupied};

#[test]
fn full_board_serialize() {
    let full_board = Board::new();
    let expected = "
  ***  
  ***  
*******
***-***
*******
  ***  
  ***  
";
    assert_eq!(expected, full_board.serialize());
    assert_eq!(full_board, Board::deserialize(expected).unwrap());
}

#[test]
fn non_full_board_serialize() {
    let non_full_board = Board::from_array(
         [
            [NotPartOfBoard,  NotPartOfBoard, Occupied, Occupied, Occupied, NotPartOfBoard,  NotPartOfBoard],
            [NotPartOfBoard,  NotPartOfBoard, Occupied, Empty,    Occupied, NotPartOfBoard,  NotPartOfBoard],
            [Occupied,        Empty,          Empty,    Occupied, Occupied, Occupied,        Occupied],
            [Occupied,        Occupied,       Occupied, Occupied, Occupied, Occupied,        Occupied],
            [Occupied,        Occupied,       Occupied, Occupied, Occupied, Occupied,        Occupied],
            [NotPartOfBoard,  NotPartOfBoard, Occupied, Occupied, Occupied, NotPartOfBoard,  NotPartOfBoard],
            [NotPartOfBoard,  NotPartOfBoard, Occupied, Occupied, Occupied, NotPartOfBoard,  NotPartOfBoard],
        ]
    );
    let expected = "
  ***  
  *-*  
*--****
*******
*******
  ***  
  ***  
";
    let got = non_full_board.serialize();
    assert_eq!(expected, got, "\nExpected: {}\nGot: {}", expected, got);
    assert_eq!(non_full_board, Board::deserialize(expected).unwrap());
}
