use zikzakzoo_core::Board;
use zikzakzoo_core::Cell;
use zikzakzoo_core::Player;
use zikzakzoo_core::render_board;

#[test]
fn players_carry_their_marks() {
    let human = Player { symbol: Cell::Z };
    let computer = Player { symbol: Cell::K };
    assert_eq!(human.symbol, Cell::Z);
    assert_eq!(computer.symbol, Cell::K);
    assert_ne!(human.symbol, computer.symbol);
}

#[test]
fn new_board_is_empty() {
    let b = Board::new();
    assert_eq!(b.get_empty_cells(), vec![0, 1, 2, 3, 4, 5, 6, 7, 8]);
    assert!(!b.is_full());
    assert_eq!(b.check_winner(), None);
}

#[test]
fn make_move_rules() {
    let mut b = Board::new();
    assert!(b.make_move(4, Cell::Z));
    assert!(!b.make_move(4, Cell::K));
    assert!(!b.make_move(9, Cell::K));
    assert_eq!(b.cells[4], Cell::Z);
    assert!(b.is_legal_move(0));
    assert!(!b.is_legal_move(4));
    assert!(!b.is_legal_move(9));
    assert_eq!(b.get_empty_cells(), vec![0, 1, 2, 3, 5, 6, 7, 8]);
}

#[test]
fn winner_rows_cols_diagonals() {
    let mut b = Board::new();
    b.make_move(0, Cell::Z);
    b.make_move(1, Cell::Z);
    b.make_move(2, Cell::Z);
    assert_eq!(b.check_winner(), Some(Cell::Z));

    let mut b = Board::new();
    b.make_move(1, Cell::K);
    b.make_move(4, Cell::K);
    b.make_move(7, Cell::K);
    assert_eq!(b.check_winner(), Some(Cell::K));

    let mut b = Board::new();
    b.make_move(0, Cell::Z);
    b.make_move(4, Cell::Z);
    b.make_move(8, Cell::Z);
    assert_eq!(b.check_winner(), Some(Cell::Z));

    let mut b = Board::new();
    b.make_move(2, Cell::K);
    b.make_move(4, Cell::K);
    b.make_move(6, Cell::K);
    assert_eq!(b.check_winner(), Some(Cell::K));
}

#[test]
fn full_board_without_winner_has_none() {
    let marks = [
        Cell::Z,
        Cell::K,
        Cell::Z,
        Cell::Z,
        Cell::K,
        Cell::K,
        Cell::K,
        Cell::Z,
        Cell::Z,
    ];
    let mut b = Board::new();
    for i in 0..9 {
        assert!(b.make_move(i, marks[i]));
    }
    assert!(b.is_full());
    assert_eq!(b.check_winner(), None);
    assert_eq!(b.get_empty_cells(), Vec::<usize>::new());
}

#[test]
fn queries_are_idempotent() {
    let mut b = Board::new();
    b.make_move(3, Cell::Z);
    b.make_move(5, Cell::K);
    assert_eq!(b.check_winner(), b.check_winner());
    assert_eq!(b.get_empty_cells(), b.get_empty_cells());
    assert_eq!(b.is_full(), b.is_full());
}

#[test]
fn render_empty_board() {
    let b = Board::new();
    assert_eq!(render_board(&b), "0|1|2\n-+-+-\n3|4|5\n-+-+-\n6|7|8\n\n");
}

#[test]
fn render_marked_board() {
    let mut b = Board::new();
    b.make_move(0, Cell::Z);
    b.make_move(4, Cell::K);
    assert_eq!(render_board(&b), "Z|1|2\n-+-+-\n3|K|5\n-+-+-\n6|7|8\n\n");
}
