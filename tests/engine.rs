use socha::incoming::{ReceivedDirection, ReceivedLastMove, ReicevedFromPos};
use socha::internal::{Board, GameState};
use socha::neutral::{Direction, Move, PiranhaField, Size, Team};

fn fish(team: Team) -> PiranhaField {
    PiranhaField::Fish { team, size: Size::S }
}

fn board_with(cells: &[(usize, usize, PiranhaField)]) -> Board {
    let mut b = Board::empty();
    for (x, y, f) in cells {
        *b.get_mut(*x, *y) = *f;
    }
    b
}

#[test]
fn run_length_single_piece_is_one() {
    let b = board_with(&[(4, 4, fish(Team::One))]);
    for dir in [Direction::UP, Direction::Right, Direction::UpRight, Direction::DownRight] {
        assert_eq!(b.count_fishes_on_axis(4, 4, dir), 1);
    }
    let b = board_with(&[(4, 7, fish(Team::Two))]);
    assert_eq!(b.count_fishes_on_axis(4, 2, Direction::UP), 1);
    assert_eq!(b.count_fishes_on_axis(4, 2, Direction::Right), 0);
}

#[test]
fn run_length_counts_both_sides() {
    let b = board_with(&[
        (4, 4, fish(Team::One)),
        (4, 0, fish(Team::Two)),
        (4, 9, fish(Team::One)),
        (5, 5, fish(Team::One)),
    ]);
    assert_eq!(b.count_fishes_on_axis(4, 4, Direction::UP), 3);
    assert_eq!(b.count_fishes_on_axis(4, 4, Direction::Down), 3);
    assert_eq!(b.count_fishes_on_axis(4, 4, Direction::UpRight), 2);
    assert_eq!(b.count_fishes_on_axis(4, 4, Direction::Left), 1);
    let b2 = board_with(&[(4, 4, fish(Team::One)), (4, 0, fish(Team::Two)), (4, 9, fish(Team::One)), (4, 6, PiranhaField::Squid)]);
    assert_eq!(b2.count_fishes_on_axis(4, 4, Direction::UP), 3);
}

#[test]
fn legality_boundaries() {
    let b = board_with(&[
        (0, 0, fish(Team::One)),
        (0, 1, fish(Team::Two)),
        (2, 0, fish(Team::Two)),
        (0, 4, PiranhaField::Squid),
        (3, 3, fish(Team::One)),
    ]);
    // zero distance
    assert!(!Board::check_allowed(&b, 0, 0, Direction::UP, 0, Team::One));
    // opposing piece passed over
    assert!(!Board::check_allowed(&b, 0, 0, Direction::UP, 2, Team::One));
    // landing exactly on an opposing piece
    assert!(Board::check_allowed(&b, 0, 0, Direction::UP, 1, Team::One));
    assert!(Board::check_allowed(&b, 0, 0, Direction::Right, 2, Team::One));
    // obstacle and own piece as destination
    let c = board_with(&[(0, 0, fish(Team::One)), (0, 4, PiranhaField::Squid), (3, 3, fish(Team::One))]);
    assert!(!Board::check_allowed(&c, 0, 0, Direction::UP, 4, Team::One));
    assert!(!Board::check_allowed(&c, 0, 0, Direction::UpRight, 3, Team::One));
    assert!(Board::check_allowed(&c, 0, 0, Direction::UpRight, 2, Team::One));
    // leaving the board
    assert!(!Board::check_allowed(&c, 0, 0, Direction::Left, 1, Team::One));
    assert!(Board::in_bounds(9, 0));
    assert!(!Board::in_bounds(10, 0));
    assert!(!Board::in_bounds(0, -1));
}

#[test]
fn moves_of_the_side_to_move() {
    let b = board_with(&[(0, 0, fish(Team::One)), (9, 9, fish(Team::Two))]);
    let s = GameState::new_with_board(b, Team::One);
    let moves = s.possible_moves();
    assert_eq!(moves.len(), 3);
    assert!(moves.contains(&Move { from: (0, 0), dir: Direction::UP }));
    assert!(moves.contains(&Move { from: (0, 0), dir: Direction::Right }));
    assert!(moves.contains(&Move { from: (0, 0), dir: Direction::UpRight }));
    let mut s2 = GameState::new_with_board(board_with(&[(0, 0, fish(Team::One)), (9, 9, fish(Team::Two))]), Team::One);
    s2.turn = 1;
    assert_eq!(s2.current_team(), Team::Two);
    assert!(s2.possible_moves().iter().all(|m| m.from == (9, 9)));
}

#[test]
fn make_and_unmake_a_capture() {
    let b = board_with(&[(0, 0, fish(Team::One)), (0, 1, fish(Team::Two))]);
    let mut s = GameState::new_with_board(b.clone(), Team::One);
    // two pieces on the column: the piece travels two squares up
    let change = s.make_move(Move { from: (0, 0), dir: Direction::UP });
    assert_eq!(*s.board.get(0, 0), PiranhaField::Empty);
    assert_eq!(*s.board.get(0, 2), fish(Team::One));
    assert_eq!(*s.board.get(0, 1), fish(Team::Two));
    s.unmake_move(change);
    assert_eq!(s.board, b);

    let mut s = GameState::new_with_board(b.clone(), Team::Two);
    let change = s.make_move(Move { from: (0, 1), dir: Direction::Down });
    assert_eq!(change.fish_at_final, Some(fish(Team::One)));
    assert_eq!(*s.board.get(0, 0), fish(Team::Two));
    s.unmake_move(change);
    assert_eq!(s.board, b);
}

#[test]
fn goal_position_is_clamped() {
    let m = Move { from: (8, 1), dir: Direction::DownRight };
    assert_eq!(m.to_goal_pos(1), (9, 0));
    assert_eq!(m.to_goal_pos(5), (9, 0));
    let m = Move { from: (2, 3), dir: Direction::UpLeft };
    assert_eq!(m.to_goal_pos(2), (0, 5));
}

#[test]
fn tokens_and_deltas() {
    assert_eq!(Direction::from_token("UP_LEFT"), Ok(Direction::UpLeft));
    assert!(Direction::from_token("NORTH").is_err());
    assert_eq!(Direction::DownLeft.to_string(), "DOWN_LEFT");
    assert_eq!(Direction::DownLeft.to_delta(), (-1, -1));
    assert_eq!(Direction::from_positions((3, 3, 3, 1)), Ok(Direction::UP));
    assert_eq!(Direction::from_positions((3, 3, 5, 5)), Ok(Direction::DownRight));
    assert!(Direction::from_positions((3, 3, 3, 3)).is_err());
    assert_eq!(Team::try_from("TWO"), Ok(Team::Two));
    assert!(Team::try_from("two").is_err());
    assert_eq!(Team::One.opponent(), Team::Two);
    assert_eq!(Team::Two.to_string(), "TWO");
    assert_eq!(Size::M.to_string(), "M");
    assert_eq!(PiranhaField::from_str(" ONE_L "), Ok(PiranhaField::Fish { team: Team::One, size: Size::L }));
    assert_eq!(PiranhaField::from_str("SQUID"), Ok(PiranhaField::Squid));
    assert!(PiranhaField::from_str("ONE_L_S").is_err());
    assert!(PiranhaField::from_str("ONE").is_err());
    assert_eq!(PiranhaField::Fish { team: Team::Two, size: Size::S }.to_string(), "TWO_S");
}

#[test]
fn last_move_is_decoded() {
    let lm = ReceivedLastMove {
        from: Some(ReicevedFromPos { x: 2, y: 7 }),
        direction: Some(ReceivedDirection { value: "LEFT".to_string() }),
    };
    assert_eq!(Move::try_from(&lm), Ok(Move { from: (2, 7), dir: Direction::Left }));
    let lm = ReceivedLastMove { from: None, direction: None };
    assert!(Move::try_from(&lm).is_err());
}

#[test]
fn board_text_rows_top_first() {
    let b = board_with(&[(0, 9, fish(Team::Two)), (9, 0, PiranhaField::Squid)]);
    let text = b.to_string();
    let lines: Vec<&str> = text.lines().collect();
    assert_eq!(lines.len(), 10);
    let empty = format!("{:<12} ", "EMPTY");
    assert_eq!(lines[0], format!("{:<12} {}", "TWO_S", empty.repeat(9)));
    assert_eq!(lines[9], format!("{}{:<12} ", empty.repeat(9), "SQUID"));
    assert_eq!(lines[4], empty.repeat(10));
    assert!(text.ends_with('\n'));
}

#[test]
fn moves_come_in_scan_order() {
    let b = board_with(&[
        (5, 0, fish(Team::One)),
        (1, 3, fish(Team::One)),
        (0, 0, fish(Team::One)),
        (9, 9, fish(Team::Two)),
    ]);
    let s = GameState::new_with_board(b, Team::One);
    let moves = s.possible_moves();
    assert_eq!(moves, s.possible_moves());
    let order = [
        Direction::Left,
        Direction::Right,
        Direction::UP,
        Direction::Down,
        Direction::UpLeft,
        Direction::UpRight,
        Direction::DownLeft,
        Direction::DownRight,
    ];
    let key = |m: &Move| {
        (m.from.1, m.from.0, order.iter().position(|d| *d == m.dir).unwrap())
    };
    for w in moves.windows(2) {
        assert!(key(&w[0]) < key(&w[1]));
    }
    assert_eq!(moves[0].from, (0, 0));
    assert_eq!(moves[moves.len() - 1].from, (1, 3));
}
