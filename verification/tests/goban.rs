use gomoku::types::{Goban, GobanSize, Intersection, MoveError, Player};

// new

#[test]
fn new_working() {
    let sizes = [GobanSize::Small, GobanSize::Medium, GobanSize::Large];
    for val in sizes {
        let goban = Goban::new(val);

        let size: usize = val.side();

        assert_eq!(goban.size, size);
        assert_eq!(Intersection::Empty, goban.board[size * size - 1]);
    }
}

// set

#[test]
fn set_valid() {
    let mut goban = Goban::new(GobanSize::Large);

    assert_eq!(Ok(()), goban.set((10, 10), Intersection::OccupiedBy(Player::One)));
}

#[test]
fn set_out_of_bounds() {
    let mut goban = Goban::new(GobanSize::Large);

    assert_eq!(
        Err(MoveError::OutOfBounds),
        goban.set((10, 42), Intersection::OccupiedBy(Player::One))
    );
    assert_eq!(
        Err(MoveError::OutOfBounds),
        goban.set((42, 10), Intersection::OccupiedBy(Player::One))
    );
}

// get

#[test]
fn get_valid() {
    let goban = Goban::new(GobanSize::Large);

    assert_eq!(Ok(Intersection::Empty), goban.get((10, 10)));
}

#[test]
fn get_out_of_bounds() {
    let goban = Goban::new(GobanSize::Large);

    assert_eq!(Err(MoveError::OutOfBounds), goban.get((19, 10)));
    assert_eq!(Err(MoveError::OutOfBounds), goban.get((10, 19)));
}

// check_capture

#[test]
fn check_capture_valid() {
    let mut goban = Goban::new(GobanSize::Large);

    // One, Two, Two, One is a capture for One
    goban.set((0, 0), Intersection::OccupiedBy(Player::One)).unwrap();
    goban.set((0, 1), Intersection::OccupiedBy(Player::Two)).unwrap();
    goban.set((0, 2), Intersection::OccupiedBy(Player::Two)).unwrap();
    goban.set((0, 3), Intersection::OccupiedBy(Player::One)).unwrap();

    assert_eq!(2, goban.check_capture((0, 3), Player::One));

    // check that the capture has been performed
    assert_eq!(Ok(Intersection::OccupiedBy(Player::One)), goban.get((0, 0)));
    assert_eq!(Ok(Intersection::Empty), goban.get((0, 1)));
    assert_eq!(Ok(Intersection::Empty), goban.get((0, 2)));
    assert_eq!(Ok(Intersection::OccupiedBy(Player::One)), goban.get((0, 3)));
}

#[test]
fn check_capture_double() {
    let mut goban = Goban::new(GobanSize::Large);

    goban.set((0, 0), Intersection::OccupiedBy(Player::One)).unwrap();
    goban.set((0, 1), Intersection::OccupiedBy(Player::Two)).unwrap();
    goban.set((0, 2), Intersection::OccupiedBy(Player::Two)).unwrap();
    goban.set((0, 3), Intersection::OccupiedBy(Player::One)).unwrap();
    goban.set((0, 4), Intersection::OccupiedBy(Player::Two)).unwrap();
    goban.set((0, 5), Intersection::OccupiedBy(Player::Two)).unwrap();
    goban.set((0, 6), Intersection::OccupiedBy(Player::One)).unwrap();

    assert_eq!(4, goban.check_capture((0, 3), Player::One));

    // check that the capture has been performed
    assert_eq!(Ok(Intersection::OccupiedBy(Player::One)), goban.get((0, 0)));
    assert_eq!(Ok(Intersection::Empty), goban.get((0, 1)));
    assert_eq!(Ok(Intersection::Empty), goban.get((0, 2)));
    assert_eq!(Ok(Intersection::OccupiedBy(Player::One)), goban.get((0, 3)));
    assert_eq!(Ok(Intersection::Empty), goban.get((0, 4)));
    assert_eq!(Ok(Intersection::Empty), goban.get((0, 5)));
    assert_eq!(Ok(Intersection::OccupiedBy(Player::One)), goban.get((0, 6)));
}

#[test]
fn check_capture_none() {
    let mut goban = Goban::new(GobanSize::Large);

    // One, Two, One is not a capture
    goban.set((0, 0), Intersection::OccupiedBy(Player::One)).unwrap();
    goban.set((0, 1), Intersection::OccupiedBy(Player::Two)).unwrap();

    assert_eq!(0, goban.check_capture((0, 2), Player::One));

    // One, Two, gap, One is not a capture
    assert_eq!(0, goban.check_capture((0, 3), Player::One));

    // One, Two, Two, Two, One is not a capture
    goban.set((0, 2), Intersection::OccupiedBy(Player::Two)).unwrap();
    goban.set((0, 3), Intersection::OccupiedBy(Player::Two)).unwrap();

    assert_eq!(0, goban.check_capture((0, 4), Player::One));
}

// check_alignment

#[test]
fn check_alignment_none() {
    let goban = Goban::new(GobanSize::Large);

    // invalid usage
    assert_eq!(
        None,
        goban.check_alignment((0, 0), (1, 0), -1, Intersection::OccupiedBy(Player::One))
    );

    // out of bounds
    assert_eq!(
        None,
        goban.check_alignment((0, 0), (-1, 0), 1, Intersection::OccupiedBy(Player::One))
    );
    assert_eq!(
        None,
        goban.check_alignment((0, 0), (0, -1), 1, Intersection::OccupiedBy(Player::One))
    );
    assert_eq!(
        None,
        goban.check_alignment((18, 18), (1, 0), 1, Intersection::OccupiedBy(Player::One))
    );
    assert_eq!(
        None,
        goban.check_alignment((18, 18), (0, 1), 1, Intersection::OccupiedBy(Player::One))
    );
}

#[test]
fn check_alignment_expected() {
    let mut goban = Goban::new(GobanSize::Large);

    goban.set((0, 1), Intersection::OccupiedBy(Player::One)).unwrap();

    // should return the position it checks for
    assert_eq!(
        Some((0, 1)),
        goban.check_alignment((0, 0), (0, 1), 1, Intersection::OccupiedBy(Player::One))
    );
    // should return None if the expected doesn't match
    assert_eq!(
        None,
        goban.check_alignment((0, 0), (0, 1), 1, Intersection::OccupiedBy(Player::Two))
    );
}

// is_move_valid

#[test]
fn is_move_valid() {
    let mut goban = Goban::new(GobanSize::Large);

    goban.set((1, 1), Intersection::OccupiedBy(Player::One)).unwrap();

    assert_eq!(Ok(()), goban.is_move_valid((0, 0)));
    assert_eq!(Err(MoveError::CellOccupied), goban.is_move_valid((1, 1)));
    assert_eq!(Err(MoveError::OutOfBounds), goban.is_move_valid((100, 1)));
    assert_eq!(Err(MoveError::OutOfBounds), goban.is_move_valid((1, 100)));
}

// play

#[test]
fn play_out_of_bounds() {
    let mut goban = Goban::new(GobanSize::Medium);

    assert_eq!(Err(MoveError::OutOfBounds), goban.play(Player::One, (14, 0)));
    assert_eq!(Err(MoveError::OutOfBounds), goban.play(Player::One, (0, 14)));
}

#[test]
fn play_valid() {
    let mut goban = Goban::new(GobanSize::Large);

    assert_eq!(Ok(Intersection::Empty), goban.get((10, 5)));
    assert_eq!(Ok(1), goban.play(Player::One, (10, 5)));
    assert_eq!(Ok(Intersection::OccupiedBy(Player::One)), goban.get((10, 5)));
}
