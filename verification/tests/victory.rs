use gomoku::types::{Goban, GobanSize, Intersection, Player};
use gomoku::victory::{
    check_column_down, check_diagonal_down_left, check_diagonal_down_right, check_line_right,
};

#[test]
fn correct_line() {
    let mut goban = Goban::new(GobanSize::Small);
    for i in 0..5 {
        goban.board[i] = Intersection::OccupiedBy(Player::One);
    }
    assert_eq!(true, check_line_right(&goban, 0))
}

#[test]
fn incorrect_line_1() {
    let mut goban = Goban::new(GobanSize::Small);
    for i in 0..4 {
        goban.board[i] = Intersection::OccupiedBy(Player::One);
    }
    assert_eq!(false, check_line_right(&goban, 0))
}

#[test]
fn incorrect_line_2() {
    let mut goban = Goban::new(GobanSize::Small);
    for i in 1..6 {
        goban.board[i] = Intersection::OccupiedBy(Player::One);
    }
    assert_eq!(false, check_line_right(&goban, 0))
}

#[test]
fn incorrect_line_3() {
    let mut goban = Goban::new(GobanSize::Small);
    for i in 0..5 {
        goban.board[i] = Intersection::OccupiedBy(Player::One);
    }
    goban.board[2] = Intersection::OccupiedBy(Player::Two);
    assert_eq!(false, check_line_right(&goban, 0))
}

#[test]
fn incorrect_line_4() {
    let mut goban = Goban::new(GobanSize::Small);
    for i in 7..20 {
        goban.board[i] = Intersection::OccupiedBy(Player::One);
    }
    assert_eq!(false, check_line_right(&goban, 7))
}

#[test]
fn correct_column() {
    let mut goban = Goban::new(GobanSize::Small);
    for i in 0..5 {
        goban.board[i * goban.size] = Intersection::OccupiedBy(Player::Two);
    }
    assert_eq!(true, check_column_down(&goban, 0))
}

#[test]
fn incorrect_column_1() {
    let mut goban = Goban::new(GobanSize::Small);
    for i in 0..4 {
        goban.board[i * goban.size] = Intersection::OccupiedBy(Player::Two);
    }
    assert_eq!(false, check_column_down(&goban, 0))
}

#[test]
fn incorrect_column_2() {
    let mut goban = Goban::new(GobanSize::Small);
    for i in 0..5 {
        goban.board[i * goban.size] = Intersection::OccupiedBy(Player::Two);
    }
    assert_eq!(false, check_column_down(&goban, goban.size))
}

#[test]
fn incorrect_column_3() {
    let mut goban = Goban::new(GobanSize::Small);
    for i in 0..5 {
        goban.board[i * goban.size] = Intersection::OccupiedBy(Player::Two);
    }
    goban.board[goban.size * 2] = Intersection::OccupiedBy(Player::One);
    assert_eq!(false, check_column_down(&goban, 0))
}

#[test]
fn incorrect_column_4() {
    let mut goban = Goban::new(GobanSize::Small);
    for i in 5..8 {
        goban.board[i * goban.size] = Intersection::OccupiedBy(Player::Two);
    }
    assert_eq!(false, check_column_down(&goban, 5 * goban.size))
}

#[test]
fn correct_diag_down_right() {
    let mut goban = Goban::new(GobanSize::Small);
    for i in 0..5 {
        goban.board[i * goban.size + i] = Intersection::OccupiedBy(Player::Two);
    }
    assert_eq!(true, check_diagonal_down_right(&goban, 0))
}

#[test]
fn incorrect_diag_down_right_1() {
    let mut goban = Goban::new(GobanSize::Small);
    let start_pos: usize = 8;
    for i in 0..5 {
        goban.board[i * goban.size + start_pos + i] = Intersection::OccupiedBy(Player::Two);
    }
    assert_eq!(false, check_diagonal_down_right(&goban, start_pos))
}

#[test]
fn incorrect_diag_down_right_2() {
    let mut goban = Goban::new(GobanSize::Small);
    for i in 0..4 {
        goban.board[i * goban.size + i] = Intersection::OccupiedBy(Player::Two);
    }
    assert_eq!(false, check_diagonal_down_right(&goban, 0))
}

#[test]
fn incorrect_diag_down_right_3() {
    let mut goban = Goban::new(GobanSize::Small);
    for i in 0..5 {
        goban.board[i * goban.size + i] = Intersection::OccupiedBy(Player::Two);
    }
    goban.board[goban.size * 2 + 2] = Intersection::OccupiedBy(Player::One);
    assert_eq!(false, check_diagonal_down_right(&goban, 0))
}

#[test]
fn incorrect_diag_down_right_4() {
    let mut goban = Goban::new(GobanSize::Small);
    let start_line: usize = 6;
    for i in 0..3 {
        goban.board[(start_line + i) * goban.size + (i + start_line)] =
            Intersection::OccupiedBy(Player::Two);
    }
    assert_eq!(false, check_diagonal_down_right(&goban, start_line * goban.size))
}

#[test]
fn correct_diag_down_left() {
    let start_pos: usize = 8;
    let mut goban = Goban::new(GobanSize::Small);
    for i in 0..5 {
        goban.board[i * goban.size - i + start_pos] = Intersection::OccupiedBy(Player::Two);
    }
    assert_eq!(true, check_diagonal_down_left(&goban, start_pos))
}

#[test]
fn incorrect_diag_down_left_1() {
    let mut goban = Goban::new(GobanSize::Small);
    let start_pos: usize = 0;
    for i in 0..5 {
        goban.board[i * goban.size + start_pos - i] = Intersection::OccupiedBy(Player::Two);
    }
    assert_eq!(false, check_diagonal_down_left(&goban, start_pos))
}

#[test]
fn incorrect_diag_down_left_2() {
    let start_pos: usize = 8;
    let mut goban = Goban::new(GobanSize::Small);
    for i in 0..4 {
        goban.board[i * goban.size - i + start_pos] = Intersection::OccupiedBy(Player::Two);
    }
    assert_eq!(false, check_diagonal_down_left(&goban, start_pos))
}

#[test]
fn incorrect_diag_down_left_3() {
    let start_pos: usize = 8;
    let mut goban = Goban::new(GobanSize::Small);
    for i in 0..5 {
        goban.board[i * goban.size - i + start_pos] = Intersection::OccupiedBy(Player::Two);
    }
    goban.board[goban.size * 2 - 2 + start_pos] = Intersection::OccupiedBy(Player::One);
    assert_eq!(false, check_diagonal_down_left(&goban, start_pos))
}

#[test]
fn incorrect_diag_down_left_4() {
    let mut goban = Goban::new(GobanSize::Small);
    let start_line: usize = 6;
    let start_column: usize = 8;
    for i in 0..3 {
        goban.board[(start_line + i) * goban.size - i + start_column] =
            Intersection::OccupiedBy(Player::Two);
    }
    assert_eq!(false, check_diagonal_down_right(&goban, start_line * goban.size))
}
