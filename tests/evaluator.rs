#![allow(non_snake_case)]

use tictactoe::board::Cell;
use tictactoe::board::CellValue::{Empty, Human, CPU};
use tictactoe::board::{Board, CellValue};
use tictactoe::evaluator::Evaluator;

fn grid(marks: [CellValue; 9]) -> Vec<Cell> {
    let mut cells = vec![];
    for (i, value) in marks.iter().enumerate() {
        cells.push(Cell { row: (i / 3) as u8, column: (i % 3) as u8, value: *value });
    }
    cells
}

#[test]
fn test_eval_diagonal_win__when__there_is_a_win() {
    let evaluator = Evaluator {};
    let first_diagonal: Vec<(u8, u8)> =
        vec![(0 as u8, 0 as u8), (1 as u8, 1 as u8), (2 as u8, 2 as u8)];
    let human_win_cell_1 = Cell {
        row: 0,
        column: 0,
        value: Human,
    };
    let mut human_win_cell_2 = human_win_cell_1.clone();
    human_win_cell_2.row = 1;
    human_win_cell_2.column = 1;
    let mut human_win_cell_3 = human_win_cell_1.clone();
    human_win_cell_3.row = 2;
    human_win_cell_3.column = 2;
    let cells = vec![human_win_cell_1, human_win_cell_2, human_win_cell_3];

    let actual = evaluator.eval_diagonal_win(cells, first_diagonal, Human);
    let expected = true;

    assert_eq!(actual, expected);
}

#[test]
fn test_evaluate__when__human_row_win() {
    let evaluator = Evaluator {};
    let cells = vec![(0, 0), (0, 1), (0, 2)]
        .into_iter()
        .map(|(row, column)| Cell {
            row,
            column,
            value: Human,
        })
        .collect();

    let actual = evaluator.evaluate(cells);
    let expected = 10;

    assert_eq!(actual, expected);
}

#[test]
fn test_evaluate__when__cpu_row_win() {
    let evaluator = Evaluator {};
    let cells: Vec<Cell> = vec![(0, 0), (0, 1), (0, 2), (1, 0), (1, 1), (1, 2)]
        .into_iter()
        .map(|(row, column)| Cell {
            row,
            column,
            value: Empty,
        })
        .collect();
    let win_cells: Vec<Cell> = vec![(2, 0), (2, 1), (2, 2)]
        .into_iter()
        .map(|(row, column)| Cell {
            row,
            column,
            value: CPU,
        })
        .collect();

    let x = cells.into_iter().chain(win_cells.into_iter()).collect();

    let actual = evaluator.evaluate(x);
    let expected = -10;

    assert_eq!(actual, expected);
}

#[test]
fn test_evaluate__when__human_column_win() {
    let evaluator = Evaluator {};
    let cells = vec![(0, 0), (1, 0), (2, 0)]
        .into_iter()
        .map(|(row, column)| Cell {
            row,
            column,
            value: Human,
        })
        .collect();

    let actual = evaluator.evaluate(cells);
    let expected = 10;

    assert_eq!(actual, expected);
}

#[test]
fn test_evaluate__when__cpu_column_win() {
    let evaluator = Evaluator {};
    let cells = vec![(0, 0), (1, 0), (2, 0)]
        .into_iter()
        .map(|(row, column)| Cell {
            row,
            column,
            value: CPU,
        })
        .collect();

    let actual = evaluator.evaluate(cells);
    let expected = -10;

    assert_eq!(actual, expected);
}

#[test]
fn test_evaluate__when__human_diagonal_1_win() {
    let evaluator = Evaluator {};
    let mut cells: Vec<Cell> = vec![(0, 2), (2, 0)]
        .into_iter()
        .map(|(row, column)| Cell {
            row,
            column,
            value: Empty,
        })
        .collect();
    let win_cells: Vec<Cell> = vec![(0, 0), (1, 1), (2, 2)]
        .into_iter()
        .map(|(row, column)| Cell {
            row,
            column,
            value: Human,
        })
        .collect();
    cells.extend(win_cells.into_iter());

    let actual = evaluator.evaluate(cells);
    let expected = 10;

    assert_eq!(actual, expected);
}

#[test]
fn test_evaluate__when__human_diagonal_2_win() {
    let evaluator = Evaluator {};
    let mut cells: Vec<Cell> = vec![(0, 0), (2, 2)]
        .into_iter()
        .map(|(row, column)| Cell {
            row,
            column,
            value: Empty,
        })
        .collect();
    let win_cells: Vec<Cell> = vec![(0, 2), (1, 1), (2, 0)]
        .into_iter()
        .map(|(row, column)| Cell {
            row,
            column,
            value: Human,
        })
        .collect();
    cells.extend(win_cells.into_iter());

    let actual = evaluator.evaluate(cells);
    let expected = 10;

    assert_eq!(actual, expected);
}

#[test]
fn test_evaluate__when__cpu_diagonal_1_win() {
    let evaluator = Evaluator {};
    let mut cells: Vec<Cell> = vec![(0, 2), (2, 0)]
        .into_iter()
        .map(|(row, column)| Cell {
            row,
            column,
            value: Empty,
        })
        .collect();
    let win_cells: Vec<Cell> = vec![(0, 0), (1, 1), (2, 2)]
        .into_iter()
        .map(|(row, column)| Cell {
            row,
            column,
            value: CPU,
        })
        .collect();
    cells.extend(win_cells.into_iter());

    let actual = evaluator.evaluate(cells);
    let expected = -10;

    assert_eq!(actual, expected);
}

#[test]
fn test_evaluate__when__cpu_diagonal_2_win() {
    let evaluator = Evaluator {};
    let mut cells: Vec<Cell> = vec![(0, 0), (2, 2)]
        .into_iter()
        .map(|(row, column)| Cell {
            row,
            column,
            value: Empty,
        })
        .collect();
    let win_cells: Vec<Cell> = vec![(0, 2), (1, 1), (2, 0)]
        .into_iter()
        .map(|(row, column)| Cell {
            row,
            column,
            value: CPU,
        })
        .collect();
    cells.extend(win_cells.into_iter());

    let actual = evaluator.evaluate(cells);
    let expected = -10;

    assert_eq!(actual, expected);
}

#[test]
fn test_evaluate__when__no_win() {
    let evaluator = Evaluator {};
    let cells = vec![(0, 0), (0, 1), (0, 2)]
        .into_iter()
        .map(|(row, column)| Cell {
            row,
            column,
            value: Empty,
        })
        .collect();

    let actual = evaluator.evaluate(cells);
    let expected = 0;

    assert_eq!(actual, expected);
}

#[test]
fn test_minimax__when__player_won() {
    let mut evaluator = Evaluator {};
    let cells = vec![(0, 0), (0, 1), (0, 2)]
        .into_iter()
        .map(|(row, column)| Cell {
            row,
            column,
            value: Human,
        })
        .collect();

    let actual = evaluator.minimax(cells, 0);
    let expected = 10;

    assert_eq!(actual, expected);
}

#[test]
fn test_minimax__when__cpu_won() {
    let mut evaluator = Evaluator {};
    let cells = vec![(0, 0), (0, 1), (0, 2)]
        .into_iter()
        .map(|(row, column)| Cell {
            row,
            column,
            value: CPU,
        })
        .collect();

    let actual = evaluator.minimax(cells, 0);
    let expected = -10;

    assert_eq!(actual, expected);
}

#[test]
fn test_minimax__when__no_moves_left() {
    let mut evaluator = Evaluator {};
    let mut cpu_cells: Vec<Cell> = vec![(0, 0), (0, 2), (1, 0), (1, 2), (2, 1)]
        .into_iter()
        .map(|(row, column)| Cell {
            row,
            column,
            value: CPU,
        })
        .collect();

    let human_cells: Vec<Cell> = vec![(0, 1), (1, 1), (2, 0), (2, 2)]
        .into_iter()
        .map(|(row, column)| Cell {
            row,
            column,
            value: Human,
        })
        .collect();

    cpu_cells.extend(human_cells.into_iter());

    let actual = evaluator.minimax(cpu_cells, 0);
    let expected = 0;

    assert_eq!(actual, expected);
}

#[test]
fn test_find_best_move__when__middle_cell_available() {
    let mut evaluator = Evaluator {};
    let cells: Vec<Cell> = vec![
        (0, 0, Human),
        (0, 1, Empty),
        (0, 2, Empty),
        (1, 0, Empty),
        (1, 1, Empty),
        (1, 2, Empty),
        (2, 0, Empty),
        (2, 1, Empty),
        (2, 2, Empty),
    ]
    .into_iter()
    .map(|(row, column, value)| Cell { row, column, value })
    .collect();

    let actual = evaluator.find_best_move(cells);
    let expected = Cell {
        row: 1,
        column: 1,
        value: CPU,
    };

    assert_eq!(actual, expected);
}

#[test]
fn test_find_best_move__when__diagonal_loss_at_risk() {
    let mut evaluator = Evaluator {};
    let cells: Vec<Cell> = vec![
        (0, 0, Human),
        (0, 1, Empty),
        (0, 2, Empty),
        (1, 0, Empty),
        (1, 1, Human), // Can't be new as it's prioritised
        (1, 2, Empty),
        (2, 0, Empty),
        (2, 1, Empty),
        (2, 2, Empty),
    ]
    .into_iter()
    .map(|(row, column, value)| Cell { row, column, value })
    .collect();

    let actual = evaluator.find_best_move(cells);
    let expected = Cell {
        row: 2,
        column: 2,
        value: CPU,
    };

    assert_eq!(actual, expected);
}

#[test]
fn test_find_best_move__when__row_loss_at_risk() {
    let mut evaluator = Evaluator {};
    let cells: Vec<Cell> = vec![
        (0, 0, Human),
        (0, 1, Human),
        (0, 2, Empty),
        (1, 0, Empty),
        (1, 1, Human), // Can't be new as it's prioritised
        (1, 2, Empty),
        (2, 0, Empty),
        (2, 1, Empty),
        (2, 2, Empty),
    ]
    .into_iter()
    .map(|(row, column, value)| Cell { row, column, value })
    .collect();

    let actual = evaluator.find_best_move(cells);
    let expected = Cell {
        row: 0,
        column: 2,
        value: CPU,
    };

    assert_eq!(actual, expected);
}

#[test]
fn test_find_best_move__when__column_loss_at_risk() {
    let mut evaluator = Evaluator {};
    let cells: Vec<Cell> = vec![
        (0, 0, Empty),
        (0, 1, Human),
        (0, 2, Empty),
        (1, 0, Empty),
        (1, 1, Human),
        (1, 2, Empty),
        (2, 0, Empty),
        (2, 1, Empty),
        (2, 2, Empty),
    ]
    .into_iter()
    .map(|(row, column, value)| Cell { row, column, value })
    .collect();

    let actual = evaluator.find_best_move(cells);
    let expected = Cell {
        row: 2,
        column: 1,
        value: CPU,
    };

    assert_eq!(actual, expected);
}

#[test]
fn test_find_best_move__handle_special_case() {
    let mut evaluator = Evaluator {};
    let cells: Vec<Cell> = vec![
        (0, 0, CPU),
        (0, 1, Empty),
        (0, 2, Empty),
        (1, 0, Empty),
        (1, 1, Human),
        (1, 2, Empty),
        (2, 0, Empty),
        (2, 1, Empty),
        (2, 2, Human),
    ]
    .into_iter()
    .map(|(row, column, value)| Cell { row, column, value })
    .collect();

    let actual = evaluator.find_best_move(cells);
    let expected = Cell {
        row: 0,
        column: 2,
        value: CPU,
    };

    assert_eq!(actual, expected);
}

#[test]
fn find_best_move_on_empty_board_takes_centre() {
    let mut evaluator = Evaluator {};
    let actual = evaluator.find_best_move(Board::default().get_cells());
    assert_eq!(actual, Cell { row: 1, column: 1, value: CPU });
}

#[test]
fn opening_trap_needs_exactly_three_marks() {
    let evaluator = Evaluator {};
    let trap = grid([CPU, Empty, Empty, Empty, Human, Empty, Empty, Empty, Human]);
    assert!(evaluator.is_special_case(trap));
    let four = grid([CPU, Empty, Empty, Empty, Human, Empty, Human, Empty, Human]);
    assert!(!evaluator.is_special_case(four));
    let other = grid([CPU, Empty, Empty, Empty, Human, Human, Empty, Empty, Empty]);
    assert!(!evaluator.is_special_case(other));
    let swapped = grid([Human, Empty, Empty, Empty, CPU, Empty, Empty, Empty, Human]);
    assert!(!evaluator.is_special_case(swapped));
}

#[test]
fn opening_trap_pattern_is_matched_in_any_order() {
    let mut evaluator = Evaluator {};
    let mut cells = grid([CPU, Empty, Empty, Empty, Human, Empty, Empty, Empty, Human]);
    cells.reverse();
    assert!(evaluator.is_special_case(cells.clone()));
    assert_eq!(evaluator.find_best_move(cells), Cell { row: 0, column: 2, value: CPU });
}

#[test]
fn score_is_zero_without_uniform_line() {
    let evaluator = Evaluator {};
    let cells = grid([Human, CPU, Human, Human, CPU, CPU, CPU, Human, Human]);
    assert_eq!(evaluator.evaluate(cells), 0);
    assert_eq!(evaluator.evaluate(Board::default().get_cells()), 0);
    let mixed = grid([Human, Human, CPU, Empty, Empty, Empty, CPU, CPU, Human]);
    assert_eq!(evaluator.evaluate(mixed), 0);
}

#[test]
fn score_of_full_column_and_full_row() {
    let evaluator = Evaluator {};
    let cells = grid([CPU, Empty, Empty, CPU, Empty, Empty, CPU, Human, Human]);
    assert_eq!(evaluator.evaluate(cells), -10);
    let cells = grid([CPU, Empty, Empty, CPU, Empty, Empty, Human, Human, Human]);
    assert_eq!(evaluator.evaluate(cells), 10);
}

#[test]
fn diagonal_win_false_when_a_mark_differs_or_length_is_not_three() {
    let evaluator = Evaluator {};
    let cells = grid([Human, Empty, Empty, Empty, CPU, Empty, Empty, Empty, Human]);
    assert!(!evaluator.eval_diagonal_win(cells.clone(), vec![(0, 0), (1, 1), (2, 2)], Human));
    assert!(!evaluator.eval_diagonal_win(cells, vec![(0, 0), (2, 2)], Human));
}

#[test]
fn minimax_machine_completes_a_line() {
    let mut evaluator = Evaluator {};
    let cells = grid([Empty, Empty, Empty, Empty, Human, Empty, Empty, Empty, Empty]);
    assert_eq!(evaluator.minimax(cells, 0), -10);
}

#[test]
fn minimax_last_cell_without_line_is_draw() {
    let mut evaluator = Evaluator {};
    let cells = grid([CPU, Human, CPU, CPU, Human, CPU, Human, Empty, Human]);
    assert_eq!(evaluator.minimax(cells, 0), 0);
}

#[test]
fn minimax_takes_smallest_branch() {
    // Whichever open cell the machine marks first, it can complete column 1.
    let mut evaluator = Evaluator {};
    let cells = grid([Human, CPU, Human, Human, CPU, Human, Empty, Empty, CPU]);
    assert_eq!(evaluator.minimax(cells, 3), -10);
}
