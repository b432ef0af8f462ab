use vstd::prelude::*;
use crate::board::{
    Board, Cell, CellValue, cell_at, count_in_line, count_where, has_open_slot, is_grid,
    lemma_count_update, lemma_grid_cell_at, lemma_position_of_unique, lemma_with_mark_positions,
    line_pred, marked_pred, is_member, open_pred, with_mark_at,
};

verus! {

/// The main diagonal's positions.
pub open spec fn first_diagonal() -> Seq<(u8, u8)> {
    seq![(0u8, 0u8), (1u8, 1u8), (2u8, 2u8)]
}

/// The anti-diagonal's positions.
pub open spec fn second_diagonal() -> Seq<(u8, u8)> {
    seq![(0u8, 2u8), (1u8, 1u8), (2u8, 0u8)]
}

/// Row (or column) `k` consists of exactly three cells, all carrying `mark`.
pub open spec fn line_uniform(s: Seq<Cell>, by_column: bool, k: u8, mark: CellValue) -> bool {
    count_where(s, line_pred(by_column, k, None)) == 3 && count_where(s, line_pred(by_column, k, Some(mark))) == 3
}

/// Score of row (or column) `k`: +10 when its three cells all carry the
/// opponent's mark, -10 when they all carry the machine's, 0 otherwise.
pub open spec fn line_score(s: Seq<Cell>, by_column: bool, k: u8) -> int {
    if line_uniform(s, by_column, k, CellValue::Human) {
        10
    } else if line_uniform(s, by_column, k, CellValue::CPU) {
        -10
    } else {
        0
    }
}

/// The first non-zero score among rows 0 to 2, then columns 0 to 2; 0 if none.
pub open spec fn straight_score(s: Seq<Cell>) -> int {
    if line_score(s, false, 0) != 0 {
        line_score(s, false, 0)
    } else if line_score(s, false, 1) != 0 {
        line_score(s, false, 1)
    } else if line_score(s, false, 2) != 0 {
        line_score(s, false, 2)
    } else if line_score(s, true, 0) != 0 {
        line_score(s, true, 0)
    } else if line_score(s, true, 1) != 0 {
        line_score(s, true, 1)
    } else {
        line_score(s, true, 2)
    }
}

/// The cell found at position `p` carries `mark`.
pub open spec fn marked_at(s: Seq<Cell>, p: (u8, u8), mark: CellValue) -> bool {
    match cell_at(s, p.0, p.1) {
        Some(c) => c.value == mark,
        None => false,
    }
}

/// A cell stands at position `p`.
pub open spec fn present(s: Seq<Cell>, p: (u8, u8)) -> bool {
    cell_at(s, p.0, p.1) is Some
}

/// The three positions of `d` all hold cells carrying `mark`.
pub open spec fn diagonal_marked(s: Seq<Cell>, d: Seq<(u8, u8)>, mark: CellValue) -> bool {
    d.len() == 3 && marked_at(s, d[0], mark) && marked_at(s, d[1], mark) && marked_at(s, d[2], mark)
}

/// Looking up the positions of `d` in order, and stopping at the first cell
/// that does not carry `mark`, never meets a missing position.
pub open spec fn diagonal_lookup_defined(s: Seq<Cell>, d: Seq<(u8, u8)>, mark: CellValue) -> bool {
    d.len() == 3 ==> {
        &&& present(s, d[0])
        &&& marked_at(s, d[0], mark) ==> present(s, d[1])
        &&& marked_at(s, d[0], mark) && marked_at(s, d[1], mark) ==> present(s, d[2])
    }
}

/// The terminal score of a grid: +10 when the opponent holds a line, -10 when
/// the machine does, 0 when neither (rows and columns first, then diagonals).
pub open spec fn score(s: Seq<Cell>) -> int {
    let t = straight_score(s);
    if t != 0 {
        t
    } else if diagonal_marked(s, first_diagonal(), CellValue::Human) || diagonal_marked(
        s,
        second_diagonal(),
        CellValue::Human,
    ) {
        10
    } else if diagonal_marked(s, first_diagonal(), CellValue::CPU) || diagonal_marked(
        s,
        second_diagonal(),
        CellValue::CPU,
    ) {
        -10
    } else {
        0
    }
}

/// The diagonal checks that scoring performs meet no missing position.
pub open spec fn score_defined(s: Seq<Cell>) -> bool {
    let h1 = diagonal_marked(s, first_diagonal(), CellValue::Human);
    let h2 = diagonal_marked(s, second_diagonal(), CellValue::Human);
    let c1 = diagonal_marked(s, first_diagonal(), CellValue::CPU);
    straight_score(s) == 0 ==> {
        &&& diagonal_lookup_defined(s, first_diagonal(), CellValue::Human)
        &&& !h1 ==> diagonal_lookup_defined(s, second_diagonal(), CellValue::Human)
        &&& !h1 && !h2 ==> diagonal_lookup_defined(s, first_diagonal(), CellValue::CPU)
        &&& !h1 && !h2 && !c1 ==> diagonal_lookup_defined(s, second_diagonal(), CellValue::CPU)
    }
}

/// Every grid can be scored.
pub proof fn lemma_grid_score_defined(s: Seq<Cell>)
    requires
        is_grid(s),
    ensures
        score_defined(s),
{
    lemma_grid_cell_at(s, 0, 0);
    lemma_grid_cell_at(s, 1, 1);
    lemma_grid_cell_at(s, 2, 2);
    lemma_grid_cell_at(s, 0, 2);
    lemma_grid_cell_at(s, 2, 0);
}

/// No row, column or diagonal is made of three cells sharing one mark other
/// than empty.
pub open spec fn no_uniform_line(s: Seq<Cell>) -> bool {
    &&& forall|by_column: bool, k: u8, mark: CellValue|
        k <= 2 && mark != CellValue::Empty ==> !#[trigger] line_uniform(s, by_column, k, mark)
    &&& forall|mark: CellValue|
        mark != CellValue::Empty ==> !#[trigger] diagonal_marked(s, first_diagonal(), mark)
    &&& forall|mark: CellValue|
        mark != CellValue::Empty ==> !#[trigger] diagonal_marked(s, second_diagonal(), mark)
}

/// A grid in which no row, column or diagonal is uniformly marked scores 0.
pub proof fn lemma_score_zero_without_line(s: Seq<Cell>)
    requires
        no_uniform_line(s),
    ensures
        score(s) == 0,
{
    assert(!diagonal_marked(s, first_diagonal(), CellValue::Human));
    assert(!diagonal_marked(s, second_diagonal(), CellValue::Human));
    assert(!diagonal_marked(s, first_diagonal(), CellValue::CPU));
    assert(!diagonal_marked(s, second_diagonal(), CellValue::CPU));
}

/// The value of the search from grid `s`: its terminal score when that is
/// non-zero; 0 when no cell is open; otherwise the smallest value over the
/// grids obtained by the machine marking one open cell.
pub open spec fn search(s: Seq<Cell>) -> int
    decreases count_where(s, open_pred()), 1int, 0int,
{
    let sc = score(s);
    if sc == 10 || sc == -10 {
        sc
    } else if !has_open_slot(s) {
        0
    } else {
        min_search_upto(s, s.len() as int)
    }
}

/// The smallest search value over the grids obtained by the machine marking
/// one open cell of index below `n`; 10, the largest score, when there is none.
pub open spec fn min_search_upto(s: Seq<Cell>, n: int) -> int
    decreases count_where(s, open_pred()), 0int, n,
{
    if n <= 0 || n > s.len() {
        10
    } else {
        let rest = min_search_upto(s, n - 1);
        if s[n - 1].value == CellValue::Empty {
            let t = with_mark_at(s, n - 1, CellValue::CPU);
            proof {
                lemma_count_update(s, n - 1, t[n - 1], open_pred());
            }
            let v = search(t);
            if v < rest {
                v
            } else {
                rest
            }
        } else {
            rest
        }
    }
}

/// The search can run on `s`: it is scored without a missing lookup, and
/// whenever it goes on past the score, `s` is a well-formed grid.
pub open spec fn search_defined(s: Seq<Cell>) -> bool {
    &&& score_defined(s)
    &&& score(s) == 0 && has_open_slot(s) ==> is_grid(s)
}

/// The search value after the opponent marks the cell at index `j`.
pub open spec fn reply_value(s: Seq<Cell>, j: int) -> int {
    search(with_mark_at(s, j, CellValue::Human))
}

/// Index of the first open cell, among those of index below `n`, whose reply
/// value is the largest; -1 when none of them is open.
pub open spec fn best_reply_upto(s: Seq<Cell>, n: int) -> int
    decreases n,
{
    if n <= 0 || n > s.len() {
        -1
    } else {
        let b = best_reply_upto(s, n - 1);
        if s[n - 1].value != CellValue::Empty {
            b
        } else if b < 0 || reply_value(s, n - 1) > reply_value(s, b) {
            n - 1
        } else {
            b
        }
    }
}

/// Some cell is the empty centre.
pub open spec fn centre_open(s: Seq<Cell>) -> bool {
    s.contains(Cell { row: 1, column: 1, value: CellValue::Empty })
}

/// The opening pattern answered without search: the machine at (0, 0) and the
/// opponent at (1, 1) and (2, 2).
pub open spec fn trap_pattern() -> Seq<Cell> {
    seq![
        Cell { row: 0, column: 0, value: CellValue::CPU },
        Cell { row: 1, column: 1, value: CellValue::Human },
        Cell { row: 2, column: 2, value: CellValue::Human },
    ]
}

/// Exactly three cells are marked, and every cell of the trap pattern is in
/// the grid, position and mark alike, wherever it stands in the grid's order.
pub open spec fn opening_trap(s: Seq<Cell>) -> bool {
    &&& count_where(s, marked_pred()) == 3
    &&& forall|i: int| 0 <= i < 3 ==> s.contains(#[trigger] trap_pattern()[i])
}

/// The machine's move: the centre when it is open; (0, 2) against the opening
/// trap; otherwise the open cell whose taking by the opponent scores highest,
/// the first such in the grid's order.
pub open spec fn best_move(s: Seq<Cell>) -> Cell {
    if centre_open(s) {
        Cell { row: 1, column: 1, value: CellValue::CPU }
    } else if opening_trap(s) {
        Cell { row: 0, column: 2, value: CellValue::CPU }
    } else {
        let b = best_reply_upto(s, s.len() as int);
        Cell { row: s[b].row, column: s[b].column, value: CellValue::CPU }
    }
}

/// Scoring and move selection for the machine player; it holds no state.
pub struct Evaluator {}

impl Evaluator {
    /// Whether the three positions of `diagonal` all hold cells carrying `cell_value`.
    pub fn eval_diagonal_win(&self, cells: Vec<Cell>, diagonal: Vec<(u8, u8)>, cell_value: CellValue) -> (r: bool)
        requires
            diagonal_lookup_defined(cells@, diagonal@, cell_value),
        ensures
            r == diagonal_marked(cells@, diagonal@, cell_value),
    {
        if diagonal.len() != 3 {
            return false;
        }
        let mut i: usize = 0;
        while i < 3
            invariant
                0 <= i <= 3,
                diagonal@.len() == 3,
                diagonal_lookup_defined(cells@, diagonal@, cell_value),
                forall|j: int| 0 <= j < i ==> marked_at(cells@, #[trigger] diagonal@[j], cell_value),
            decreases 3 - i,
        {
            let (row, column) = diagonal[i];
            match Board::get_cell(cells.clone(), row, column) {
                Some(c) => {
                    if c.value != cell_value {
                        return false;
                    }
                },
                None => {
                    // excluded by the lookup condition
                    assert(i == 0 || !marked_at(cells@, diagonal@[0], cell_value) || !marked_at(cells@, diagonal@[1], cell_value));
                    return false;
                },
            }
            i = i + 1;
        }
        true
    }

    /// The machine's next move on `cells`.
    pub fn find_best_move(&mut self, cells: Vec<Cell>) -> (r: Cell)
        requires
            centre_open(cells@) || opening_trap(cells@) || (is_grid(cells@) && has_open_slot(cells@)),
        ensures
            r == best_move(cells@),
    {
        if is_member(&cells, Cell { row: 1, column: 1, value: CellValue::Empty }) {
            return Cell { row: 1, column: 1, value: CellValue::CPU };
        }
        if self.is_special_case(cells.clone()) {
            return Cell { row: 0, column: 2, value: CellValue::CPU };
        }
        let mut found = false;
        let mut best_index: usize = 0;
        let mut best_score: i8 = 0;
        let mut i: usize = 0;
        while i < cells.len()
            invariant
                0 <= i <= cells.len(),
                is_grid(cells@),
                found <==> exists|j: int| 0 <= j < i && (#[trigger] cells@[j]).value == CellValue::Empty,
                found ==> best_index < i && best_index as int == best_reply_upto(cells@, i as int)
                    && best_score as int == reply_value(cells@, best_index as int),
                !found ==> best_reply_upto(cells@, i as int) == -1,
            decreases cells.len() - i,
        {
            let c = cells[i];
            if c.is_empty() {
                let mark = Cell { row: c.row, column: c.column, value: CellValue::Human };
                proof {
                    lemma_position_of_unique(cells@, i as int);
                    lemma_with_mark_positions(cells@, i as int, CellValue::Human);
                    lemma_grid_score_defined(with_mark_at(cells@, i as int, CellValue::Human));
                    assert(cells@.update(i as int, mark) == with_mark_at(cells@, i as int, CellValue::Human));
                }
                let candidate = Board::set_on(cells.clone(), mark).unwrap();
                let v = self.minimax(candidate, 0);
                if !found || v > best_score {
                    best_index = i;
                    best_score = v;
                }
                found = true;
            }
            i = i + 1;
        }
        Cell { row: cells[best_index].row, column: cells[best_index].column, value: CellValue::CPU }
    }

    /// Whether `cells` shows the opening trap.
    pub fn is_special_case(&self, cells: Vec<Cell>) -> (r: bool)
        ensures
            r == opening_trap(cells@),
    {
        let mut non_empty_count: usize = 0;
        let mut i: usize = 0;
        while i < cells.len()
            invariant
                0 <= i <= cells.len(),
                non_empty_count == count_where(cells@.take(i as int), marked_pred()),
                non_empty_count <= i,
            decreases cells.len() - i,
        {
            proof {
                assert(cells@.take(i as int + 1).drop_last() =~= cells@.take(i as int));
            }
            if cells[i].value != CellValue::Empty {
                non_empty_count = non_empty_count + 1;
            }
            i = i + 1;
        }
        assert(cells@.take(cells@.len() as int) =~= cells@);
        if non_empty_count != 3 {
            return false;
        }
        let expected_cells: Vec<Cell> = vec![
            Cell { row: 0, column: 0, value: CellValue::CPU },
            Cell { row: 1, column: 1, value: CellValue::Human },
            Cell { row: 2, column: 2, value: CellValue::Human },
        ];
        assert(expected_cells@ =~= trap_pattern());
        let mut k: usize = 0;
        while k < 3
            invariant
                0 <= k <= 3,
                expected_cells@ == trap_pattern(),
                forall|j: int| 0 <= j < k ==> cells@.contains(#[trigger] trap_pattern()[j]),
            decreases 3 - k,
        {
            if !is_member(&cells, expected_cells[k]) {
                return false;
            }
            k = k + 1;
        }
        true
    }

    /// The search value of `cells`, the machine marking one open cell after
    /// another; `depth` counts the levels and does not change the result.
    pub fn minimax(&mut self, cells: Vec<Cell>, depth: u8) -> (r: i8)
        requires
            search_defined(cells@),
        ensures
            r as int == search(cells@),
        decreases count_where(cells@, open_pred()),
    {
        let terminal = self.evaluate(cells.clone());
        if terminal == 10 || terminal == -10 {
            return terminal;
        }
        if !Board::is_moves_left(cells.clone()) {
            return 0;
        }
        let mut best: i8 = 10;
        let mut i: usize = 0;
        while i < cells.len()
            invariant
                0 <= i <= cells.len(),
                is_grid(cells@),
                has_open_slot(cells@),
                score(cells@) == 0,
                best as int == min_search_upto(cells@, i as int),
                best <= 10,
            decreases cells.len() - i,
        {
            let c = cells[i];
            if c.is_empty() {
                let mark = Cell { row: c.row, column: c.column, value: CellValue::CPU };
                proof {
                    lemma_position_of_unique(cells@, i as int);
                    lemma_with_mark_positions(cells@, i as int, CellValue::CPU);
                    lemma_count_update(cells@, i as int, mark, open_pred());
                    lemma_grid_score_defined(with_mark_at(cells@, i as int, CellValue::CPU));
                    assert(cells@.update(i as int, mark) == with_mark_at(cells@, i as int, CellValue::CPU));
                }
                let candidate = Board::set_on(cells.clone(), mark).unwrap();
                let v = self.minimax(candidate, depth.wrapping_add(1));
                if v < best {
                    best = v;
                }
            }
            i = i + 1;
        }
        best
    }

    /// The terminal score of `cells`: 10, -10 or 0.
    pub fn evaluate(&self, cells: Vec<Cell>) -> (r: i8)
        requires
            score_defined(cells@),
        ensures
            r as int == score(cells@),
    {
        let mut row: u8 = 0;
        while row <= 2
            invariant
                row <= 3,
                forall|k: u8| k < row ==> #[trigger] line_score(cells@, false, k) == 0,
            decreases 3 - row,
        {
            if count_in_line(&cells, false, row, None) == 3 {
                if count_in_line(&cells, false, row, Some(CellValue::Human)) == 3 {
                    return 10;
                }
                if count_in_line(&cells, false, row, Some(CellValue::CPU)) == 3 {
                    return -10;
                }
            }
            row = row + 1;
        }
        let mut column: u8 = 0;
        while column <= 2
            invariant
                column <= 3,
                forall|k: u8| k <= 2 ==> #[trigger] line_score(cells@, false, k) == 0,
                forall|k: u8| k < column ==> #[trigger] line_score(cells@, true, k) == 0,
            decreases 3 - column,
        {
            if count_in_line(&cells, true, column, None) == 3 {
                if count_in_line(&cells, true, column, Some(CellValue::Human)) == 3 {
                    return 10;
                }
                if count_in_line(&cells, true, column, Some(CellValue::CPU)) == 3 {
                    return -10;
                }
            }
            column = column + 1;
        }
        assert(line_score(cells@, false, 0) == 0 && line_score(cells@, false, 1) == 0
            && line_score(cells@, false, 2) == 0 && line_score(cells@, true, 0) == 0
            && line_score(cells@, true, 1) == 0 && line_score(cells@, true, 2) == 0);
        let first: Vec<(u8, u8)> = vec![(0u8, 0u8), (1u8, 1u8), (2u8, 2u8)];
        let second: Vec<(u8, u8)> = vec![(0u8, 2u8), (1u8, 1u8), (2u8, 0u8)];
        assert(first@ =~= first_diagonal());
        assert(second@ =~= second_diagonal());
        if self.eval_diagonal_win(cells.clone(), first, CellValue::Human)
            || self.eval_diagonal_win(cells.clone(), second, CellValue::Human) {
            return 10;
        }
        let first: Vec<(u8, u8)> = vec![(0u8, 0u8), (1u8, 1u8), (2u8, 2u8)];
        let second: Vec<(u8, u8)> = vec![(0u8, 2u8), (1u8, 1u8), (2u8, 0u8)];
        assert(first@ =~= first_diagonal());
        assert(second@ =~= second_diagonal());
        if self.eval_diagonal_win(cells.clone(), first, CellValue::CPU)
            || self.eval_diagonal_win(cells.clone(), second, CellValue::CPU) {
            return -10;
        }
        0
    }
}

} // verus!
