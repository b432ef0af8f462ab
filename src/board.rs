use vstd::prelude::*;

verus! {

/// The mark held by one position of the board.
#[derive(Clone, Copy, Debug, PartialEq, Eq, Structural)]
pub enum CellValue {
    Empty,
    CPU,
    Human,
}

/// One position of the board together with its mark.
///
/// Two notions of sameness are kept apart: `same_position` compares row and
/// column only, while `==` compares row, column and mark.
#[derive(Clone, Copy, Debug, PartialEq, Eq, Structural)]
pub struct Cell {
    pub row: u8,
    pub column: u8,
    pub value: CellValue,
}

/// Position identity: the cell stands at `(row, column)`, whatever its mark.
pub open spec fn same_position(c: Cell, row: u8, column: u8) -> bool {
    c.row == row && c.column == column
}

/// Index of the first cell at or after `i` standing at `(row, column)`, or
/// `s.len()` when there is none.
pub open spec fn position_from(s: Seq<Cell>, row: u8, column: u8, i: int) -> int
    decreases s.len() - i,
{
    if i < 0 || i >= s.len() {
        s.len() as int
    } else if same_position(s[i], row, column) {
        i
    } else {
        position_from(s, row, column, i + 1)
    }
}

/// Index of the first cell standing at `(row, column)`, or `s.len()`.
pub open spec fn position_of(s: Seq<Cell>, row: u8, column: u8) -> int {
    position_from(s, row, column, 0)
}

/// The first cell standing at `(row, column)`, if any.
pub open spec fn cell_at(s: Seq<Cell>, row: u8, column: u8) -> Option<Cell> {
    let i = position_of(s, row, column);
    if i < s.len() {
        Some(s[i])
    } else {
        None
    }
}

/// The grid obtained by putting `cell` at its position, when that position
/// exists and is still empty; `None` otherwise.
pub open spec fn placed(s: Seq<Cell>, cell: Cell) -> Option<Seq<Cell>> {
    let i = position_of(s, cell.row, cell.column);
    if i < s.len() && s[i].value == CellValue::Empty {
        Some(s.update(i, cell))
    } else {
        None
    }
}

/// Some cell of the grid is still empty.
pub open spec fn has_open_slot(s: Seq<Cell>) -> bool {
    exists|i: int| 0 <= i < s.len() && (#[trigger] s[i]).value == CellValue::Empty
}

proof fn lemma_position_from_bounds(s: Seq<Cell>, row: u8, column: u8, i: int)
    requires
        0 <= i <= s.len(),
    ensures
        i <= position_from(s, row, column, i) <= s.len(),
        forall|k: int|
            i <= k < position_from(s, row, column, i) ==> !same_position(#[trigger] s[k], row, column),
        position_from(s, row, column, i) < s.len() ==> same_position(
            s[position_from(s, row, column, i)],
            row,
            column,
        ),
    decreases s.len() - i,
{
    if i < s.len() && !same_position(s[i], row, column) {
        lemma_position_from_bounds(s, row, column, i + 1);
    }
}

/// No two cells of `s` share a position.
pub open spec fn positions_unique(s: Seq<Cell>) -> bool {
    forall|i: int, j: int|
        0 <= i < j < s.len() ==> !same_position(#[trigger] s[i], (#[trigger] s[j]).row, s[j].column)
}

/// The set of positions that the cells of `s` stand at.
pub open spec fn positions(s: Seq<Cell>) -> Set<(u8, u8)> {
    Set::new(|p: (u8, u8)| exists|i: int| 0 <= i < s.len() && same_position(#[trigger] s[i], p.0, p.1))
}

/// The nine positions of a 3x3 board.
pub open spec fn nine_positions() -> Set<(u8, u8)> {
    Set::new(|p: (u8, u8)| p.0 <= 2 && p.1 <= 2)
}

/// A well-formed grid: each of the nine positions held by exactly one cell.
pub open spec fn is_grid(s: Seq<Cell>) -> bool {
    s.len() == 9 && positions_unique(s) && positions(s) == nine_positions()
}

/// The grid with the cell at index `j` given `mark`, its position kept.
pub open spec fn with_mark_at(s: Seq<Cell>, j: int, mark: CellValue) -> Seq<Cell> {
    s.update(j, Cell { row: s[j].row, column: s[j].column, value: mark })
}

/// The cell is still empty.
pub open spec fn open_pred() -> spec_fn(Cell) -> bool {
    |c: Cell| c.value == CellValue::Empty
}

/// The cell carries a mark.
pub open spec fn marked_pred() -> spec_fn(Cell) -> bool {
    |c: Cell| c.value != CellValue::Empty
}

/// A cell standing at `(row, column)` exists exactly when the lookup finds one.
pub proof fn lemma_cell_at_found(s: Seq<Cell>, row: u8, column: u8)
    ensures
        (cell_at(s, row, column) is Some) <== (exists|i: int| 0 <= i < s.len() && same_position(#[trigger] s[i], row, column)),
        cell_at(s, row, column) is Some ==> same_position(cell_at(s, row, column).unwrap(), row, column),
{
    lemma_position_from_bounds(s, row, column, 0);
}

/// In a grid of unique positions, looking a cell's position up finds that cell's index.
pub proof fn lemma_position_of_unique(s: Seq<Cell>, j: int)
    requires
        positions_unique(s),
        0 <= j < s.len(),
    ensures
        position_of(s, s[j].row, s[j].column) == j,
{
    lemma_position_from_bounds(s, s[j].row, s[j].column, 0);
    let p = position_of(s, s[j].row, s[j].column);
    if p < j {
        assert(same_position(s[p], s[j].row, s[j].column));
    }
}

/// Changing the value of one cell changes the count by what that cell contributed.
pub proof fn lemma_count_update(s: Seq<Cell>, j: int, x: Cell, p: spec_fn(Cell) -> bool)
    requires
        0 <= j < s.len(),
    ensures
        count_where(s.update(j, x), p) + (if p(s[j]) { 1int } else { 0int }) == count_where(s, p) + (
        if p(x) {
            1int
        } else {
            0int
        }),
    decreases s.len(),
{
    if j < s.len() - 1 {
        lemma_count_update(s.drop_last(), j, x, p);
        assert(s.update(j, x).drop_last() =~= s.drop_last().update(j, x));
    } else {
        assert(s.update(j, x).drop_last() =~= s.drop_last());
    }
}

/// Re-marking a cell keeps the positions of the grid.
pub proof fn lemma_with_mark_positions(s: Seq<Cell>, j: int, mark: CellValue)
    requires
        0 <= j < s.len(),
    ensures
        positions(with_mark_at(s, j, mark)) == positions(s),
        positions_unique(s) ==> positions_unique(with_mark_at(s, j, mark)),
        is_grid(s) ==> is_grid(with_mark_at(s, j, mark)),
{
    let t = with_mark_at(s, j, mark);
    assert forall|p: (u8, u8)| positions(t).contains(p) <==> positions(s).contains(p) by {
        if positions(t).contains(p) {
            let i = choose|i: int| 0 <= i < t.len() && same_position(#[trigger] t[i], p.0, p.1);
            assert(same_position(s[i], p.0, p.1));
        }
        if positions(s).contains(p) {
            let i = choose|i: int| 0 <= i < s.len() && same_position(#[trigger] s[i], p.0, p.1);
            assert(same_position(t[i], p.0, p.1));
        }
    }
    assert(positions(t) =~= positions(s));
    if positions_unique(s) {
        assert forall|a: int, b: int| 0 <= a < b < t.len() implies !same_position(#[trigger] t[a], (#[trigger] t[b]).row, t[b].column) by {
            assert(!same_position(s[a], s[b].row, s[b].column));
        }
    }
}

/// In a grid, every one of the nine positions is found by the lookup.
pub proof fn lemma_grid_cell_at(s: Seq<Cell>, row: u8, column: u8)
    requires
        is_grid(s),
        row <= 2,
        column <= 2,
    ensures
        cell_at(s, row, column) is Some,
{
    assert(nine_positions().contains((row, column)));
    assert(positions(s).contains((row, column)));
    lemma_cell_at_found(s, row, column);
}

/// A new board holds a well-formed grid; placing a mark and clearing keep the
/// positions of any grid, and so keep a well-formed grid well-formed.
pub proof fn lemma_positions_kept(s: Seq<Cell>, cell: Cell)
    ensures
        is_grid(fresh_grid()),
        positions(fresh_grid()) == nine_positions(),
        positions(cleared(s)) == positions(s),
        is_grid(s) ==> is_grid(cleared(s)),
        placed(s, cell) is Some ==> positions(placed(s, cell).unwrap()) == positions(s),
        is_grid(s) && placed(s, cell) is Some ==> is_grid(placed(s, cell).unwrap()),
{
    let f = fresh_grid();
    assert forall|i: int, j: int| 0 <= i < j < f.len() implies !same_position(#[trigger] f[i], (#[trigger] f[j]).row, f[j].column) by {
        assert(i / 3 != j / 3 || i % 3 != j % 3) by (nonlinear_arith)
            requires 0 <= i < j < 9;
    }
    assert forall|p: (u8, u8)| #[trigger] positions(f).contains(p) <==> nine_positions().contains(p) by {
        if nine_positions().contains(p) {
            let i = 3 * p.0 + p.1;
            assert(f[i].row == p.0 && f[i].column == p.1);
        }
    }
    assert(positions(f) =~= nine_positions());
    let c = cleared(s);
    assert forall|p: (u8, u8)| #[trigger] positions(c).contains(p) <==> positions(s).contains(p) by {
        if positions(c).contains(p) {
            let i = choose|i: int| 0 <= i < c.len() && same_position(#[trigger] c[i], p.0, p.1);
            assert(same_position(s[i], p.0, p.1));
        }
        if positions(s).contains(p) {
            let i = choose|i: int| 0 <= i < s.len() && same_position(#[trigger] s[i], p.0, p.1);
            assert(same_position(c[i], p.0, p.1));
        }
    }
    assert(positions(c) =~= positions(s));
    if positions_unique(s) {
        assert forall|a: int, b: int| 0 <= a < b < c.len() implies !same_position(#[trigger] c[a], (#[trigger] c[b]).row, c[b].column) by {
            assert(!same_position(s[a], s[b].row, s[b].column));
        }
    }
    if placed(s, cell) is Some {
        let i = position_of(s, cell.row, cell.column);
        lemma_position_from_bounds(s, cell.row, cell.column, 0);
        lemma_with_mark_positions(s, i, cell.value);
        assert(placed(s, cell).unwrap() =~= with_mark_at(s, i, cell.value));
    }
}

/// Placing on an occupied position is rejected, and a board that attempts it
/// keeps its grid unchanged.
pub proof fn lemma_occupied_rejected(s: Seq<Cell>, cell: Cell, r: Option<Vec<Cell>>, after: Seq<Cell>)
    requires
        cell_at(s, cell.row, cell.column) is Some,
        cell_at(s, cell.row, cell.column).unwrap().value != CellValue::Empty,
    ensures
        placed(s, cell) is None,
        placement_outcome(s, cell, r, after) ==> r is None && after == s,
{
}

/// No cell is open exactly when every cell carries a mark.
pub proof fn lemma_open_slot_iff(s: Seq<Cell>)
    ensures
        !has_open_slot(s) <==> forall|i: int| 0 <= i < s.len() ==> (#[trigger] s[i]).value != CellValue::Empty,
{
}

/// Clearing a grid and reading it back gives the same positions in the same
/// order, every one empty; from a well-formed grid, that is nine empty cells.
pub proof fn lemma_clear_round_trip(s: Seq<Cell>)
    ensures
        cleared(s).len() == s.len(),
        forall|i: int| 0 <= i < s.len() ==> same_position(#[trigger] cleared(s)[i], s[i].row, s[i].column),
        forall|i: int| 0 <= i < s.len() ==> (#[trigger] cleared(s)[i]).value == CellValue::Empty,
        is_grid(s) ==> cleared(s).len() == 9 && positions(cleared(s)) == nine_positions(),
{
    lemma_positions_kept(s, Cell { row: 0, column: 0, value: CellValue::Empty });
}

impl Cell {
    pub fn is_empty(&self) -> (r: bool)
        ensures
            r == (self.value == CellValue::Empty),
    {
        self.value == CellValue::Empty
    }

    pub fn is_not_empty(&self) -> (r: bool)
        ensures
            r == (self.value != CellValue::Empty),
    {
        !self.is_empty()
    }
}

/// Number of cells in row (or column) `k`, restricted to `mark` when one is given.
pub(crate) fn count_in_line(cells: &Vec<Cell>, by_column: bool, k: u8, mark: Option<CellValue>) -> (n: usize)
    ensures
        n == count_where(cells@, line_pred(by_column, k, mark)),
{
    let mut n: usize = 0;
    let mut i: usize = 0;
    while i < cells.len()
        invariant
            0 <= i <= cells.len(),
            n == count_where(cells@.take(i as int), line_pred(by_column, k, mark)),
            n <= i,
        decreases cells.len() - i,
    {
        let c = cells[i];
        proof {
            assert(cells@.take(i as int + 1).drop_last() =~= cells@.take(i as int));
        }
        let on_line = if by_column {
            c.column == k
        } else {
            c.row == k
        };
        let marked = match mark {
            None => true,
            Some(m) => c.value == m,
        };
        if on_line && marked {
            n = n + 1;
        }
        i = i + 1;
    }
    proof {
        assert(cells@.take(cells@.len() as int) =~= cells@);
    }
    n
}

/// Whether `c` equals, position and mark, one of the cells of `pattern`.
pub(crate) fn is_member(pattern: &Vec<Cell>, c: Cell) -> (r: bool)
    ensures
        r == pattern@.contains(c),
{
    let mut i: usize = 0;
    while i < pattern.len()
        invariant
            0 <= i <= pattern.len(),
            forall|j: int| 0 <= j < i ==> pattern@[j] != c,
        decreases pattern.len() - i,
    {
        if pattern[i] == c {
            return true;
        }
        i = i + 1;
    }
    false
}

/// The cells of `cells` that equal, position and mark, a cell of `pattern`, in order.
pub(crate) fn members_of(cells: &Vec<Cell>, pattern: &Vec<Cell>) -> (r: Vec<Cell>)
    ensures
        r@ == cells@.filter(member_of(pattern@)),
        r@.len() == count_where(cells@, member_of(pattern@)),
{
    let mut r: Vec<Cell> = Vec::new();
    let mut i: usize = 0;
    while i < cells.len()
        invariant
            0 <= i <= cells.len(),
            r@ == cells@.take(i as int).filter(member_of(pattern@)),
            r@.len() == count_where(cells@.take(i as int), member_of(pattern@)),
        decreases cells.len() - i,
    {
        let c = cells[i];
        proof {
            assert(cells@.take(i as int + 1).drop_last() =~= cells@.take(i as int));
            reveal_with_fuel(Seq::filter, 1);
        }
        if is_member(pattern, c) {
            r.push(c);
        }
        i = i + 1;
    }
    proof {
        assert(cells@.take(cells@.len() as int) =~= cells@);
    }
    r
}

/// Index of the first cell of `cells` standing at `(row, column)`, or its length.
fn find_position(cells: &Vec<Cell>, row: u8, column: u8) -> (r: usize)
    ensures
        r as int == position_of(cells@, row, column),
{
    let mut i: usize = 0;
    while i < cells.len()
        invariant
            0 <= i <= cells.len(),
            position_from(cells@, row, column, i as int) == position_of(cells@, row, column),
        decreases cells.len() - i,
    {
        if cells[i].row == row && cells[i].column == column {
            return i;
        }
        i = i + 1;
    }
    i
}


/// Number of cells of `s` that satisfy `p`.
pub open spec fn count_where(s: Seq<Cell>, p: spec_fn(Cell) -> bool) -> nat
    decreases s.len(),
{
    if s.len() == 0 {
        0
    } else {
        count_where(s.drop_last(), p) + if p(s.last()) {
            1nat
        } else {
            0nat
        }
    }
}

/// The cell lies in row `k`, or in column `k` when `by_column`.
pub open spec fn in_line(c: Cell, by_column: bool, k: u8) -> bool {
    if by_column {
        c.column == k
    } else {
        c.row == k
    }
}

/// Cells in row (or column) `k`, restricted to those carrying `mark` when one is given.
pub open spec fn line_pred(by_column: bool, k: u8, mark: Option<CellValue>) -> spec_fn(Cell) -> bool {
    |c: Cell| in_line(c, by_column, k) && (mark is None || c.value == mark.unwrap())
}

/// Marked-cell membership: cells equal, position and mark, to one of `pattern`.
pub open spec fn member_of(pattern: Seq<Cell>) -> spec_fn(Cell) -> bool {
    |c: Cell| pattern.contains(c)
}

/// The main diagonal, every cell carrying `mark`.
pub open spec fn marked_diagonal(mark: CellValue) -> Seq<Cell> {
    seq![
        Cell { row: 0, column: 0, value: mark },
        Cell { row: 1, column: 1, value: mark },
        Cell { row: 2, column: 2, value: mark },
    ]
}

/// The anti-diagonal, every cell carrying `mark`.
pub open spec fn marked_anti_diagonal(mark: CellValue) -> Seq<Cell> {
    seq![
        Cell { row: 0, column: 2, value: mark },
        Cell { row: 1, column: 1, value: mark },
        Cell { row: 2, column: 0, value: mark },
    ]
}

/// Exactly three cells of row (or column) `k` carry the machine's mark.
pub open spec fn machine_fills_line(s: Seq<Cell>, by_column: bool, k: u8) -> bool {
    count_where(s, line_pred(by_column, k, Some(CellValue::CPU))) == 3
}

/// The machine holds a complete row, column or diagonal.
pub open spec fn machine_has_line(s: Seq<Cell>) -> bool {
    ||| exists|k: u8| k <= 2 && #[trigger] machine_fills_line(s, false, k)
    ||| exists|k: u8| k <= 2 && #[trigger] machine_fills_line(s, true, k)
    ||| count_where(s, member_of(marked_diagonal(CellValue::CPU))) == 3
    ||| count_where(s, member_of(marked_anti_diagonal(CellValue::CPU))) == 3
}

/// The grid of a new board: the nine positions in row-major order, all empty.
pub open spec fn fresh_grid() -> Seq<Cell> {
    Seq::new(9, |i: int| Cell { row: (i / 3) as u8, column: (i % 3) as u8, value: CellValue::Empty })
}

/// The grid with every mark reset to empty, positions kept.
pub open spec fn cleared(s: Seq<Cell>) -> Seq<Cell> {
    Seq::new(s.len(), |i: int| Cell { row: s[i].row, column: s[i].column, value: CellValue::Empty })
}

/// Outcome of a mutating placement on a board whose grid was `before` and is
/// now `after`, having returned `r`.
pub open spec fn placement_outcome(
    before: Seq<Cell>,
    cell: Cell,
    r: Option<Vec<Cell>>,
    after: Seq<Cell>,
) -> bool {
    match placed(before, cell) {
        Some(g) => r is Some && r.unwrap()@ == g && after == g,
        None => r is None && after == before,
    }
}

/// The board: owns one grid, through which all mutation goes.
pub struct Board {
    cells: Vec<Cell>,
}

impl View for Board {
    type V = Seq<Cell>;

    closed spec fn view(&self) -> Seq<Cell> {
        self.cells@
    }
}

impl Default for Board {
    fn default() -> (b: Self)
        ensures
            b@ == fresh_grid(),
    {
        let mut cells: Vec<Cell> = Vec::new();
        let mut row: u8 = 0;
        while row <= 2
            invariant
                row <= 3,
                cells@ =~= fresh_grid().take(3 * row as int),
            decreases 3 - row,
        {
            let mut column: u8 = 0;
            while column <= 2
                invariant
                    row <= 2,
                    column <= 3,
                    cells@ =~= fresh_grid().take(3 * row as int + column as int),
                decreases 3 - column,
            {
                cells.push(Board::empty_cell(row, column));
                column = column + 1;
            }
            row = row + 1;
        }
        Board { cells }
    }
}

impl Board {
    /// Resets every mark to empty, keeping the positions.
    pub fn clear(&mut self)
        ensures
            final(self)@ == cleared(old(self)@),
    {
        let mut cleared_cells: Vec<Cell> = Vec::new();
        let mut i: usize = 0;
        while i < self.cells.len()
            invariant
                0 <= i <= self.cells.len(),
                cleared_cells@ =~= cleared(self.cells@).take(i as int),
            decreases self.cells.len() - i,
        {
            let mut c = self.cells[i];
            c.value = CellValue::Empty;
            cleared_cells.push(c);
            i = i + 1;
        }
        self.cells = cleared_cells;
    }

    /// Whether the machine holds a complete row, column or diagonal.
    pub fn is_cpu_winner(&self) -> (r: bool)
        ensures
            r == machine_has_line(self@),
    {
        let mut row: u8 = 0;
        while row <= 2
            invariant
                row <= 3,
                forall|k: u8| k < row ==> !#[trigger] machine_fills_line(self@, false, k),
            decreases 3 - row,
        {
            if count_in_line(&self.cells, false, row, Some(CellValue::CPU)) == 3 {
                assert(machine_fills_line(self@, false, row));
                return true;
            }
            row = row + 1;
        }
        let mut column: u8 = 0;
        while column <= 2
            invariant
                column <= 3,
                forall|k: u8| k <= 2 ==> !#[trigger] machine_fills_line(self@, false, k),
                forall|k: u8| k < column ==> !#[trigger] machine_fills_line(self@, true, k),
            decreases 3 - column,
        {
            if count_in_line(&self.cells, true, column, Some(CellValue::CPU)) == 3 {
                assert(machine_fills_line(self@, true, column));
                return true;
            }
            column = column + 1;
        }
        let diagonal_win: Vec<Cell> = vec![
            Cell { row: 0, column: 0, value: CellValue::CPU },
            Cell { row: 1, column: 1, value: CellValue::CPU },
            Cell { row: 2, column: 2, value: CellValue::CPU },
        ];
        assert(diagonal_win@ =~= marked_diagonal(CellValue::CPU));
        if members_of(&self.cells, &diagonal_win).len() == 3 {
            return true;
        }
        let diagonal_win_2: Vec<Cell> = vec![
            Cell { row: 0, column: 2, value: CellValue::CPU },
            Cell { row: 1, column: 1, value: CellValue::CPU },
            Cell { row: 2, column: 0, value: CellValue::CPU },
        ];
        assert(diagonal_win_2@ =~= marked_anti_diagonal(CellValue::CPU));
        members_of(&self.cells, &diagonal_win_2).len() == 3
    }

    /// A copy of the grid.
    pub fn get_cells(&self) -> (r: Vec<Cell>)
        ensures
            r@ == self@,
    {
        self.cells.clone()
    }

    /// The first cell of `cells` at `(row, column)`; `None` when no cell stands there.
    pub fn get_cell(cells: Vec<Cell>, row: u8, column: u8) -> (r: Option<Cell>)
        ensures
            r == cell_at(cells@, row, column),
    {
        let i = find_position(&cells, row, column);
        if i < cells.len() {
            Some(cells[i])
        } else {
            None
        }
    }

    /// Replaces the whole grid, without any check on its positions.
    pub fn set_all(&mut self, cells: Vec<Cell>)
        ensures
            final(self)@ == cells@,
    {
        self.cells = cells;
    }

    /// The opponent marks `(row, column)` when it exists and is empty.
    pub fn set_human(&mut self, row: u8, column: u8) -> (r: Option<Vec<Cell>>)
        ensures
            placement_outcome(
                old(self)@,
                Cell { row, column, value: CellValue::Human },
                r,
                final(self)@,
            ),
    {
        self.set(Cell { row, column, value: CellValue::Human })
    }

    /// The machine marks `(row, column)` when it exists and is empty.
    pub fn set_cpu(&mut self, row: u8, column: u8) -> (r: Option<Vec<Cell>>)
        ensures
            placement_outcome(
                old(self)@,
                Cell { row, column, value: CellValue::CPU },
                r,
                final(self)@,
            ),
    {
        self.set(Cell { row, column, value: CellValue::CPU })
    }

    /// Puts `cell` at its position when that position exists and is empty;
    /// otherwise rejects with `None`.
    pub fn set_on(cells: Vec<Cell>, cell: Cell) -> (r: Option<Vec<Cell>>)
        ensures
            match placed(cells@, cell) {
                Some(g) => r is Some && r.unwrap()@ == g,
                None => r is None,
            },
    {
        let mut cells = cells;
        let i = find_position(&cells, cell.row, cell.column);
        if i < cells.len() {
            if cells[i].is_empty() {
                cells.set(i, cell);
                return Some(cells);
            }
        }
        None
    }

    /// Whether some cell is still empty.
    pub fn is_moves_left(cells: Vec<Cell>) -> (r: bool)
        ensures
            r == has_open_slot(cells@),
    {
        let mut i: usize = 0;
        while i < cells.len()
            invariant
                0 <= i <= cells.len(),
                forall|j: int| 0 <= j < i ==> (#[trigger] cells@[j]).value != CellValue::Empty,
            decreases cells.len() - i,
        {
            if cells[i].value == CellValue::Empty {
                return true;
            }
            i = i + 1;
        }
        false
    }

    /// Places `cell` on the owned grid when its position exists and is empty;
    /// on rejection the grid is left as it was.
    pub fn set(&mut self, cell: Cell) -> (r: Option<Vec<Cell>>)
        ensures
            placement_outcome(old(self)@, cell, r, final(self)@),
    {
        let maybe_set = Board::set_on(self.cells.clone(), cell);
        match &maybe_set {
            Some(cells) => self.set_all(cells.clone()),
            None => {},
        }
        maybe_set
    }

    fn empty_cell(row: u8, column: u8) -> (c: Cell)
        ensures
            c == (Cell { row, column, value: CellValue::Empty }),
    {
        Cell { row, column, value: CellValue::Empty }
    }
}

} // verus!
