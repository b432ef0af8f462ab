use vstd::prelude::*;
use crate::board::{
    Board, Cell, CellValue, cleared, fresh_grid, has_open_slot, is_grid, lemma_positions_kept,
    placed,
};
use crate::evaluator::{Evaluator, best_move};

verus! {

/// One game between the opponent and the machine: a board and an evaluator.
pub struct Game {
    board: Board,
    evaluator: Evaluator,
}

impl View for Game {
    type V = Seq<Cell>;

    closed spec fn view(&self) -> Seq<Cell> {
        self.board@
    }
}

/// The grid after an attempt to place `cell`: the placement when it is
/// accepted, the grid unchanged when it is rejected.
pub open spec fn after_attempt(s: Seq<Cell>, cell: Cell) -> Seq<Cell> {
    match placed(s, cell) {
        Some(g) => g,
        None => s,
    }
}

impl Game {
    /// The game's board always holds a well-formed grid.
    pub open spec fn wf(&self) -> bool {
        is_grid(self@)
    }

    /// A game on a new, empty board.
    pub fn new() -> (g: Game)
        ensures
            g@ == fresh_grid(),
            g.wf(),
    {
        proof {
            lemma_positions_kept(fresh_grid(), Cell { row: 0, column: 0, value: CellValue::Empty });
        }
        Game { board: Board::default(), evaluator: Evaluator {} }
    }

    /// A copy of the current grid.
    pub fn get_cells(&self) -> (r: Vec<Cell>)
        ensures
            r@ == self@,
    {
        self.board.get_cells()
    }

    /// Whether the machine holds a complete line.
    pub fn is_cpu_winner(&self) -> (r: bool)
        ensures
            r == crate::board::machine_has_line(self@),
    {
        self.board.is_cpu_winner()
    }

    /// Whether some cell is still empty.
    pub fn has_empty_cells(&self) -> (r: bool)
        ensures
            r == has_open_slot(self@),
    {
        Board::is_moves_left(self.board.get_cells())
    }

    /// The opponent marks `(row, column)`; nothing happens when that position
    /// is occupied or off the board.
    pub fn human_play(&mut self, row: u8, column: u8)
        requires
            old(self).wf(),
        ensures
            final(self).wf(),
            final(self)@ == after_attempt(old(self)@, Cell { row, column, value: CellValue::Human }),
    {
        proof {
            lemma_positions_kept(self@, Cell { row, column, value: CellValue::Human });
        }
        let _ = self.board.set_human(row, column);
    }

    /// The machine chooses its move on the current grid and plays it.
    pub fn cpu_play(&mut self)
        requires
            old(self).wf(),
            has_open_slot(old(self)@),
        ensures
            final(self).wf(),
            final(self)@ == after_attempt(old(self)@, best_move(old(self)@)),
    {
        let best = self.evaluator.find_best_move(self.board.get_cells());
        proof {
            lemma_positions_kept(self@, best);
        }
        let _ = self.board.set_cpu(best.row, best.column);
    }

    /// Clears every mark; positions are kept.
    pub fn restart(&mut self)
        requires
            old(self).wf(),
        ensures
            final(self).wf(),
            final(self)@ == cleared(old(self)@),
    {
        proof {
            lemma_positions_kept(self@, Cell { row: 0, column: 0, value: CellValue::Empty });
        }
        self.board.clear();
    }
}

} // verus!
