//! The mathematical model of a simulation: its abstract state and the
//! meaning of one step as an ordered fold over the pending changes.
use vstd::prelude::*;

use crate::simulation::{Element, StateChange};

verus! {

/// The index of the cell in column `x` and row `y` of a grid `width` cells wide.
pub open spec fn cell_index(width: nat, x: nat, y: nat) -> nat {
    y * width + x
}

/// The column and row of the cell at `index` in a grid `width` cells wide.
pub open spec fn cell_coords(width: nat, index: nat) -> (nat, nat)
    recommends
        width > 0,
{
    (index % width, index / width)
}

/// The abstract state of a simulation: its dimensions, its cells row by row,
/// and the changes that the next step will apply, in order.
pub struct SimulationView {
    pub width: nat,
    pub height: nat,
    pub grid: Seq<Element>,
    pub changes: Seq<StateChange>,
}

impl SimulationView {
    /// The grid holds exactly `width * height` cells, a number that a `usize`
    /// can hold, and every pending change names one of them.
    pub open spec fn wf(self) -> bool {
        &&& self.grid.len() == self.width * self.height
        &&& self.grid.len() <= usize::MAX
        &&& forall|i: int|
            0 <= i < self.changes.len() ==> (#[trigger] self.changes[i]).state_index
                < self.grid.len()
    }
}

/// The changes that evaluating `change` against `grid` asks of the next step.
///
/// A cell that becomes `Air` pulls down a grain sitting directly above it; a
/// cell that becomes `Sand` lets its grain fall into an `Air` cell directly
/// below it. A grain with `Sand` or the floor beneath it asks for nothing.
pub open spec fn reactions(grid: Seq<Element>, width: nat, change: StateChange) -> Seq<StateChange> {
    let i = change.state_index as int;
    match change.new_element {
        Element::Air => if i >= width && grid[i - width] == Element::Sand {
            seq![
                StateChange { state_index: (i - width) as usize, new_element: Element::Air },
                StateChange { state_index: change.state_index, new_element: Element::Sand },
            ]
        } else {
            Seq::empty()
        },
        Element::Sand => if i + width < grid.len() && grid[i + width] == Element::Air {
            seq![
                StateChange { state_index: change.state_index, new_element: Element::Air },
                StateChange { state_index: (i + width) as usize, new_element: Element::Sand },
            ]
        } else {
            Seq::empty()
        },
    }
}

/// `grid` with the change written into it.
pub open spec fn apply(grid: Seq<Element>, change: StateChange) -> Seq<Element> {
    grid.update(change.state_index as int, change.new_element)
}

/// The grid after the changes have been evaluated and written one after
/// another, in order.
pub open spec fn run_grid(grid: Seq<Element>, width: nat, changes: Seq<StateChange>) -> Seq<Element>
    decreases changes.len(),
{
    if changes.len() == 0 {
        grid
    } else {
        apply(run_grid(grid, width, changes.drop_last()), changes.last())
    }
}

/// The changes asked of the next step while the changes are evaluated one
/// after another, in order: each one sees the writes of those before it.
pub open spec fn run_reactions(grid: Seq<Element>, width: nat, changes: Seq<StateChange>) -> Seq<
    StateChange,
>
    decreases changes.len(),
{
    if changes.len() == 0 {
        Seq::empty()
    } else {
        run_reactions(grid, width, changes.drop_last()) + reactions(
            run_grid(grid, width, changes.drop_last()),
            width,
            changes.last(),
        )
    }
}

impl SimulationView {
    /// The state after one step: every pending change is evaluated and
    /// written, and what they asked for becomes the new pending list.
    pub open spec fn ticked(self) -> SimulationView {
        SimulationView {
            width: self.width,
            height: self.height,
            grid: run_grid(self.grid, self.width, self.changes),
            changes: run_reactions(self.grid, self.width, self.changes),
        }
    }

    /// The state after `k` steps.
    pub open spec fn after(self, k: nat) -> SimulationView
        decreases k,
    {
        if k == 0 {
            self
        } else {
            self.after((k - 1) as nat).ticked()
        }
    }

    /// The state after a request that the cell at column `x`, row `y` become
    /// `element`: a change is queued unless the grid already holds `element`
    /// there. The grid is left as it is.
    pub open spec fn placed(self, x: nat, y: nat, element: Element) -> SimulationView {
        if self.at(x, y) == element {
            self
        } else {
            SimulationView {
                changes: self.changes.push(
                    StateChange {
                        state_index: cell_index(self.width, x, y) as usize,
                        new_element: element,
                    },
                ),
                ..self
            }
        }
    }

    /// The element at column `x`, row `y`.
    pub open spec fn at(self, x: nat, y: nat) -> Element {
        self.grid[cell_index(self.width, x, y) as int]
    }
}

/// The cell in column `x < width` and row `y < height` lies in a grid of
/// `width * height` cells.
pub proof fn lemma_cell_in_grid(width: nat, height: nat, x: nat, y: nat)
    requires
        x < width,
        y < height,
    ensures
        cell_index(width, x, y) < width * height,
{
    assert(y * width + x < width * height) by (nonlinear_arith)
        requires
            x < width,
            y < height,
    ;
}

/// Running the changes keeps the grid's length, and every change asked for
/// names a cell of the grid.
pub proof fn lemma_run_in_bounds(grid: Seq<Element>, width: nat, changes: Seq<StateChange>)
    requires
        forall|i: int| 0 <= i < changes.len() ==> (#[trigger] changes[i]).state_index < grid.len(),
    ensures
        run_grid(grid, width, changes).len() == grid.len(),
        forall|i: int|
            0 <= i < run_reactions(grid, width, changes).len() ==> (#[trigger] run_reactions(
                grid,
                width,
                changes,
            )[i]).state_index < grid.len(),
    decreases changes.len(),
{
    if changes.len() > 0 {
        let front = changes.drop_last();
        assert forall|i: int| 0 <= i < front.len() implies (#[trigger] front[i]).state_index
            < grid.len() by {
            assert(front[i] == changes[i]);
        }
        lemma_run_in_bounds(grid, width, front);
        assert(changes.last() == changes[changes.len() - 1]);
    }
}

} // verus!
