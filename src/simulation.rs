//! The executable simulation: the grid, the pending changes, and the
//! operations that edit and advance them.
use vstd::prelude::*;

use crate::model::{
    cell_coords, lemma_cell_in_grid, lemma_run_in_bounds, reactions, run_grid, run_reactions,
    SimulationView,
};

verus! {

/// The material that occupies one cell.
#[derive(Clone, Copy, PartialEq, Eq, Structural, Debug)]
pub enum Element {
    Sand,
    Air,
}

impl Default for Element {
    fn default() -> (r: Self)
        ensures
            r == Element::Air,
    {
        Element::Air
    }
}

/// The dimensions of a grid, in cells.
#[derive(Clone, Copy, PartialEq, Eq, Structural, Debug)]
pub struct Size {
    pub width: usize,
    pub height: usize,
}

/// A request that the cell at `state_index` becomes `new_element`.
#[derive(Clone, Copy, PartialEq, Eq, Structural, Debug)]
pub struct StateChange {
    pub state_index: usize,
    pub new_element: Element,
}

/// The grid of cells, stored row by row, and the changes that the next
/// step will apply.
pub struct Simulation {
    size: Size,
    state: Vec<Element>,
    state_changes: Vec<StateChange>,
}

impl View for Simulation {
    type V = SimulationView;

    closed spec fn view(&self) -> SimulationView {
        SimulationView {
            width: self.size.width as nat,
            height: self.size.height as nat,
            grid: self.state@,
            changes: self.state_changes@,
        }
    }
}

impl Simulation {
    /// A grid of `width * height` cells, all `Air`, with nothing pending.
    pub fn new(size: Size) -> (r: Self)
        requires
            size.width * size.height <= usize::MAX,
        ensures
            r@.wf(),
            r@.width == size.width,
            r@.height == size.height,
            r@.grid == Seq::new((size.width * size.height) as nat, |i: int| Element::Air),
            r@.changes == Seq::<StateChange>::empty(),
    {
        let n: usize = size.width * size.height;
        let state = vec![Element::Air; n];
        let r = Simulation { state, size, state_changes: Vec::new() };
        assert(r@.grid =~= Seq::new((size.width * size.height) as nat, |i: int| Element::Air));
        r
    }

    /// Advances the simulation by one step.
    ///
    /// The pending changes are taken in order. Each is first evaluated
    /// against the grid as the changes before it have left it (see
    /// `reactions`), then written into the grid. What they ask for replaces
    /// the pending list.
    pub fn tick(&mut self)
        requires
            old(self)@.wf(),
        ensures
            final(self)@ == old(self)@.ticked(),
            final(self)@.wf(),
    {
        let width = self.size.width;
        let mut new_state_changes: Vec<StateChange> = Vec::new();
        let mut k: usize = 0;
        let ghost grid0 = self.state@;
        let ghost changes = self.state_changes@;
        while k < self.state_changes.len()
            invariant
                0 <= k <= changes.len(),
                self.state_changes@ == changes,
                self.size.width == width,
                self.size == old(self).size,
                old(self)@.wf(),
                grid0 == old(self).state@,
                changes == old(self).state_changes@,
                self.state@ == run_grid(grid0, width as nat, changes.take(k as int)),
                new_state_changes@ == run_reactions(grid0, width as nat, changes.take(k as int)),
                self.state@.len() == grid0.len(),
            decreases changes.len() - k,
        {
            let change = self.state_changes[k];
            let index = change.state_index;
            proof {
                assert(changes.take(k + 1).drop_last() =~= changes.take(k as int));
                assert(changes.take(k + 1).last() == change);
            }
            let ghost before = new_state_changes@;
            match change.new_element {
                Element::Air => {
                    if index >= width {
                        let above = index - width;
                        if self.state[above] == Element::Sand {
                            new_state_changes.push(
                                StateChange { state_index: above, new_element: Element::Air },
                            );
                            new_state_changes.push(
                                StateChange { state_index: index, new_element: Element::Sand },
                            );
                        }
                    }
                },
                Element::Sand => {
                    let len = self.state.len();
                    if len - index > width {
                        let below = index + width;
                        if self.state[below] == Element::Air {
                            new_state_changes.push(
                                StateChange { state_index: index, new_element: Element::Air },
                            );
                            new_state_changes.push(
                                StateChange { state_index: below, new_element: Element::Sand },
                            );
                        }
                    }
                },
            }
            assert(new_state_changes@ =~= before + reactions(self.state@, width as nat, change));
            self.state.set(index, change.new_element);
            k = k + 1;
        }
        assert(changes.take(k as int) =~= changes);
        proof {
            lemma_run_in_bounds(grid0, width as nat, changes);
        }
        self.state_changes = new_state_changes;
    }

    /// Queues a change that turns the cell at column `x`, row `y` into
    /// `element`, unless the grid already holds `element` there. The grid
    /// itself changes only at the next step.
    fn place(&mut self, x: usize, y: usize, element: Element)
        requires
            old(self)@.wf(),
            x < old(self)@.width,
            y < old(self)@.height,
        ensures
            final(self)@ == old(self)@.placed(x as nat, y as nat, element),
            final(self)@.wf(),
    {
        let width = self.size.width;
        proof {
            lemma_cell_in_grid(width as nat, self.size.height as nat, x as nat, y as nat);
        }
        let index = y * width + x;
        if self.state[index] != element {
            self.state_changes.push(StateChange { state_index: index, new_element: element });
        }
        proof {
            let v = self@;
            assert forall|i: int| 0 <= i < v.changes.len() implies (#[trigger] v.changes[i]).state_index
                < v.grid.len() by {
                if i < old(self)@.changes.len() {
                    assert(v.changes[i] == old(self)@.changes[i]);
                }
            }
        }
    }

    /// Queues sand for the cell at column `x`, row `y` (see `place`).
    pub fn add_sand(&mut self, x: usize, y: usize)
        requires
            old(self)@.wf(),
            x < old(self)@.width,
            y < old(self)@.height,
        ensures
            final(self)@ == old(self)@.placed(x as nat, y as nat, Element::Sand),
            final(self)@.wf(),
    {
        self.place(x, y, Element::Sand);
    }

    /// Queues air for the cell at column `x`, row `y` (see `place`).
    pub fn add_air(&mut self, x: usize, y: usize)
        requires
            old(self)@.wf(),
            x < old(self)@.width,
            y < old(self)@.height,
        ensures
            final(self)@ == old(self)@.placed(x as nat, y as nat, Element::Air),
            final(self)@.wf(),
    {
        self.place(x, y, Element::Air);
    }

    /// The dimensions of the grid.
    pub fn get_size(&self) -> (r: &Size)
        ensures
            r.width == self@.width,
            r.height == self@.height,
    {
        &self.size
    }

    /// The pending changes: those asked for by the last step, followed by
    /// the edits queued since.
    pub fn get_state_changes(&self) -> (r: &Vec<StateChange>)
        ensures
            r@ == self@.changes,
    {
        &self.state_changes
    }

    /// The element that the grid holds at column `x`, row `y`.
    pub fn get_element(&self, x: usize, y: usize) -> (r: Element)
        requires
            self@.wf(),
            x < self@.width,
            y < self@.height,
        ensures
            r == self@.at(x as nat, y as nat),
    {
        proof {
            lemma_cell_in_grid(self.size.width as nat, self.size.height as nat, x as nat, y as nat);
        }
        self.state[y * self.size.width + x]
    }

    /// The column and row of the cell at `index`.
    pub fn index_to_x_and_y(&self, index: usize) -> (r: (usize, usize))
        requires
            self@.width > 0,
        ensures
            (r.0 as nat, r.1 as nat) == cell_coords(self@.width, index as nat),
    {
        let x = index % self.size.width;
        let y = index / self.size.width;
        (x, y)
    }
}

} // verus!
