//! Properties of the simulation that relate several operations or hold of
//! every state, each proved over the model in `model`.
use vstd::prelude::*;

use vstd::arithmetic::div_mod::{
    lemma_fundamental_div_mod, lemma_fundamental_div_mod_converse, lemma_mod_pos_bound,
};

use crate::model::{
    apply, cell_coords, cell_index, lemma_cell_in_grid, lemma_run_in_bounds, reactions, run_grid,
    run_reactions,
    SimulationView,
};
use crate::simulation::{Element, StateChange};

verus! {

/// Converting an index of the grid to a column and a row and back gives the
/// same index, and the column and row lie in the grid.
pub proof fn lemma_index_to_coords_inverse(width: nat, height: nat, index: nat)
    requires
        index < width * height,
    ensures
        width > 0,
        cell_coords(width, index).0 < width,
        cell_coords(width, index).1 < height,
        cell_index(width, cell_coords(width, index).0, cell_coords(width, index).1) == index,
{
    assert(width > 0) by (nonlinear_arith)
        requires
            index < width * height,
    ;
    lemma_fundamental_div_mod(index as int, width as int);
    let q = index / width;
    assert(q * width == width * q) by (nonlinear_arith);
    assert(q < height) by (nonlinear_arith)
        requires
            width > 0,
            index < width * height,
            index == width * q + index % width,
            index % width >= 0,
    ;
}

/// Converting a column and a row of the grid to an index and back gives the
/// same column and row, and the index lies in the grid.
pub proof fn lemma_coords_to_index_inverse(width: nat, height: nat, x: nat, y: nat)
    requires
        x < width,
        y < height,
    ensures
        cell_index(width, x, y) < width * height,
        cell_coords(width, cell_index(width, x, y)) == (x, y),
{
    lemma_cell_in_grid(width, height, x, y);
    lemma_fundamental_div_mod_converse(
        cell_index(width, x, y) as int,
        width as int,
        y as int,
        x as int,
    );
}

/// A step taken with nothing pending changes nothing: the grid stays as it
/// is and nothing becomes pending.
pub proof fn lemma_quiescent_tick(s: SimulationView)
    requires
        s.changes.len() == 0,
    ensures
        s.ticked() == s,
{
    assert(s.ticked().changes =~= s.changes);
}

/// Once nothing is pending, any number of further steps changes nothing.
pub proof fn lemma_quiescent_forever(s: SimulationView, k: nat)
    requires
        s.changes.len() == 0,
    ensures
        s.after(k) == s,
    decreases k,
{
    if k > 0 {
        lemma_quiescent_forever(s, (k - 1) as nat);
        lemma_quiescent_tick(s);
    }
}

/// Requesting the same element twice for a cell whose grid value differs
/// queues two identical changes, one after the other, since the grid only
/// changes at the next step. In particular a single request on a state
/// with nothing pending leaves exactly one pending change.
pub proof fn lemma_repeated_placement(s: SimulationView, x: nat, y: nat, element: Element)
    requires
        s.at(x, y) != element,
    ensures
        ({
            let change = StateChange {
                state_index: cell_index(s.width, x, y) as usize,
                new_element: element,
            };
            &&& s.placed(x, y, element).changes == s.changes.push(change)
            &&& s.placed(x, y, element).placed(x, y, element).changes == s.changes + seq![
                change,
                change,
            ]
            &&& s.placed(x, y, element).placed(x, y, element).grid == s.grid
        }),
{
    let change = StateChange {
        state_index: cell_index(s.width, x, y) as usize,
        new_element: element,
    };
    assert(s.placed(x, y, element).placed(x, y, element).changes =~= s.changes + seq![
        change,
        change,
    ]);
}

/// One pending change is evaluated, then written.
proof fn lemma_run_one(grid: Seq<Element>, width: nat, a: StateChange)
    ensures
        run_grid(grid, width, seq![a]) == apply(grid, a),
        run_reactions(grid, width, seq![a]) == reactions(grid, width, a),
{
    assert(seq![a].drop_last() =~= Seq::<StateChange>::empty());
    assert(run_grid(grid, width, Seq::<StateChange>::empty()) == grid);
    assert(run_reactions(grid, width, Seq::<StateChange>::empty()) == Seq::<StateChange>::empty());
    assert(Seq::<StateChange>::empty() + reactions(grid, width, a) =~= reactions(grid, width, a));
}

/// Two pending changes: the second is evaluated against the grid that the
/// first has written.
proof fn lemma_run_two(grid: Seq<Element>, width: nat, a: StateChange, b: StateChange)
    ensures
        run_grid(grid, width, seq![a, b]) == apply(apply(grid, a), b),
        run_reactions(grid, width, seq![a, b]) == reactions(grid, width, a) + reactions(
            apply(grid, a),
            width,
            b,
        ),
{
    assert(seq![a, b].drop_last() =~= seq![a]);
    lemma_run_one(grid, width, a);
}

/// The cells of one column, row after row: each lies `width` after the one
/// above it, inside the grid exactly on the grid's rows, and in the top row
/// exactly when it lies before `width`.
proof fn lemma_column_step(width: nat, height: nat, x: nat, r: nat)
    requires
        x < width,
    ensures
        cell_index(width, x, r + 1) == cell_index(width, x, r) + width,
        cell_index(width, x, r) < width * height <==> r < height,
        cell_index(width, x, r) >= width <==> r >= 1,
{
    assert(cell_index(width, x, r + 1) == cell_index(width, x, r) + width) by (nonlinear_arith);
    assert(cell_index(width, x, r) < width * height <==> r < height) by (nonlinear_arith)
        requires
            x < width,
    ;
    assert(cell_index(width, x, r) >= width <==> r >= 1) by (nonlinear_arith)
        requires
            x < width,
    ;
}

/// A single grain of sand requested at column `x`, row `y`, over a column
/// that is `Air` from the row above it to the floor, falls one row per step.
///
/// After `k >= 1` steps, while row `y + k` is still in the grid, the grid
/// holds the grain at row `y + k - 1` and the pending changes move it to row
/// `y + k`. Once `y + k` reaches the height, the grain rests on the bottom
/// row and nothing is pending, at every later step too.
pub proof fn lemma_grain_falls(s: SimulationView, x: nat, y: nat, k: nat)
    requires
        s.wf(),
        x < s.width,
        y < s.height,
        s.changes == seq![
            StateChange {
                state_index: cell_index(s.width, x, y) as usize,
                new_element: Element::Sand,
            },
        ],
        forall|r: nat| r + 1 >= y && r < s.height ==> #[trigger] s.at(x, r) == Element::Air,
    ensures
        s.after(k).width == s.width,
        s.after(k).height == s.height,
        1 <= k && y + k < s.height ==> {
            &&& s.after(k).grid == s.grid.update(
                cell_index(s.width, x, (y + k - 1) as nat) as int,
                Element::Sand,
            )
            &&& s.after(k).changes == seq![
                StateChange {
                    state_index: cell_index(s.width, x, (y + k - 1) as nat) as usize,
                    new_element: Element::Air,
                },
                StateChange {
                    state_index: cell_index(s.width, x, y + k) as usize,
                    new_element: Element::Sand,
                },
            ]
        },
        y + k >= s.height ==> {
            &&& s.after(k).grid == s.grid.update(
                cell_index(s.width, x, (s.height - 1) as nat) as int,
                Element::Sand,
            )
            &&& s.after(k).changes.len() == 0
        },
    decreases k,
{
    let w = s.width;
    let h = s.height;
    if k > 0 {
        lemma_grain_falls(s, x, y, (k - 1) as nat);
        let t = s.after((k - 1) as nat);
        if k == 1 {
            let a = s.changes[0];
            assert(s.changes =~= seq![a]);
            lemma_run_one(s.grid, w, a);
            lemma_column_step(w, h, x, y);
            lemma_column_step(w, h, x, y + 1);
            if y + 1 < h {
                assert(s.at(x, y + 1) == Element::Air);
            }
        } else if y + k - 1 < h {
            let j = (y + k - 1) as nat;
            let a = t.changes[0];
            let b = t.changes[1];
            assert(t.changes =~= seq![a, b]);
            lemma_run_two(t.grid, w, a, b);
            lemma_column_step(w, h, x, (j - 2) as nat);
            lemma_column_step(w, h, x, (j - 1) as nat);
            lemma_column_step(w, h, x, j);
            lemma_column_step(w, h, x, j + 1);
            if j >= 2 {
                assert(s.at(x, (j - 2) as nat) == Element::Air);
            }
            assert(s.at(x, (j - 1) as nat) == Element::Air);
            assert(reactions(t.grid, w, a) =~= Seq::<StateChange>::empty());
            assert(apply(t.grid, a) =~= s.grid);
            if j + 1 < h {
                assert(s.at(x, j + 1) == Element::Air);
            }
            assert(t.ticked().changes =~= reactions(s.grid, w, b));
        } else {
            lemma_quiescent_tick(t);
        }
    }
}

/// The cell at `index` lies in column `x`, at row `y` or below.
pub open spec fn in_column_from(width: nat, x: nat, y: nat, index: nat) -> bool {
    index % width == x && index / width >= y
}

/// Column `x` holds `Sand` from row `y` down to the floor, and no pending
/// change names any of those cells.
pub open spec fn column_at_rest(s: SimulationView, x: nat, y: nat) -> bool {
    &&& forall|r: nat| y <= r < s.height ==> #[trigger] s.at(x, r) == Element::Sand
    &&& forall|i: int|
        0 <= i < s.changes.len() ==> !in_column_from(
            s.width,
            x,
            y,
            (#[trigger] s.changes[i]).state_index as nat,
        )
}

/// Moving one row down keeps the column and adds one to the row.
proof fn lemma_next_row(width: nat, index: nat)
    requires
        width > 0,
    ensures
        (index + width) % width == index % width,
        (index + width) / width == index / width + 1,
{
    lemma_fundamental_div_mod(index as int, width as int);
    lemma_mod_pos_bound(index as int, width as int);
    let q = index / width;
    assert((q + 1) * width == width * q + width) by (nonlinear_arith);
    lemma_fundamental_div_mod_converse(
        (index + width) as int,
        width as int,
        (index / width + 1) as int,
        (index % width) as int,
    );
}

/// Evaluating and writing one change that names no cell of a resting column
/// keeps the column `Sand` and asks for no change to any of its cells.
proof fn lemma_rest_one(
    grid: Seq<Element>,
    width: nat,
    height: nat,
    x: nat,
    y: nat,
    change: StateChange,
)
    requires
        grid.len() == width * height,
        grid.len() <= usize::MAX,
        x < width,
        change.state_index < grid.len(),
        !in_column_from(width, x, y, change.state_index as nat),
        forall|r: nat|
            y <= r < height ==> #[trigger] grid[cell_index(width, x, r) as int] == Element::Sand,
    ensures
        forall|r: nat|
            y <= r < height ==> #[trigger] apply(grid, change)[cell_index(width, x, r) as int]
                == Element::Sand,
        forall|i: int|
            0 <= i < reactions(grid, width, change).len() ==> !in_column_from(
                width,
                x,
                y,
                (#[trigger] reactions(grid, width, change)[i]).state_index as nat,
            ),
{
    let i = change.state_index as nat;
    assert forall|r: nat| y <= r < height implies #[trigger] apply(grid, change)[cell_index(
        width,
        x,
        r,
    ) as int] == Element::Sand by {
        lemma_coords_to_index_inverse(width, height, x, r);
    }
    let out = reactions(grid, width, change);
    match change.new_element {
        Element::Air => {
            if i >= width && grid[i - width] == Element::Sand {
                lemma_next_row(width, (i - width) as nat);
                assert(out[0].state_index as nat == i - width);
            }
        },
        Element::Sand => {
            if i + width < grid.len() && grid[(i + width) as int] == Element::Air {
                let below = i + width;
                if in_column_from(width, x, y, below) {
                    lemma_index_to_coords_inverse(width, height, below);
                    let r = below / width;
                    assert(grid[cell_index(width, x, r) as int] == Element::Sand);
                }
                assert(out[1].state_index as nat == below);
            }
        },
    }
}

/// Running changes that name no cell of a resting column keeps the column
/// `Sand` and asks for no change to any of its cells.
proof fn lemma_rest_run(
    grid: Seq<Element>,
    width: nat,
    height: nat,
    x: nat,
    y: nat,
    changes: Seq<StateChange>,
)
    requires
        grid.len() == width * height,
        grid.len() <= usize::MAX,
        x < width,
        forall|i: int| 0 <= i < changes.len() ==> (#[trigger] changes[i]).state_index < grid.len(),
        forall|i: int|
            0 <= i < changes.len() ==> !in_column_from(
                width,
                x,
                y,
                (#[trigger] changes[i]).state_index as nat,
            ),
        forall|r: nat|
            y <= r < height ==> #[trigger] grid[cell_index(width, x, r) as int] == Element::Sand,
    ensures
        forall|r: nat|
            y <= r < height ==> #[trigger] run_grid(grid, width, changes)[cell_index(
                width,
                x,
                r,
            ) as int] == Element::Sand,
        forall|i: int|
            0 <= i < run_reactions(grid, width, changes).len() ==> !in_column_from(
                width,
                x,
                y,
                (#[trigger] run_reactions(grid, width, changes)[i]).state_index as nat,
            ),
    decreases changes.len(),
{
    if changes.len() > 0 {
        let front = changes.drop_last();
        let last = changes.last();
        assert forall|i: int| 0 <= i < front.len() implies (#[trigger] front[i]).state_index
            < grid.len() && !in_column_from(width, x, y, front[i].state_index as nat) by {
            assert(front[i] == changes[i]);
        }
        assert(last == changes[changes.len() - 1]);
        lemma_rest_run(grid, width, height, x, y, front);
        lemma_run_in_bounds(grid, width, front);
        let g = run_grid(grid, width, front);
        lemma_rest_one(g, width, height, x, y, last);
        let earlier = run_reactions(grid, width, front);
        let out = run_reactions(grid, width, changes);
        assert forall|i: int| 0 <= i < out.len() implies !in_column_from(
            width,
            x,
            y,
            (#[trigger] out[i]).state_index as nat,
        ) by {
            if i < earlier.len() {
                assert(out[i] == earlier[i]);
            } else {
                assert(out[i] == reactions(g, width, last)[i - earlier.len()]);
            }
        }
    }
}

/// A column of sand that rests on the floor never moves: when column `x`
/// holds `Sand` from row `y` down to the bottom row and no pending change
/// names those cells, the same holds after any number of steps. In
/// particular a grain resting on resting grains stays where it is.
pub proof fn lemma_column_stays_at_rest(s: SimulationView, x: nat, y: nat, k: nat)
    requires
        s.wf(),
        x < s.width,
        column_at_rest(s, x, y),
    ensures
        s.after(k).wf(),
        s.after(k).width == s.width,
        s.after(k).height == s.height,
        column_at_rest(s.after(k), x, y),
    decreases k,
{
    if k > 0 {
        lemma_column_stays_at_rest(s, x, y, (k - 1) as nat);
        let t = s.after((k - 1) as nat);
        assert forall|r: nat| y <= r < t.height implies #[trigger] t.grid[cell_index(
            t.width,
            x,
            r,
        ) as int] == Element::Sand by {
            assert(t.at(x, r) == Element::Sand);
        }
        lemma_run_in_bounds(t.grid, t.width, t.changes);
        lemma_rest_run(t.grid, t.width, t.height, x, y, t.changes);
        let u = t.ticked();
        assert forall|r: nat| y <= r < u.height implies #[trigger] u.at(x, r) == Element::Sand by {
            assert(u.grid[cell_index(u.width, x, r) as int] == Element::Sand);
        }
    }
}

} // verus!
