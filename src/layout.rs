//! Placement of tiles in the atlas: left to right along a row, wrapping to a
//! new row after the column limit, in the order in which the tiles were added.
use vstd::prelude::*;

verus! {

/// The column limit of a layout: a positive `max_columns`, or none at all
/// (a single unbounded row) when it is `None` or zero.
pub open spec fn column_limit(max_columns: Option<usize>) -> Option<nat> {
    match max_columns {
        Some(c) => if c > 0 { Some(c as nat) } else { None },
        None => None,
    }
}

/// The `(column, row)` cell of the tile at `index`, in row-major order.
pub open spec fn cell_of(index: nat, max_columns: Option<usize>) -> (nat, nat) {
    match column_limit(max_columns) {
        Some(c) => (index % c, index / c),
        None => (index, 0),
    }
}

/// The `(columns, rows)` size, in cells, of the atlas that holds `n` tiles.
pub open spec fn grid_of(n: nat, max_columns: Option<usize>) -> (nat, nat) {
    if n == 0 {
        (0, 0)
    } else {
        match column_limit(max_columns) {
            Some(c) => (if n < c { n } else { c }, ((n + c - 1) as nat) / c),
            None => (n, 1),
        }
    }
}

/// The cell of the tile at `index`.
pub fn tile_cell(index: usize, max_columns: Option<usize>) -> (r: (usize, usize))
    ensures
        (r.0 as nat, r.1 as nat) == cell_of(index as nat, max_columns),
{
    match max_columns {
        Some(c) if c > 0 => (index % c, index / c),
        _ => (index, 0),
    }
}

/// The size, in cells, of the atlas that holds `n` tiles.
pub fn atlas_grid(n: usize, max_columns: Option<usize>) -> (r: (usize, usize))
    ensures
        (r.0 as nat, r.1 as nat) == grid_of(n as nat, max_columns),
{
    if n == 0 {
        return (0, 0);
    }
    match max_columns {
        Some(c) if c > 0 => {
            let columns = if n < c { n } else { c };
            let rows = (n - 1) / c + 1;
            assert(((n + c - 1) as nat) / (c as nat) == (n - 1) as nat / (c as nat) + 1) by {
                vstd::arithmetic::div_mod::lemma_div_plus_one((n - 1) as int, c as int);
            }
            (columns, rows)
        },
        _ => (n, 1),
    }
}

/// The cells of `n` tiles, in the order in which they were added.
pub fn atlas_layout(n: usize, max_columns: Option<usize>) -> (r: Vec<(usize, usize)>)
    ensures
        r@.len() == n,
        forall|i: int|
            0 <= i < n ==> ((#[trigger] r@[i]).0 as nat, r@[i].1 as nat) == cell_of(
                i as nat,
                max_columns,
            ),
{
    let mut cells: Vec<(usize, usize)> = Vec::new();
    let mut i: usize = 0;
    while i < n
        invariant
            i <= n,
            cells@.len() == i,
            forall|k: int|
                0 <= k < i ==> ((#[trigger] cells@[k]).0 as nat, cells@[k].1 as nat) == cell_of(
                    k as nat,
                    max_columns,
                ),
        decreases n - i,
    {
        cells.push(tile_cell(i, max_columns));
        i = i + 1;
    }
    cells
}

/// Every tile of a group of `n` lies inside the atlas grid of that group.
pub proof fn lemma_cell_in_grid(n: nat, max_columns: Option<usize>, index: nat)
    requires
        index < n,
    ensures
        cell_of(index, max_columns).0 < grid_of(n, max_columns).0,
        cell_of(index, max_columns).1 < grid_of(n, max_columns).1,
{
    if let Some(c) = column_limit(max_columns) {
        vstd::arithmetic::div_mod::lemma_mod_bound(index as int, c as int);
        vstd::arithmetic::div_mod::lemma_div_is_ordered(index as int, (n - 1) as int, c as int);
        vstd::arithmetic::div_mod::lemma_div_plus_one((n - 1) as int, c as int);
        if n < c {
            vstd::arithmetic::div_mod::lemma_small_mod(index, c);
        }
    }
}

/// No two tiles share a cell.
pub proof fn lemma_cells_distinct(max_columns: Option<usize>, i: nat, j: nat)
    requires
        i != j,
    ensures
        cell_of(i, max_columns) != cell_of(j, max_columns),
{
    if let Some(c) = column_limit(max_columns) {
        vstd::arithmetic::div_mod::lemma_fundamental_div_mod(i as int, c as int);
        vstd::arithmetic::div_mod::lemma_fundamental_div_mod(j as int, c as int);
    }
}

} // verus!
