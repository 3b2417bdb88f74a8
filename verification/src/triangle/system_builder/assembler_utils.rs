//! Index maps from the entries of a local block to the entries of the global
//! system.

use vstd::prelude::*;
use std::collections::HashMap;

verus! {

/// An index map: pairs of a local entry `(row, column)` and the global entry
/// it is added to, row by row, each local entry once.
pub type IndexMap = Vec<((usize, usize), (usize, usize))>;

/// The `i`-th of three global indices.
pub open spec fn pick(global_1: usize, global_2: usize, global_3: usize, i: int) -> usize {
    if i == 0 {
        global_1
    } else if i == 1 {
        global_2
    } else {
        global_3
    }
}

/// The index map of a local column vector: row `i` goes to row `g_i` of the
/// single global column.
pub open spec fn spec_linear_map(global_1: usize, global_2: usize, global_3: usize) -> Seq<
    ((usize, usize), (usize, usize)),
> {
    Seq::new(3, |i: int| ((i as usize, 0usize), (pick(global_1, global_2, global_3, i), 0usize)))
}

/// The index map of a local block between two elements: entry `(i, j)` goes
/// to row `g_i` of the first element and column `h_j` of the second.
pub open spec fn spec_cross_map(
    global_1: usize,
    global_2: usize,
    global_3: usize,
    global_4: usize,
    global_5: usize,
    global_6: usize,
) -> Seq<((usize, usize), (usize, usize))> {
    Seq::new(
        9,
        |n: int|
            (
                ((n / 3) as usize, (n % 3) as usize),
                (
                    pick(global_1, global_2, global_3, n / 3),
                    pick(global_4, global_5, global_6, n % 3),
                ),
            ),
    )
}

/// The index map of a local block of one element: entry `(i, j)` goes to
/// `(g_i, g_j)`.
pub open spec fn spec_square_map(global_1: usize, global_2: usize, global_3: usize) -> Seq<
    ((usize, usize), (usize, usize)),
> {
    spec_cross_map(global_1, global_2, global_3, global_1, global_2, global_3)
}

/// The global index of each of the three local indices.
pub fn linear(global_1: usize, global_2: usize, global_3: usize) -> (map: HashMap<usize, usize>)
    ensures
        map@ == map![0usize => global_1, 1usize => global_2, 2usize => global_3],
{
    broadcast use vstd::std_specs::hash::group_hash_axioms;

    let mut map: HashMap<usize, usize> = HashMap::new();
    map.insert(0, global_1);
    map.insert(1, global_2);
    map.insert(2, global_3);
    assert(map@ =~= map![0usize => global_1, 1usize => global_2, 2usize => global_3]);
    map
}

pub fn linear_map(global_1: usize, global_2: usize, global_3: usize) -> (map: IndexMap)
    ensures
        map@ == spec_linear_map(global_1, global_2, global_3),
{
    broadcast use vstd::std_specs::hash::group_hash_axioms;

    let rows = linear(global_1, global_2, global_3);
    let mut map: IndexMap = Vec::new();
    let mut local_row: usize = 0;
    while local_row < 3
        invariant
            local_row <= 3,
            rows@ == map![0usize => global_1, 1usize => global_2, 2usize => global_3],
            map@ == spec_linear_map(global_1, global_2, global_3).subrange(0, local_row as int),
        decreases 3 - local_row,
    {
        let global_row = *rows.get(&local_row).unwrap();
        map.push(((local_row, 0), (global_row, 0)));
        local_row = local_row + 1;
    }
    map
}

pub fn cross_map(
    global_1: usize,
    global_2: usize,
    global_3: usize,
    global_4: usize,
    global_5: usize,
    global_6: usize,
) -> (map: IndexMap)
    ensures
        map@ == spec_cross_map(global_1, global_2, global_3, global_4, global_5, global_6),
{
    broadcast use vstd::std_specs::hash::group_hash_axioms;

    let rows = linear(global_1, global_2, global_3);
    let columns = linear(global_4, global_5, global_6);
    let ghost full = spec_cross_map(global_1, global_2, global_3, global_4, global_5, global_6);
    let mut map: IndexMap = Vec::new();
    let mut local_row: usize = 0;
    while local_row < 3
        invariant
            local_row <= 3,
            rows@ == map![0usize => global_1, 1usize => global_2, 2usize => global_3],
            columns@ == map![0usize => global_4, 1usize => global_5, 2usize => global_6],
            full == spec_cross_map(global_1, global_2, global_3, global_4, global_5, global_6),
            map@ == full.subrange(0, 3 * local_row),
        decreases 3 - local_row,
    {
        let global_row = *rows.get(&local_row).unwrap();
        let mut local_column: usize = 0;
        while local_column < 3
            invariant
                local_row < 3,
                local_column <= 3,
                global_row == pick(global_1, global_2, global_3, local_row as int),
                columns@ == map![0usize => global_4, 1usize => global_5, 2usize => global_6],
                full == spec_cross_map(
                    global_1,
                    global_2,
                    global_3,
                    global_4,
                    global_5,
                    global_6,
                ),
                map@ == full.subrange(0, 3 * local_row + local_column),
            decreases 3 - local_column,
        {
            let global_column = *columns.get(&local_column).unwrap();
            map.push(((local_row, local_column), (global_row, global_column)));
            local_column = local_column + 1;
        }
        local_row = local_row + 1;
    }
    map
}

pub fn square_map(global_1: usize, global_2: usize, global_3: usize) -> (map: IndexMap)
    ensures
        map@ == spec_square_map(global_1, global_2, global_3),
{
    cross_map(global_1, global_2, global_3, global_1, global_2, global_3)
}

} // verus!
