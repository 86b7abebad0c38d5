//! Tables of answers, one row for each line of a text and one column for
//! each pattern, and the places at which such a table holds a hit.

use vstd::prelude::*;

verus! {

/// The rows of a table, each as a plain list of answers.
pub open spec fn rows_of(table: Seq<Vec<bool>>) -> Seq<Seq<bool>> {
    table.map_values(|row: Vec<bool>| row@)
}

/// Whether `place` names a row of `table` and a column of that row.
pub open spec fn in_table(table: Seq<Seq<bool>>, place: (usize, usize)) -> bool {
    place.0 < table.len() && place.1 < table[place.0 as int].len()
}

/// The hits among the first `n` answers of the row with the number `line`,
/// from left to right, each as the row's number and the column.
pub open spec fn row_places(row: Seq<bool>, line: usize, n: nat) -> Seq<(usize, usize)>
    decreases n,
{
    if n == 0 {
        Seq::empty()
    } else {
        let before = row_places(row, line, (n - 1) as nat);
        if row[n - 1] {
            before.push((line, (n - 1) as usize))
        } else {
            before
        }
    }
}

/// The hits in the first `n` rows of a table: row after row, and within a
/// row from left to right.
pub open spec fn hit_places(table: Seq<Seq<bool>>, n: nat) -> Seq<(usize, usize)>
    decreases n,
{
    if n == 0 {
        Seq::empty()
    } else {
        hit_places(table, (n - 1) as nat) + row_places(
            table[n - 1],
            (n - 1) as usize,
            table[n - 1].len(),
        )
    }
}

/// The hits of a whole table: row after row, and within a row from left to
/// right.
pub open spec fn hits_of(table: Seq<Seq<bool>>) -> Seq<(usize, usize)> {
    hit_places(table, table.len())
}

/// The places at which a table holds a hit, row after row and within a row
/// from left to right.
pub fn hit_list(table: &Vec<Vec<bool>>) -> (places: Vec<(usize, usize)>)
    ensures
        places@ == hits_of(rows_of(table@)),
        forall|k: int| 0 <= k < places@.len() ==> in_table(rows_of(table@), #[trigger] places@[k]),
{
    let ghost rows = rows_of(table@);
    let mut places: Vec<(usize, usize)> = Vec::new();
    let mut i: usize = 0;
    while i < table.len()
        invariant
            i <= table.len(),
            rows == rows_of(table@),
            places@ == hit_places(rows, i as nat),
            forall|k: int| 0 <= k < places@.len() ==> in_table(rows, #[trigger] places@[k]),
        decreases table.len() - i,
    {
        let row = &table[i];
        let ghost done = places@;
        let mut j: usize = 0;
        proof {
            assert(rows[i as int] == row@);
            assert(places@ =~= done + row_places(row@, i, 0));
        }
        while j < row.len()
            invariant
                i < table.len(),
                j <= row.len(),
                rows == rows_of(table@),
                rows[i as int] == row@,
                places@ == done + row_places(row@, i, j as nat),
                forall|k: int| 0 <= k < places@.len() ==> in_table(rows, #[trigger] places@[k]),
            decreases row.len() - j,
        {
            if row[j] {
                places.push((i, j));
                proof {
                    assert(places@ =~= done + row_places(row@, i, (j + 1) as nat));
                }
            }
            j += 1;
        }
        i += 1;
    }
    places
}

} // verus!
