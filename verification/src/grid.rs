//! Laying out a numbered list in columns for the terminal.

use vstd::prelude::*;
use crate::text::{count_chars, decimal, pad_left, pad_right, push_decimal_padded, push_repeated, push_str};

verus! {

/// The number of columns used: one for fewer than ten items, else `columns`.
pub open spec fn grid_cols(total: nat, columns: nat) -> nat {
    if total < 10 {
        1
    } else {
        columns
    }
}

/// The number of lines: the items divided by the columns, rounded up.
pub open spec fn grid_rows(total: nat, cols: nat) -> nat {
    ((total + cols - 1) / (cols as int)) as nat
}

/// The cell of item `idx`: its number (from 1) right-aligned to two
/// characters, `) ` and the item, padded with spaces to `width` characters.
pub open spec fn grid_cell(items: Seq<Seq<char>>, idx: int, width: nat) -> Seq<char> {
    pad_right(pad_left(decimal((idx + 1) as nat), 2, ' ') + ") "@ + items[idx], width, ' ')
}

/// Line `r` up to column `c`: the cells of items `r`, `r + rows`,
/// `r + 2 * rows`, ... that exist, side by side.
pub open spec fn grid_line(items: Seq<Seq<char>>, r: int, rows: int, width: nat, c: int) -> Seq<char>
    decreases c,
{
    if c <= 0 {
        Seq::empty()
    } else {
        let idx = r + (c - 1) * rows;
        grid_line(items, r, rows, width, c - 1) + if idx < items.len() {
            grid_cell(items, idx, width)
        } else {
            Seq::empty()
        }
    }
}

/// The lines that show `items` in columns, numbered from 1 and running down
/// each column first; no lines for no items.
pub open spec fn grid(items: Seq<Seq<char>>, width: nat, columns: nat) -> Seq<Seq<char>> {
    let cols = grid_cols(items.len(), columns);
    let rows = grid_rows(items.len(), cols);
    if items.len() == 0 {
        Seq::empty()
    } else {
        Seq::new(rows, |r: int| grid_line(items, r, rows as int, width, cols as int))
    }
}

proof fn lemma_index_grows(r: int, rows: int, c: int, d: int)
    requires
        0 <= rows,
        c <= d,
    ensures
        r + c * rows <= r + d * rows,
{
    assert(c * rows <= d * rows) by (nonlinear_arith)
        requires
            0 <= rows,
            c <= d,
    ;
}

proof fn lemma_grid_line_rest(items: Seq<Seq<char>>, r: int, rows: int, width: nat, c: int, d: int)
    requires
        0 <= rows,
        0 <= c <= d,
        r + c * rows >= items.len(),
    ensures
        grid_line(items, r, rows, width, d) == grid_line(items, r, rows, width, c),
    decreases d - c,
{
    if c < d {
        lemma_grid_line_rest(items, r, rows, width, c, d - 1);
        lemma_index_grows(r, rows, c, d - 1);
        assert(grid_line(items, r, rows, width, d) =~= grid_line(items, r, rows, width, d - 1));
    }
}

/// The cell of item `idx`, as `grid_cell` describes it.
fn cell(items: &Vec<String>, idx: usize, width: usize) -> (s: String)
    requires
        idx < items@.len(),
        idx + 1 <= u64::MAX,
    ensures
        s@ == grid_cell(items@.map_values(|x: String| x@), idx as int, width as nat),
{
    let _n = items.len();
    let mut entry = String::new();
    push_decimal_padded(&mut entry, (idx + 1) as u64, 2, ' ');
    push_str(&mut entry, ") ");
    push_str(&mut entry, items[idx].as_str());
    let len = count_chars(&entry);
    if len < width {
        push_repeated(&mut entry, ' ', width - len);
    }
    entry
}

/// The lines that show `items` in columns, each cell `column_width`
/// characters wide: one column for fewer than ten items, else
/// `columns_count`; numbered from 1, running down each column first.
pub fn grid_lines(items: &Vec<String>, column_width: usize, columns_count: usize) -> (lines: Vec<String>)
    requires
        items@.len() >= 10 ==> columns_count > 0,
        items@.len() + columns_count <= usize::MAX,
        items@.len() < u64::MAX,
    ensures
        lines@.map_values(|x: String| x@) == grid(
            items@.map_values(|x: String| x@),
            column_width as nat,
            columns_count as nat,
        ),
{
    let ghost views = items@.map_values(|x: String| x@);
    let total = items.len();
    let mut lines: Vec<String> = Vec::new();
    if total == 0 {
        assert(lines@.map_values(|x: String| x@) =~= grid(views, column_width as nat, columns_count as nat));
        return lines;
    }
    let cols: usize = if total < 10 {
        1
    } else {
        columns_count
    };
    let rows: usize = (total + cols - 1) / cols;
    proof {
        assert(rows <= total) by (nonlinear_arith)
            requires
                cols >= 1,
                rows == (total + cols - 1) / (cols as int),
                total >= 1,
        ;
    }
    let mut r: usize = 0;
    while r < rows
        invariant
            r <= rows <= total,
            total == items@.len(),
            views == items@.map_values(|x: String| x@),
            cols == grid_cols(total as nat, columns_count as nat),
            rows == grid_rows(total as nat, cols as nat),
            cols >= 1,
            total >= 1,
            total < u64::MAX,
            total + columns_count <= usize::MAX,
            lines@.len() == r,
            forall|k: int| 0 <= k < r ==> #[trigger] lines@[k]@ == grid_line(views, k, rows as int, column_width as nat, cols as int),
        decreases rows - r,
    {
        let mut line = String::new();
        let mut c: usize = 0;
        let mut idx: usize = r;
        while c < cols && idx < total
            invariant
                r < rows <= total,
                total == items@.len(),
                views == items@.map_values(|x: String| x@),
                c <= cols,
                total < u64::MAX,
                rows >= 1,
                idx <= total,
                idx < total ==> idx == r + c * rows,
                idx == total ==> r + c * rows >= total,
                line@ == grid_line(views, r as int, rows as int, column_width as nat, c as int),
            decreases cols - c,
        {
            let s = cell(items, idx, column_width);
            line.append(s.as_str());
            assert(line@ =~= grid_line(views, r as int, rows as int, column_width as nat, c + 1));
            c = c + 1;
            proof {
                assert(r + c * rows == r + (c - 1) * rows + rows) by (nonlinear_arith);
            }
            if total - idx <= rows {
                idx = total;
            } else {
                idx = idx + rows;
            }
        }
        proof {
            if c < cols {
                assert(r + c * rows >= total);
                lemma_grid_line_rest(views, r as int, rows as int, column_width as nat, c as int, cols as int);
            }
        }
        lines.push(line);
        r = r + 1;
    }
    assert(lines@.map_values(|x: String| x@) =~= grid(views, column_width as nat, columns_count as nat));
    lines
}

} // verus!
