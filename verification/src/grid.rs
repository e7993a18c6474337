//! The grid layout engine: redistributing an ordered name sequence into the
//! row-major cell order of a multi-column listing.

use vstd::prelude::*;

verus! {

use vstd::arithmetic::div_mod::lemma_fundamental_div_mod;
use vstd::arithmetic::div_mod::lemma_fundamental_div_mod_converse;
use vstd::string::StringSliceAdditionalSpecFns;
use vstd::utf8::encode_utf8;

/// The width a name occupies in a cell: its length in bytes.
pub open spec fn name_width(name: Seq<char>) -> nat {
    encode_utf8(name).len()
}

/// The largest byte length among the names.
pub open spec fn max_name_width(names: Seq<Seq<char>>) -> nat
    decreases names.len(),
{
    if names.len() == 0 {
        0
    } else {
        let rest = max_name_width(names.drop_last());
        let last = name_width(names.last());
        if last > rest {
            last
        } else {
            rest
        }
    }
}

/// Every cell is one byte wider than the longest name, reserving a separator.
pub open spec fn column_width_spec(names: Seq<Seq<char>>) -> int {
    1 + max_name_width(names) as int
}

/// An unknown terminal width counts as zero columns available.
pub open spec fn width_value(terminal_width: Option<usize>) -> int {
    match terminal_width {
        Some(w) => w as int,
        None => 0,
    }
}

/// How many columns the listing uses: one fewer than fit, to leave a right
/// margin, but never fewer than one, even on a terminal too narrow for a
/// single column.
pub open spec fn num_columns_spec(column_width: int, max_width: int) -> int {
    if max_width / column_width >= 2 {
        max_width / column_width - 1
    } else {
        1
    }
}

/// How many rows `count` names need at `num_columns` columns, rounding up.
pub open spec fn num_rows_spec(count: int, num_columns: int) -> int {
    (count + num_columns - 1) / num_columns
}

/// The computed layout: cell contents in row-major order together with the
/// column width and column count the renderer needs.
pub struct RenderPlan {
    pub cells: Vec<Option<String>>,
    pub column_width: usize,
    pub num_columns: usize,
}

impl RenderPlan {
    /// Plans always carry at least one column and whole rows of cells.
    pub open spec fn wf(self) -> bool {
        &&& self.num_columns >= 1
        &&& (self.cells@.len() as int) % (self.num_columns as int) == 0
    }
}

/// The grid that column-major filling produces, as a flat row-major sequence.
///
/// Cell `j * width + i` (row `j`, column `i`) holds the name that filling
/// column `i` top to bottom reaches, namely `names[i * height + j]`; cells
/// past the end of `names` stay empty.
pub open spec fn grid_spec(names: Seq<Seq<char>>, width: int, height: int) -> Seq<
    Option<Seq<char>>,
> {
    Seq::new((width * height) as nat, |k: int| cell_spec(names, width, height, k))
}

/// The content of the row-major cell at index `k` of the grid.
pub open spec fn cell_spec(names: Seq<Seq<char>>, width: int, height: int, k: int) -> Option<
    Seq<char>,
> {
    let i = k % width;
    let j = k / width;
    if i * height + j < names.len() {
        Some(names[i * height + j])
    } else {
        None
    }
}

/// The grid read back column by column, top to bottom: entry `k` is the cell
/// in row `k % height` of column `k / height`.
pub open spec fn column_major_read(
    cells: Seq<Option<Seq<char>>>,
    width: int,
    height: int,
) -> Seq<Option<Seq<char>>> {
    Seq::new((width * height) as nat, |k: int| cells[(k % height) * width + k / height])
}

/// Reading the grid column by column, top to bottom, yields exactly the
/// original names in their original order, followed by empty cells only.
pub proof fn lemma_column_major_readback(names: Seq<Seq<char>>, width: int, height: int)
    requires
        width >= 1,
        height >= 0,
        names.len() <= width * height,
    ensures
        column_major_read(grid_spec(names, width, height), width, height) =~= Seq::new(
            (width * height) as nat,
            |k: int| if k < names.len() {
                Some(names[k])
            } else {
                None
            },
        ),
{
    let cells = grid_spec(names, width, height);
    assert forall|k: int| 0 <= k < width * height implies column_major_read(cells, width, height)[k]
        == (if k < names.len() {
        Some(names[k])
    } else {
        None
    }) by {
        assert(height >= 1) by (nonlinear_arith)
            requires
                0 <= k,
                k < width * height,
                width >= 1,
                height >= 0,
        ;
        lemma_fundamental_div_mod(k, height);
        let col = k / height;
        let r = k % height;
        assert(0 <= r < height && 0 <= col) by (nonlinear_arith)
            requires
                height >= 1,
                0 <= k,
                r == k % height,
                col == k / height,
        ;
        assert(col < width) by (nonlinear_arith)
            requires
                k < width * height,
                k == height * col + r,
                0 <= r < height,
                width >= 1,
        ;
        let p = r * width + col;
        assert(0 <= p < width * height) by (nonlinear_arith)
            requires
                p == r * width + col,
                0 <= r < height,
                0 <= col < width,
                width >= 1,
        ;
        lemma_fundamental_div_mod_converse(p, width, r, col);
        assert(col * height + r == k) by (nonlinear_arith)
            requires
                k == height * col + r,
        ;
        assert(cells[p] == cell_spec(names, width, height, p));
    }
}

/// Redistribute `names` into the row-major cell order of a grid with `width`
/// columns and `height` rows, filling each column top to bottom before the
/// next; cells beyond the names are empty.
pub fn transpose(names: &Vec<String>, width: usize, height: usize) -> (cells: Vec<Option<String>>)
    requires
        1 <= width,
        names@.len() <= width * height,
        width * height <= usize::MAX,
    ensures
        cells.deep_view() =~= grid_spec(names.deep_view(), width as int, height as int),
{
    let total = width * height;
    let mut cells: Vec<Option<String>> = Vec::new();
    let mut k: usize = 0;
    while k < total
        invariant
            1 <= width,
            total == width * height,
            total <= usize::MAX,
            names@.len() <= total,
            k <= total,
            cells.deep_view().len() == k,
            forall|m: int|
                0 <= m < k ==> cells.deep_view()[m] == cell_spec(
                    names.deep_view(),
                    width as int,
                    height as int,
                    m,
                ),
        decreases total - k,
    {
        let i = k % width;
        let j = k / width;
        proof {
            assert(i < width) by (nonlinear_arith)
                requires
                    i == k as int % width as int,
                    width >= 1,
            ;
            assert(j < height) by (nonlinear_arith)
                requires
                    j == k as int / width as int,
                    width >= 1,
                    k < width * height,
            ;
            assert(i * height + j < width * height) by (nonlinear_arith)
                requires
                    i < width,
                    j < height,
                    0 <= i,
                    0 <= j,
                    1 <= width,
            ;
        }
        let src = i * height + j;
        let ghost prev = cells.deep_view();
        if src < names.len() {
            cells.push(Some(names[src].clone()));
        } else {
            cells.push(None);
        }
        proof {
            let dv = names.deep_view();
            let w = width as int;
            let h = height as int;
            let ki = k as int;
            assert(ki % w == i as int && ki / w == j as int);
            assert(dv.len() == names@.len());
            assert(cells.deep_view() =~= prev.push(cells.deep_view()[ki]));
            assert(cells.deep_view()[ki] == cell_spec(dv, w, h, ki));
        }
        k = k + 1;
    }
    cells
}

/// The byte length of the longest name, 0 for an empty list.
fn max_name_len(names: &Vec<String>) -> (m: usize)
    ensures
        m == max_name_width(names.deep_view()),
{
    let mut m: usize = 0;
    let mut idx: usize = 0;
    while idx < names.len()
        invariant
            idx <= names@.len(),
            m == max_name_width(names.deep_view().take(idx as int)),
        decreases names@.len() - idx,
    {
        let l = names[idx].as_str().as_bytes().len();
        proof {
            let dv = names.deep_view();
            let i = idx as int;
            assert(dv[i] == names@[i]@);
            assert(l == name_width(dv[i]));
            assert(dv.take(i + 1).drop_last() =~= dv.take(i));
            assert(dv.take(i + 1).last() == dv[i]);
        }
        if l > m {
            m = l;
        }
        idx = idx + 1;
    }
    proof {
        assert(names.deep_view().take(names@.len() as int) =~= names.deep_view());
    }
    m
}

/// Compute the full layout for `names` on a terminal of the given width
/// (`None` when the output device is not a terminal).
///
/// An empty name list yields an empty plan; otherwise the plan records the
/// column width, a column count of at least one, and the grid of cells that
/// column-major filling produces.
pub fn layout(names: &Vec<String>, terminal_width: Option<usize>) -> (plan: RenderPlan)
    requires
        column_width_spec(names.deep_view()) <= usize::MAX,
        names@.len() + num_columns_spec(
            column_width_spec(names.deep_view()),
            width_value(terminal_width),
        ) - 1 <= usize::MAX,
    ensures
        plan.wf(),
        plan.num_columns >= 1,
        names@.len() == 0 ==> plan.cells@.len() == 0 && plan.column_width == 0,
        names@.len() > 0 ==> {
            &&& plan.column_width == column_width_spec(names.deep_view())
            &&& plan.num_columns == num_columns_spec(
                plan.column_width as int,
                width_value(terminal_width),
            )
            &&& plan.cells.deep_view() == grid_spec(
                names.deep_view(),
                plan.num_columns as int,
                num_rows_spec(names@.len() as int, plan.num_columns as int),
            )
        },
{
    if names.len() == 0 {
        return RenderPlan { cells: Vec::new(), column_width: 0, num_columns: 1 };
    }
    let column_width = 1 + max_name_len(names);
    let max_width = match terminal_width {
        Some(w) => w,
        None => 0,
    };
    let fitting = max_width / column_width;
    let num_columns = if fitting >= 2 {
        fitting - 1
    } else {
        1
    };
    let num_rows = (names.len() + (num_columns - 1)) / num_columns;
    proof {
        let n = names@.len() as int;
        let c = num_columns as int;
        let s = n + c - 1;
        lemma_fundamental_div_mod(s, c);
        assert(0 <= s % c < c) by (nonlinear_arith)
            requires
                c >= 1,
                s >= 0,
        ;
        assert(c * (s / c) == s - s % c);
        assert(num_rows as int == s / c);
        assert(c * (num_rows as int) >= n);
        assert(c * (num_rows as int) <= usize::MAX);
        assert(c * (num_rows as int) == (num_rows as int) * c) by (nonlinear_arith);
        assert((c * (num_rows as int)) % c == 0) by (nonlinear_arith)
            requires
                c >= 1,
        ;
    }
    let cells = transpose(names, num_columns, num_rows);
    RenderPlan { cells, column_width, num_columns }
}

} // verus!
