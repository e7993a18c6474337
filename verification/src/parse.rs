//! The round trip behind the grid renderer: splitting rendered text on tabs
//! and line breaks and stripping the padding gives back exactly the occupied
//! cells of the grid, row by row.

use vstd::prelude::*;

use crate::grid::cell_spec;
use crate::grid::grid_spec;
use crate::render::grid_text;
use crate::render::pad_cell;
use crate::render::row_text_from;
use crate::render::spaces;

verus! {

/// The two characters the renderer uses between cells and rows.
pub open spec fn is_sep(c: char) -> bool {
    c == '\t' || c == '\n'
}

/// The pieces of a text between separators. A text of `n` separators has
/// `n + 1` pieces, empty pieces included.
pub open spec fn split_pieces(s: Seq<char>) -> Seq<Seq<char>>
    decreases s.len(),
{
    if s.len() == 0 {
        seq![Seq::<char>::empty()]
    } else if is_sep(s[0]) {
        seq![Seq::<char>::empty()] + split_pieces(s.skip(1))
    } else {
        let rest = split_pieces(s.skip(1));
        seq![seq![s[0]] + rest[0]] + rest.skip(1)
    }
}

/// A piece with its trailing spaces removed.
pub open spec fn strip_pad(p: Seq<char>) -> Seq<char>
    decreases p.len(),
{
    if p.len() == 0 {
        p
    } else if p.last() == ' ' {
        strip_pad(p.drop_last())
    } else {
        p
    }
}

/// Parsing rendered text: split on tabs and line breaks, strip the padding,
/// drop the empty pieces.
pub open spec fn parse_cells(s: Seq<char>) -> Seq<Seq<char>> {
    split_pieces(s).map_values(|p: Seq<char>| strip_pad(p)).filter(|p: Seq<char>| p.len() > 0)
}

/// The names of a grid's occupied cells, in the cells' order.
pub open spec fn occupied(cells: Seq<Option<Seq<char>>>) -> Seq<Seq<char>>
    decreases cells.len(),
{
    if cells.len() == 0 {
        Seq::empty()
    } else {
        match cells[0] {
            Some(name) => seq![name] + occupied(cells.skip(1)),
            None => occupied(cells.skip(1)),
        }
    }
}

/// A well-formed display name for the round trip: non-empty, free of the
/// separator characters, and not ending in a space.
pub open spec fn plain_name(name: Seq<char>) -> bool {
    &&& name.len() >= 1
    &&& forall|k: int| 0 <= k < name.len() ==> !is_sep(#[trigger] name[k])
    &&& name.last() != ' '
}

/// Splitting has at least one piece.
proof fn lemma_split_nonempty(s: Seq<char>)
    ensures
        split_pieces(s).len() >= 1,
    decreases s.len(),
{
    if s.len() != 0 {
        lemma_split_nonempty(s.skip(1));
    }
}

/// Splitting a separator-free piece, one separator, and a remainder gives
/// the piece followed by the remainder's pieces.
proof fn lemma_split_concat(a: Seq<char>, c: char, b: Seq<char>)
    requires
        forall|k: int| 0 <= k < a.len() ==> !is_sep(#[trigger] a[k]),
        is_sep(c),
    ensures
        split_pieces(a + seq![c] + b) =~~= seq![a] + split_pieces(b),
    decreases a.len(),
{
    let s = a + seq![c] + b;
    if a.len() == 0 {
        assert(s =~= seq![c] + b);
        assert(s[0] == c);
        assert(s.skip(1) =~= b);
    } else {
        assert(s[0] == a[0]);
        assert(!is_sep(s[0]));
        assert(s.skip(1) =~= a.skip(1) + seq![c] + b);
        lemma_split_concat(a.skip(1), c, b);
        lemma_split_nonempty(a.skip(1) + seq![c] + b);
        let rest = split_pieces(s.skip(1));
        assert(rest[0] == a.skip(1));
        assert(seq![s[0]] + a.skip(1) =~= a);
        assert(rest.skip(1) =~= split_pieces(b));
    }
}

/// Stripping the padding from a padded name gives the name back, as long as
/// the name itself is non-empty and does not end in a space.
proof fn lemma_strip_pad(name: Seq<char>, k: int)
    requires
        name.len() >= 1,
        name.last() != ' ',
    ensures
        strip_pad(name + spaces(k)) =~= name,
    decreases k,
{
    if k <= 0 {
        assert(name + spaces(k) =~= name);
    } else {
        lemma_strip_pad(name, k - 1);
        assert(name + spaces(k) =~= (name + spaces(k - 1)).push(' '));
        assert((name + spaces(k)).drop_last() =~= name + spaces(k - 1));
    }
}

/// A padded plain name has no separator characters.
proof fn lemma_pad_sepfree(name: Seq<char>, column_width: int)
    requires
        plain_name(name),
    ensures
        forall|k: int|
            0 <= k < pad_cell(name, column_width).len() ==> !is_sep(
                #[trigger] pad_cell(name, column_width)[k],
            ),
        pad_cell(name, column_width).len() >= 1,
{
    let p = pad_cell(name, column_width);
    lemma_spaces_all(column_width - crate::grid::name_width(name));
    assert forall|k: int| 0 <= k < p.len() implies !is_sep(p[k]) by {
        if k < name.len() {
            assert(p[k] == name[k]);
        } else {
            let sp = spaces(column_width - crate::grid::name_width(name));
            assert(p[k] == sp[k - name.len()]);
        }
    }
}

/// Whether a cell's name, if any, is well-formed for the round trip.
pub open spec fn plain_cell(cell: Option<Seq<char>>) -> bool {
    match cell {
        Some(name) => plain_name(name),
        None => true,
    }
}

/// The padded texts of the run of occupied cells from position `i` of a row.
pub open spec fn padded_pieces(row: Seq<Option<Seq<char>>>, column_width: int, i: int) -> Seq<
    Seq<char>,
>
    decreases row.len() - i,
{
    if i < 0 || i >= row.len() {
        Seq::empty()
    } else {
        match row[i] {
            None => Seq::empty(),
            Some(name) => seq![pad_cell(name, column_width)] + padded_pieces(
                row,
                column_width,
                i + 1,
            ),
        }
    }
}

/// Splitting a row's text, its line break, and whatever follows gives the
/// row's padded pieces followed by the pieces of the rest.
proof fn lemma_split_row(row: Seq<Option<Seq<char>>>, column_width: int, i: int, tail: Seq<char>)
    requires
        0 <= i < row.len(),
        row[i] is Some,
        forall|k: int| 0 <= k < row.len() ==> plain_cell(#[trigger] row[k]),
    ensures
        split_pieces(row_text_from(row, column_width, i) + seq!['\n'] + tail) =~~= padded_pieces(
            row,
            column_width,
            i,
        ) + split_pieces(tail),
    decreases row.len() - i,
{
    let name = row[i]->Some_0;
    let pad = pad_cell(name, column_width);
    lemma_pad_sepfree(name, column_width);
    if i + 1 < row.len() && row[i + 1] is Some {
        lemma_split_row(row, column_width, i + 1, tail);
        let rest = row_text_from(row, column_width, i + 1) + seq!['\n'] + tail;
        lemma_split_concat(pad, '\t', rest);
        assert(row_text_from(row, column_width, i) + seq!['\n'] + tail =~= pad + seq!['\t']
            + rest);
    } else {
        lemma_split_concat(pad, '\n', tail);
        assert(row_text_from(row, column_width, i) + seq!['\n'] + tail =~= pad + seq!['\n']
            + tail);
        assert(padded_pieces(row, column_width, i + 1) =~~= Seq::<Seq<char>>::empty());
        assert(padded_pieces(row, column_width, i) =~~= seq![pad]);
    }
}

/// Occupied cells of a concatenation: the occupied cells of each part.
proof fn lemma_occupied_add(a: Seq<Option<Seq<char>>>, b: Seq<Option<Seq<char>>>)
    ensures
        occupied(a + b) =~~= occupied(a) + occupied(b),
    decreases a.len(),
{
    if a.len() == 0 {
        assert(a + b =~= b);
    } else {
        lemma_occupied_add(a.skip(1), b);
        assert((a + b).skip(1) =~= a.skip(1) + b);
        assert((a + b)[0] == a[0]);
    }
}

/// A row whose occupied cells form a prefix has as occupied names exactly
/// the names of the run from the start, padded pieces aside.
proof fn lemma_row_occupied(row: Seq<Option<Seq<char>>>, column_width: int, i: int)
    requires
        0 <= i <= row.len(),
        forall|p: int, q: int|
            i <= p <= q < row.len() && #[trigger] row[q] is Some ==> #[trigger] row[p] is Some,
    ensures
        padded_pieces(row, column_width, i) =~~= occupied(row.skip(i)).map_values(
            |n: Seq<char>| pad_cell(n, column_width),
        ),
    decreases row.len() - i,
{
    if i == row.len() {
        assert(row.skip(i) =~= Seq::<Option<Seq<char>>>::empty());
    } else {
        lemma_row_occupied(row, column_width, i + 1);
        assert(row.skip(i)[0] == row[i]);
        assert(row.skip(i).skip(1) =~= row.skip(i + 1));
        match row[i] {
            Some(name) => {
            },
            None => {
                assert forall|q: int| 0 <= q < row.skip(i).len() implies !(row.skip(i)[q]
                    is Some) by {
                    assert(row.skip(i)[q] == row[i + q]);
                    if row[i + q] is Some {
                        assert(row[i] is Some);
                    }
                }
                lemma_occupied_all_none(row.skip(i));
            },
        }
    }
}

/// A stretch of empty cells has no occupied names.
proof fn lemma_occupied_all_none(cells: Seq<Option<Seq<char>>>)
    requires
        forall|q: int| 0 <= q < cells.len() ==> !(#[trigger] cells[q] is Some),
    ensures
        occupied(cells) =~~= Seq::<Seq<char>>::empty(),
    decreases cells.len(),
{
    if cells.len() > 0 {
        assert forall|q: int| 0 <= q < cells.skip(1).len() implies !(cells.skip(1)[q]
            is Some) by {
            assert(cells.skip(1)[q] == cells[q + 1]);
        }
        lemma_occupied_all_none(cells.skip(1));
    }
}

/// Splitting a whole rendered grid gives the padded occupied names of every
/// cell in row-major order, then one final empty piece.
proof fn lemma_split_grid(cells: Seq<Option<Seq<char>>>, column_width: int, num_columns: int)
    requires
        num_columns >= 1,
        (cells.len() as int) % num_columns == 0,
        forall|r: int| 0 <= r && r * num_columns < cells.len() ==> #[trigger] cells[r
            * num_columns] is Some,
        forall|k: int| 0 <= k < cells.len() ==> plain_cell(#[trigger] cells[k]),
        forall|p: int, q: int|
            0 <= p <= q < cells.len() && p / num_columns == q / num_columns && #[trigger] cells[q]
                is Some ==> #[trigger] cells[p] is Some,
    ensures
        split_pieces(grid_text(cells, column_width, num_columns)) =~~= occupied(cells).map_values(
            |n: Seq<char>| pad_cell(n, column_width),
        ) + seq![Seq::<char>::empty()],
    decreases cells.len(),
{
    let w = num_columns;
    let pad = |n: Seq<char>| pad_cell(n, column_width);
    if cells.len() == 0 {
        assert(grid_text(cells, column_width, w) =~= Seq::<char>::empty());
        assert(occupied(cells) =~~= Seq::<Seq<char>>::empty());
    } else {
        proof_grid_step(cells, column_width, w);
    }
}

/// The inductive step of [`lemma_split_grid`]: peel one row off the front.
proof fn proof_grid_step(cells: Seq<Option<Seq<char>>>, column_width: int, w: int)
    requires
        w >= 1,
        (cells.len() as int) % w == 0,
        cells.len() > 0,
        forall|r: int| 0 <= r && r * w < cells.len() ==> #[trigger] cells[r * w] is Some,
        forall|k: int| 0 <= k < cells.len() ==> plain_cell(#[trigger] cells[k]),
        forall|p: int, q: int|
            0 <= p <= q < cells.len() && p / w == q / w && #[trigger] cells[q] is Some
                ==> #[trigger] cells[p] is Some,
    ensures
        split_pieces(grid_text(cells, column_width, w)) =~~= occupied(cells).map_values(
            |n: Seq<char>| pad_cell(n, column_width),
        ) + seq![Seq::<char>::empty()],
    decreases cells.len(),
{
    let pad = |n: Seq<char>| pad_cell(n, column_width);
    let n = cells.len() as int;
    assert(n >= w) by (nonlinear_arith)
        requires
            w >= 1,
            n >= 1,
            n % w == 0,
    ;
    let row = cells.take(w);
    let rest = cells.skip(w);
    assert(cells[0 * w] is Some);
    assert(row[0] == cells[0]);
    assert(row[0] is Some);
    assert forall|k: int| 0 <= k < row.len() implies plain_cell(row[k]) by {
        assert(row[k] == cells[k]);
    }
    assert forall|p: int, q: int|
        0 <= p <= q < row.len() && #[trigger] row[q] is Some implies #[trigger] row[p] is Some by {
        assert(row[p] == cells[p] && row[q] == cells[q]);
        assert(p / w == 0 && q / w == 0) by (nonlinear_arith)
            requires
                0 <= p < w,
                0 <= q < w,
        ;
    }
    // the tail rows keep every hypothesis, shifted by one row
    assert((rest.len() as int) % w == 0) by (nonlinear_arith)
        requires
            w >= 1,
            rest.len() == n - w,
            n % w == 0,
    ;
    assert forall|r: int| 0 <= r && r * w < rest.len() implies #[trigger] rest[r * w] is Some by {
        assert(rest[r * w] == cells[r * w + w]);
        assert(r * w + w == (r + 1) * w) by (nonlinear_arith);
        assert(cells[(r + 1) * w] is Some);
    }
    assert forall|k: int| 0 <= k < rest.len() implies plain_cell(rest[k]) by {
        assert(rest[k] == cells[k + w]);
    }
    assert forall|p: int, q: int|
        0 <= p <= q < rest.len() && p / w == q / w && #[trigger] rest[q] is Some implies #[trigger] rest[p] is Some by {
        assert(rest[p] == cells[p + w] && rest[q] == cells[q + w]);
        assert((p + w) / w == p / w + 1 && (q + w) / w == q / w + 1) by (nonlinear_arith)
            requires
                w >= 1,
                p >= 0,
                q >= 0,
        ;
    }
    if rest.len() == 0 {
        assert(grid_text(rest, column_width, w) =~= Seq::<char>::empty());
        assert(occupied(rest) =~~= Seq::<Seq<char>>::empty());
        assert(split_pieces(grid_text(rest, column_width, w)) =~~= occupied(rest).map_values(pad)
            + seq![Seq::<char>::empty()]);
    } else {
        proof_grid_step(rest, column_width, w);
    }
    // grid_text unfolds to the first row's text, a line break, and the rest
    assert(grid_text(cells, column_width, w) == (row_text_from(row, column_width, 0) + seq!['\n'])
        + grid_text(rest, column_width, w));
    assert(row_text_from(row, column_width, 0) + seq!['\n'] + grid_text(rest, column_width, w)
        =~= grid_text(cells, column_width, w));
    lemma_split_row(row, column_width, 0, grid_text(rest, column_width, w));
    lemma_row_occupied(row, column_width, 0);
    assert(row.skip(0) =~= row);
    lemma_occupied_add(row, rest);
    assert(row + rest =~= cells);
    assert((occupied(row) + occupied(rest)).map_values(pad) =~~= occupied(row).map_values(pad)
        + occupied(rest).map_values(pad));
}

/// Filtering keeps a sequence whose members all pass the test.
proof fn lemma_filter_all(s: Seq<Seq<char>>, pred: spec_fn(Seq<char>) -> bool)
    requires
        forall|i: int| 0 <= i < s.len() ==> pred(#[trigger] s[i]),
    ensures
        s.filter(pred) =~~= s,
    decreases s.len(),
{
    reveal(Seq::filter);
    if s.len() > 0 {
        lemma_filter_all(s.drop_last(), pred);
    }
}

/// Every occupied name of a grid of plain cells is plain.
proof fn lemma_occupied_plain(cells: Seq<Option<Seq<char>>>)
    requires
        forall|k: int| 0 <= k < cells.len() ==> plain_cell(#[trigger] cells[k]),
    ensures
        forall|i: int| 0 <= i < occupied(cells).len() ==> plain_name(#[trigger] occupied(cells)[i]),
    decreases cells.len(),
{
    if cells.len() > 0 {
        assert forall|k: int| 0 <= k < cells.skip(1).len() implies plain_cell(
            cells.skip(1)[k],
        ) by {
            assert(cells.skip(1)[k] == cells[k + 1]);
        }
        lemma_occupied_plain(cells.skip(1));
        let occ = occupied(cells);
        let tail = occupied(cells.skip(1));
        assert(plain_cell(cells[0]));
        assert forall|i: int| 0 <= i < occ.len() implies plain_name(occ[i]) by {
            match cells[0] {
                Some(name) => {
                    if i == 0 {
                        assert(occ[i] == name);
                    } else {
                        assert(occ[i] == tail[i - 1]);
                    }
                },
                None => {
                    assert(occ[i] == tail[i]);
                },
            }
        }
    }
}

/// The round trip of the grid renderer: splitting the rendered text on tabs
/// and line breaks and stripping the padding recovers exactly the names of
/// the grid's occupied cells, in row-major order.
///
/// The conditions say that the cells form whole rows, that every row starts
/// occupied and keeps its occupied cells in a leading run, and that each
/// name is non-empty, free of tab and line break, and does not end in a
/// space; the grids the layout computes have the first three by
/// construction, and [`lemma_layout_roundtrip`] discharges them.
pub proof fn lemma_parse_render(
    cells: Seq<Option<Seq<char>>>,
    column_width: int,
    num_columns: int,
)
    requires
        num_columns >= 1,
        (cells.len() as int) % num_columns == 0,
        forall|r: int| 0 <= r && r * num_columns < cells.len() ==> #[trigger] cells[r
            * num_columns] is Some,
        forall|k: int| 0 <= k < cells.len() ==> plain_cell(#[trigger] cells[k]),
        forall|p: int, q: int|
            0 <= p <= q < cells.len() && p / num_columns == q / num_columns && #[trigger] cells[q]
                is Some ==> #[trigger] cells[p] is Some,
    ensures
        parse_cells(grid_text(cells, column_width, num_columns)) =~~= occupied(cells),
{
    broadcast use vstd::seq_lib::group_seq_lib_default;

    lemma_split_grid(cells, column_width, num_columns);
    lemma_occupied_plain(cells);
    let pad = |n: Seq<char>| pad_cell(n, column_width);
    let strip = |p: Seq<char>| strip_pad(p);
    let nonempty = |p: Seq<char>| p.len() > 0;
    let occ = occupied(cells);
    let sp = split_pieces(grid_text(cells, column_width, num_columns));
    assert forall|i: int| 0 <= i < occ.len() implies strip_pad(pad_cell(occ[i], column_width))
        == occ[i] && occ[i].len() > 0 by {
        lemma_strip_pad(occ[i], column_width - crate::grid::name_width(occ[i]) as int);
    }
    assert(sp.map_values(strip) =~~= occ + seq![Seq::<char>::empty()]);
    assert(parse_cells(grid_text(cells, column_width, num_columns)) == (occ + seq![Seq::<
        char,
    >::empty()]).filter(nonempty));
    lemma_filter_all(occ, nonempty);
    reveal_with_fuel(Seq::<Seq<char>>::filter, 2);
    assert(seq![Seq::<char>::empty()].drop_last() =~~= Seq::<Seq<char>>::empty());
    assert(seq![Seq::<char>::empty()].filter(nonempty) =~~= Seq::<Seq<char>>::empty());
    assert((occ + seq![Seq::<char>::empty()]).filter(nonempty) =~~= occ);
}

/// The grids the layout engine builds satisfy the round trip: parsing the
/// rendered text of `grid_spec(names, width, height)` gives its occupied
/// cells back, and those cells, read column by column
/// ([`lemma_column_major_readback`]), are the original names.
pub proof fn lemma_layout_roundtrip(
    names: Seq<Seq<char>>,
    column_width: int,
    width: int,
    height: int,
)
    requires
        width >= 1,
        1 <= names.len() <= width * height,
        height <= names.len(),
        forall|i: int| 0 <= i < names.len() ==> plain_name(#[trigger] names[i]),
    ensures
        parse_cells(grid_text(grid_spec(names, width, height), column_width, width)) =~~= occupied(
            grid_spec(names, width, height),
        ),
{
    let w = width;
    let h = height;
    let n = names.len() as int;
    let cells = grid_spec(names, w, h);
    assert(h >= 1) by (nonlinear_arith)
        requires
            w >= 1,
            1 <= w * h,
    ;
    assert((cells.len() as int) % w == 0) by (nonlinear_arith)
        requires
            w >= 1,
            h >= 0,
            cells.len() == w * h,
    ;
    assert forall|r: int| 0 <= r && r * w < cells.len() implies #[trigger] cells[r * w]
        is Some by {
        vstd::arithmetic::div_mod::lemma_fundamental_div_mod_converse(r * w, w, r, 0);
        assert(r < h) by (nonlinear_arith)
            requires
                r * w < w * h,
                w >= 1,
                r >= 0,
        ;
        assert(cells[r * w] == cell_spec(names, w, h, r * w));
        assert(0 * h + r < n);
    }
    assert forall|k: int| 0 <= k < cells.len() implies plain_cell(#[trigger] cells[k]) by {
        let i = k % w;
        let j = k / w;
        assert(cells[k] == cell_spec(names, w, h, k));
        if i * h + j < n {
            assert(plain_name(names[i * h + j]));
        }
    }
    assert forall|p: int, q: int|
        0 <= p <= q < cells.len() && p / w == q / w && #[trigger] cells[q] is Some implies #[trigger] cells[p] is Some by {
        vstd::arithmetic::div_mod::lemma_fundamental_div_mod(p, w);
        vstd::arithmetic::div_mod::lemma_fundamental_div_mod(q, w);
        let i1 = p % w;
        let i2 = q % w;
        let r = p / w;
        assert(i1 <= i2) by (nonlinear_arith)
            requires
                p == w * r + i1,
                q == w * r + i2,
                p <= q,
        ;
        assert(cells[p] == cell_spec(names, w, h, p));
        assert(cells[q] == cell_spec(names, w, h, q));
        assert(i2 * h + r < n);
        assert(i1 * h + r <= i2 * h + r) by (nonlinear_arith)
            requires
                i1 <= i2,
                h >= 0,
        ;
    }
    lemma_parse_render(cells, column_width, w);
}

/// A stretch of occupied cells lists exactly its names.
proof fn lemma_occupied_all_some(cells: Seq<Option<Seq<char>>>, names: Seq<Seq<char>>)
    requires
        cells.len() == names.len(),
        forall|i: int| 0 <= i < cells.len() ==> #[trigger] cells[i] == Some(names[i]),
    ensures
        occupied(cells) =~~= names,
    decreases cells.len(),
{
    if cells.len() > 0 {
        assert forall|i: int| 0 <= i < cells.skip(1).len() implies #[trigger] cells.skip(1)[i]
            == Some(names.skip(1)[i]) by {
            assert(cells.skip(1)[i] == cells[i + 1]);
        }
        lemma_occupied_all_some(cells.skip(1), names.skip(1));
        assert(seq![names[0]] + names.skip(1) =~~= names);
    }
}

/// Reading the grid's occupied cells column by column, top to bottom, gives
/// back exactly the original names: together with [`lemma_layout_roundtrip`]
/// this closes the round trip from names through rendered text back to
/// names.
pub proof fn lemma_column_major_occupied(names: Seq<Seq<char>>, width: int, height: int)
    requires
        width >= 1,
        height >= 0,
        names.len() <= width * height,
    ensures
        occupied(
            crate::grid::column_major_read(grid_spec(names, width, height), width, height),
        ) =~~= names,
{
    crate::grid::lemma_column_major_readback(names, width, height);
    let cm = crate::grid::column_major_read(grid_spec(names, width, height), width, height);
    let n = names.len() as int;
    let somes = Seq::new(names.len(), |k: int| Some(names[k]));
    let nones = Seq::<Option<Seq<char>>>::new((width * height - n) as nat, |k: int| None);
    assert(cm =~= somes + nones);
    lemma_occupied_add(somes, nones);
    lemma_occupied_all_none(nones);
    lemma_occupied_all_some(somes, names);
}

/// Spaces are spaces.
proof fn lemma_spaces_all(n: int)
    ensures
        forall|k: int| 0 <= k < spaces(n).len() ==> spaces(n)[k] == ' ',
        spaces(n).len() == (if n >= 0 {
            n
        } else {
            0
        }),
    decreases n,
{
    if n > 0 {
        lemma_spaces_all(n - 1);
    }
}

} // verus!
