//! Renderers: the multi-column grid writer and the two simple alternatives,
//! one name per line and a comma-separated stream.
//!
//! Each renderer is a pure function from data to the exact text that the
//! listing prints; the callers write the returned string to the output
//! device.

use vstd::prelude::*;

use crate::grid::name_width;
use crate::grid::RenderPlan;
use vstd::string::StringExecFns;
use vstd::string::StringSliceAdditionalSpecFns;

verus! {

/// `n` spaces (none when `n` is not positive).
pub open spec fn spaces(n: int) -> Seq<char>
    decreases n,
{
    if n <= 0 {
        Seq::empty()
    } else {
        spaces(n - 1).push(' ')
    }
}

/// A name padded on the right with spaces to the column width.
pub open spec fn pad_cell(name: Seq<char>, column_width: int) -> Seq<char> {
    name + spaces(column_width - name_width(name))
}

/// The text of one row from cell `i` on: padded names separated by tabs,
/// stopping before the first empty cell.
pub open spec fn row_text_from(row: Seq<Option<Seq<char>>>, column_width: int, i: int) -> Seq<char>
    decreases row.len() - i,
{
    if i < 0 || i >= row.len() {
        Seq::empty()
    } else {
        match row[i] {
            None => Seq::empty(),
            Some(name) => pad_cell(name, column_width) + (if i + 1 < row.len() && row[i + 1] is Some {
                seq!['\t'] + row_text_from(row, column_width, i + 1)
            } else {
                Seq::empty()
            }),
        }
    }
}

/// The text of one row of cells.
pub open spec fn row_text(row: Seq<Option<Seq<char>>>, column_width: int) -> Seq<char> {
    row_text_from(row, column_width, 0)
}

/// The rendered grid: each row that starts with a name becomes its row text
/// followed by a line break; a row whose first cell is empty adds nothing.
pub open spec fn grid_text(
    cells: Seq<Option<Seq<char>>>,
    column_width: int,
    num_columns: int,
) -> Seq<char>
    decreases cells.len(),
{
    if num_columns <= 0 || cells.len() < num_columns {
        Seq::empty()
    } else {
        let row = cells.take(num_columns);
        let head = if row[0] is Some {
            row_text(row, column_width) + seq!['\n']
        } else {
            Seq::empty()
        };
        head + grid_text(cells.skip(num_columns), column_width, num_columns)
    }
}

/// A plan with no cells renders as no output at all.
pub proof fn lemma_render_empty(column_width: int, num_columns: int)
    ensures
        grid_text(Seq::<Option<Seq<char>>>::empty(), column_width, num_columns) == Seq::<
            char,
        >::empty(),
{
}

/// Append `name` padded with spaces to `column_width` bytes.
fn append_padded(out: &mut String, name: &String, column_width: usize)
    ensures
        final(out)@ == old(out)@ + pad_cell(name@, column_width as int),
{
    let ghost base = out@;
    out.append(name.as_str());
    let mut p: usize = name.as_str().as_bytes().len();
    proof {
        assert(p == name_width(name@));
        assert(out@ == base + name@ + spaces(p - name_width(name@)));
    }
    while p < column_width
        invariant
            p >= name_width(name@),
            name_width(name@) < column_width ==> p <= column_width,
            name_width(name@) >= column_width ==> p == name_width(name@),
            out@ == base + name@ + spaces(p - name_width(name@)),
        decreases column_width - p,
    {
        out.append(" ");
        proof {
            reveal_strlit(" ");
            let w = name_width(name@);
            assert(spaces(p + 1 - w) == spaces(p - w).push(' '));
            assert(out@ =~= base + name@ + spaces(p + 1 - w));
        }
        p = p + 1;
    }
    proof {
        if name_width(name@) >= column_width {
            assert(spaces(column_width - name_width(name@)) =~= Seq::<char>::empty());
            assert(spaces(p - name_width(name@)) =~= Seq::<char>::empty());
        }
        assert(out@ =~= base + pad_cell(name@, column_width as int));
    }
}

/// Write the plan's grid as text: row by row, each name padded to the column
/// width, cells separated by tabs, rows ended by line breaks.
pub fn render(plan: &RenderPlan) -> (out: String)
    requires
        plan.wf(),
    ensures
        out@ == grid_text(
            plan.cells.deep_view(),
            plan.column_width as int,
            plan.num_columns as int,
        ),
{
    let w = plan.num_columns;
    let cw = plan.column_width;
    let total = plan.cells.len();
    let ghost dv = plan.cells.deep_view();
    let mut out = String::new();
    let mut start: usize = 0;
    let ghost mut rows: int = 0;
    proof {
        assert(dv.skip(0) =~= dv);
        assert(Seq::<char>::empty() + grid_text(dv, cw as int, w as int) =~= grid_text(
            dv,
            cw as int,
            w as int,
        ));
    }
    while start < total
        invariant
            plan.wf(),
            w == plan.num_columns,
            cw == plan.column_width,
            dv == plan.cells.deep_view(),
            dv.len() == plan.cells@.len(),
            total == plan.cells@.len(),
            start <= total,
            rows >= 0,
            start as int == rows * (w as int),
            grid_text(dv, cw as int, w as int) == out@ + grid_text(
                dv.skip(start as int),
                cw as int,
                w as int,
            ),
        decreases plan.cells@.len() - start,
    {
        proof {
            let n = dv.len() as int;
            let s = start as int;
            let wi = w as int;
            vstd::arithmetic::div_mod::lemma_fundamental_div_mod(n, wi);
            assert(n - s == wi * (n / wi - rows)) by (nonlinear_arith)
                requires
                    n == wi * (n / wi) + n % wi,
                    n % wi == 0,
                    s == rows * wi,
            ;
            assert(n - s >= wi) by (nonlinear_arith)
                requires
                    wi >= 1,
                    n - s >= 1,
                    n - s == wi * (n / wi - rows),
            ;
        }
        let ghost suffix = dv.skip(start as int);
        let ghost row = dv.subrange(start as int, start as int + w as int);
        proof {
            assert(suffix.take(w as int) =~= row);
            assert(suffix.skip(w as int) =~= dv.skip(start as int + w as int));
        }
        let ghost out_prev = out@;
        if plan.cells[start].is_some() {
            let mut line = String::new();
            let mut i: usize = 0;
            let mut more = true;
            proof {
                assert(Seq::<char>::empty() + row_text_from(row, cw as int, 0)
                    =~= row_text_from(row, cw as int, 0));
            }
            while more && i < w
                invariant
                    w == plan.num_columns,
                    cw == plan.column_width,
                    dv == plan.cells.deep_view(),
                    dv.len() == plan.cells@.len(),
                    total == plan.cells@.len(),
                    start as int + w as int <= dv.len(),
                    row == dv.subrange(start as int, start as int + w as int),
                    i <= w,
                    more ==> row_text(row, cw as int) == line@ + row_text_from(
                        row,
                        cw as int,
                        i as int,
                    ),
                    !more ==> row_text(row, cw as int) == line@,
                decreases w - i,
            {
                proof {
                    assert(row[i as int] == dv[start as int + i]);
                }
                match &plan.cells[start + i] {
                    Some(name) => {
                        append_padded(&mut line, name, cw);
                        if i + 1 < w && plan.cells[start + i + 1].is_some() {
                            line.append("\t");
                            proof {
                                reveal_strlit("\t");
                                assert(row[i as int + 1] == dv[start as int + i + 1]);
                                assert(row_text(row, cw as int) =~= line@ + row_text_from(
                                    row,
                                    cw as int,
                                    i as int + 1,
                                ));
                            }
                        } else {
                            proof {
                                if i + 1 < w {
                                    assert(row[i as int + 1] == dv[start as int + i + 1]);
                                }
                                assert(row_text(row, cw as int) =~= line@);
                            }
                            more = false;
                        }
                    },
                    None => {
                        proof {
                            assert(row_text_from(row, cw as int, i as int) =~= Seq::<
                                char,
                            >::empty());
                            assert(row_text(row, cw as int) =~= line@);
                        }
                        more = false;
                    },
                }
                i = i + 1;
            }
            proof {
                if more {
                    assert(row_text_from(row, cw as int, w as int) =~= Seq::<char>::empty());
                    assert(row_text(row, cw as int) =~= line@);
                }
            }
            out.append(line.as_str());
            out.append("\n");
            proof {
                reveal_strlit("\n");
                assert(row[0] == dv[start as int]);
                assert(out@ =~= out_prev + (row_text(row, cw as int) + seq!['\n']));
                assert(grid_text(suffix, cw as int, w as int) == (row_text(row, cw as int) + seq![
                    '\n',
                ]) + grid_text(suffix.skip(w as int), cw as int, w as int));
                assert(grid_text(dv, cw as int, w as int) =~= out@ + grid_text(
                    dv.skip(start as int + w as int),
                    cw as int,
                    w as int,
                ));
            }
        } else {
            proof {
                assert(row[0] == dv[start as int]);
                assert(grid_text(suffix, cw as int, w as int) =~= Seq::<char>::empty()
                    + grid_text(suffix.skip(w as int), cw as int, w as int));
                assert(grid_text(dv, cw as int, w as int) =~= out@ + grid_text(
                    dv.skip(start as int + w as int),
                    cw as int,
                    w as int,
                ));
            }
        }
        start = start + w;
        proof {
            rows = rows + 1;
            assert(start as int == rows * (w as int)) by (nonlinear_arith)
                requires
                    start as int - w as int == (rows - 1) * (w as int),
            ;
        }
    }
    proof {
        assert(dv.skip(dv.len() as int) =~= Seq::<Option<Seq<char>>>::empty());
    }
    out
}

/// The names from index `i` on, joined by a comma and a space.
pub open spec fn stream_body_from(names: Seq<Seq<char>>, i: int) -> Seq<char>
    decreases names.len() - i,
{
    if i < 0 || i >= names.len() {
        Seq::empty()
    } else if i + 1 == names.len() {
        names[i]
    } else {
        names[i] + seq![',', ' '] + stream_body_from(names, i + 1)
    }
}

/// The comma-separated stream: all names joined by `", "`, ended by a line
/// break; an empty list yields no output at all.
pub open spec fn stream_text_spec(names: Seq<Seq<char>>) -> Seq<char> {
    if names.len() == 0 {
        Seq::empty()
    } else {
        stream_body_from(names, 0) + seq!['\n']
    }
}

/// Render the names as a comma-separated stream on a single line.
pub fn stream_text(names: &Vec<String>) -> (out: String)
    ensures
        out@ == stream_text_spec(names.deep_view()),
{
    let ghost dv = names.deep_view();
    let mut out = String::new();
    if names.len() == 0 {
        return out;
    }
    let mut i: usize = 0;
    proof {
        assert(Seq::<char>::empty() + stream_body_from(dv, 0) =~= stream_body_from(dv, 0));
    }
    while i < names.len()
        invariant
            dv == names.deep_view(),
            dv.len() == names@.len(),
            names@.len() >= 1,
            i < names@.len(),
            stream_body_from(dv, 0) == out@ + stream_body_from(dv, i as int),
        decreases names@.len() - i,
    {
        proof {
            assert(dv[i as int] == names@[i as int]@);
        }
        out.append(names[i].as_str());
        if i + 1 < names.len() {
            out.append(", ");
            proof {
                reveal_strlit(", ");
                assert(stream_body_from(dv, 0) =~= out@ + stream_body_from(dv, i + 1));
            }
            i = i + 1;
        } else {
            proof {
                assert(stream_body_from(dv, i as int) =~= dv[i as int]);
                assert(stream_body_from(dv, 0) =~= out@);
            }
            out.append("\n");
            proof {
                reveal_strlit("\n");
                assert(out@ =~= stream_text_spec(dv));
            }
            return out;
        }
    }
    out
}

/// One name per line, each followed by a line break.
pub open spec fn lines_text_spec(names: Seq<Seq<char>>) -> Seq<char>
    decreases names.len(),
{
    if names.len() == 0 {
        Seq::empty()
    } else {
        names[0] + seq!['\n'] + lines_text_spec(names.skip(1))
    }
}

/// Render the names one per line.
pub fn single_column_text(names: &Vec<String>) -> (out: String)
    ensures
        out@ == lines_text_spec(names.deep_view()),
{
    let ghost dv = names.deep_view();
    let mut out = String::new();
    let mut i: usize = 0;
    proof {
        assert(dv.skip(0) =~= dv);
        assert(Seq::<char>::empty() + lines_text_spec(dv) =~= lines_text_spec(dv));
    }
    while i < names.len()
        invariant
            dv == names.deep_view(),
            dv.len() == names@.len(),
            i <= names@.len(),
            lines_text_spec(dv) == out@ + lines_text_spec(dv.skip(i as int)),
        decreases names@.len() - i,
    {
        proof {
            assert(dv[i as int] == names@[i as int]@);
            assert(dv.skip(i as int)[0] == dv[i as int]);
            assert(dv.skip(i as int).skip(1) =~= dv.skip(i + 1));
        }
        out.append(names[i].as_str());
        out.append("\n");
        proof {
            reveal_strlit("\n");
            assert(lines_text_spec(dv) =~= out@ + lines_text_spec(dv.skip(i + 1)));
        }
        i = i + 1;
    }
    proof {
        assert(dv.skip(dv.len() as int) =~= Seq::<Seq<char>>::empty());
    }
    out
}

} // verus!
