//! The lines of the tables as text, with `; ` between the columns.

use crate::format::{cell_text, format_cell, writable, MAX_DEN};
use crate::metrics::Ratio;
use crate::stitch::table::{lines_view, LineView, RowView, TableLine, TableRow};
use crate::text::{chars_of, join, push_str_chars, string_of, string_views};
use vstd::prelude::*;

verus! {

/// A cell that holds a fraction that cannot be written.
#[derive(Clone, Copy, Debug, PartialEq, Eq, Structural)]
pub struct BadCell {
    /// The place of the line among the lines.
    pub line: usize,
    /// The place of the cell in its row.
    pub cell: usize,
}

/// What stands between two columns.
pub open spec fn column_separator() -> Seq<char> {
    seq![';', ' ']
}

/// The texts of the cells of a row; an empty cell is an empty text.
pub open spec fn cell_texts(cells: Seq<Option<Ratio>>, comma: bool) -> Seq<Seq<char>> {
    cells.map_values(|c: Option<Ratio>| cell_text(c, comma, Seq::<char>::empty()))
}

/// The text of a row: its key, its label, and its cells.
pub open spec fn row_text(r: RowView, comma: bool) -> Seq<char> {
    r.key + column_separator() + r.label + column_separator() + join(
        cell_texts(r.cells, comma),
        column_separator(),
    )
}

/// The text of a line.
pub open spec fn line_text(l: LineView, comma: bool) -> Seq<char> {
    match l {
        LineView::Comment(t) => t,
        LineView::Row(r) => row_text(r, comma),
        LineView::Blank => Seq::<char>::empty(),
    }
}

/// The place of the first cell that cannot be written, or the number of
/// cells.
pub open spec fn first_bad_cell(cells: Seq<Option<Ratio>>) -> int
    decreases cells.len(),
{
    if cells.len() == 0 {
        0
    } else if cells[0] matches Some(q) && !writable(q) {
        0
    } else {
        1 + first_bad_cell(cells.drop_first())
    }
}

/// The place of the first bad cell of a line; the number of its cells, or
/// nothing, where it has none.
pub open spec fn bad_cell_of(l: LineView) -> Option<int> {
    match l {
        LineView::Row(r) => if first_bad_cell(r.cells) < r.cells.len() {
            Some(first_bad_cell(r.cells))
        } else {
            None
        },
        _ => None,
    }
}

/// The texts of the first `n` lines, or the first cell among them that
/// cannot be written.
pub open spec fn lines_text(lines: Seq<LineView>, comma: bool, n: int) -> Result<
    Seq<Seq<char>>,
    BadCell,
>
    decreases n,
{
    if n <= 0 {
        Ok(Seq::<Seq<char>>::empty())
    } else {
        match lines_text(lines, comma, n - 1) {
            Err(e) => Err(e),
            Ok(front) => match bad_cell_of(lines[n - 1]) {
                Some(c) => Err(BadCell { line: (n - 1) as usize, cell: c as usize }),
                None => Ok(front.push(line_text(lines[n - 1], comma))),
            },
        }
    }
}

proof fn lemma_first_bad_cell(cells: Seq<Option<Ratio>>, k: int)
    requires
        0 <= k <= cells.len(),
        forall|j: int| 0 <= j < k ==> !(#[trigger] cells[j] matches Some(q) && !writable(q)),
        k < cells.len() ==> (cells[k] matches Some(q) && !writable(q)),
    ensures
        first_bad_cell(cells) == k,
    decreases k,
{
    if k > 0 {
        let rest = cells.drop_first();
        assert forall|j: int| 0 <= j < k - 1 implies !(#[trigger] rest[j] matches Some(q)
            && !writable(q)) by {
            assert(rest[j] == cells[j + 1]);
        }
        if k < cells.len() {
            assert(rest[k - 1] == cells[k]);
        }
        assert(!(cells[0] matches Some(q) && !writable(q)));
        lemma_first_bad_cell(rest, k - 1);
    }
}

/// Writes a row, or tells which of its cells cannot be written.
pub fn row_string(row: &TableRow, comma_float: bool) -> (r: Result<String, usize>)
    ensures
        match r {
            Ok(t) => bad_cell_of(LineView::Row(row@)) is None && t@ == row_text(row@, comma_float),
            Err(c) => bad_cell_of(LineView::Row(row@)) == Some(c as int),
        },
{
    let mut buf = chars_of(row.key.as_str());
    buf.push(';');
    buf.push(' ');
    push_str_chars(&mut buf, row.label.as_str());
    buf.push(';');
    buf.push(' ');
    let ghost head = buf@;
    let ghost texts = cell_texts(row.cells@, comma_float);
    let mut i: usize = 0;
    assert(texts.take(0) =~= Seq::<Seq<char>>::empty());
    assert(buf@ =~= head + join(texts.take(0), column_separator()));
    while i < row.cells.len()
        invariant
            i <= row.cells.len(),
            texts == cell_texts(row.cells@, comma_float),
            head == row.key@ + column_separator() + row.label@ + column_separator(),
            buf@ == head + join(texts.take(i as int), column_separator()),
            forall|j: int|
                0 <= j < i ==> !(#[trigger] row.cells@[j] matches Some(q) && !writable(q)),
        decreases row.cells.len() - i,
    {
        let cell = row.cells[i];
        let ok = match cell {
            Some(q) => 0 < q.den && q.den <= MAX_DEN,
            None => true,
        };
        if !ok {
            proof {
                lemma_first_bad_cell(row.cells@, i as int);
            }
            return Err(i);
        }
        proof {
            assert(texts.take(i + 1).drop_last() =~= texts.take(i as int));
            assert(texts.take(i + 1).last() == cell_text(cell, comma_float, Seq::<char>::empty()));
            reveal_strlit("");
            assert(""@ =~= Seq::<char>::empty());
        }
        if i > 0 {
            buf.push(';');
            buf.push(' ');
        }
        let text = format_cell(cell, comma_float, "");
        push_str_chars(&mut buf, text.as_str());
        proof {
            if i > 0 {
                assert(buf@ =~= head + (join(texts.take(i as int), column_separator())
                    + column_separator() + text@));
            } else {
                assert(buf@ =~= head + text@);
            }
        }
        i += 1;
    }
    proof {
        assert(texts.take(row.cells.len() as int) =~= texts);
        lemma_first_bad_cell(row.cells@, row.cells.len() as int);
    }
    Ok(string_of(&buf))
}

/// Writes the lines of the tables, one text per line. The decimal mark is
/// a comma where `comma_float` holds.
pub fn csv_lines(lines: &Vec<TableLine>, comma_float: bool) -> (r: Result<Vec<String>, BadCell>)
    ensures
        match r {
            Ok(texts) => lines_text(lines_view(lines@), comma_float, lines.len() as int) == Ok::<
                Seq<Seq<char>>,
                BadCell,
            >(string_views(texts@)),
            Err(e) => lines_text(lines_view(lines@), comma_float, lines.len() as int) == Err::<
                Seq<Seq<char>>,
                BadCell,
            >(e),
        },
{
    let ghost lv = lines_view(lines@);
    let mut out: Vec<String> = Vec::new();
    let mut i: usize = 0;
    assert(string_views(out@) =~= Seq::<Seq<char>>::empty());
    while i < lines.len()
        invariant
            i <= lines.len(),
            lv == lines_view(lines@),
            lines_text(lv, comma_float, i as int) == Ok::<Seq<Seq<char>>, BadCell>(
                string_views(out@),
            ),
        decreases lines.len() - i,
    {
        assert(lv[i as int] == lines@[i as int]@);
        let text = match &lines[i] {
            TableLine::Comment(t) => t.clone(),
            TableLine::Blank => String::new(),
            TableLine::Row(row) => match row_string(row, comma_float) {
                Ok(t) => t,
                Err(c) => {
                    proof {
                        lemma_lines_text_error_stays(lv, comma_float, i + 1, lines.len() as int);
                    }
                    return Err(BadCell { line: i, cell: c });
                },
            },
        };
        let ghost before = out@;
        out.push(text);
        assert(string_views(out@) =~= string_views(before).push(text@));
        i += 1;
    }
    Ok(out)
}

proof fn lemma_lines_text_error_stays(lines: Seq<LineView>, comma: bool, n: int, m: int)
    requires
        0 <= n <= m,
        lines_text(lines, comma, n) is Err,
    ensures
        lines_text(lines, comma, m) == lines_text(lines, comma, n),
    decreases m - n,
{
    if n < m {
        lemma_lines_text_error_stays(lines, comma, n, m - 1);
    }
}

} // verus!
