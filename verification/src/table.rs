//! Lines of text and tables whose columns are as wide as their content.

use vstd::prelude::*;
use vstd::utf8::*;

use crate::text::{slices, strings};

verus! {

/// Lines that are being written.
pub struct Lines {
    list: Vec<String>,
}

impl View for Lines {
    type V = Seq<Seq<char>>;

    closed spec fn view(&self) -> Seq<Seq<char>> {
        strings(self.list@)
    }
}

impl Lines {
    pub fn new() -> (r: Lines)
        ensures
            r@ == Seq::<Seq<char>>::empty(),
    {
        let r = Lines { list: Vec::new() };
        assert(r@ =~= Seq::<Seq<char>>::empty());
        r
    }

    /// The lines with one more.
    pub fn with(self, line: String) -> (r: Lines)
        ensures
            r@ == self@.push(line@),
    {
        let mut list: Vec<String> = self.list;
        let ghost before = list@;
        list.push(line);
        let r = Lines { list };
        assert(r@ =~= strings(before).push(line@));
        r
    }

    /// The lines with one more.
    pub fn text(self, line: &str) -> (r: Lines)
        ensures
            r@ == self@.push(line@),
    {
        self.with(line.to_string())
    }

    /// The lines with more of them.
    pub fn and(self, more: Vec<String>) -> (r: Lines)
        ensures
            r@ == self@ + strings(more@),
    {
        let mut list: Vec<String> = self.list;
        let ghost first = strings(list@);
        let ghost all = strings(more@);
        let n: usize = more.len();
        let mut i: usize = 0;
        assert(first + all.take(0) =~= first);
        while i < n
            invariant
                n == more@.len(),
                i <= n,
                all == strings(more@),
                strings(list@) == first + all.take(i as int),
            decreases n - i,
        {
            let ghost before = strings(list@);
            list.push(more[i].clone());
            proof {
                assert(strings(list@) =~= before.push(more@[i as int]@));
                assert(first + all.take(i + 1) =~= (first + all.take(i as int)).push(
                    more@[i as int]@,
                ));
            }
            i += 1;
        }
        assert(all.take(n as int) =~= all);
        Lines { list }
    }

    /// The finished lines.
    pub fn done(self) -> (r: Vec<String>)
        ensures
            strings(r@) == self@,
    {
        self.list
    }
}

/// The length of a text in bytes.
pub open spec fn byte_length(s: Seq<char>) -> nat {
    encode_utf8(s).len()
}

/// The length of a text in bytes.
pub fn count_bytes(s: &str) -> (r: usize)
    ensures
        r == byte_length(s@),
{
    let bytes: &[u8] = s.as_bytes();
    bytes.len()
}

/// `n` times the same character.
pub open spec fn run_of(c: char, n: int) -> Seq<char> {
    Seq::new(
        if n > 0 {
            n as nat
        } else {
            0
        },
        |i: int| c,
    )
}

/// The larger of two lengths.
pub open spec fn wider(a: nat, b: nat) -> nat {
    if a >= b {
        a
    } else {
        b
    }
}

/// The width of a column: the longest of its heading and its cells.
pub open spec fn column_width(heading: Seq<char>, rows: Seq<Seq<Seq<char>>>, column: int) -> nat
    decreases rows.len(),
{
    if rows.len() == 0 {
        byte_length(heading)
    } else {
        wider(
            column_width(heading, rows.drop_last(), column),
            byte_length(rows.last()[column]),
        )
    }
}

/// The widths of all columns.
pub open spec fn column_widths(headings: Seq<Seq<char>>, rows: Seq<Seq<Seq<char>>>) -> Seq<nat> {
    Seq::new(headings.len(), |i: int| column_width(headings[i], rows, i))
}

/// The first `k` cells of a row, two spaces apart, each but the last of the
/// row filled up to its width.
pub open spec fn cells_text(cells: Seq<Seq<char>>, widths: Seq<nat>, k: nat) -> Seq<char>
    decreases k,
{
    if k == 0 {
        Seq::empty()
    } else {
        let i = k - 1;
        let front = cells_text(cells, widths, (k - 1) as nat);
        let apart = if i > 0 {
            front + "  "@
        } else {
            front
        };
        let cell = apart + cells[i];
        if k < cells.len() {
            cell + run_of(' ', widths[i] - byte_length(cells[i]))
        } else {
            cell
        }
    }
}

/// A row, after an indentation.
pub open spec fn row_text(indent: Seq<char>, cells: Seq<Seq<char>>, widths: Seq<nat>) -> Seq<char> {
    indent + cells_text(cells, widths, cells.len())
}

/// Dashes below the first `k` columns.
pub open spec fn dashes_text(widths: Seq<nat>, k: nat) -> Seq<char>
    decreases k,
{
    if k == 0 {
        Seq::empty()
    } else {
        let front = dashes_text(widths, (k - 1) as nat);
        let apart = if k > 1 {
            front + "  "@
        } else {
            front
        };
        apart + run_of('-', widths[k - 1] as int)
    }
}

/// The line between heading and rows.
pub open spec fn separator_text(indent: Seq<char>, widths: Seq<nat>) -> Seq<char> {
    indent + dashes_text(widths, widths.len())
}

/// The cells of all rows.
pub open spec fn row_views(rows: Seq<Vec<String>>) -> Seq<Seq<Seq<char>>> {
    rows.map_values(|r: Vec<String>| strings(r@))
}

/// Widths as natural numbers.
pub open spec fn width_views(widths: Seq<usize>) -> Seq<nat> {
    widths.map_values(|w: usize| w as nat)
}

/// A table: headings, dashes, rows.
pub open spec fn table_text(headings: Seq<Seq<char>>, rows: Seq<Seq<Seq<char>>>) -> Seq<Seq<char>> {
    let widths = column_widths(headings, rows);
    seq![row_text(""@, headings, widths), separator_text(""@, widths)] + rows.map_values(
        |r: Seq<Seq<char>>| row_text(""@, r, widths),
    )
}

/// Add `n` times the same character.
pub fn push_run(s: String, c: char, n: usize) -> (r: String)
    ensures
        r@ == s@ + run_of(c, n as int),
{
    let mut out: String = s;
    let ghost first = out@;
    let mut i: usize = 0;
    assert(first + run_of(c, 0) =~= first);
    while i < n
        invariant
            i <= n,
            out@ == first + run_of(c, i as int),
        decreases n - i,
    {
        out.push(c);
        assert(first + run_of(c, i + 1) =~= (first + run_of(c, i as int)).push(c));
        i += 1;
    }
    out
}

/// The widths of all columns.
pub fn measure(headings: &Vec<&'static str>, rows: &Vec<Vec<String>>) -> (out: Vec<usize>)
    requires
        forall|k: int|
            0 <= k < rows@.len() ==> (#[trigger] rows@[k])@.len() == headings@.len(),
    ensures
        width_views(out@) == column_widths(slices(headings@), row_views(rows@)),
{
    let columns: usize = headings.len();
    let count: usize = rows.len();
    let mut out: Vec<usize> = Vec::new();
    let ghost all = row_views(rows@);
    let mut i: usize = 0;
    while i < columns
        invariant
            columns == headings@.len(),
            count == rows@.len(),
            i <= columns,
            all == row_views(rows@),
            forall|k: int|
                0 <= k < rows@.len() ==> (#[trigger] rows@[k])@.len() == headings@.len(),
            out@.len() == i,
            forall|j: int|
                0 <= j < i ==> #[trigger] out@[j] == column_width(headings@[j]@, all, j),
        decreases columns - i,
    {
        let mut width: usize = count_bytes(headings[i]);
        let mut k: usize = 0;
        while k < count
            invariant
                columns == headings@.len(),
                count == rows@.len(),
                i < columns,
                k <= count,
                all == row_views(rows@),
                forall|k: int|
                    0 <= k < rows@.len() ==> (#[trigger] rows@[k])@.len() == headings@.len(),
                width == column_width(headings@[i as int]@, all.take(k as int), i as int),
            decreases count - k,
        {
            proof {
                assert(all.take(k + 1).drop_last() =~= all.take(k as int));
                assert(all.take(k + 1).last() == strings(rows@[k as int]@));
                assert(strings(rows@[k as int]@)[i as int] == rows@[k as int]@[i as int]@);
            }
            let length: usize = count_bytes(rows[k][i].as_str());
            if length > width {
                width = length;
            }
            k += 1;
        }
        assert(all.take(count as int) =~= all);
        out.push(width);
        i += 1;
    }
    assert(width_views(out@) =~= column_widths(slices(headings@), all));
    out
}

/// One more cell of a row.
fn push_cell(line: String, cell: &str, width: usize, i: usize, n: usize) -> (r: String)
    requires
        i < n,
    ensures
        r@ == ({
            let apart = if i > 0 {
                line@ + "  "@
            } else {
                line@
            };
            if i + 1 < n {
                apart + cell@ + run_of(' ', width - byte_length(cell@))
            } else {
                apart + cell@
            }
        }),
{
    let mut out: String = line;
    if i > 0 {
        out.append("  ");
    }
    out.append(cell);
    let length: usize = count_bytes(cell);
    if i < n - 1 {
        if length < width {
            push_run(out, ' ', width - length)
        } else {
            assert(out@ + run_of(' ', width - byte_length(cell@)) =~= out@);
            out
        }
    } else {
        out
    }
}

/// A row, after an indentation.
pub fn write_row(indent: &str, cells: &Vec<String>, widths: &Vec<usize>) -> (r: String)
    requires
        cells@.len() <= widths@.len(),
    ensures
        r@ == row_text(indent@, strings(cells@), width_views(widths@)),
{
    let n: usize = cells.len();
    let ghost views = strings(cells@);
    let ghost all = width_views(widths@);
    let mut line: String = String::new();
    let mut i: usize = 0;
    assert(line@ =~= cells_text(views, all, 0));
    while i < n
        invariant
            n == cells@.len() <= widths@.len(),
            i <= n,
            views == strings(cells@),
            all == width_views(widths@),
            line@ == cells_text(views, all, i as nat),
        decreases n - i,
    {
        assert(views[i as int] == cells@[i as int]@);
        assert(all[i as int] == widths@[i as int]);
        line = push_cell(line, cells[i].as_str(), widths[i], i, n);
        i += 1;
    }
    indent.to_string().concat(line.as_str())
}

/// A row of headings, after an indentation.
pub fn write_headings(indent: &str, cells: &Vec<&'static str>, widths: &Vec<usize>) -> (r: String)
    requires
        cells@.len() <= widths@.len(),
    ensures
        r@ == row_text(indent@, slices(cells@), width_views(widths@)),
{
    let n: usize = cells.len();
    let ghost views = slices(cells@);
    let ghost all = width_views(widths@);
    let mut line: String = String::new();
    let mut i: usize = 0;
    assert(line@ =~= cells_text(views, all, 0));
    while i < n
        invariant
            n == cells@.len() <= widths@.len(),
            i <= n,
            views == slices(cells@),
            all == width_views(widths@),
            line@ == cells_text(views, all, i as nat),
        decreases n - i,
    {
        assert(views[i as int] == cells@[i as int]@);
        assert(all[i as int] == widths@[i as int]);
        line = push_cell(line, cells[i], widths[i], i, n);
        i += 1;
    }
    indent.to_string().concat(line.as_str())
}

/// The line between heading and rows, after an indentation.
pub fn write_separator(indent: &str, widths: &Vec<usize>) -> (r: String)
    ensures
        r@ == separator_text(indent@, width_views(widths@)),
{
    let n: usize = widths.len();
    let ghost all = width_views(widths@);
    let mut line: String = String::new();
    let mut i: usize = 0;
    assert(line@ =~= dashes_text(all, 0));
    while i < n
        invariant
            n == widths@.len(),
            i <= n,
            all == width_views(widths@),
            line@ == dashes_text(all, i as nat),
        decreases n - i,
    {
        assert(all[i as int] == widths@[i as int]);
        if i > 0 {
            line.append("  ");
        }
        line = push_run(line, '-', widths[i]);
        i += 1;
    }
    indent.to_string().concat(line.as_str())
}

/// A table: headings, dashes, rows.
pub fn write_table(headings: &Vec<&'static str>, rows: &Vec<Vec<String>>) -> (out: Vec<String>)
    requires
        forall|k: int|
            0 <= k < rows@.len() ==> (#[trigger] rows@[k])@.len() == headings@.len(),
    ensures
        strings(out@) == table_text(slices(headings@), row_views(rows@)),
{
    let widths: Vec<usize> = measure(headings, rows);
    let ghost wide = width_views(widths@);
    let ghost all = row_views(rows@);
    assert(wide.len() == widths@.len());
    let mut out: Vec<String> = Vec::new();
    out.push(write_headings("", headings, &widths));
    out.push(write_separator("", &widths));
    let ghost head = strings(out@);
    let ghost f = |r: Seq<Seq<char>>| row_text(""@, r, wide);
    let n: usize = rows.len();
    let mut k: usize = 0;
    assert(head =~= seq![row_text(""@, slices(headings@), wide), separator_text(""@, wide)]);
    assert(head + all.take(0).map_values(f) =~= head);
    while k < n
        invariant
            n == rows@.len(),
            k <= n,
            all == row_views(rows@),
            wide == width_views(widths@),
            widths@.len() == headings@.len(),
            f == (|r: Seq<Seq<char>>| row_text(""@, r, wide)),
            forall|k: int|
                0 <= k < rows@.len() ==> (#[trigger] rows@[k])@.len() == headings@.len(),
            strings(out@) == head + all.take(k as int).map_values(f),
        decreases n - k,
    {
        let ghost before = strings(out@);
        out.push(write_row("", &rows[k], &widths));
        proof {
            assert(all[k as int] == strings(rows@[k as int]@));
            assert(strings(out@) =~= before.push(f(all[k as int])));
            assert(head + all.take(k + 1).map_values(f) =~= (head + all.take(k as int).map_values(
                f,
            )).push(f(all[k as int])));
        }
        k += 1;
    }
    assert(all.take(n as int) =~= all);
    out
}

/// A text filled up with spaces to a number of characters.
pub open spec fn padded(s: Seq<char>, width: int) -> Seq<char> {
    s + run_of(' ', width - s.len())
}

/// A text filled up with spaces to a number of characters.
pub fn pad(s: &str, width: usize) -> (r: String)
    ensures
        r@ == padded(s@, width as int),
{
    let n: usize = s.unicode_len();
    if n < width {
        push_run(s.to_string(), ' ', width - n)
    } else {
        assert(s@ + run_of(' ', width - s@.len()) =~= s@);
        s.to_string()
    }
}

/// The bytes of two texts add up.
pub proof fn lemma_bytes_add(a: Seq<char>, b: Seq<char>)
    ensures
        byte_length(a + b) == byte_length(a) + byte_length(b),
    decreases a.len(),
{
    if a.len() == 0 {
        assert(a + b =~= b);
    } else {
        lemma_bytes_add(a.drop_first(), b);
        assert((a + b).drop_first() =~= a.drop_first() + b);
    }
}

/// A character takes one to four bytes.
pub proof fn lemma_bytes_bound(s: Seq<char>)
    ensures
        s.len() <= byte_length(s) <= 4 * s.len(),
    decreases s.len(),
{
    if s.len() > 0 {
        lemma_bytes_bound(s.drop_first());
    }
}

} // verus!
