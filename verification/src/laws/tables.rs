//! What the tables and the lines of `explain` show.

use vstd::prelude::*;

use crate::contract::ContractView;
use crate::decimal::{one_decimal_text, two_decimals_text};
use crate::double::Double;
use crate::json::flagged_rows;
use crate::laws::messages::mentions;
use crate::model::{uptime_text, CostBreakdown, CpuSummary, InstanceRecord, VolumeCost};
use crate::report::{
    contract_text, cpu_text, duration_text, explain_text, flagged_cells, instance_text,
    json_rows_match_the_table, key_width, last_active_text, launcher_text, list_cells,
    list_headings, list_text, longest_key, pct_text, rule_line, rules_text, stale_cells,
    stale_headings, stale_text, storage_text, summary_text, tags_text, usd_text, verdict_text,
    verdicts_text, volume_cells, volume_headings, volume_lines_text,
};
use crate::run::{overall_worst, Evaluated};
use crate::staleness::{fired_in, flagged, verdict_views, worst, SkipReason, VerdictView};
use crate::table::{
    byte_length, cells_text, column_width, column_widths, dashes_text, lemma_bytes_add, row_text,
    run_of, separator_text, table_text,
};
use crate::text::{int_text, is_blank, joined, nat_text, occurs_at};
use crate::timestamp::{date_of, Timestamp};

verus! {

// ───────────────────────── Columns ─────────────────────────

/// A column is as wide as the longest of its heading and its cells, and no
/// wider.
pub proof fn columns_fit_their_cells(heading: Seq<char>, rows: Seq<Seq<Seq<char>>>, column: int)
    ensures
        byte_length(heading) <= column_width(heading, rows, column),
        forall|i: int|
            0 <= i < rows.len() ==> byte_length((#[trigger] rows[i])[column]) <= column_width(
                heading,
                rows,
                column,
            ),
        column_width(heading, rows, column) == byte_length(heading) || exists|i: int|
            0 <= i < rows.len() && byte_length((#[trigger] rows[i])[column]) == column_width(
                heading,
                rows,
                column,
            ),
    decreases rows.len(),
{
    if rows.len() > 0 {
        let front = rows.drop_last();
        let n = rows.len() - 1;
        assert(rows[n] == rows.last());
        columns_fit_their_cells(heading, front, column);
        assert forall|i: int| 0 <= i < rows.len() implies byte_length((#[trigger] rows[i])[column])
            <= column_width(heading, rows, column) by {
            if i < n {
                assert(front[i] == rows[i]);
            }
        }
        let w = column_width(heading, rows, column);
        if byte_length(rows[n][column]) != w && w != byte_length(heading) {
            let i = choose|i: int|
                0 <= i < front.len() && byte_length((#[trigger] front[i])[column])
                    == column_width(heading, front, column);
            assert(rows[i] == front[i]);
        }
    }
}

proof fn lemma_spaces(n: int)
    ensures
        byte_length(run_of(' ', n)) == (if n > 0 {
            n
        } else {
            0
        }),
    decreases n,
{
    let s = run_of(' ', n);
    if n > 0 {
        lemma_spaces(n - 1);
        assert(s.drop_first() =~= run_of(' ', n - 1));
        assert(s[0] == ' ');
    }
}

/// Where column `k` starts: behind the columns before it, each with two spaces.
pub open spec fn column_start(widths: Seq<nat>, k: nat) -> nat
    decreases k,
{
    if k == 0 {
        0
    } else {
        column_start(widths, (k - 1) as nat) + widths[k - 1] + 2
    }
}

proof fn lemma_cells_length(cells: Seq<Seq<char>>, widths: Seq<nat>, k: nat)
    requires
        k < cells.len(),
        cells.len() <= widths.len(),
        forall|i: int| 0 <= i < cells.len() ==> byte_length(#[trigger] cells[i]) <= widths[i],
    ensures
        byte_length(cells_text(cells, widths, k)) + (if k > 0 {
            2int
        } else {
            0
        }) == column_start(widths, k),
    decreases k,
{
    reveal_strlit("  ");
    if k > 0 {
        let i = k - 1;
        lemma_cells_length(cells, widths, (k - 1) as nat);
        let front = cells_text(cells, widths, (k - 1) as nat);
        let apart = if i > 0 {
            front + "  "@
        } else {
            front
        };
        assert("  "@ =~= run_of(' ', 2));
        lemma_spaces(2);
        lemma_bytes_add(front, "  "@);
        lemma_bytes_add(apart, cells[i]);
        let gap = widths[i] - byte_length(cells[i]);
        lemma_spaces(gap);
        lemma_bytes_add(apart + cells[i], run_of(' ', gap));
        assert(byte_length(cells[i]) <= widths[i]);
    } else {
        assert(cells_text(cells, widths, k) =~= run_of(' ', 0));
        lemma_spaces(0);
    }
}

proof fn lemma_cells_begin(cells: Seq<Seq<char>>, widths: Seq<nat>, j: nat, k: nat)
    requires
        j <= k <= cells.len(),
    ensures
        cells_text(cells, widths, j).len() <= cells_text(cells, widths, k).len(),
        cells_text(cells, widths, k).take(cells_text(cells, widths, j).len() as int) == cells_text(
            cells,
            widths,
            j,
        ),
    decreases k - j,
{
    let a = cells_text(cells, widths, j);
    let b = cells_text(cells, widths, k);
    if j == k {
        assert(b.take(a.len() as int) =~= a);
    } else {
        lemma_cells_begin(cells, widths, j, (k - 1) as nat);
        let mid = cells_text(cells, widths, (k - 1) as nat);
        assert(b.take(mid.len() as int) =~= mid);
        assert(b.take(a.len() as int) =~= mid.take(a.len() as int));
    }
}

/// The cells of a column stand one below the other: in every row whose cells
/// fit, the cell of column `k` starts behind the same number of bytes.
pub proof fn columns_are_aligned(
    indent: Seq<char>,
    cells: Seq<Seq<char>>,
    widths: Seq<nat>,
    k: nat,
)
    requires
        k < cells.len(),
        cells.len() <= widths.len(),
        forall|i: int| 0 <= i < cells.len() ==> byte_length(#[trigger] cells[i]) <= widths[i],
    ensures
        exists|before: Seq<char>, after: Seq<char>|
            row_text(indent, cells, widths) == #[trigger] (before + cells[k as int] + after)
                && byte_length(before) == byte_length(indent) + column_start(widths, k),
{
    let all = cells_text(cells, widths, cells.len());
    let front = cells_text(cells, widths, k);
    let next = cells_text(cells, widths, k + 1);
    lemma_cells_begin(cells, widths, k + 1, cells.len());
    lemma_cells_length(cells, widths, k);
    let apart = if k > 0 {
        front + "  "@
    } else {
        front
    };
    reveal_strlit("  ");
    assert("  "@ =~= run_of(' ', 2));
    lemma_spaces(2);
    lemma_bytes_add(front, "  "@);
    lemma_bytes_add(indent, apart);
    let cell = cells[k as int];
    let shown = apart + cell;
    assert(next.take(shown.len() as int) =~= shown);
    assert(all.take(shown.len() as int) =~= next.take(shown.len() as int)) by {
        assert(all.take(next.len() as int) == next);
    }
    let after = all.skip(shown.len() as int);
    assert(all =~= shown + after);
    assert(row_text(indent, cells, widths) =~= (indent + apart) + cell + after);
}

proof fn lemma_dashes(n: int)
    ensures
        byte_length(run_of('-', n)) == (if n > 0 {
            n
        } else {
            0
        }),
    decreases n,
{
    let s = run_of('-', n);
    if n > 0 {
        lemma_dashes(n - 1);
        assert(s.drop_first() =~= run_of('-', n - 1));
        assert(s[0] == '-');
    }
}

proof fn lemma_dashes_length(widths: Seq<nat>, k: nat)
    requires
        k <= widths.len(),
    ensures
        byte_length(dashes_text(widths, k)) + (if k > 0 {
            2int
        } else {
            0
        }) == column_start(widths, k),
    decreases k,
{
    reveal_strlit("  ");
    if k > 0 {
        lemma_dashes_length(widths, (k - 1) as nat);
        let front = dashes_text(widths, (k - 1) as nat);
        let apart = if k > 1 {
            front + "  "@
        } else {
            front
        };
        assert("  "@ =~= run_of(' ', 2));
        lemma_spaces(2);
        lemma_bytes_add(front, "  "@);
        lemma_dashes(widths[k - 1] as int);
        lemma_bytes_add(apart, run_of('-', widths[k - 1] as int));
    } else {
        assert(dashes_text(widths, k) =~= run_of(' ', 0));
        lemma_spaces(0);
    }
}

proof fn lemma_dashes_begin(widths: Seq<nat>, j: nat, k: nat)
    requires
        j <= k,
    ensures
        dashes_text(widths, j).len() <= dashes_text(widths, k).len(),
        dashes_text(widths, k).take(dashes_text(widths, j).len() as int) == dashes_text(widths, j),
    decreases k - j,
{
    let a = dashes_text(widths, j);
    let b = dashes_text(widths, k);
    if j == k {
        assert(b.take(a.len() as int) =~= a);
    } else {
        lemma_dashes_begin(widths, j, (k - 1) as nat);
        let mid = dashes_text(widths, (k - 1) as nat);
        assert(b.take(mid.len() as int) =~= mid);
        assert(b.take(a.len() as int) =~= mid.take(a.len() as int));
    }
}

/// Below the heading of each column stand as many dashes as the column is wide.
pub proof fn columns_are_underlined(indent: Seq<char>, widths: Seq<nat>, k: nat)
    requires
        k < widths.len(),
    ensures
        exists|before: Seq<char>, after: Seq<char>|
            separator_text(indent, widths) == #[trigger] (before + run_of(
                '-',
                widths[k as int] as int,
            ) + after) && byte_length(before) == byte_length(indent) + column_start(widths, k),
{
    let all = dashes_text(widths, widths.len());
    let front = dashes_text(widths, k);
    let next = dashes_text(widths, k + 1);
    lemma_dashes_begin(widths, k + 1, widths.len());
    lemma_dashes_length(widths, k);
    let apart = if k > 0 {
        front + "  "@
    } else {
        front
    };
    reveal_strlit("  ");
    assert("  "@ =~= run_of(' ', 2));
    lemma_spaces(2);
    lemma_bytes_add(front, "  "@);
    lemma_bytes_add(indent, apart);
    let line = run_of('-', widths[k as int] as int);
    assert(next =~= apart + line);
    let after = all.skip(next.len() as int);
    assert(all =~= next + after);
    assert(separator_text(indent, widths) =~= (indent + apart) + line + after);
}

/// A row of a table shows each of its cells.
proof fn lemma_row_shows(indent: Seq<char>, cells: Seq<Seq<char>>, widths: Seq<nat>, k: nat)
    requires
        k < cells.len(),
        cells.len() <= widths.len(),
        forall|i: int| 0 <= i < cells.len() ==> byte_length(#[trigger] cells[i]) <= widths[i],
    ensures
        mentions(row_text(indent, cells, widths), cells[k as int]),
{
    columns_are_aligned(indent, cells, widths, k);
    let cell = cells[k as int];
    let (before, after) = choose|before: Seq<char>, after: Seq<char>|
        row_text(indent, cells, widths) == #[trigger] (before + cell + after) && byte_length(before)
            == byte_length(indent) + column_start(widths, k);
    let text = before + cell + after;
    assert(text.subrange(before.len() as int, (before.len() + cell.len()) as int) =~= cell);
    assert(occurs_at(text, cell, before.len() as int));
}

/// A table has a line of headings, a line of dashes, and a line for each row in
/// its order. The line of a row shows each of its cells, each below its
/// heading.
pub proof fn a_table_shows_every_cell(
    headings: Seq<Seq<char>>,
    rows: Seq<Seq<Seq<char>>>,
    i: int,
    k: nat,
)
    requires
        0 <= i < rows.len(),
        k < headings.len(),
        forall|j: int| 0 <= j < rows.len() ==> (#[trigger] rows[j]).len() == headings.len(),
    ensures
        table_text(headings, rows).len() == rows.len() + 2,
        mentions(table_text(headings, rows)[0], headings[k as int]),
        mentions(table_text(headings, rows)[i + 2], rows[i][k as int]),
        exists|a: Seq<char>, b: Seq<char>, c: Seq<char>, d: Seq<char>|
            table_text(headings, rows)[0] == #[trigger] (a + headings[k as int] + b)
                && table_text(headings, rows)[i + 2] == #[trigger] (c + rows[i][k as int] + d)
                && byte_length(a) == byte_length(c),
{
    let widths = column_widths(headings, rows);
    let f = |r: Seq<Seq<char>>| row_text(""@, r, widths);
    let all = table_text(headings, rows);
    assert(rows.map_values(f)[i] == row_text(""@, rows[i], widths));
    assert(all[i + 2] == row_text(""@, rows[i], widths));
    assert(all[0] == row_text(""@, headings, widths));
    assert forall|c: int| 0 <= c < headings.len() implies byte_length(#[trigger] headings[c])
        <= widths[c] by {
        columns_fit_their_cells(headings[c], rows, c);
    }
    assert forall|c: int| 0 <= c < rows[i].len() implies byte_length(#[trigger] rows[i][c])
        <= widths[c] by {
        columns_fit_their_cells(headings[c], rows, c);
        assert(byte_length(rows[i][c]) <= column_width(headings[c], rows, c));
    }
    lemma_row_shows(""@, headings, widths, k);
    lemma_row_shows(""@, rows[i], widths, k);
    columns_are_aligned(""@, headings, widths, k);
    columns_are_aligned(""@, rows[i], widths, k);
    let h = headings[k as int];
    let cell = rows[i][k as int];
    let (a, b) = choose|before: Seq<char>, after: Seq<char>|
        row_text(""@, headings, widths) == #[trigger] (before + h + after) && byte_length(before)
            == byte_length(""@) + column_start(widths, k);
    let (c, d) = choose|before: Seq<char>, after: Seq<char>|
        row_text(""@, rows[i], widths) == #[trigger] (before + cell + after) && byte_length(before)
            == byte_length(""@) + column_start(widths, k);
    assert(all[0] == a + h + b && all[i + 2] == c + cell + d);
}

// ───────────────────────── list ─────────────────────────

/// Whether the column with this heading holds this cell.
pub open spec fn column_holds(
    headings: Seq<Seq<char>>,
    cells: Seq<Seq<char>>,
    heading: Seq<char>,
    cell: Seq<char>,
) -> bool {
    exists|k: int|
        0 <= k < headings.len() && k < cells.len() && headings[k] == heading && #[trigger] cells[k]
            == cell
}

/// Every column of `list` holds what its heading says.
pub proof fn list_columns_hold_what_they_say(r: InstanceRecord, now: Timestamp)
    ensures
        ({
            let h = list_headings();
            let c = list_cells(r, now);
            let load = r.cpu;
            &&& h.len() == c.len()
            &&& column_holds(h, c, "instance_id"@, r.instance_id@)
            &&& column_holds(h, c, "state"@, r.state.name())
            &&& column_holds(h, c, "type"@, r.instance_type@)
            &&& column_holds(h, c, "cost_usd"@, usd_text(r.estimated_cost_usd))
            &&& column_holds(h, c, "created"@, date_of(r.created_at.shown()))
            &&& column_holds(h, c, "total_age"@, uptime_text(r.total_age_seconds as int))
            &&& column_holds(h, c, "last_uptime"@, uptime_text(r.last_uptime_seconds as int))
            &&& r.launched_by is Some ==> column_holds(h, c, "launched_by"@, r.launched_by->0@)
            &&& column_holds(h, c, "src"@, r.launched_by_source.name())
            &&& column_holds(h, c, "region"@, r.region@)
            &&& r.cpu is Some ==> column_holds(h, c, "avg_cpu"@, pct_text(r.cpu->0.avg_pct))
                && column_holds(h, c, "p95_cpu"@, pct_text(r.cpu->0.p95_pct)) && column_holds(
                h,
                c,
                "max_cpu"@,
                pct_text(r.cpu->0.max_pct),
            ) && column_holds(h, c, "last_active"@, last_active_text(r.cpu->0, now))
            &&& r.cpu is None ==> column_holds(h, c, "avg_cpu"@, "-"@) && column_holds(
                h,
                c,
                "p95_cpu"@,
                "-"@,
            ) && column_holds(h, c, "max_cpu"@, "-"@) && column_holds(h, c, "last_active"@, "-"@)
        }),
{
    let c = list_cells(r, now);
    assert(c[0] == c[0] && c[1] == c[1] && c[2] == c[2] && c[3] == c[3] && c[4] == c[4]);
    assert(c[5] == c[5] && c[6] == c[6] && c[7] == c[7] && c[8] == c[8] && c[9] == c[9]);
    assert(c[10] == c[10] && c[11] == c[11] && c[12] == c[12] && c[13] == c[13]);
}

/// `list` has a line for every record, in their order.
pub proof fn list_shows_every_record(records: Seq<InstanceRecord>, now: Timestamp, i: int)
    requires
        0 <= i < records.len(),
    ensures
        list_text(records, now).len() == records.len() + 2,
        mentions(list_text(records, now)[i + 2], records[i].instance_id@),
        mentions(list_text(records, now)[i + 2], usd_text(records[i].estimated_cost_usd)),
        mentions(list_text(records, now)[i + 2], records[i].region@),
{
    let f = |r: InstanceRecord| list_cells(r, now);
    let rows = records.map_values(f);
    assert forall|j: int| 0 <= j < rows.len() implies (#[trigger] rows[j]).len()
        == list_headings().len() by {
        assert(rows[j] == list_cells(records[j], now));
    }
    assert(rows[i] == list_cells(records[i], now));
    a_table_shows_every_cell(list_headings(), rows, i, 0);
    a_table_shows_every_cell(list_headings(), rows, i, 3);
    a_table_shows_every_cell(list_headings(), rows, i, 9);
}

// ───────────────────────── stale ─────────────────────────

/// Every column of `stale` holds what its heading says.
pub proof fn stale_columns_hold_what_they_say(e: Evaluated, now: Timestamp)
    ensures
        ({
            let h = stale_headings();
            let c = stale_cells(e, now);
            let r = e.0;
            &&& h.len() == c.len()
            &&& worst(verdict_views(e.2@)) is Some ==> column_holds(
                h,
                c,
                "sev"@,
                worst(verdict_views(e.2@))->0.label(),
            )
            &&& worst(verdict_views(e.2@)) is None ==> column_holds(h, c, "sev"@, "-"@)
            &&& column_holds(h, c, "instance_id"@, r.instance_id@)
            &&& column_holds(h, c, "type"@, r.instance_type@)
            &&& column_holds(h, c, "created"@, date_of(r.created_at.shown()))
            &&& column_holds(h, c, "total_age"@, uptime_text(r.total_age_seconds as int))
            &&& column_holds(h, c, "last_uptime"@, uptime_text(r.last_uptime_seconds as int))
            &&& r.cpu is Some ==> column_holds(
                h,
                c,
                "last_active"@,
                last_active_text(r.cpu->0, now),
            )
            &&& r.launched_by is Some ==> column_holds(h, c, "launched_by"@, r.launched_by->0@)
            &&& column_holds(h, c, "verdicts"@, verdicts_text(verdict_views(e.2@)))
        }),
{
    let c = stale_cells(e, now);
    assert(c[0] == c[0] && c[1] == c[1] && c[2] == c[2] && c[3] == c[3] && c[4] == c[4]);
    assert(c[5] == c[5] && c[6] == c[6] && c[7] == c[7] && c[8] == c[8]);
}

/// Whether some verdict on a row is not that of a controller.
pub open spec fn has_finding(e: Evaluated) -> bool {
    exists|j: int| 0 <= j < verdict_views(e.2@).len() && !(#[trigger] verdict_views(e.2@)[j] is Managed)
}

/// How many rows have a finding.
pub open spec fn findings(rows: Seq<Evaluated>) -> nat
    decreases rows.len(),
{
    if rows.len() == 0 {
        0
    } else {
        findings(rows.drop_last()) + if has_finding(rows.last()) {
            1nat
        } else {
            0nat
        }
    }
}

/// The flagged rows are those with a finding, each of them and no other.
pub proof fn flagged_rows_have_findings(rows: Seq<Evaluated>)
    ensures
        flagged_rows(rows).len() == findings(rows),
        forall|e: Evaluated|
            #[trigger] flagged_rows(rows).contains(e) <==> rows.contains(e) && has_finding(e),
    decreases rows.len(),
{
    if rows.len() > 0 {
        let front = rows.drop_last();
        let n = rows.len() - 1;
        let list = flagged_rows(rows);
        let some = flagged_rows(front);
        assert(rows[n] == rows.last());
        flagged_rows_have_findings(front);
        assert forall|e: Evaluated| #[trigger] list.contains(e) <==> rows.contains(e)
            && has_finding(e) by {
            if list.contains(e) {
                let k = choose|k: int| 0 <= k < list.len() && list[k] == e;
                if k < some.len() {
                    assert(some[k] == e);
                    assert(some.contains(e));
                    let j = choose|j: int| 0 <= j < front.len() && front[j] == e;
                    assert(rows[j] == e);
                }
            }
            if rows.contains(e) && has_finding(e) {
                let j = choose|j: int| 0 <= j < rows.len() && rows[j] == e;
                if j < n {
                    assert(front[j] == e);
                    assert(front.contains(e));
                    assert(some.contains(e));
                    let k = choose|k: int| 0 <= k < some.len() && some[k] == e;
                    assert(list[k] == e);
                } else {
                    assert(list[some.len() as int] == e);
                }
            }
        }
    }
}

/// `stale` has a line for every row with a finding, in their order, and ends
/// with how many were found and scanned and how bad the worst is. Where nothing
/// is found it says so.
pub proof fn stale_shows_every_finding(rows: Seq<Evaluated>, now: Timestamp)
    requires
        rows.len() > 0,
    ensures
        findings(rows) == 0 ==> stale_text(rows, now).len() == 1,
        findings(rows) > 0 ==> {
            let lines = stale_text(rows, now);
            &&& lines.len() == findings(rows) + 4
            &&& lines.last() == nat_text(findings(rows)) + " flagged / "@ + nat_text(rows.len())
                + " scanned; worst severity: "@ + (match overall_worst(rows) {
                Some(s) => s.label(),
                None => "none"@,
            })
            &&& forall|i: int|
                0 <= i < flagged_rows(rows).len() ==> mentions(
                    lines[i + 2],
                    (#[trigger] flagged_rows(rows)[i]).0.instance_id@,
                ) && mentions(lines[i + 2], verdicts_text(verdict_views(flagged_rows(rows)[i].2@)))
        },
{
    flagged_rows_have_findings(rows);
    json_rows_match_the_table(rows, now);
    let cells = flagged_cells(rows, now);
    let list = flagged_rows(rows);
    let f = |e: Evaluated| stale_cells(e, now);
    assert(cells == list.map_values(f));
    if findings(rows) > 0 {
        let table = table_text(stale_headings(), cells);
        let lines = stale_text(rows, now);
        assert forall|j: int| 0 <= j < cells.len() implies (#[trigger] cells[j]).len()
            == stale_headings().len() by {
            assert(cells[j] == stale_cells(list[j], now));
        }
        a_table_shows_every_cell(stale_headings(), cells, 0, 0);
        assert forall|i: int| 0 <= i < list.len() implies mentions(
            lines[i + 2],
            (#[trigger] list[i]).0.instance_id@,
        ) && mentions(lines[i + 2], verdicts_text(verdict_views(list[i].2@))) by {
            assert(cells[i] == stale_cells(list[i], now));
            a_table_shows_every_cell(stale_headings(), cells, i, 1);
            a_table_shows_every_cell(stale_headings(), cells, i, 8);
            assert(lines[i + 2] == table[i + 2]);
        }
    }
}

/// The verdicts of a row are all told, in their order, set apart by semicolons.
pub proof fn all_verdicts_are_told(verdicts: Seq<VerdictView>, k: int)
    requires
        0 <= k < verdicts.len(),
    ensures
        mentions(verdicts_text(verdicts), verdict_text(verdicts[k])),
{
    let parts = verdicts.map_values(|v: VerdictView| verdict_text(v));
    assert(parts[k] == verdict_text(verdicts[k]));
    lemma_joined_mentions(parts, "; "@, k);
}

proof fn lemma_joined_mentions(parts: Seq<Seq<char>>, sep: Seq<char>, k: int)
    requires
        0 <= k < parts.len(),
    ensures
        mentions(joined(parts, sep), parts[k]),
    decreases parts.len(),
{
    let text = joined(parts, sep);
    let part = parts[k];
    if k == parts.len() - 1 {
        let front = text.take(text.len() - part.len());
        assert(text.subrange(text.len() - part.len(), text.len() as int) =~= part);
        assert(occurs_at(text, part, text.len() - part.len()));
    } else {
        let front = parts.drop_last();
        lemma_joined_mentions(front, sep, k);
        assert(front[k] == part);
        let i = choose|i: int| occurs_at(joined(front, sep), part, i);
        assert(text.subrange(i, i + part.len()) =~= joined(front, sep).subrange(
            i,
            i + part.len(),
        ));
        assert(occurs_at(text, part, i));
    }
}

// ───────────────────────── explain ─────────────────────────

/// Whether a line is among some lines.
pub open spec fn has_line(lines: Seq<Seq<char>>, line: Seq<char>) -> bool {
    exists|i: int| 0 <= i < lines.len() && #[trigger] lines[i] == line
}

proof fn lemma_has_line(a: Seq<Seq<char>>, b: Seq<Seq<char>>, c: Seq<Seq<char>>, i: int)
    requires
        0 <= i < b.len(),
    ensures
        has_line(a + b + c, b[i]),
{
    assert((a + b + c)[a.len() + i] == b[i]);
}

/// Whether a line gives the value of a key, with blanks behind the key.
pub open spec fn tells(lines: Seq<Seq<char>>, key: Seq<char>, value: Seq<char>) -> bool {
    exists|pad: Seq<char>|
        #[trigger] is_blank(pad) && has_line(lines, "  "@ + key + pad + "  "@ + value)
}

/// `explain` tells every tag of the instance.
pub proof fn explain_tells_every_tag(
    r: InstanceRecord,
    c: ContractView,
    trace: Seq<(Seq<char>, Result<VerdictView, SkipReason>)>,
    now: Timestamp,
    i: int,
)
    requires
        0 <= i < r.tags.pairs().len(),
    ensures
        tells(explain_text(r, c, trace, now), r.tags.pairs()[i].0, r.tags.pairs()[i].1),
{
    let a = instance_text(r);
    let b = tags_text(r.tags.pairs());
    let d = contract_text(c);
    let e = cpu_text(r.cpu, now);
    let f = storage_text(r.cost_breakdown);
    let g = rules_text(trace);
    let h = summary_text(fired_in(trace));
    let all = explain_text(r, c, trace, now);
    let pairs = r.tags.pairs();
    assert(all =~= a + b + (d + e + f + g + h));
    let w = crate::report::key_width(pairs);
    let pad = run_of(' ', w - pairs[i].0.len());
    let line = |p: (Seq<char>, Seq<char>)|
        "  "@ + crate::table::padded(p.0, w as int) + "  "@ + p.1;
    assert(pairs.map_values(line)[i] == line(pairs[i]));
    assert(b[i + 2] == line(pairs[i]));
    assert(line(pairs[i]) =~= "  "@ + pairs[i].0 + pad + "  "@ + pairs[i].1);
    lemma_has_line(a, b, d + e + f + g + h, i + 2);
    assert(is_blank(pad));
}

/// `explain` tells of every rule whether it fired, and with what, or why it was
/// skipped.
pub proof fn explain_tells_every_rule(
    r: InstanceRecord,
    c: ContractView,
    trace: Seq<(Seq<char>, Result<VerdictView, SkipReason>)>,
    now: Timestamp,
    i: int,
)
    requires
        0 <= i < trace.len(),
    ensures
        trace[i].1 is Ok ==> tells(
            explain_text(r, c, trace, now),
            trace[i].0,
            "fired   "@ + verdict_text(trace[i].1->Ok_0),
        ),
        trace[i].1 is Err ==> tells(
            explain_text(r, c, trace, now),
            trace[i].0,
            "skipped "@ + (trace[i].1->Err_0).name(),
        ),
{
    let a = instance_text(r);
    let b = tags_text(r.tags.pairs());
    let d = contract_text(c);
    let e = cpu_text(r.cpu, now);
    let f = storage_text(r.cost_breakdown);
    let g = rules_text(trace);
    let h = summary_text(fired_in(trace));
    let all = explain_text(r, c, trace, now);
    assert(all =~= (a + b + d + e + f) + g + h);
    let w = crate::report::longest_rule(trace);
    let pad = run_of(' ', w - trace[i].0.len());
    let line = |t: (Seq<char>, Result<VerdictView, SkipReason>)| rule_line(t, w);
    assert(trace.map_values(line)[i] == line(trace[i]));
    assert(g[i + 2] == line(trace[i]));
    lemma_has_line(a + b + d + e + f, g, h, i + 2);
    assert(is_blank(pad));
    reveal_strlit("  fired   ");
    reveal_strlit("fired   ");
    reveal_strlit("  skipped ");
    reveal_strlit("skipped ");
    reveal_strlit("  ");
    match trace[i].1 {
        Ok(v) => {
            assert("  fired   "@ =~= "  "@ + "fired   "@);
            assert(line(trace[i]) =~= "  "@ + trace[i].0 + pad + "  "@ + ("fired   "@
                + verdict_text(v)));
        },
        Err(reason) => {
            assert("  skipped "@ =~= "  "@ + "skipped "@);
            assert(line(trace[i]) =~= "  "@ + trace[i].0 + pad + "  "@ + ("skipped "@
                + reason.name()));
        },
    }
}

/// The last line of `explain` counts the verdicts that fired, names the worst
/// severity, and says whether the instance is flagged.
pub proof fn explain_ends_with_a_summary(
    r: InstanceRecord,
    c: ContractView,
    trace: Seq<(Seq<char>, Result<VerdictView, SkipReason>)>,
    now: Timestamp,
)
    ensures
        explain_text(r, c, trace, now).last() == "Summary: "@ + nat_text(fired_in(trace).len())
            + " verdict(s) fired, worst severity: "@ + (match worst(fired_in(trace)) {
            Some(s) => s.label(),
            None => "none"@,
        }) + ", flagged: "@ + (if exists|i: int|
            0 <= i < fired_in(trace).len() && !(#[trigger] fired_in(trace)[i] is Managed) {
            "yes"@
        } else {
            "no"@
        }),
{
    let h = summary_text(fired_in(trace));
    let all = explain_text(r, c, trace, now);
    assert(all.last() == h.last());
}

/// `explain` holds every line about the instance, its contract, its CPU load and
/// its storage.
pub proof fn explain_holds_its_sections(
    r: InstanceRecord,
    c: ContractView,
    trace: Seq<(Seq<char>, Result<VerdictView, SkipReason>)>,
    now: Timestamp,
    line: Seq<char>,
)
    requires
        has_line(instance_text(r), line) || has_line(contract_text(c), line) || has_line(
            cpu_text(r.cpu, now),
            line,
        ) || has_line(storage_text(r.cost_breakdown), line),
    ensures
        has_line(explain_text(r, c, trace, now), line),
{
    let a = instance_text(r);
    let b = tags_text(r.tags.pairs());
    let d = contract_text(c);
    let e = cpu_text(r.cpu, now);
    let f = storage_text(r.cost_breakdown);
    let g = rules_text(trace);
    let h = summary_text(fired_in(trace));
    let all = explain_text(r, c, trace, now);
    let none = Seq::<Seq<char>>::empty();
    if has_line(a, line) {
        assert(all =~= none + a + (b + d + e + f + g + h));
        lemma_lifted(none, a, b + d + e + f + g + h, line);
    } else if has_line(d, line) {
        assert(all =~= (a + b) + d + (e + f + g + h));
        lemma_lifted(a + b, d, e + f + g + h, line);
    } else if has_line(e, line) {
        assert(all =~= (a + b + d) + e + (f + g + h));
        lemma_lifted(a + b + d, e, f + g + h, line);
    } else {
        assert(all =~= (a + b + d + e) + f + (g + h));
        lemma_lifted(a + b + d + e, f, g + h, line);
    }
}

proof fn lemma_lifted(a: Seq<Seq<char>>, b: Seq<Seq<char>>, c: Seq<Seq<char>>, line: Seq<char>)
    requires
        has_line(b, line),
    ensures
        has_line(a + b + c, line),
{
    let i = choose|i: int| 0 <= i < b.len() && #[trigger] b[i] == line;
    lemma_has_line(a, b, c, i);
}

/// The lines about the instance tell its id and region, state and type, age and
/// uptime, launcher, zone, profile and key pair.
pub proof fn the_instance_is_told(r: InstanceRecord)
    ensures
        ({
            let all = instance_text(r);
            &&& all[0] == "Instance "@ + r.instance_id@ + " ("@ + r.region@ + ")"@
            &&& has_line(all, "  state        : "@ + r.state.name())
            &&& has_line(all, "  type         : "@ + r.instance_type@)
            &&& has_line(all, "  created      : "@ + date_of(r.created_at.shown()))
            &&& has_line(all, "  total_age    : "@ + uptime_text(r.total_age_seconds as int))
            &&& has_line(all, "  last_uptime  : "@ + uptime_text(r.last_uptime_seconds as int))
            &&& r.launched_by is Some ==> has_line(
                all,
                "  launched_by  : "@ + r.launched_by->0@ + " (src: "@ + r.launched_by_source.name()
                    + ")"@,
            )
            &&& r.az is Some ==> has_line(all, "  az           : "@ + r.az->0@)
            &&& r.iam_instance_profile is Some ==> has_line(
                all,
                "  iam_profile  : "@ + r.iam_instance_profile->0@,
            )
            &&& r.key_name is Some ==> has_line(all, "  key_name     : "@ + r.key_name->0@)
        }),
{
    let a = instance_text(r);
    assert(a[1] == a[1] && a[2] == a[2] && a[3] == a[3] && a[4] == a[4] && a[5] == a[5] && a[6]
        == a[6]);
    let m: int = if r.az is Some {
        8
    } else {
        7
    };
    let k: int = if r.iam_instance_profile is Some {
        m + 1
    } else {
        m
    };
    if r.az is Some {
        assert(a[7] == "  az           : "@ + r.az->0@);
    }
    if r.iam_instance_profile is Some {
        assert(a[m] == "  iam_profile  : "@ + r.iam_instance_profile->0@);
    }
    if r.key_name is Some {
        assert(a[k] == "  key_name     : "@ + r.key_name->0@);
    }
}

/// The lines about the contract tell marker, owner, channel and deadline, and
/// what of them is not set.
pub proof fn the_contract_is_told(c: ContractView)
    ensures
        ({
            let all = contract_text(c);
            &&& has_line(
                all,
                "  managed_by_gasleak : "@ + (if c.managed_by_gasleak {
                    "yes"@
                } else {
                    "no"@
                }),
            )
            &&& c.owner is Some ==> has_line(all, "  owner              : "@ + c.owner->0@)
            &&& c.owner is None ==> has_line(all, "  owner              : "@ + "(unset)"@)
            &&& c.owner_slack is Some ==> has_line(
                all,
                "  owner_slack        : "@ + c.owner_slack->0@,
            )
            &&& c.owner_slack is None ==> has_line(all, "  owner_slack        : "@ + "(unset)"@)
            &&& c.expires_at is Some ==> has_line(
                all,
                "  expires_at         : "@ + c.expires_at->0.shown(),
            )
            &&& c.expires_at is None ==> has_line(all, "  expires_at         : "@ + "(unset)"@)
        }),
{
    let d = contract_text(c);
    assert(d[2] == d[2] && d[3] == d[3] && d[4] == d[4] && d[5] == d[5]);
}

/// The lines about CPU load tell mean, percentile, maximum, number of samples
/// and last activity, where there are samples.
pub proof fn the_load_is_told(c: CpuSummary, now: Timestamp)
    requires
        c.samples > 0,
    ensures
        ({
            let all = cpu_text(Some(c), now);
            &&& c.window_secs >= 0 ==> exists|days: int|
                86_400 * days <= c.window_secs < 86_400 * (days + 1) && has_line(
                    all,
                    #[trigger] ("CPU ("@ + int_text(days) + "-day window):"@),
                )
            &&& has_line(all, "  avg       : "@ + pct_text(c.avg_pct))
            &&& has_line(all, "  p95       : "@ + pct_text(c.p95_pct))
            &&& has_line(all, "  max       : "@ + pct_text(c.max_pct))
            &&& has_line(all, "  samples   : "@ + nat_text(c.samples as nat))
            &&& has_line(all, "  last_active : "@ + last_active_text(c, now))
        }),
{
    let e = cpu_text(Some(c), now);
    if c.window_secs >= 0 {
        let days = c.window_secs as int / 86_400;
        assert(e[1] == "CPU ("@ + int_text(days) + "-day window):"@);
        assert(has_line(e, "CPU ("@ + int_text(days) + "-day window):"@));
    }
    assert(e[2] == e[2] && e[3] == e[3] && e[4] == e[4] && e[5] == e[5] && e[6] == e[6]);
}

/// Every column of the table of volumes holds what its heading says.
pub proof fn volume_columns_hold_what_they_say(v: VolumeCost)
    ensures
        ({
            let h = volume_headings();
            let c = volume_cells(v);
            &&& h.len() == c.len()
            &&& column_holds(h, c, "volume_id"@, v.volume_id@)
            &&& column_holds(h, c, "type"@, v.volume_type@)
            &&& column_holds(h, c, "size_gib"@, int_text(v.size_gib as int))
            &&& v.iops is Some ==> column_holds(h, c, "iops"@, int_text(v.iops->0 as int))
            &&& v.throughput_mibps is Some ==> column_holds(
                h,
                c,
                "mibps"@,
                int_text(v.throughput_mibps->0 as int),
            )
            &&& column_holds(h, c, "age"@, uptime_text(v.age_secs as int))
            &&& column_holds(h, c, "capacity_usd"@, usd_text(Some(v.capacity_usd)))
            &&& column_holds(h, c, "iops_usd"@, usd_text(Some(v.iops_usd)))
            &&& column_holds(h, c, "throughput_usd"@, usd_text(Some(v.throughput_usd)))
            &&& column_holds(h, c, "total_usd"@, usd_text(Some(v.total_usd)))
        }),
{
    let c = volume_cells(v);
    assert(c[0] == c[0] && c[1] == c[1] && c[2] == c[2] && c[3] == c[3] && c[4] == c[4]);
    assert(c[5] == c[5] && c[6] == c[6] && c[7] == c[7] && c[8] == c[8] && c[9] == c[9]);
}

// ───────────────────────── Texts ─────────────────────────

/// A duration is told in its two largest units, which fall short of it by less
/// than one of the smaller.
pub proof fn durations_add_up(seconds: int)
    ensures
        ({
            let abs = if seconds < 0 {
                -seconds
            } else {
                seconds
            };
            let text = duration_text(seconds);
            &&& abs >= 86_400 ==> exists|d: nat, h: nat|
                text == #[trigger] (nat_text(d) + "d"@ + nat_text(h) + "h"@) && h < 24 && d * 86_400
                    + h * 3_600 <= abs < d * 86_400 + (h + 1) * 3_600
            &&& 3_600 <= abs < 86_400 ==> exists|h: nat, m: nat|
                text == #[trigger] (nat_text(h) + "h"@ + nat_text(m) + "m"@) && m < 60 && h * 3_600
                    + m * 60 <= abs < h * 3_600 + (m + 1) * 60
            &&& abs < 3_600 ==> exists|m: nat|
                text == #[trigger] nat_text(m) + "m"@ && m * 60 <= abs < (m + 1) * 60
        }),
{
    let abs = (if seconds < 0 {
        -seconds
    } else {
        seconds
    }) as nat;
    let d = abs / 86_400;
    let h = (abs % 86_400) / 3_600;
    let m = (abs % 3_600) / 60;
    assert((abs % 86_400) % 3_600 == abs % 3_600);
    let text = duration_text(seconds);
    if abs >= 86_400 {
        assert(text == nat_text(d) + "d"@ + nat_text(h) + "h"@);
    } else if abs >= 3_600 {
        assert(text == nat_text(h) + "h"@ + nat_text(m) + "m"@);
    } else {
        assert(text == nat_text(m) + "m"@);
    }
}

/// Percentages have one decimal, amounts two behind a dollar sign; what is not
/// known is a dash.
pub proof fn figures_have_their_decimals(x: Double)
    ensures
        pct_text(Some(x)) == one_decimal_text(x) + "%"@,
        pct_text(None) == "-"@,
        x.finite() ==> usd_text(Some(x)) == "$"@ + two_decimals_text(x),
        !x.finite() ==> usd_text(Some(x)) == "-"@,
        usd_text(None) == "-"@,
{
}

/// When an instance was last active is told as the time since, where there was
/// an active hour; else the time is at least the window, in days.
pub proof fn the_last_activity_is_told(cpu: CpuSummary, now: Timestamp)
    ensures
        cpu.samples == 0 ==> last_active_text(cpu, now) == "no data"@,
        cpu.samples > 0 && cpu.last_active_at is Some && cpu.last_active_at->0.seconds()
            <= now.seconds() && now.seconds() - cpu.last_active_at->0.seconds() <= i64::MAX
            ==> last_active_text(cpu, now) == uptime_text(
            now.seconds() - cpu.last_active_at->0.seconds(),
        ) + " ago"@,
        cpu.samples > 0 && cpu.last_active_at is None && cpu.window_secs >= 0 ==> exists|days: int|
            86_400 * days <= cpu.window_secs < 86_400 * (days + 1) && last_active_text(cpu, now)
                == #[trigger] (">"@ + int_text(days) + "d ago"@),
{
    if cpu.samples > 0 && cpu.last_active_at is None && cpu.window_secs >= 0 {
        let days = cpu.window_secs as int / 86_400;
        assert(last_active_text(cpu, now) == ">"@ + int_text(days) + "d ago"@);
    }
}

/// Who launched an instance is told by name where it is known; else the key
/// pair, or the name of the instance, stands in for it.
pub proof fn an_unknown_launcher_is_guessed(r: InstanceRecord)
    ensures
        r.launched_by is Some ==> launcher_text(r) == r.launched_by->0@,
        r.launched_by is None && r.key_name is Some && !is_blank(r.key_name->0@) ==> launcher_text(
            r,
        ) == "unknown("@ + r.key_name->0@ + ")"@,
        r.launched_by is None && (r.key_name is None || is_blank(r.key_name->0@))
            && r.tags@.contains_key("Name"@) && !is_blank(r.tags@["Name"@]) ==> launcher_text(r)
            == "unknown("@ + r.tags@["Name"@] + ")"@,
        r.launched_by is None && (r.key_name is None || is_blank(r.key_name->0@)) && (
        !r.tags@.contains_key("Name"@) || is_blank(r.tags@["Name"@])) ==> launcher_text(r)
            == "unknown"@,
{
}

proof fn lemma_mentions_part(a: Seq<char>, part: Seq<char>, b: Seq<char>)
    ensures
        mentions(a + part + b, part),
{
    assert((a + part + b).subrange(a.len() as int, (a.len() + part.len()) as int) =~= part);
    assert(occurs_at(a + part + b, part, a.len() as int));
}

proof fn lemma_mentions_inside(a: Seq<char>, inner: Seq<char>, b: Seq<char>, part: Seq<char>)
    requires
        mentions(inner, part),
    ensures
        mentions(a + inner + b, part),
{
    let i = choose|i: int| occurs_at(inner, part, i);
    let text = a + inner + b;
    assert(text.subrange(a.len() + i, a.len() + i + part.len()) =~= inner.subrange(
        i,
        i + part.len(),
    ));
    assert(occurs_at(text, part, a.len() + i));
}

/// The phrase of a verdict begins with its kind and tells its figures: how long
/// ago or ahead, the percentile and the number of samples, or every tag that is
/// missing.
pub proof fn a_phrase_tells_the_verdict(v: VerdictView)
    ensures
        ({
            let text = verdict_text(v);
            &&& mentions(text, v.kind() + "("@)
            &&& v matches VerdictView::Managed { controller } ==> mentions(text, controller)
            &&& v matches VerdictView::Expired { overdue_secs, .. } ==> mentions(
                text,
                duration_text(overdue_secs) + " ago"@,
            )
            &&& v matches VerdictView::ExpiringSoon { within_secs, .. } ==> mentions(
                text,
                "in "@ + duration_text(within_secs),
            )
            &&& v matches VerdictView::Idle { p95_pct, samples, .. } ==> mentions(
                text,
                "p95="@ + one_decimal_text(p95_pct) + "%"@,
            ) && mentions(text, "n="@ + nat_text(samples))
            &&& v matches VerdictView::LongLived { age_secs } ==> mentions(
                text,
                duration_text(age_secs),
            )
            &&& v matches VerdictView::NonCompliant { missing, .. } ==> forall|k: int|
                0 <= k < missing.len() ==> mentions(text, #[trigger] missing[k])
            &&& v matches VerdictView::NonCompliant { tampered: true, .. } ==> mentions(
                text,
                "tampered"@,
            )
        }),
{
    let none = Seq::<char>::empty();
    let text = verdict_text(v);
    reveal_strlit("(");
    match v {
        VerdictView::Managed { controller } => {
            reveal_strlit("managed(");
            reveal_strlit("managed");
            assert("managed("@ =~= "managed"@ + "("@);
            assert(text =~= none + ("managed"@ + "("@) + (controller + ")"@));
            lemma_mentions_part(none, "managed"@ + "("@, controller + ")"@);
            lemma_mentions_part("managed("@, controller, ")"@);
        },
        VerdictView::Expired { overdue_secs, .. } => {
            reveal_strlit("expired(");
            reveal_strlit("expired");
            reveal_strlit(" ago)");
            reveal_strlit(" ago");
            reveal_strlit(")");
            assert("expired("@ =~= "expired"@ + "("@);
            assert(" ago)"@ =~= " ago"@ + ")"@);
            let d = duration_text(overdue_secs);
            assert(text =~= none + ("expired"@ + "("@) + (d + " ago)"@));
            lemma_mentions_part(none, "expired"@ + "("@, d + " ago)"@);
            assert(text =~= "expired("@ + (d + " ago"@) + ")"@);
            lemma_mentions_part("expired("@, d + " ago"@, ")"@);
        },
        VerdictView::ExpiringSoon { within_secs, .. } => {
            reveal_strlit("expiring_soon(in ");
            reveal_strlit("expiring_soon");
            reveal_strlit("in ");
            let d = duration_text(within_secs);
            assert("expiring_soon(in "@ =~= "expiring_soon"@ + "("@ + "in "@);
            assert(text =~= none + ("expiring_soon"@ + "("@) + ("in "@ + d + ")"@));
            lemma_mentions_part(none, "expiring_soon"@ + "("@, "in "@ + d + ")"@);
            assert(text =~= ("expiring_soon"@ + "("@) + ("in "@ + d) + ")"@);
            lemma_mentions_part("expiring_soon"@ + "("@, "in "@ + d, ")"@);
        },
        VerdictView::Idle { p95_pct, samples, .. } => {
            reveal_strlit("idle(p95=");
            reveal_strlit("idle");
            reveal_strlit("p95=");
            reveal_strlit("%, n=");
            reveal_strlit("%");
            reveal_strlit(", ");
            reveal_strlit("n=");
            assert("idle(p95="@ =~= "idle"@ + "("@ + "p95="@);
            assert("%, n="@ =~= "%"@ + ", "@ + "n="@);
            let p = one_decimal_text(p95_pct);
            let n = nat_text(samples);
            let tail = ", "@ + "n="@ + n + ")"@;
            assert(text =~= none + ("idle"@ + "("@) + ("p95="@ + p + "%"@ + tail));
            lemma_mentions_part(none, "idle"@ + "("@, "p95="@ + p + "%"@ + tail);
            assert(text =~= ("idle"@ + "("@) + ("p95="@ + p + "%"@) + tail);
            lemma_mentions_part("idle"@ + "("@, "p95="@ + p + "%"@, tail);
            let head = "idle"@ + "("@ + ("p95="@ + p + "%"@) + ", "@;
            assert(text =~= head + ("n="@ + n) + ")"@);
            lemma_mentions_part(head, "n="@ + n, ")"@);
        },
        VerdictView::Inactive { idle_for_secs, samples, .. } => {
            reveal_strlit("inactive(last=");
            reveal_strlit("inactive");
            reveal_strlit("last=");
            assert("inactive(last="@ =~= "inactive"@ + "("@ + "last="@);
            let rest = text.skip("inactive"@.len() as int + 1);
            assert(text =~= none + ("inactive"@ + "("@) + rest);
            lemma_mentions_part(none, "inactive"@ + "("@, rest);
        },
        VerdictView::LongLived { age_secs } => {
            reveal_strlit("long_lived(age=");
            reveal_strlit("long_lived");
            reveal_strlit("age=");
            assert("long_lived(age="@ =~= "long_lived"@ + "("@ + "age="@);
            let d = duration_text(age_secs);
            assert(text =~= none + ("long_lived"@ + "("@) + ("age="@ + d + ")"@));
            lemma_mentions_part(none, "long_lived"@ + "("@, "age="@ + d + ")"@);
            lemma_mentions_part("long_lived(age="@, d, ")"@);
        },
        VerdictView::Underutilized { .. } => {
            reveal_strlit("underutilized(p95=");
            reveal_strlit("underutilized");
            reveal_strlit("p95=");
            assert("underutilized(p95="@ =~= "underutilized"@ + "("@ + "p95="@);
            let rest = text.skip("underutilized"@.len() as int + 1);
            assert(text =~= none + ("underutilized"@ + "("@) + rest);
            lemma_mentions_part(none, "underutilized"@ + "("@, rest);
        },
        VerdictView::NonCompliant { missing, tampered, .. } => {
            reveal_strlit("non_compliant(missing=");
            reveal_strlit("non_compliant");
            reveal_strlit("missing=");
            reveal_strlit(", tampered)");
            reveal_strlit(", ");
            reveal_strlit("tampered");
            reveal_strlit(")");
            assert("non_compliant(missing="@ =~= "non_compliant"@ + "("@ + "missing="@);
            assert(", tampered)"@ =~= ", "@ + "tampered"@ + ")"@);
            let list = joined(missing, ","@);
            let tail = if tampered {
                ", tampered)"@
            } else {
                ")"@
            };
            assert(text =~= none + ("non_compliant"@ + "("@) + ("missing="@ + list + tail));
            lemma_mentions_part(none, "non_compliant"@ + "("@, "missing="@ + list + tail);
            assert forall|k: int| 0 <= k < missing.len() implies mentions(
                text,
                #[trigger] missing[k],
            ) by {
                lemma_joined_mentions(missing, ","@, k);
                lemma_mentions_inside("non_compliant(missing="@, list, tail, missing[k]);
            }
            if tampered {
                let head = "non_compliant(missing="@ + list + ", "@;
                assert(text =~= head + "tampered"@ + ")"@);
                lemma_mentions_part(head, "tampered"@, ")"@);
            }
        },
    }
}

proof fn lemma_volume_lines(volumes: Seq<VolumeCost>, widths: Seq<nat>, i: int)
    requires
        0 <= i < volumes.len(),
    ensures
        has_line(
            volume_lines_text(volumes, widths),
            row_text("  "@, volume_cells(volumes[i]), widths),
        ),
        volumes[i].excluded_reason is Some ==> has_line(
            volume_lines_text(volumes, widths),
            "    note: "@ + volumes[i].excluded_reason->0@,
        ),
    decreases volumes.len(),
{
    let front = volumes.drop_last();
    let all = volume_lines_text(volumes, widths);
    let some = volume_lines_text(front, widths);
    let n = volumes.len() - 1;
    assert(volumes[n] == volumes.last());
    if i < n {
        assert(front[i] == volumes[i]);
        lemma_volume_lines(front, widths, i);
        let row = row_text("  "@, volume_cells(volumes[i]), widths);
        let k = choose|k: int| 0 <= k < some.len() && #[trigger] some[k] == row;
        assert(all[k] == row);
        if volumes[i].excluded_reason is Some {
            let note = "    note: "@ + volumes[i].excluded_reason->0@;
            let j = choose|j: int| 0 <= j < some.len() && #[trigger] some[j] == note;
            assert(all[j] == note);
        }
    } else {
        assert(all[some.len() as int] == row_text("  "@, volume_cells(volumes[i]), widths));
        if volumes[i].excluded_reason is Some {
            assert(all[some.len() as int + 1] == "    note: "@ + volumes[i].excluded_reason->0@);
        }
    }
}

/// `explain` shows every volume with its id and its total, tells what is left
/// out of its cost, and ends with the sum of compute and storage.
pub proof fn every_volume_is_shown(bd: CostBreakdown, i: int)
    requires
        0 <= i < bd.volumes@.len(),
    ensures
        exists|line: Seq<char>|
            #[trigger] has_line(storage_text(Some(bd)), line) && mentions(
                line,
                bd.volumes@[i].volume_id@,
            ) && mentions(line, usd_text(Some(bd.volumes@[i].total_usd))),
        bd.volumes@[i].excluded_reason is Some ==> has_line(
            storage_text(Some(bd)),
            "    note: "@ + bd.volumes@[i].excluded_reason->0@,
        ),
        storage_text(Some(bd)).last() == "  compute $"@ + two_decimals_text(bd.compute_usd)
            + " + storage $"@ + two_decimals_text(bd.storage_usd) + " = cost_usd $"@
            + two_decimals_text(bd.compute_usd.sum(bd.storage_usd)),
{
    let cells = bd.volumes@.map_values(|v: VolumeCost| volume_cells(v));
    let h = volume_headings();
    let widths = column_widths(h, cells);
    let lines = volume_lines_text(bd.volumes@, widths);
    let all = storage_text(Some(bd));
    let row = row_text("  "@, volume_cells(bd.volumes@[i]), widths);
    lemma_volume_lines(bd.volumes@, widths, i);
    let k = choose|k: int| 0 <= k < lines.len() && #[trigger] lines[k] == row;
    assert(all[k + 4] == row);
    if bd.volumes@[i].excluded_reason is Some {
        let note = "    note: "@ + bd.volumes@[i].excluded_reason->0@;
        let j = choose|j: int| 0 <= j < lines.len() && #[trigger] lines[j] == note;
        assert(all[j + 4] == note);
    }
    let c = volume_cells(bd.volumes@[i]);
    assert(cells[i] == c);
    assert forall|j: int| 0 <= j < c.len() implies byte_length(#[trigger] c[j]) <= widths[j] by {
        columns_fit_their_cells(h[j], cells, j);
        assert(byte_length(cells[i][j]) <= column_width(h[j], cells, j));
    }
    lemma_row_shows("  "@, c, widths, 0);
    lemma_row_shows("  "@, c, widths, 9);
    assert(has_line(all, row));
}

/// The column of keys is as wide as its longest key, up to 40 bytes.
pub proof fn keys_fit_their_column(pairs: Seq<(Seq<char>, Seq<char>)>)
    ensures
        key_width(pairs) <= 40,
        forall|i: int|
            0 <= i < pairs.len() ==> byte_length(#[trigger] pairs[i].0) <= key_width(pairs)
                || key_width(pairs) == 40,
        key_width(pairs) == 0 || exists|i: int|
            0 <= i < pairs.len() && byte_length(#[trigger] pairs[i].0) >= key_width(pairs),
{
    lemma_longest_key(pairs);
}

proof fn lemma_longest_key(pairs: Seq<(Seq<char>, Seq<char>)>)
    ensures
        forall|i: int|
            0 <= i < pairs.len() ==> byte_length(#[trigger] pairs[i].0) <= longest_key(pairs),
        longest_key(pairs) == 0 || exists|i: int|
            0 <= i < pairs.len() && byte_length(#[trigger] pairs[i].0) == longest_key(pairs),
    decreases pairs.len(),
{
    if pairs.len() > 0 {
        let front = pairs.drop_last();
        let n = pairs.len() - 1;
        lemma_longest_key(front);
        assert forall|i: int| 0 <= i < pairs.len() implies byte_length(#[trigger] pairs[i].0)
            <= longest_key(pairs) by {
            if i < n {
                assert(front[i].0 == pairs[i].0);
            }
        }
        if longest_key(pairs) == byte_length(pairs[n].0) {
        } else if longest_key(front) != 0 {
            let j = choose|j: int|
                0 <= j < front.len() && byte_length(#[trigger] front[j].0) == longest_key(front);
            assert(pairs[j].0 == front[j].0);
        }
    }
}

} // verus!
