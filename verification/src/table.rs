//! The table layout engine: a builder accumulates rows of spanned,
//! aligned cells; building computes a balanced column-width vector that
//! satisfies every cell's minimum width, by a deterministic greedy
//! algorithm (ascending span, smallest column first, lowest index on
//! ties).  A built table renders as a bordered, separator-capable grid.

use vstd::prelude::*;

use crate::border_box::{border_ops_parts, text_attr_spec, BorderType, BoxStyle};
use crate::text::{
    chars_string, push_range, push_spaces, repeat_char, space_str, str_chars, two_spaces_str,
};
use crate::{attr_default, Attr, Op, Printable, Target};

verus! {

use vstd::string::StrSliceExecFns;

/// Horizontal alignment of a cell's text inside its columns.
#[derive(Clone, Copy, Debug, PartialEq, Eq, Structural)]
pub enum Align {
    Left,
    Centre,
    Right,
}

/// One table cell: it occupies `span` columns, asks for at least `width`
/// character cells, and shows `text` with alignment `align`.  `width` is
/// the effective minimum: cell construction raises it to the character
/// count of `text`.
#[derive(Clone, Debug)]
pub struct Cell {
    pub span: u16,
    pub align: Align,
    pub width: u16,
    pub text: String,
}

/// The mathematical value of a [`Cell`].
pub struct CellView {
    pub span: nat,
    pub align: Align,
    pub width: nat,
    pub text: Seq<char>,
}

impl View for Cell {
    type V = CellView;

    open spec fn view(&self) -> CellView {
        CellView {
            span: self.span as nat,
            align: self.align,
            width: self.width as nat,
            text: self.text@,
        }
    }
}

/// One committed table row: either a sequence of cells or a horizontal
/// separator rule.
#[derive(Clone, Debug)]
pub enum Row {
    Cells { data: Vec<Cell> },
    Separator,
}

/// The mathematical value of a [`Row`].
pub enum RowView {
    Cells(Seq<CellView>),
    Separator,
}

/// The mathematical values of a sequence of cells.
pub open spec fn cells_view(cells: Seq<Cell>) -> Seq<CellView> {
    cells.map_values(|c: Cell| c@)
}

impl View for Row {
    type V = RowView;

    open spec fn view(&self) -> RowView {
        match self {
            Row::Cells { data } => RowView::Cells(cells_view(data@)),
            Row::Separator => RowView::Separator,
        }
    }
}

/// The mathematical values of a sequence of rows.
pub open spec fn rows_view(rows: Seq<Row>) -> Seq<RowView> {
    rows.map_values(|r: Row| r@)
}

/// The widths of the columns, as integers.
pub open spec fn widths_view(w: Seq<u16>) -> Seq<int> {
    w.map_values(|x: u16| x as int)
}

/// The sum of the spans of the first `i` cells: the column at which cell
/// `i` starts.
pub open spec fn span_prefix(cells: Seq<CellView>, i: int) -> int
    decreases i,
{
    if i <= 0 {
        0
    } else {
        span_prefix(cells, i - 1) + cells[i - 1].span
    }
}

/// The sum of all the cells' spans: how many columns the row covers.
pub open spec fn span_sum(cells: Seq<CellView>) -> int {
    span_prefix(cells, cells.len() as int)
}

/// How many columns a row covers (a separator covers none).
pub open spec fn row_cols(row: RowView) -> int {
    match row {
        RowView::Cells(cs) => span_sum(cs),
        RowView::Separator => 0,
    }
}

/// The maximum span sum over the first `j` rows.
pub open spec fn num_cols_prefix(rows: Seq<RowView>, j: int) -> int
    decreases j,
{
    if j <= 0 {
        0
    } else {
        let prev = num_cols_prefix(rows, j - 1);
        let cur = row_cols(rows[j - 1]);
        if cur > prev {
            cur
        } else {
            prev
        }
    }
}

/// The number of table columns: the maximum span sum over all rows.
pub open spec fn num_cols(rows: Seq<RowView>) -> int {
    num_cols_prefix(rows, rows.len() as int)
}

/// The sum of the column widths over the index range `[s, e)`.
pub open spec fn range_sum(w: Seq<int>, s: int, e: int) -> int
    decreases e - s,
{
    if s >= e {
        0
    } else {
        w[s] + range_sum(w, s + 1, e)
    }
}

/// The index of the narrowest column in `[s, e)`; ties go to the lowest
/// index.
pub open spec fn first_min(w: Seq<int>, s: int, e: int) -> int
    decreases e - s,
{
    if s + 1 >= e {
        s
    } else {
        let m = first_min(w, s + 1, e);
        if w[s] <= w[m] {
            s
        } else {
            m
        }
    }
}

/// Widen the columns in `[s, e)` one unit at a time, each unit going to
/// the first narrowest column, until their sum reaches `need`.
pub open spec fn widen(w: Seq<int>, s: int, e: int, need: int) -> Seq<int>
    decreases need - range_sum(w, s, e),
    when 0 <= s < e <= w.len()
    via widen_decreases
{
    if range_sum(w, s, e) >= need {
        w
    } else {
        let i = first_min(w, s, e);
        widen(w.update(i, w[i] + 1), s, e, need)
    }
}

/// Splitting a range sum at the last element.
proof fn lemma_range_sum_snoc(w: Seq<int>, s: int, e: int)
    requires
        s < e,
    ensures
        range_sum(w, s, e) == range_sum(w, s, e - 1) + w[e - 1],
    decreases e - s,
{
    if s + 1 < e {
        lemma_range_sum_snoc(w, s + 1, e);
        assert(range_sum(w, s, e) == w[s] + range_sum(w, s + 1, e));
        assert(range_sum(w, s, e - 1) == w[s] + range_sum(w, s + 1, e - 1));
    } else {
        assert(range_sum(w, s, e) == w[s] + range_sum(w, s + 1, e));
        assert(range_sum(w, s + 1, e) == 0);
        assert(range_sum(w, s, e - 1) == 0);
    }
}

/// How a single-column update moves a range sum.
proof fn lemma_range_sum_update(w: Seq<int>, s: int, e: int, i: int, x: int)
    requires
        0 <= s <= e <= w.len(),
        0 <= i < w.len(),
    ensures
        range_sum(w.update(i, x), s, e) == if s <= i < e {
            range_sum(w, s, e) + x - w[i]
        } else {
            range_sum(w, s, e)
        },
    decreases e - s,
{
    let wu = w.update(i, x);
    if s < e {
        lemma_range_sum_update(w, s + 1, e, i, x);
        assert(range_sum(wu, s, e) == wu[s] + range_sum(wu, s + 1, e));
        assert(range_sum(w, s, e) == w[s] + range_sum(w, s + 1, e));
    }
}

/// `first_min` lands in range, on a minimal column, and on the lowest
/// minimal index.
proof fn lemma_first_min_props(w: Seq<int>, s: int, e: int)
    requires
        s < e,
    ensures
        s <= first_min(w, s, e) < e,
        forall|k: int| s <= k < e ==> w[first_min(w, s, e)] <= #[trigger] w[k],
        forall|k: int| s <= k < first_min(w, s, e) ==> #[trigger] w[k] > w[first_min(w, s, e)],
    decreases e - s,
{
    if s + 1 < e {
        lemma_first_min_props(w, s + 1, e);
    }
}

#[via_fn]
proof fn widen_decreases(w: Seq<int>, s: int, e: int, need: int) {
    if range_sum(w, s, e) < need {
        let i = first_min(w, s, e);
        lemma_first_min_props(w, s, e);
        lemma_range_sum_update(w, s, e, i, w[i] + 1);
    }
}

/// Any index characterised as "first minimum" is `first_min`.
proof fn lemma_first_min_unique(w: Seq<int>, s: int, e: int, r: int)
    requires
        0 <= s < e <= w.len(),
        s <= r < e,
        forall|k: int| s <= k < e ==> w[r] <= w[k],
        forall|k: int| s <= k < r ==> w[k] > w[r],
    ensures
        r == first_min(w, s, e),
    decreases e - s,
{
    if s + 1 >= e {
    } else {
        let m = first_min(w, s + 1, e);
        lemma_first_min_props(w, s + 1, e);
        if r == s {
            assert(w[s] <= w[m]);
        } else {
            lemma_first_min_unique(w, s + 1, e, r);
            assert(w[s] > w[r]);
        }
    }
}

/// A non-negative range of columns contains no column wider than its
/// sum.
proof fn lemma_elem_le_range_sum(w: Seq<int>, s: int, e: int, i: int)
    requires
        s <= i < e,
        forall|k: int| s <= k < e ==> w[k] >= 0,
    ensures
        w[i] <= range_sum(w, s, e),
    decreases e - s,
{
    if s < i {
        lemma_elem_le_range_sum(w, s + 1, e, i);
    } else {
        lemma_range_sum_nonneg(w, s + 1, e);
    }
}

/// A sum of non-negative columns is non-negative.
proof fn lemma_range_sum_nonneg(w: Seq<int>, s: int, e: int)
    requires
        forall|k: int| s <= k < e ==> w[k] >= 0,
    ensures
        range_sum(w, s, e) >= 0,
    decreases e - s,
{
    if s < e {
        lemma_range_sum_nonneg(w, s + 1, e);
    }
}

/// The index of the narrowest column in `[start, end)`, lowest index on
/// ties.
fn min_col_index(widths: &Vec<u16>, start: usize, end: usize) -> (r: usize)
    requires
        start < end <= widths@.len(),
    ensures
        start <= r < end,
        forall|k: int| start <= k < end ==> widths@[r as int] <= widths@[k],
        forall|k: int| start <= k < r ==> widths@[k] > widths@[r as int],
        r as int == first_min(widths_view(widths@), start as int, end as int),
{
    let mut best: usize = start;
    let mut k: usize = start + 1;
    while k < end
        invariant
            start <= best < k <= end <= widths@.len(),
            forall|j: int| start <= j < k ==> widths@[best as int] <= widths@[j],
            forall|j: int| start <= j < best ==> widths@[j] > widths@[best as int],
        decreases end - k,
    {
        if widths[k] < widths[best] {
            best = k;
        }
        k = k + 1;
    }
    proof {
        let wv = widths_view(widths@);
        assert(forall|j: int| 0 <= j < widths@.len() ==> wv[j] == widths@[j] as int);
        lemma_first_min_unique(wv, start as int, end as int, best as int);
    }
    best
}

/// The sum of the column widths over `[start, end)`.
fn range_sum_exec(widths: &Vec<u16>, start: usize, end: usize) -> (r: u32)
    requires
        start <= end <= widths@.len(),
        end - start <= 65535,
    ensures
        r as int == range_sum(widths_view(widths@), start as int, end as int),
{
    let ghost wv = widths_view(widths@);
    proof {
        assert(forall|j: int| 0 <= j < widths@.len() ==> wv[j] == widths@[j] as int);
    }
    let mut acc: u32 = 0;
    let mut k: usize = start;
    while k < end
        invariant
            start <= k <= end <= widths@.len(),
            end - start <= 65535,
            wv == widths_view(widths@),
            forall|j: int| 0 <= j < widths@.len() ==> wv[j] == widths@[j] as int,
            acc as int == range_sum(wv, start as int, k as int),
            acc as int <= (k - start) * 65535,
        decreases end - k,
    {
        proof {
            lemma_range_sum_snoc(wv, start as int, k + 1);
        }
        acc = acc + widths[k] as u32;
        k = k + 1;
    }
    acc
}

/// Widen the columns in `[start, end)`, one unit at a time into the
/// first narrowest column, until their sum reaches `need`.
#[verifier::loop_isolation(false)]
fn widen_exec(widths: &mut Vec<u16>, start: usize, end: usize, need: u16)
    requires
        start < end <= old(widths)@.len(),
        end - start <= 65535,
    ensures
        final(widths)@.len() == old(widths)@.len(),
        widths_view(final(widths)@) == widen(
            widths_view(old(widths)@),
            start as int,
            end as int,
            need as int,
        ),
{
    let ghost w0 = widths_view(old(widths)@);
    let mut cur: u32 = range_sum_exec(widths, start, end);
    while cur < need as u32
        invariant
            widths@.len() == old(widths)@.len(),
            cur as int == range_sum(widths_view(widths@), start as int, end as int),
            widen(w0, start as int, end as int, need as int) == widen(
                widths_view(widths@),
                start as int,
                end as int,
                need as int,
            ),
        decreases need as int - cur,
    {
        let ghost wv = widths_view(widths@);
        proof {
            assert(forall|j: int| 0 <= j < widths@.len() ==> wv[j] == widths@[j] as int);
        }
        let idx = min_col_index(widths, start, end);
        proof {
            lemma_elem_le_range_sum(wv, start as int, end as int, idx as int);
        }
        let val = widths[idx];
        widths.set(idx, val + 1);
        cur = cur + 1;
        proof {
            assert(widths_view(widths@) =~= wv.update(idx as int, wv[idx as int] + 1));
            lemma_range_sum_update(wv, start as int, end as int, idx as int, wv[idx as int] + 1);
        }
    }
}

/// The columns after the cell at `i` has been given its minimum width,
/// when its span matches the current pass (and its column range is in
/// bounds, which holds for any row the table accepts).
pub open spec fn satisfy_cell(w: Seq<int>, cells: Seq<CellView>, i: int, span: int) -> Seq<int> {
    let s = span_prefix(cells, i);
    let e = s + cells[i].span;
    if cells[i].span == span && 0 <= s < e <= w.len() {
        widen(w, s, e, cells[i].width as int)
    } else {
        w
    }
}

/// The columns after the cells from `i` on have been processed for the
/// current pass.
pub open spec fn satisfy_cells(w: Seq<int>, cells: Seq<CellView>, i: int, span: int) -> Seq<int>
    decreases cells.len() - i,
{
    if i < 0 || i >= cells.len() {
        w
    } else {
        satisfy_cells(satisfy_cell(w, cells, i, span), cells, i + 1, span)
    }
}

/// The columns after one row has been processed for the current pass.
pub open spec fn satisfy_row(w: Seq<int>, row: RowView, span: int) -> Seq<int> {
    match row {
        RowView::Cells(cs) => satisfy_cells(w, cs, 0, span),
        RowView::Separator => w,
    }
}

/// The columns after the rows from `j` on have been processed for the
/// current pass.
pub open spec fn satisfy_rows(w: Seq<int>, rows: Seq<RowView>, j: int, span: int) -> Seq<int>
    decreases rows.len() - j,
{
    if j < 0 || j >= rows.len() {
        w
    } else {
        satisfy_rows(satisfy_row(w, rows[j], span), rows, j + 1, span)
    }
}

/// The columns after the passes for spans `span` to `maxs`, ascending:
/// single-column cells are satisfied before any multi-column cell, so
/// wide cells only ever add width.
pub open spec fn passes(w: Seq<int>, rows: Seq<RowView>, span: int, maxs: int) -> Seq<int>
    decreases maxs + 1 - span,
{
    if span > maxs {
        w
    } else {
        passes(satisfy_rows(w, rows, 0, span), rows, span + 1, maxs)
    }
}

/// `n` columns of width zero.
pub open spec fn zero_widths(n: int) -> Seq<int> {
    Seq::new(if n >= 0 { n as nat } else { 0nat }, |i: int| 0)
}

/// The balanced column widths for `rows`: start from all-zero columns
/// and run one pass per span value, ascending.
pub open spec fn calc_widths_spec(rows: Seq<RowView>) -> Seq<int> {
    passes(zero_widths(num_cols(rows)), rows, 1, num_cols(rows))
}

/// The sum of the balanced column widths.
pub open spec fn total_width_spec(rows: Seq<RowView>) -> int {
    range_sum(calc_widths_spec(rows), 0, calc_widths_spec(rows).len() as int)
}

/// What the layout engine asks of a row: every span is at least one
/// column, and the row covers at most `u16::MAX` columns.
pub open spec fn row_ok(row: RowView) -> bool {
    match row {
        RowView::Cells(cs) => (forall|i: int|
            0 <= i < cs.len() ==> (#[trigger] cs[i].span) >= 1) && span_sum(cs) <= 65535,
        RowView::Separator => true,
    }
}

/// Every row of the table is within the layout engine's machine limits.
pub open spec fn rows_ok(rows: Seq<RowView>) -> bool {
    forall|j: int| 0 <= j < rows.len() ==> row_ok(#[trigger] rows[j])
}

/// Span prefix sums are non-negative.
proof fn lemma_span_prefix_nonneg(cells: Seq<CellView>, i: int)
    ensures
        span_prefix(cells, i) >= 0,
    decreases i,
{
    if i > 0 {
        lemma_span_prefix_nonneg(cells, i - 1);
    }
}

/// Span prefix sums grow with the prefix.
proof fn lemma_span_prefix_mono(cells: Seq<CellView>, i: int, k: int)
    requires
        0 <= i <= k,
    ensures
        span_prefix(cells, i) <= span_prefix(cells, k),
    decreases k - i,
{
    if i < k {
        lemma_span_prefix_mono(cells, i, k - 1);
    }
}

/// The running maximum of span sums grows with the prefix.
proof fn lemma_num_cols_prefix_mono(rows: Seq<RowView>, j: int, k: int)
    requires
        0 <= j <= k,
    ensures
        num_cols_prefix(rows, j) <= num_cols_prefix(rows, k),
    decreases k - j,
{
    if j < k {
        lemma_num_cols_prefix_mono(rows, j, k - 1);
    }
}

/// No row covers more columns than the table has.
proof fn lemma_row_le_num_cols(rows: Seq<RowView>, j: int)
    requires
        0 <= j < rows.len(),
    ensures
        row_cols(rows[j]) <= num_cols(rows),
{
    assert(num_cols_prefix(rows, j + 1) >= row_cols(rows[j]));
    lemma_num_cols_prefix_mono(rows, j + 1, rows.len() as int);
}

/// A range sum splits at any midpoint.
proof fn lemma_range_sum_split(w: Seq<int>, s: int, m: int, e: int)
    requires
        s <= m <= e,
    ensures
        range_sum(w, s, e) == range_sum(w, s, m) + range_sum(w, m, e),
    decreases m - s,
{
    if s < m {
        lemma_range_sum_split(w, s + 1, m, e);
    }
}

/// The accumulated rows of a table being built, in call order.
#[derive(Clone, Debug)]
pub struct TableBuilder {
    pub data: Vec<Row>,
}

impl TableBuilder {
    /// Compute the balanced column widths for the accumulated rows: one
    /// pass per span value, ascending; within a pass, each matching
    /// cell's columns are widened one unit at a time, the first
    /// narrowest column first, until they cover the cell's minimum.
    #[verifier::loop_isolation(false)]
    pub fn calc_widths(&self) -> (r: Vec<u16>)
        requires
            rows_ok(rows_view(self.data@)),
        ensures
            widths_view(r@) == calc_widths_spec(rows_view(self.data@)),
            r@.len() as int == num_cols(rows_view(self.data@)),
    {
        let ghost rv = rows_view(self.data@);
        let rows = &self.data;
        let mut maxc: u16 = 0;
        let mut j: usize = 0;
        while j < rows.len()
            invariant
                j <= rows@.len(),
                maxc as int == num_cols_prefix(rv, j as int),
            decreases rows@.len() - j,
        {
            proof {
                assert(rv[j as int] == rows@[j as int]@);
                assert(row_ok(rv[j as int]));
            }
            match &rows[j] {
                Row::Cells { data } => {
                    let ghost cs = cells_view(data@);
                    proof {
                        assert(rv[j as int] == RowView::Cells(cs));
                    }
                    let mut acc: u16 = 0;
                    let mut i: usize = 0;
                    while i < data.len()
                        invariant
                            i <= data@.len(),
                            cs == cells_view(data@),
                            span_sum(cs) <= 65535,
                            acc as int == span_prefix(cs, i as int),
                        decreases data@.len() - i,
                    {
                        proof {
                            assert(cs[i as int] == data@[i as int]@);
                            lemma_span_prefix_mono(cs, i + 1, cs.len() as int);
                        }
                        acc = acc + data[i].span;
                        i = i + 1;
                    }
                    proof {
                        assert(acc as int == row_cols(rv[j as int]));
                    }
                    if acc > maxc {
                        maxc = acc;
                    }
                },
                Row::Separator => {
                    proof {
                        assert(row_cols(rv[j as int]) == 0);
                    }
                },
            }
            j = j + 1;
        }
        proof {
            assert(maxc as int == num_cols(rv));
        }
        let n = maxc as usize;
        let mut widths: Vec<u16> = Vec::new();
        let mut z: usize = 0;
        while z < n
            invariant
                z <= n,
                widths@.len() == z,
                forall|k: int| 0 <= k < z ==> widths@[k] == 0u16,
            decreases n - z,
        {
            widths.push(0);
            z = z + 1;
        }
        proof {
            assert(widths_view(widths@) =~= zero_widths(num_cols(rv)));
        }
        let mut span: u32 = 1;
        while span <= maxc as u32
            invariant
                1 <= span <= maxc as u32 + 1,
                widths@.len() as int == num_cols(rv),
                passes(widths_view(widths@), rv, span as int, maxc as int) == calc_widths_spec(
                    rv,
                ),
            decreases maxc as u32 + 1 - span,
        {
            let ghost w_span = widths_view(widths@);
            let mut j: usize = 0;
            while j < rows.len()
                invariant
                    j <= rows@.len(),
                    widths@.len() as int == num_cols(rv),
                    satisfy_rows(w_span, rv, 0, span as int) == satisfy_rows(
                        widths_view(widths@),
                        rv,
                        j as int,
                        span as int,
                    ),
                decreases rows@.len() - j,
            {
                let ghost w_row = widths_view(widths@);
                proof {
                    assert(rv[j as int] == rows@[j as int]@);
                    assert(row_ok(rv[j as int]));
                }
                match &rows[j] {
                    Row::Cells { data } => {
                        let ghost cs = cells_view(data@);
                        proof {
                            assert(rv[j as int] == RowView::Cells(cs));
                        }
                        let mut start: usize = 0;
                        let mut i: usize = 0;
                        while i < data.len()
                            invariant
                                i <= data@.len(),
                                cs == cells_view(data@),
                                start as int == span_prefix(cs, i as int),
                                widths@.len() as int == num_cols(rv),
                                satisfy_cells(w_row, cs, 0, span as int) == satisfy_cells(
                                    widths_view(widths@),
                                    cs,
                                    i as int,
                                    span as int,
                                ),
                            decreases data@.len() - i,
                        {
                            let ghost w_cell = widths_view(widths@);
                            proof {
                                assert(cs[i as int] == data@[i as int]@);
                                lemma_span_prefix_nonneg(cs, i as int);
                                lemma_span_prefix_mono(cs, i + 1, cs.len() as int);
                                lemma_row_le_num_cols(rv, j as int);
                                assert(span_prefix(cs, i + 1) == start as int + cs[i as int].span);
                            }
                            let sp = data[i].span as usize;
                            let end = start + sp;
                            if data[i].span as u32 == span {
                                widen_exec(&mut widths, start, end, data[i].width);
                                proof {
                                    assert(satisfy_cell(w_cell, cs, i as int, span as int)
                                        == widths_view(widths@));
                                }
                            } else {
                                proof {
                                    assert(satisfy_cell(w_cell, cs, i as int, span as int)
                                        == w_cell);
                                }
                            }
                            proof {
                                assert(satisfy_cells(w_cell, cs, i as int, span as int)
                                    == satisfy_cells(
                                    satisfy_cell(w_cell, cs, i as int, span as int),
                                    cs,
                                    i + 1,
                                    span as int,
                                ));
                            }
                            start = end;
                            i = i + 1;
                        }
                        proof {
                            assert(satisfy_cells(widths_view(widths@), cs, cs.len() as int, span as int)
                                == widths_view(widths@));
                            assert(satisfy_row(w_row, rv[j as int], span as int) == widths_view(
                                widths@,
                            ));
                        }
                    },
                    Row::Separator => {
                        proof {
                            assert(satisfy_row(w_row, rv[j as int], span as int) == w_row);
                        }
                    },
                }
                proof {
                    assert(satisfy_rows(w_row, rv, j as int, span as int) == satisfy_rows(
                        satisfy_row(w_row, rv[j as int], span as int),
                        rv,
                        j + 1,
                        span as int,
                    ));
                }
                j = j + 1;
            }
            proof {
                assert(satisfy_rows(widths_view(widths@), rv, rv.len() as int, span as int)
                    == widths_view(widths@));
                assert(passes(w_span, rv, span as int, maxc as int) == passes(
                    satisfy_rows(w_span, rv, 0, span as int),
                    rv,
                    span as int + 1,
                    maxc as int,
                ));
            }
            span = span + 1;
        }
        proof {
            assert(passes(widths_view(widths@), rv, span as int, maxc as int) == widths_view(
                widths@,
            ));
        }
        widths
    }
}

/// Whether the columns spanned by cell `i` sum to at least its
/// effective minimum width.
pub open spec fn cell_satisfied(w: Seq<int>, cells: Seq<CellView>, i: int) -> bool {
    range_sum(w, span_prefix(cells, i), span_prefix(cells, i) + cells[i].span)
        >= cells[i].width as int
}

/// Whether every cell of the row is satisfied by the columns.
pub open spec fn row_satisfied(w: Seq<int>, row: RowView) -> bool {
    match row {
        RowView::Cells(cs) => forall|i: int|
            0 <= i < cs.len() ==> #[trigger] cell_satisfied(w, cs, i),
        RowView::Separator => true,
    }
}

/// Whether every cell of every row is satisfied by the columns.
pub open spec fn table_satisfied(w: Seq<int>, rows: Seq<RowView>) -> bool {
    forall|j: int| 0 <= j < rows.len() ==> row_satisfied(w, #[trigger] rows[j])
}

/// `w2` keeps `w1`'s length and is at least as wide in every column.
pub open spec fn grows(w1: Seq<int>, w2: Seq<int>) -> bool {
    w2.len() == w1.len() && forall|k: int| 0 <= k < w1.len() ==> #[trigger] w2[k] >= w1[k]
}

/// Widening only adds width, and reaches the requested sum.
proof fn lemma_widen_grows(w: Seq<int>, s: int, e: int, need: int)
    requires
        0 <= s < e <= w.len(),
    ensures
        grows(w, widen(w, s, e, need)),
        range_sum(widen(w, s, e, need), s, e) >= need,
    decreases need - range_sum(w, s, e),
{
    if range_sum(w, s, e) >= need {
        assert(widen(w, s, e, need) == w);
    } else {
        let i = first_min(w, s, e);
        lemma_first_min_props(w, s, e);
        let wu = w.update(i, w[i] + 1);
        lemma_range_sum_update(w, s, e, i, w[i] + 1);
        lemma_widen_grows(wu, s, e, need);
    }
}

/// A range sum can only grow when every column grows.
proof fn lemma_range_sum_grows(w1: Seq<int>, w2: Seq<int>, s: int, e: int)
    requires
        grows(w1, w2),
        0 <= s <= e <= w1.len(),
    ensures
        range_sum(w2, s, e) >= range_sum(w1, s, e),
    decreases e - s,
{
    if s < e {
        lemma_range_sum_grows(w1, w2, s + 1, e);
    }
}

/// A satisfied cell stays satisfied when every column grows.
proof fn lemma_cell_satisfied_grows(w1: Seq<int>, w2: Seq<int>, cells: Seq<CellView>, i: int)
    requires
        grows(w1, w2),
        0 <= i < cells.len(),
        span_sum(cells) <= w1.len(),
        cell_satisfied(w1, cells, i),
    ensures
        cell_satisfied(w2, cells, i),
{
    lemma_span_prefix_nonneg(cells, i);
    lemma_span_prefix_mono(cells, i + 1, cells.len() as int);
    assert(span_prefix(cells, i + 1) == span_prefix(cells, i) + cells[i].span);
    lemma_range_sum_grows(
        w1,
        w2,
        span_prefix(cells, i),
        span_prefix(cells, i) + cells[i].span,
    );
}

/// Processing one cell only adds width.
proof fn lemma_satisfy_cell_grows(w: Seq<int>, cells: Seq<CellView>, i: int, span: int)
    ensures
        grows(w, satisfy_cell(w, cells, i, span)),
{
    let s = span_prefix(cells, i);
    let e = s + cells[i].span;
    if cells[i].span == span && 0 <= s < e <= w.len() {
        lemma_widen_grows(w, s, e, cells[i].width as int);
    }
}

/// Processing the cells from `i` on only adds width.
proof fn lemma_satisfy_cells_grows(w: Seq<int>, cells: Seq<CellView>, i: int, span: int)
    ensures
        grows(w, satisfy_cells(w, cells, i, span)),
    decreases cells.len() - i,
{
    if 0 <= i < cells.len() {
        let w1 = satisfy_cell(w, cells, i, span);
        lemma_satisfy_cell_grows(w, cells, i, span);
        lemma_satisfy_cells_grows(w1, cells, i + 1, span);
    }
}

/// Processing one row only adds width.
proof fn lemma_satisfy_row_grows(w: Seq<int>, row: RowView, span: int)
    ensures
        grows(w, satisfy_row(w, row, span)),
{
    match row {
        RowView::Cells(cs) => {
            lemma_satisfy_cells_grows(w, cs, 0, span);
        },
        RowView::Separator => {},
    }
}

/// Processing the rows from `j` on only adds width.
proof fn lemma_satisfy_rows_grows(w: Seq<int>, rows: Seq<RowView>, j: int, span: int)
    ensures
        grows(w, satisfy_rows(w, rows, j, span)),
    decreases rows.len() - j,
{
    if 0 <= j < rows.len() {
        let w1 = satisfy_row(w, rows[j], span);
        lemma_satisfy_row_grows(w, rows[j], span);
        lemma_satisfy_rows_grows(w1, rows, j + 1, span);
    }
}

/// The remaining passes only add width.
proof fn lemma_passes_grows(w: Seq<int>, rows: Seq<RowView>, span: int, maxs: int)
    ensures
        grows(w, passes(w, rows, span, maxs)),
    decreases maxs + 1 - span,
{
    if span <= maxs {
        let w1 = satisfy_rows(w, rows, 0, span);
        lemma_satisfy_rows_grows(w, rows, 0, span);
        lemma_passes_grows(w1, rows, span + 1, maxs);
    }
}

/// After the cells from `i` on have been processed, any cell at `k >= i`
/// whose span matches the pass is satisfied.
proof fn lemma_satisfy_cells_sat(w: Seq<int>, cells: Seq<CellView>, i: int, k: int, span: int)
    requires
        0 <= i <= k < cells.len(),
        cells[k].span == span,
        cells[k].span >= 1,
        span_sum(cells) <= w.len(),
    ensures
        cell_satisfied(satisfy_cells(w, cells, i, span), cells, k),
    decreases cells.len() - i,
{
    let w1 = satisfy_cell(w, cells, i, span);
    lemma_satisfy_cell_grows(w, cells, i, span);
    if i == k {
        let s = span_prefix(cells, k);
        let e = s + cells[k].span;
        lemma_span_prefix_nonneg(cells, k);
        lemma_span_prefix_mono(cells, k + 1, cells.len() as int);
        assert(span_prefix(cells, k + 1) == s + cells[k].span);
        assert(0 <= s < e <= w.len());
        lemma_widen_grows(w, s, e, cells[k].width as int);
        assert(cell_satisfied(w1, cells, k));
        lemma_satisfy_cells_grows(w1, cells, i + 1, span);
        lemma_cell_satisfied_grows(w1, satisfy_cells(w1, cells, i + 1, span), cells, k);
    } else {
        lemma_satisfy_cells_sat(w1, cells, i + 1, k, span);
    }
}

/// After the rows from `j` on have been processed, any matching-span
/// cell of any row at `t >= j` is satisfied.
proof fn lemma_satisfy_rows_sat(
    w: Seq<int>,
    rows: Seq<RowView>,
    j: int,
    t: int,
    cs: Seq<CellView>,
    k: int,
    span: int,
)
    requires
        0 <= j <= t < rows.len(),
        rows[t] == RowView::Cells(cs),
        0 <= k < cs.len(),
        cs[k].span == span,
        rows_ok(rows),
        num_cols(rows) <= w.len(),
    ensures
        cell_satisfied(satisfy_rows(w, rows, j, span), cs, k),
    decreases rows.len() - j,
{
    let w1 = satisfy_row(w, rows[j], span);
    lemma_satisfy_row_grows(w, rows[j], span);
    lemma_row_le_num_cols(rows, t);
    if j == t {
        assert(row_ok(rows[t]));
        lemma_satisfy_cells_sat(w, cs, 0, k, span);
        lemma_satisfy_rows_grows(w1, rows, j + 1, span);
        lemma_cell_satisfied_grows(w1, satisfy_rows(w1, rows, j + 1, span), cs, k);
    } else {
        lemma_satisfy_rows_sat(w1, rows, j + 1, t, cs, k, span);
    }
}

/// After the passes from `span` to `maxs`, any cell whose span lies in
/// that range is satisfied.
proof fn lemma_passes_sat(
    w: Seq<int>,
    rows: Seq<RowView>,
    span: int,
    maxs: int,
    t: int,
    cs: Seq<CellView>,
    k: int,
)
    requires
        0 <= t < rows.len(),
        rows[t] == RowView::Cells(cs),
        0 <= k < cs.len(),
        span <= cs[k].span <= maxs,
        rows_ok(rows),
        num_cols(rows) <= w.len(),
    ensures
        cell_satisfied(passes(w, rows, span, maxs), cs, k),
    decreases maxs + 1 - span,
{
    let w1 = satisfy_rows(w, rows, 0, span);
    lemma_satisfy_rows_grows(w, rows, 0, span);
    lemma_row_le_num_cols(rows, t);
    if cs[k].span == span {
        lemma_satisfy_rows_sat(w, rows, 0, t, cs, k, span);
        lemma_passes_grows(w1, rows, span + 1, maxs);
        assert(row_ok(rows[t]));
        lemma_cell_satisfied_grows(w1, passes(w1, rows, span + 1, maxs), cs, k);
    } else {
        lemma_passes_sat(w1, rows, span + 1, maxs, t, cs, k);
    }
}

/// The balancing law: for any rows within the layout engine's machine
/// limits, the balanced width vector has exactly the table's number of
/// columns, every row's span sum fits in it, and every cell's spanned
/// columns sum to at least the cell's effective minimum width.
pub proof fn lemma_balanced_widths(rows: Seq<RowView>)
    requires
        rows_ok(rows),
    ensures
        calc_widths_spec(rows).len() == num_cols(rows),
        num_cols(rows) >= 0,
        forall|k: int|
            0 <= k < calc_widths_spec(rows).len() ==> #[trigger] calc_widths_spec(rows)[k] >= 0,
        forall|j: int| 0 <= j < rows.len() ==> row_cols(#[trigger] rows[j]) <= num_cols(rows),
        table_satisfied(calc_widths_spec(rows), rows),
{
    let m = num_cols(rows);
    let w0 = zero_widths(m);
    let cw = calc_widths_spec(rows);
    lemma_num_cols_prefix_mono(rows, 0, rows.len() as int);
    assert(m >= 0);
    lemma_passes_grows(w0, rows, 1, m);
    assert forall|j: int| 0 <= j < rows.len() implies row_cols(#[trigger] rows[j]) <= m by {
        lemma_row_le_num_cols(rows, j);
    }
    assert forall|j: int| 0 <= j < rows.len() implies row_satisfied(cw, #[trigger] rows[j]) by {
        match rows[j] {
            RowView::Cells(cs) => {
                assert(row_ok(rows[j]));
                assert forall|i: int| 0 <= i < cs.len() implies #[trigger] cell_satisfied(
                    cw,
                    cs,
                    i,
                ) by {
                    lemma_span_prefix_nonneg(cs, i);
                    lemma_span_prefix_mono(cs, i + 1, cs.len() as int);
                    assert(span_prefix(cs, i + 1) == span_prefix(cs, i) + cs[i].span);
                    assert(cs[i].span <= span_sum(cs));
                    lemma_row_le_num_cols(rows, j);
                    assert(1 <= cs[i].span <= m);
                    lemma_passes_sat(w0, rows, 1, m, j, cs, i);
                }
            },
            RowView::Separator => {},
        }
    }
}

/// A table: committed rows, the balanced column widths, and their sum.
#[derive(Clone, Debug)]
pub struct Table {
    pub data: Vec<Row>,
    pub widths: Vec<u16>,
    pub width: u16,
}

impl Table {
    /// A built table: its rows are within the layout engine's machine
    /// limits, its widths are the balanced widths of its rows, and
    /// `width` is their sum.
    pub open spec fn wf(&self) -> bool {
        &&& rows_ok(rows_view(self.data@))
        &&& widths_view(self.widths@) == calc_widths_spec(rows_view(self.data@))
        &&& self.width as int == total_width_spec(rows_view(self.data@))
    }

    /// Start building a table.
    pub fn builder() -> (r: TableBuilder)
        ensures
            r.data@ == Seq::<Row>::empty(),
    {
        TableBuilder { data: Vec::new() }
    }

    /// The table's total width: the sum of its column widths.
    pub fn width(&self) -> (r: u16)
        ensures
            r == self.width,
    {
        self.width
    }
}

/// Every well-formed table satisfies the balancing law: each row's
/// spans fit the column vector, and each cell's spanned columns cover
/// its effective minimum width.
pub proof fn lemma_table_satisfied(t: Table)
    requires
        t.wf(),
    ensures
        t.widths@.len() == num_cols(rows_view(t.data@)),
        forall|j: int|
            0 <= j < t.data@.len() ==> row_cols(#[trigger] rows_view(t.data@)[j])
                <= t.widths@.len(),
        table_satisfied(widths_view(t.widths@), rows_view(t.data@)),
{
    lemma_balanced_widths(rows_view(t.data@));
}

impl TableBuilder {
    /// Start accumulating one row of cells; commit it with
    /// [`RowBuilder::build`].
    pub fn row(self) -> (r: RowBuilder)
        ensures
            r.table_builder == self,
            r.data@ == Seq::<Cell>::empty(),
    {
        RowBuilder { table_builder: self, data: Vec::new() }
    }

    /// Commit a separator row at this position.
    pub fn separator(&mut self)
        ensures
            final(self).data@ == old(self).data@.push(Row::Separator),
    {
        self.data.push(Row::Separator);
    }

    /// Compute the column widths and their sum, and freeze the table.
    #[verifier::loop_isolation(false)]
    pub fn build(self) -> (t: Table)
        requires
            rows_ok(rows_view(self.data@)),
            total_width_spec(rows_view(self.data@)) <= u16::MAX as int,
        ensures
            t.data@ == self.data@,
            t.wf(),
    {
        let ghost rv = rows_view(self.data@);
        let widths = self.calc_widths();
        let ghost wv = widths_view(widths@);
        proof {
            assert(forall|k: int| 0 <= k < widths@.len() ==> wv[k] == widths@[k] as int);
        }
        let mut sum: u32 = 0;
        let mut k: usize = 0;
        while k < widths.len()
            invariant
                k <= widths@.len(),
                sum as int == range_sum(wv, 0, k as int),
            decreases widths@.len() - k,
        {
            proof {
                lemma_range_sum_snoc(wv, 0, k + 1);
                lemma_range_sum_split(wv, 0, k + 1, wv.len() as int);
                lemma_range_sum_nonneg(wv, k + 1, wv.len() as int);
            }
            sum = sum + widths[k] as u32;
            k = k + 1;
        }
        let width = sum as u16;
        Table { data: self.data, widths, width }
    }
}

/// The cells of one row being accumulated, left to right, together with
/// the table builder the row will be committed to.
pub struct RowBuilder {
    pub table_builder: TableBuilder,
    pub data: Vec<Cell>,
}

/// The effective minimum width of a cell: the larger of its declared
/// minimum and the character count of its text.
pub open spec fn eff_width(width: u16, text: Seq<char>) -> nat {
    if width as nat >= text.len() {
        width as nat
    } else {
        text.len()
    }
}

impl RowBuilder {
    /// Record one cell spanning `span` columns, aligned by `align`, at
    /// least `width` characters wide, showing `text`.
    pub fn cell(self, span: u16, align: Align, width: u16, text: String) -> (r: Self)
        requires
            1 <= span,
            text@.len() <= u16::MAX as nat,
        ensures
            r.table_builder == self.table_builder,
            cells_view(r.data@) == cells_view(self.data@).push(
                CellView { span: span as nat, align, width: eff_width(width, text@), text: text@ },
            ),
    {
        let n = text.as_str().unicode_len();
        let tw = n as u16;
        let w = if tw > width {
            tw
        } else {
            width
        };
        let RowBuilder { table_builder, mut data } = self;
        let ghost before = data@;
        let c = Cell { span, align, width: w, text };
        let ghost cv = c@;
        data.push(c);
        proof {
            assert(cells_view(data@) =~= cells_view(before).push(cv));
        }
        RowBuilder { table_builder, data }
    }

    /// A single-column left-aligned cell.
    pub fn left(self, text: String) -> (r: Self)
        requires
            text@.len() <= u16::MAX as nat,
        ensures
            r.table_builder == self.table_builder,
            cells_view(r.data@) == cells_view(self.data@).push(
                CellView { span: 1, align: Align::Left, width: text@.len(), text: text@ },
            ),
    {
        self.cell(1, Align::Left, 0, text)
    }

    /// A left-aligned cell spanning `span` columns.
    pub fn left_span(self, span: u16, text: String) -> (r: Self)
        requires
            1 <= span,
            text@.len() <= u16::MAX as nat,
        ensures
            r.table_builder == self.table_builder,
            cells_view(r.data@) == cells_view(self.data@).push(
                CellView { span: span as nat, align: Align::Left, width: text@.len(), text: text@ },
            ),
    {
        self.cell(span, Align::Left, 0, text)
    }

    /// A single-column centred cell.
    pub fn centre(self, text: String) -> (r: Self)
        requires
            text@.len() <= u16::MAX as nat,
        ensures
            r.table_builder == self.table_builder,
            cells_view(r.data@) == cells_view(self.data@).push(
                CellView { span: 1, align: Align::Centre, width: text@.len(), text: text@ },
            ),
    {
        self.cell(1, Align::Centre, 0, text)
    }

    /// A centred cell spanning `span` columns.
    pub fn centre_span(self, span: u16, text: String) -> (r: Self)
        requires
            1 <= span,
            text@.len() <= u16::MAX as nat,
        ensures
            r.table_builder == self.table_builder,
            cells_view(r.data@) == cells_view(self.data@).push(
                CellView {
                    span: span as nat,
                    align: Align::Centre,
                    width: text@.len(),
                    text: text@,
                },
            ),
    {
        self.cell(span, Align::Centre, 0, text)
    }

    /// A single-column right-aligned cell.
    pub fn right(self, text: String) -> (r: Self)
        requires
            text@.len() <= u16::MAX as nat,
        ensures
            r.table_builder == self.table_builder,
            cells_view(r.data@) == cells_view(self.data@).push(
                CellView { span: 1, align: Align::Right, width: text@.len(), text: text@ },
            ),
    {
        self.cell(1, Align::Right, 0, text)
    }

    /// A right-aligned cell spanning `span` columns.
    pub fn right_span(self, span: u16, text: String) -> (r: Self)
        requires
            1 <= span,
            text@.len() <= u16::MAX as nat,
        ensures
            r.table_builder == self.table_builder,
            cells_view(r.data@) == cells_view(self.data@).push(
                CellView {
                    span: span as nat,
                    align: Align::Right,
                    width: text@.len(),
                    text: text@,
                },
            ),
    {
        self.cell(span, Align::Right, 0, text)
    }

    /// An empty single-column cell at least `width` characters wide.
    pub fn space(self, width: u16) -> (r: Self)
        ensures
            r.table_builder == self.table_builder,
            cells_view(r.data@) == cells_view(self.data@).push(
                CellView {
                    span: 1,
                    align: Align::Left,
                    width: width as nat,
                    text: Seq::<char>::empty(),
                },
            ),
    {
        self.cell(1, Align::Left, width, String::new())
    }

    /// An empty cell spanning `span` columns, at least `width`
    /// characters wide.
    pub fn space_span(self, span: u16, width: u16) -> (r: Self)
        requires
            1 <= span,
        ensures
            r.table_builder == self.table_builder,
            cells_view(r.data@) == cells_view(self.data@).push(
                CellView {
                    span: span as nat,
                    align: Align::Left,
                    width: width as nat,
                    text: Seq::<char>::empty(),
                },
            ),
    {
        self.cell(span, Align::Left, width, String::new())
    }

    /// An empty single-column cell of no minimum width.
    pub fn empty(self) -> (r: Self)
        ensures
            r.table_builder == self.table_builder,
            cells_view(r.data@) == cells_view(self.data@).push(
                CellView { span: 1, align: Align::Left, width: 0, text: Seq::<char>::empty() },
            ),
    {
        self.cell(1, Align::Left, 0, String::new())
    }

    /// An empty cell spanning `span` columns, of no minimum width.
    pub fn empty_span(self, span: u16) -> (r: Self)
        requires
            1 <= span,
        ensures
            r.table_builder == self.table_builder,
            cells_view(r.data@) == cells_view(self.data@).push(
                CellView {
                    span: span as nat,
                    align: Align::Left,
                    width: 0,
                    text: Seq::<char>::empty(),
                },
            ),
    {
        self.cell(span, Align::Left, 0, String::new())
    }

    /// Commit the accumulated cells as one row, in their accumulated
    /// order, and hand the table builder back.
    pub fn build(self) -> (r: TableBuilder)
        ensures
            r.data@ == self.table_builder.data@.push(Row::Cells { data: self.data }),
    {
        let RowBuilder { table_builder, data } = self;
        let mut tb = table_builder;
        tb.data.push(Row::Cells { data });
        tb
    }
}

/// A row handed out by [`Table::rows`]: the cells together with a copy
/// of the table's column widths, or a separator.
#[derive(Clone, Debug)]
pub enum TableRow {
    Cells { data: Vec<Cell>, widths: Vec<u16> },
    Separator,
}

/// The mathematical value of a [`TableRow`].
pub enum TableRowView {
    Cells(Seq<CellView>, Seq<int>),
    Separator,
}

impl View for TableRow {
    type V = TableRowView;

    open spec fn view(&self) -> TableRowView {
        match self {
            TableRow::Cells { data, widths } => TableRowView::Cells(
                cells_view(data@),
                widths_view(widths@),
            ),
            TableRow::Separator => TableRowView::Separator,
        }
    }
}

impl TableRow {
    /// Whether this row holds cells.
    pub fn is_cells(&self) -> (r: bool)
        ensures
            r == (self@ is Cells),
    {
        matches!(self, TableRow::Cells { .. })
    }

    /// Whether this row is a separator rule.
    pub fn is_separator(&self) -> (r: bool)
        ensures
            r == (self@ is Separator),
    {
        matches!(self, TableRow::Separator)
    }
}

/// A copy of a cell, equal to the original.
fn clone_cell(c: &Cell) -> (r: Cell)
    ensures
        r == *c,
{
    Cell { span: c.span, align: c.align, width: c.width, text: c.text.clone() }
}

/// A copy of a cell vector, equal to the original.
fn clone_cells(v: &Vec<Cell>) -> (r: Vec<Cell>)
    ensures
        r@ == v@,
{
    let mut r: Vec<Cell> = Vec::new();
    let mut i: usize = 0;
    while i < v.len()
        invariant
            i <= v@.len(),
            r@ == v@.take(i as int),
        decreases v@.len() - i,
    {
        r.push(clone_cell(&v[i]));
        proof {
            assert(v@.take(i + 1) =~= v@.take(i as int).push(v@[i as int]));
        }
        i = i + 1;
    }
    proof {
        assert(v@.take(v@.len() as int) =~= v@);
    }
    r
}

/// A copy of a width vector, equal to the original.
fn clone_widths(v: &Vec<u16>) -> (r: Vec<u16>)
    ensures
        r@ == v@,
{
    let mut r: Vec<u16> = Vec::new();
    let mut i: usize = 0;
    while i < v.len()
        invariant
            i <= v@.len(),
            r@ == v@.take(i as int),
        decreases v@.len() - i,
    {
        r.push(v[i]);
        proof {
            assert(v@.take(i + 1) =~= v@.take(i as int).push(v@[i as int]));
        }
        i = i + 1;
    }
    proof {
        assert(v@.take(v@.len() as int) =~= v@);
    }
    r
}

impl Table {
    /// The table's rows, each cells row bundled with a copy of the
    /// column widths.
    #[verifier::loop_isolation(false)]
    pub fn rows(&self) -> (r: Vec<TableRow>)
        ensures
            r@.len() == self.data@.len(),
            forall|j: int|
                0 <= j < r@.len() ==> #[trigger] r@[j]@ == (match rows_view(self.data@)[j] {
                    RowView::Cells(cs) => TableRowView::Cells(cs, widths_view(self.widths@)),
                    RowView::Separator => TableRowView::Separator,
                }),
    {
        let mut r: Vec<TableRow> = Vec::new();
        let mut j: usize = 0;
        while j < self.data.len()
            invariant
                j <= self.data@.len(),
                r@.len() == j,
                forall|k: int|
                    0 <= k < j ==> #[trigger] r@[k]@ == (match rows_view(self.data@)[k] {
                        RowView::Cells(cs) => TableRowView::Cells(cs, widths_view(self.widths@)),
                        RowView::Separator => TableRowView::Separator,
                    }),
            decreases self.data@.len() - j,
        {
            proof {
                assert(rows_view(self.data@)[j as int] == self.data@[j as int]@);
            }
            match &self.data[j] {
                Row::Cells { data } => {
                    let cells = clone_cells(data);
                    let widths = clone_widths(&self.widths);
                    r.push(TableRow::Cells { data: cells, widths });
                },
                Row::Separator => {
                    r.push(TableRow::Separator);
                },
            }
            j = j + 1;
        }
        r
    }
}

/// `text` aligned in a field of `width` characters (unchanged if it is
/// already at least that wide): left alignment pads on the right, right
/// alignment on the left, centring splits the padding with the extra
/// space on the right.
pub open spec fn pad_spec(text: Seq<char>, width: int, align: Align) -> Seq<char> {
    if text.len() >= width {
        text
    } else {
        let pad = width - text.len();
        match align {
            Align::Left => text + repeat_char(' ', pad as nat),
            Align::Right => repeat_char(' ', pad as nat) + text,
            Align::Centre => repeat_char(' ', (pad / 2) as nat) + text + repeat_char(
                ' ',
                (pad - pad / 2) as nat,
            ),
        }
    }
}

/// Align `text` in a field of `width` characters.
fn pad_text(text: &String, width: usize, align: Align) -> (r: Vec<char>)
    ensures
        r@ == pad_spec(text@, width as int, align),
{
    let cs = str_chars(text.as_str());
    if cs.len() >= width {
        return cs;
    }
    let pad = width - cs.len();
    let mut out: Vec<char> = Vec::new();
    match align {
        Align::Left => {
            push_range(&mut out, &cs, 0, cs.len());
            push_spaces(&mut out, pad);
        },
        Align::Right => {
            push_spaces(&mut out, pad);
            push_range(&mut out, &cs, 0, cs.len());
        },
        Align::Centre => {
            let l = pad / 2;
            push_spaces(&mut out, l);
            push_range(&mut out, &cs, 0, cs.len());
            push_spaces(&mut out, pad - l);
        },
    }
    proof {
        assert(cs@.subrange(0, cs@.len() as int) =~= cs@);
        assert(out@ =~= pad_spec(text@, width as int, align));
    }
    out
}

/// The text of the first `i` cells: each cell's text aligned to the
/// summed width of its spanned columns, concatenated.
pub open spec fn row_text_prefix(cs: Seq<CellView>, w: Seq<int>, i: int) -> Seq<char>
    decreases i,
{
    if i <= 0 {
        Seq::empty()
    } else {
        row_text_prefix(cs, w, i - 1) + pad_spec(
            cs[i - 1].text,
            range_sum(w, span_prefix(cs, i - 1), span_prefix(cs, i - 1) + cs[i - 1].span),
            cs[i - 1].align,
        )
    }
}

/// The text of a handed-out row: its cells formatted against its
/// widths, or a three-dash marker for a separator.
pub open spec fn row_text_spec(rv: TableRowView) -> Seq<char> {
    match rv {
        TableRowView::Cells(cs, w) => row_text_prefix(cs, w, cs.len() as int),
        TableRowView::Separator => seq!['-', '-', '-'],
    }
}

/// Format one cells row against the column widths.
#[verifier::loop_isolation(false)]
fn row_text(cells: &Vec<Cell>, widths: &Vec<u16>) -> (r: String)
    requires
        span_sum(cells_view(cells@)) <= widths@.len(),
        widths@.len() <= 65535,
    ensures
        r@ == row_text_prefix(cells_view(cells@), widths_view(widths@), cells@.len() as int),
{
    let ghost cs = cells_view(cells@);
    let ghost wv = widths_view(widths@);
    let mut out: Vec<char> = Vec::new();
    let mut start: usize = 0;
    let mut i: usize = 0;
    while i < cells.len()
        invariant
            i <= cells@.len(),
            start as int == span_prefix(cs, i as int),
            out@ == row_text_prefix(cs, wv, i as int),
        decreases cells@.len() - i,
    {
        proof {
            assert(cs[i as int] == cells@[i as int]@);
            lemma_span_prefix_nonneg(cs, i as int);
            lemma_span_prefix_mono(cs, i + 1, cs.len() as int);
            assert(span_prefix(cs, i + 1) == start as int + cs[i as int].span);
            lemma_range_sum_nonneg(wv, start as int, start as int + cs[i as int].span);
        }
        let sp = cells[i].span as usize;
        let end = start + sp;
        let cw = range_sum_exec(widths, start, end);
        let padded = pad_text(&cells[i].text, cw as usize, cells[i].align);
        push_range(&mut out, &padded, 0, padded.len());
        proof {
            assert(padded@.subrange(0, padded@.len() as int) =~= padded@);
            assert(out@ =~= row_text_prefix(cs, wv, i + 1));
        }
        start = end;
        i = i + 1;
    }
    chars_string(&out)
}

impl TableRow {
    /// What formatting asks of a handed-out row: its cells fit the
    /// width vector it carries (true of every row a table hands out).
    pub open spec fn to_text_requires(&self) -> bool {
        match self@ {
            TableRowView::Cells(cs, w) => span_sum(cs) <= w.len() && w.len() <= 65535,
            TableRowView::Separator => true,
        }
    }

    /// The row's text: each cell aligned to the summed width of its
    /// spanned columns.
    pub fn to_text(&self) -> (r: String)
        requires
            self.to_text_requires(),
        ensures
            r@ == row_text_spec(self@),
    {
        match self {
            TableRow::Cells { data, widths } => row_text(data, widths),
            TableRow::Separator => {
                let mut v: Vec<char> = Vec::new();
                v.push('-');
                v.push('-');
                v.push('-');
                let r = chars_string(&v);
                proof {
                    assert(v@ =~= seq!['-', '-', '-']);
                }
                r
            },
        }
    }
}

/// No table within the machine limits has more than `u16::MAX` columns.
proof fn lemma_num_cols_bound(rows: Seq<RowView>, k: int)
    requires
        rows_ok(rows),
        0 <= k <= rows.len(),
    ensures
        num_cols_prefix(rows, k) <= 65535,
    decreases k,
{
    if k > 0 {
        lemma_num_cols_bound(rows, k - 1);
        assert(row_ok(rows[k - 1]));
    }
}

/// A table framed by a box style, rendered as a bordered grid.
pub struct TableBox<'tab> {
    pub box_style: BoxStyle,
    pub table: &'tab Table,
}

impl<'tab> TableBox<'tab> {
    pub fn new(box_style: BoxStyle, table: &'tab Table) -> (r: Self)
        ensures
            r.box_style == box_style,
            r.table == table,
    {
        TableBox { box_style, table }
    }
}

/// The operations one table row emits: a separator rule, or the row's
/// text framed by the interior attribute and double spaces.
pub open spec fn table_row_ops(style: BoxStyle, rv: RowView, w: Seq<int>, fw: nat) -> Seq<Op> {
    match rv {
        RowView::Separator => seq![Op::Text(seq![' '])] + border_ops_parts(
            BorderType::Middle,
            style.surround,
            style.background,
            fw,
        ) + seq![Op::Newline],
        RowView::Cells(cs) => seq![
            Op::Text(seq![' ']),
            Op::PushAttr(text_attr_spec(style)),
            Op::Text(seq![' ', ' ']),
            Op::Text(row_text_prefix(cs, w, cs.len() as int)),
            Op::Text(seq![' ', ' ']),
            Op::PushAttr(attr_default()),
            Op::Newline,
        ],
    }
}

/// The operations of the first `j` table rows, in order.
pub open spec fn table_rows_ops(
    style: BoxStyle,
    rows: Seq<RowView>,
    w: Seq<int>,
    fw: nat,
    j: int,
) -> Seq<Op>
    decreases j,
{
    if j <= 0 {
        Seq::empty()
    } else {
        table_rows_ops(style, rows, w, fw, j - 1) + table_row_ops(style, rows[j - 1], w, fw)
    }
}

/// The operations a boxed table emits: a top rule, each row, a bottom
/// rule, every rule indented by one space and as wide as the table
/// plus four.
pub open spec fn table_box_ops(
    style: BoxStyle,
    rows: Seq<RowView>,
    w: Seq<int>,
    fw: nat,
) -> Seq<Op> {
    seq![Op::Text(seq![' '])] + border_ops_parts(
        BorderType::Top,
        style.surround,
        style.background,
        fw,
    ) + seq![Op::Newline] + table_rows_ops(style, rows, w, fw, rows.len() as int) + seq![
        Op::Text(seq![' ']),
    ] + border_ops_parts(BorderType::Bottom, style.surround, style.background, fw) + seq![
        Op::Newline,
    ]
}

impl<'tab> Printable for TableBox<'tab> {
    open spec fn render_ops(&self, width: nat) -> Seq<Op> {
        table_box_ops(
            self.box_style,
            rows_view(self.table.data@),
            widths_view(self.table.widths@),
            (self.table.width + 4) as nat,
        )
    }

    open spec fn print_requires(&self, width: nat) -> bool {
        self.table.wf()
    }

    #[verifier::loop_isolation(false)]
    fn print<T: Target>(self, target: &mut T) {
        let ghost rv = rows_view(self.table.data@);
        let ghost wv = widths_view(self.table.widths@);
        let ghost base = old(target).ops();
        proof {
            lemma_balanced_widths(rv);
            lemma_num_cols_bound(rv, rv.len() as int);
        }
        let box_style = self.box_style;
        let full_width = self.table.width() as usize + 4;
        let border_box = box_style.with_width(full_width);
        let ghost fw = full_width as nat;
        target.push_str(space_str());
        border_box.top().print(target);
        target.newline();
        let ghost header = seq![Op::Text(seq![' '])] + border_ops_parts(
            BorderType::Top,
            box_style.surround,
            box_style.background,
            fw,
        ) + seq![Op::Newline];
        proof {
            assert(target.ops() =~= base + header);
        }
        let mut j: usize = 0;
        while j < self.table.data.len()
            invariant
                j <= self.table.data@.len(),
                target.width_spec() == old(target).width_spec(),
                target.ops() == base + header + table_rows_ops(box_style, rv, wv, fw, j as int),
            decreases self.table.data@.len() - j,
        {
            proof {
                assert(rv[j as int] == self.table.data@[j as int]@);
                assert(row_ok(rv[j as int]));
                lemma_row_le_num_cols(rv, j as int);
            }
            match &self.table.data[j] {
                Row::Separator => {
                    target.push_str(space_str());
                    border_box.separator().print(target);
                    target.newline();
                    proof {
                        assert(target.ops() =~= base + header + (table_rows_ops(
                            box_style,
                            rv,
                            wv,
                            fw,
                            j as int,
                        ) + table_row_ops(box_style, rv[j as int], wv, fw)));
                    }
                },
                Row::Cells { data } => {
                    let text = row_text(data, &self.table.widths);
                    target.push_str(space_str());
                    target.push_attr(box_style.text_attr());
                    target.push_str(two_spaces_str());
                    target.push_str(text);
                    target.push_str(two_spaces_str());
                    target.push_attr(Attr::default());
                    target.newline();
                    proof {
                        assert(target.ops() =~= base + header + (table_rows_ops(
                            box_style,
                            rv,
                            wv,
                            fw,
                            j as int,
                        ) + table_row_ops(box_style, rv[j as int], wv, fw)));
                    }
                },
            }
            j = j + 1;
        }
        target.push_str(space_str());
        border_box.bottom().print(target);
        target.newline();
        proof {
            assert(target.ops() =~= base + table_box_ops(box_style, rv, wv, fw));
        }
    }
}

} // verus!
