//! Result rows as the router and shard handle them: column names and
//! cell values already rendered as text. Rows print with ` | `
//! between cells; a merged fan-out response separates its rows with
//! the NUL character and rewrites the `id` column by a per-shard
//! offset.

use vstd::prelude::*;
use crate::chars::{str_to_chars, chars_to_string, chars_eq, append_chars};
use crate::numbers::{int_chars, parse_i64, parse_i64_chars, i64_to_chars};
use crate::common::ConvertToString;

verus! {

/// One result row: the column names and the rendered cell values.
pub struct RowData {
    pub columns: Vec<String>,
    pub values: Vec<String>,
}

/// Mathematical model of a row.
#[verifier::ext_equal]
pub struct RowView {
    pub columns: Seq<Seq<char>>,
    pub values: Seq<Seq<char>>,
}

/// The strings of a vector, as character sequences.
pub open spec fn strs_view(v: Seq<String>) -> Seq<Seq<char>> {
    v.map_values(|s: String| s@)
}

impl View for RowData {
    type V = RowView;

    open spec fn view(&self) -> RowView {
        RowView { columns: strs_view(self.columns@), values: strs_view(self.values@) }
    }
}

/// The rows of a vector, as row models.
pub open spec fn rows_view(v: Seq<RowData>) -> Seq<RowView> {
    v.map_values(|r: RowData| r@)
}

/// The cell under column `i`: its value, or empty when the row is
/// short.
pub open spec fn cell_at(r: RowView, i: int) -> Seq<char> {
    if 0 <= i < r.values.len() {
        r.values[i]
    } else {
        Seq::<char>::empty()
    }
}

/// A row's text from column `i` on: every cell followed by ` | `.
pub open spec fn row_chars_from(r: RowView, i: int) -> Seq<char>
    decreases r.columns.len() - i when 0 <= i
{
    if i >= r.columns.len() {
        Seq::<char>::empty()
    } else {
        cell_at(r, i) + " | "@ + row_chars_from(r, i + 1)
    }
}

/// A row's full text.
pub open spec fn row_chars(r: RowView) -> Seq<char> {
    row_chars_from(r, 0)
}

/// The cell under column `i` with the id offset applied: an `id`
/// column's value is reprinted with `off` added; any other cell is
/// unchanged.
pub open spec fn offset_cell(r: RowView, i: int, off: int) -> Seq<char> {
    if r.columns[i] == "id"@ {
        int_chars(parse_i64(cell_at(r, i))->0 + off)
    } else {
        cell_at(r, i)
    }
}

/// The offset can be applied to the row: every `id` cell reads as an
/// integer and the sum stays within the id type.
pub open spec fn row_off_ok(r: RowView, off: int) -> bool {
    forall|i: int|
        0 <= i < r.columns.len() && r.columns[i] == "id"@ ==> parse_i64(#[trigger] cell_at(r, i))
            is Some && i64::MIN <= parse_i64(cell_at(r, i))->0 + off <= i64::MAX
}

/// A row's text with the offset applied to its `id` cells.
pub open spec fn row_off_chars_from(r: RowView, off: int, i: int) -> Seq<char>
    decreases r.columns.len() - i when 0 <= i
{
    if i >= r.columns.len() {
        Seq::<char>::empty()
    } else {
        offset_cell(r, i, off) + " | "@ + row_off_chars_from(r, off, i + 1)
    }
}

pub open spec fn row_off_chars(r: RowView, off: int) -> Seq<char> {
    row_off_chars_from(r, off, 0)
}

impl RowData {
    fn to_chars_from(&self, i: usize) -> (v: Vec<char>)
        requires
            i <= self@.columns.len(),
        ensures
            v@ == row_chars_from(self@, i as int),
        decreases self@.columns.len() - i,
    {
        if i == self.columns.len() {
            Vec::new()
        } else {
            let mut out = str_to_chars(self.values_cell(i).as_str());
            let sep = str_to_chars(" | ");
            append_chars(&mut out, &sep);
            let rest = self.to_chars_from(i + 1);
            append_chars(&mut out, &rest);
            out
        }
    }

    /// The value under column `i`, or an empty string when the row
    /// is short.
    fn values_cell(&self, i: usize) -> (r: String)
        ensures
            r@ == cell_at(self@, i as int),
    {
        if i < self.values.len() {
            self.values[i].clone()
        } else {
            String::new()
        }
    }

    /// The row's text: every cell followed by ` | `.
    pub fn convert_to_string(&self) -> (r: String)
        ensures
            r@ == row_chars(self@),
    {
        let v = self.to_chars_from(0);
        chars_to_string(&v)
    }

    fn off_chars_from(&self, offset: i64, i: usize) -> (v: Vec<char>)
        requires
            i <= self@.columns.len(),
            row_off_ok(self@, offset as int),
        ensures
            v@ == row_off_chars_from(self@, offset as int, i as int),
        decreases self@.columns.len() - i,
    {
        if i == self.columns.len() {
            Vec::new()
        } else {
            let col = str_to_chars(self.columns[i].as_str());
            let idlit = str_to_chars("id");
            let mut out: Vec<char>;
            if chars_eq(&col, &idlit) {
                proof {
                    assert(self@.columns[i as int] == "id"@);
                }
                let cell = self.values_cell(i);
                let cv = str_to_chars(cell.as_str());
                proof {
                    assert(cv@ == cell_at(self@, i as int));
                }
                let val = parse_i64_chars(&cv).unwrap();
                out = i64_to_chars(val + offset);
            } else {
                out = str_to_chars(self.values_cell(i).as_str());
            }
            let sep = str_to_chars(" | ");
            append_chars(&mut out, &sep);
            let rest = self.off_chars_from(offset, i + 1);
            append_chars(&mut out, &rest);
            out
        }
    }

    /// The row's text with `offset` added to each `id` cell.
    pub fn convert_to_string_with_offset(&self, offset: i64) -> (r: String)
        requires
            row_off_ok(self@, offset as int),
        ensures
            r@ == row_off_chars(self@, offset as int),
    {
        let v = self.off_chars_from(offset, 0);
        chars_to_string(&v)
    }
}

impl ConvertToString for RowData {
    fn convert_to_string(&self) -> String {
        RowData::convert_to_string(self)
    }
}

/// Header text: every column name followed by ` | `.
pub open spec fn header_chars_from(cols: Seq<Seq<char>>, i: int) -> Seq<char>
    decreases cols.len() - i when 0 <= i
{
    if i >= cols.len() {
        Seq::<char>::empty()
    } else {
        cols[i] + " | "@ + header_chars_from(cols, i + 1)
    }
}

pub open spec fn header_chars(cols: Seq<Seq<char>>) -> Seq<char> {
    header_chars_from(cols, 0)
}

fn column_names_chars_from(columns: &Vec<String>, i: usize) -> (v: Vec<char>)
    requires
        i <= columns@.len(),
    ensures
        v@ == header_chars_from(strs_view(columns@), i as int),
    decreases columns@.len() - i,
{
    if i == columns.len() {
        Vec::new()
    } else {
        let mut out = str_to_chars(columns[i].as_str());
        let sep = str_to_chars(" | ");
        append_chars(&mut out, &sep);
        let rest = column_names_chars_from(columns, i + 1);
        append_chars(&mut out, &rest);
        out
    }
}

/// The header row: column names separated by ` | `.
pub fn get_column_names(columns: &Vec<String>) -> (r: String)
    ensures
        r@ == header_chars(strs_view(columns@)),
{
    let v = column_names_chars_from(columns, 0);
    chars_to_string(&v)
}

/// A block of rows from `i` on: each row's text followed by a line
/// break.
pub open spec fn rows_block_from(rows: Seq<RowView>, i: int) -> Seq<char>
    decreases rows.len() - i when 0 <= i
{
    if i >= rows.len() {
        Seq::<char>::empty()
    } else {
        row_chars(rows[i]) + seq!['\n'] + rows_block_from(rows, i + 1)
    }
}

/// Plain text of a result set: the first row's column names, then
/// one line per row; empty when there are no rows.
pub open spec fn spec_rows_text(rows: Seq<RowView>) -> Seq<char> {
    if rows.len() == 0 {
        Seq::<char>::empty()
    } else {
        header_chars(rows[0].columns) + seq!['\n'] + rows_block_from(rows, 0)
    }
}

fn rows_block_exec(rows: &Vec<RowData>, i: usize) -> (v: Vec<char>)
    requires
        i <= rows@.len(),
    ensures
        v@ == rows_block_from(rows_view(rows@), i as int),
    decreases rows@.len() - i,
{
    if i == rows.len() {
        Vec::new()
    } else {
        let s = rows[i].convert_to_string();
        let mut out = str_to_chars(s.as_str());
        out.push('\n');
        let rest = rows_block_exec(rows, i + 1);
        append_chars(&mut out, &rest);
        out
    }
}

/// Plain text of a result set, per [`spec_rows_text`].
pub fn rows_convert_to_string(rows: &Vec<RowData>) -> (r: String)
    ensures
        r@ == spec_rows_text(rows_view(rows@)),
{
    if rows.len() == 0 {
        return String::new();
    }
    let mut out = column_names_chars_from(&rows[0].columns, 0);
    out.push('\n');
    let rest = rows_block_exec(rows, 0);
    append_chars(&mut out, &rest);
    chars_to_string(&out)
}

impl ConvertToString for Vec<RowData> {
    fn convert_to_string(&self) -> String {
        rows_convert_to_string(self)
    }
}

/// The rows of one shard, each with the offset applied and followed
/// by the NUL separator.
pub open spec fn group_chars_from(rows: Seq<RowView>, off: int, i: int) -> Seq<char>
    decreases rows.len() - i when 0 <= i
{
    if i >= rows.len() {
        Seq::<char>::empty()
    } else {
        row_off_chars(rows[i], off) + seq!['\0'] + group_chars_from(rows, off, i + 1)
    }
}

/// The groups' rows from group `k` on.
pub open spec fn groups_chars_from(groups: Seq<(Seq<RowView>, int)>, k: int) -> Seq<char>
    decreases groups.len() - k when 0 <= k
{
    if k >= groups.len() {
        Seq::<char>::empty()
    } else {
        group_chars_from(groups[k].0, groups[k].1, 0) + groups_chars_from(groups, k + 1)
    }
}

/// The merged fan-out response: the first group's first row gives the
/// header, then every group's rows in order, ids offset by the
/// group's offset, NUL-separated throughout.
pub open spec fn spec_format_rows(groups: Seq<(Seq<RowView>, int)>) -> Seq<char> {
    header_chars(groups[0].0[0].columns) + seq!['\0'] + groups_chars_from(groups, 0)
}

/// The groups as values.
pub open spec fn groups_view(g: Seq<(Vec<RowData>, i64)>) -> Seq<(Seq<RowView>, int)> {
    g.map_values(|e: (Vec<RowData>, i64)| (rows_view(e.0@), e.1 as int))
}

/// Every offset can be applied to every row of its group.
pub open spec fn groups_off_ok(groups: Seq<(Seq<RowView>, int)>) -> bool {
    forall|k: int, i: int|
        0 <= k < groups.len() && 0 <= i < groups[k].0.len() ==> #[trigger] row_off_ok(
            groups[k].0[i],
            groups[k].1,
        )
}

fn group_chars_exec(rows: &Vec<RowData>, off: i64, i: usize) -> (v: Vec<char>)
    requires
        i <= rows@.len(),
        forall|j: int|
            0 <= j < rows@.len() ==> #[trigger] row_off_ok(rows_view(rows@)[j], off as int),
    ensures
        v@ == group_chars_from(rows_view(rows@), off as int, i as int),
    decreases rows@.len() - i,
{
    if i == rows.len() {
        Vec::new()
    } else {
        proof {
            assert(row_off_ok(rows_view(rows@)[i as int], off as int));
            assert(rows_view(rows@)[i as int] == rows@[i as int]@);
        }
        let s = rows[i].convert_to_string_with_offset(off);
        let mut out = str_to_chars(s.as_str());
        out.push('\0');
        let rest = group_chars_exec(rows, off, i + 1);
        append_chars(&mut out, &rest);
        out
    }
}

fn groups_chars_exec(groups: &Vec<(Vec<RowData>, i64)>, k: usize) -> (v: Vec<char>)
    requires
        k <= groups@.len(),
        groups_off_ok(groups_view(groups@)),
    ensures
        v@ == groups_chars_from(groups_view(groups@), k as int),
    decreases groups@.len() - k,
{
    if k == groups.len() {
        Vec::new()
    } else {
        proof {
            let gv = groups_view(groups@);
            assert forall|j: int|
                0 <= j < groups@[k as int].0@.len() implies #[trigger] row_off_ok(
                rows_view(groups@[k as int].0@)[j],
                groups@[k as int].1 as int,
            ) by {
                assert(row_off_ok(gv[k as int].0[j], gv[k as int].1));
            }
        }
        let mut out = group_chars_exec(&groups[k].0, groups[k].1, 0);
        let rest = groups_chars_exec(groups, k + 1);
        append_chars(&mut out, &rest);
        out
    }
}

/// The merged fan-out response, per [`spec_format_rows`]: a header
/// row, then every shard's rows with that shard's id offset applied,
/// all NUL-separated.
pub fn format_rows_with_offset(rows_offset: Vec<(Vec<RowData>, i64)>) -> (r: String)
    requires
        rows_offset@.len() > 0,
        rows_offset@[0].0@.len() > 0,
        groups_off_ok(groups_view(rows_offset@)),
    ensures
        r@ == spec_format_rows(groups_view(rows_offset@)),
{
    let mut out = column_names_chars_from(&rows_offset[0].0[0].columns, 0);
    out.push('\0');
    let rest = groups_chars_exec(&rows_offset, 0);
    append_chars(&mut out, &rest);
    chars_to_string(&out)
}

/// Occurrences of `c` in `s`.
pub open spec fn count_char(s: Seq<char>, c: char) -> int
    decreases s.len(),
{
    if s.len() == 0 {
        0
    } else {
        count_char(s.drop_last(), c) + if s.last() == c {
            1int
        } else {
            0int
        }
    }
}

pub proof fn lemma_count_concat(a: Seq<char>, b: Seq<char>, c: char)
    ensures
        count_char(a + b, c) == count_char(a, c) + count_char(b, c),
    decreases b.len(),
{
    if b.len() == 0 {
        assert(a + b =~= a);
    } else {
        assert((a + b).drop_last() =~= a + b.drop_last());
        lemma_count_concat(a, b.drop_last(), c);
    }
}

/// Free of the NUL separator.
pub open spec fn nul_free(s: Seq<char>) -> bool {
    forall|j: int| 0 <= j < s.len() ==> s[j] != '\0'
}

pub proof fn lemma_count_nul_free(s: Seq<char>)
    requires
        nul_free(s),
    ensures
        count_char(s, '\0') == 0,
    decreases s.len(),
{
    if s.len() > 0 {
        assert(nul_free(s.drop_last()));
        lemma_count_nul_free(s.drop_last());
    }
}

/// No cell or column name of the row holds the NUL separator.
pub open spec fn row_nul_free(r: RowView) -> bool {
    &&& forall|i: int| 0 <= i < r.columns.len() ==> nul_free(#[trigger] r.columns[i])
    &&& forall|i: int| 0 <= i < r.values.len() ==> nul_free(#[trigger] r.values[i])
}

/// A row printed with an offset holds no NUL separator: cells are
/// NUL-free and rewritten ids print as digits.
pub proof fn lemma_row_off_nul_free(r: RowView, off: int, i: int)
    requires
        row_nul_free(r),
        0 <= i,
    ensures
        nul_free(row_off_chars_from(r, off, i)),
    decreases r.columns.len() - i,
{
    reveal_strlit(" | ");
    if i < r.columns.len() {
        lemma_row_off_nul_free(r, off, i + 1);
        assert(nul_free(offset_cell(r, i, off))) by {
            if r.columns[i] == "id"@ {
                crate::tables_id_info::lemma_int_chars_class(parse_i64(cell_at(r, i))->0 + off);
            }
        }
        assert(nul_free(" | "@));
    }
}

/// The header row holds no NUL separator.
pub proof fn lemma_header_nul_free(cols: Seq<Seq<char>>, i: int)
    requires
        forall|j: int| 0 <= j < cols.len() ==> nul_free(#[trigger] cols[j]),
        0 <= i,
    ensures
        nul_free(header_chars_from(cols, i)),
    decreases cols.len() - i,
{
    reveal_strlit(" | ");
    if i < cols.len() {
        lemma_header_nul_free(cols, i + 1);
        assert(nul_free(" | "@));
    }
}

/// One shard's block holds one NUL per row.
pub proof fn lemma_group_count(rows: Seq<RowView>, off: int, i: int)
    requires
        forall|j: int| 0 <= j < rows.len() ==> row_nul_free(#[trigger] rows[j]),
        0 <= i <= rows.len(),
    ensures
        count_char(group_chars_from(rows, off, i), '\0') == rows.len() - i,
    decreases rows.len() - i,
{
    if i < rows.len() {
        lemma_group_count(rows, off, i + 1);
        lemma_row_off_nul_free(rows[i], off, 0);
        lemma_count_nul_free(row_off_chars(rows[i], off));
        let whole = row_off_chars(rows[i], off) + seq!['\0'] + group_chars_from(rows, off, i + 1);
        lemma_count_concat(row_off_chars(rows[i], off) + seq!['\0'], group_chars_from(rows, off, i + 1), '\0');
        lemma_count_concat(row_off_chars(rows[i], off), seq!['\0'], '\0');
        assert(count_char(seq!['\0'], '\0') == 1) by {
            assert(seq!['\0'].drop_last() =~= Seq::<char>::empty());
            assert(count_char(Seq::<char>::empty(), '\0') == 0);
        }
    }
}

/// The sum of the groups' row counts from group `k` on.
pub open spec fn total_rows_from(groups: Seq<(Seq<RowView>, int)>, k: int) -> int
    decreases groups.len() - k when 0 <= k
{
    if k >= groups.len() {
        0
    } else {
        groups[k].0.len() + total_rows_from(groups, k + 1)
    }
}

/// Every row of every group is NUL-free.
pub open spec fn groups_nul_free(groups: Seq<(Seq<RowView>, int)>) -> bool {
    forall|k: int, i: int|
        0 <= k < groups.len() && 0 <= i < groups[k].0.len() ==> row_nul_free(
            #[trigger] groups[k].0[i],
        )
}

proof fn lemma_groups_count(groups: Seq<(Seq<RowView>, int)>, k: int)
    requires
        groups_nul_free(groups),
        0 <= k <= groups.len(),
    ensures
        count_char(groups_chars_from(groups, k), '\0') == total_rows_from(groups, k),
    decreases groups.len() - k,
{
    if k < groups.len() {
        lemma_groups_count(groups, k + 1);
        assert(forall|j: int|
            0 <= j < groups[k].0.len() ==> row_nul_free(#[trigger] groups[k].0[j]));
        lemma_group_count(groups[k].0, groups[k].1, 0);
        lemma_count_concat(
            group_chars_from(groups[k].0, groups[k].1, 0),
            groups_chars_from(groups, k + 1),
            '\0',
        );
    }
}

/// A merged fan-out response holds exactly one NUL-terminated row per
/// source row, plus the header: over any shards whose groups hold
/// NUL-free text, the separators count one more than the sum of the
/// groups' row counts.
pub proof fn lemma_merged_row_count(groups: Seq<(Seq<RowView>, int)>)
    requires
        groups.len() > 0,
        groups[0].0.len() > 0,
        groups_nul_free(groups),
    ensures
        count_char(spec_format_rows(groups), '\0') == 1 + total_rows_from(groups, 0),
{
    assert(row_nul_free(groups[0].0[0]));
    lemma_header_nul_free(groups[0].0[0].columns, 0);
    lemma_count_nul_free(header_chars(groups[0].0[0].columns));
    lemma_groups_count(groups, 0);
    let h = header_chars(groups[0].0[0].columns);
    lemma_count_concat(h + seq!['\0'], groups_chars_from(groups, 0), '\0');
    lemma_count_concat(h, seq!['\0'], '\0');
    assert(count_char(seq!['\0'], '\0') == 1) by {
        assert(seq!['\0'].drop_last() =~= Seq::<char>::empty());
        assert(count_char(Seq::<char>::empty(), '\0') == 0);
    }
}

} // verus!
