//! Rows of text cells, and the records that can be shown as rows.

use crate::columns::DataTableColumn;
use tui::widgets::Row;
use vstd::prelude::*;
use vstd::string::StrSliceExecFns;

verus! {

/// A row of cells of the terminal backend, `tui::widgets::Row`. Nothing is
/// known of its inside; rows are made and handed on.
#[verifier::external_type_specification]
#[verifier::external_body]
pub struct ExRow<'a>(Row<'a>);

/// The row that the terminal backend makes of cells with these texts.
pub uninterp spec fn row_of(cells: Seq<Seq<char>>) -> Row<'static>;

/// Calls `tui::widgets::Row::new` on the cells. It makes a row of height 1
/// in the default style that holds one cell for each text, in their order;
/// the claim is that the row is a function of the texts alone.
#[verifier::external_body]
pub(crate) fn new_row(cells: Vec<String>) -> (row: Row<'static>)
    ensures
        row == row_of(row_text(cells@)),
{
    Row::new(cells)
}

/// The first `width` characters of `text`; all of it where it is no longer.
pub open spec fn truncated(text: Seq<char>, width: int) -> Seq<char> {
    if text.len() > width {
        text.subrange(0, width)
    } else {
        text
    }
}

/// The texts of the cells of a row.
pub open spec fn row_text(cells: Seq<String>) -> Seq<Seq<char>> {
    Seq::new(cells.len(), |i: int| cells[i]@)
}

/// The header row over the first `upto` columns: the header of each column
/// of non-zero calculated width, cut to that width. A column of width 0 has
/// no cell.
pub open spec fn header_cells(columns: Seq<DataTableColumn>, upto: nat) -> Seq<Seq<char>>
    decreases upto,
{
    if upto == 0 {
        Seq::empty()
    } else {
        let before = header_cells(columns, (upto - 1) as nat);
        let column = columns[upto - 1];
        if column.calculated_width == 0 {
            before
        } else {
            before.push(truncated(column.header@, column.calculated_width as int))
        }
    }
}

/// The row made of `texts` over the first `upto` columns: the text for each
/// column of non-zero calculated width, cut to that width. A column of width
/// 0 has no cell.
pub open spec fn cut_cells(
    texts: Seq<Seq<char>>,
    columns: Seq<DataTableColumn>,
    upto: nat,
) -> Seq<Seq<char>>
    decreases upto,
{
    if upto == 0 {
        Seq::empty()
    } else {
        let before = cut_cells(texts, columns, (upto - 1) as nat);
        let width = columns[upto - 1].calculated_width as int;
        if width == 0 {
            before
        } else {
            before.push(truncated(texts[upto - 1], width))
        }
    }
}

/// A record that can be shown as a row of a table.
pub trait ToDataRow: Sized {
    /// The text of this record under column `column`, when that column is
    /// `width` cells wide, before it is cut to the width.
    spec fn cell(&self, column: int, width: int) -> Seq<char>;

    /// The cells of this record's row: one for each column of non-zero
    /// calculated width, in the columns' order, cut to that width.
    fn row_cells(&self, columns: &[DataTableColumn]) -> (cells: Vec<String>)
        ensures
            row_text(cells@) == cut_cells(
                Seq::new(
                    columns@.len(),
                    |i: int| self.cell(i, columns@[i].calculated_width as int),
                ),
                columns@,
                columns@.len(),
            ),
    ;

    /// Builds the row of this record from its cells.
    fn to_data_row(&self, columns: &[DataTableColumn]) -> (row: Row<'static>)
        ensures
            row == row_of(
                cut_cells(
                    Seq::new(
                        columns@.len(),
                        |i: int| self.cell(i, columns@[i].calculated_width as int),
                    ),
                    columns@,
                    columns@.len(),
                ),
            ),
    ;

    /// Returns the desired column widths in light of having seen data.
    fn column_widths(data: &[Self]) -> (widths: Vec<u16>)
    ;
}

/// Cuts `content` down to its first `width` characters.
pub fn truncate_text(content: &str, width: usize) -> (text: String)
    ensures
        text@ == truncated(content@, width as int),
{
    if content.unicode_len() > width {
        content.substring_char(0, width).to_owned()
    } else {
        content.to_owned()
    }
}

/// The cells of the header row: the header of each column of non-zero
/// calculated width, in the columns' order, cut to that width.
pub fn build_header_cells(columns: &[DataTableColumn]) -> (cells: Vec<String>)
    ensures
        row_text(cells@) == header_cells(columns@, columns@.len()),
{
    let mut cells: Vec<String> = Vec::new();
    let mut i: usize = 0;
    assert(row_text(cells@) =~= Seq::<Seq<char>>::empty());
    while i < columns.len()
        invariant
            i <= columns@.len(),
            row_text(cells@) == header_cells(columns@, i as nat),
        decreases columns@.len() - i,
    {
        let width: u16 = columns[i].calculated_width;
        if width > 0 {
            let cut = truncate_text(columns[i].header.as_str(), width as usize);
            let ghost before = cells@;
            cells.push(cut);
            assert(row_text(cells@) =~= row_text(before).push(
                truncated(columns@[i as int].header@, width as int),
            ));
        }
        i += 1;
    }
    cells
}

/// A text that was cut to a width is no longer than the width.
pub proof fn lemma_truncated_fits(text: Seq<char>, width: int)
    requires
        0 <= width,
    ensures
        truncated(text, width).len() <= width,
        truncated(text, width).len() <= text.len(),
        truncated(text, width) == text.take(truncated(text, width).len() as int),
{
    assert(text.take(text.len() as int) =~= text);
}

/// How many of the first `upto` columns have a calculated width that is not 0.
pub open spec fn shown_count(columns: Seq<DataTableColumn>, upto: nat) -> nat
    decreases upto,
{
    if upto == 0 {
        0
    } else {
        shown_count(columns, (upto - 1) as nat) + if columns[upto - 1].calculated_width == 0 {
            0nat
        } else {
            1nat
        }
    }
}

/// A row has as many cells as there are columns of non-zero width, and so
/// has the header row.
pub proof fn lemma_row_shape(texts: Seq<Seq<char>>, columns: Seq<DataTableColumn>, upto: nat)
    requires
        upto <= columns.len(),
    ensures
        cut_cells(texts, columns, upto).len() == shown_count(columns, upto),
        header_cells(columns, upto).len() == shown_count(columns, upto),
    decreases upto,
{
    if upto > 0 {
        lemma_row_shape(texts, columns, (upto - 1) as nat);
    }
}

} // verus!
