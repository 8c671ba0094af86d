//! Tables, their sort state, and the hit test on their header row.

use crate::columns::DataTableColumn;
use crate::data_type::{build_header_cells, header_cells, new_row, row_of};
use std::ops::Range;
use tui::widgets::Row;
use vstd::prelude::*;

verus! {

/// The direction in which a table is sorted.
#[derive(Clone, Copy, Debug, PartialEq, Eq, Structural)]
pub enum SortOrder {
    Ascending,
    Descending,
}

impl SortOrder {
    /// The other direction.
    pub open spec fn flipped(self) -> SortOrder {
        match self {
            SortOrder::Ascending => SortOrder::Descending,
            SortOrder::Descending => SortOrder::Ascending,
        }
    }
}

impl Default for SortOrder {
    fn default() -> (order: SortOrder)
        ensures
            order == SortOrder::Ascending,
    {
        SortOrder::Ascending
    }
}

/// How a table is displayed.
#[derive(Clone, Debug)]
pub struct DataTableProps {
    /// An optional title for the table.
    pub title: Option<String>,
    /// The size of the gap between the header and the rows.
    pub table_gap: u16,
    /// Whether width is given to the columns from the left or from the right.
    pub left_to_right: bool,
    /// Whether the table is drawn in its basic style.
    pub is_basic: bool,
    /// Whether to show the scroll position in the table.
    pub show_table_scroll_position: bool,
    /// Whether to show the current entry as highlighted when not focused.
    pub show_current_entry_when_unfocused: bool,
}

/// The rectangle that a table's header is drawn in.
#[derive(Clone, Copy, Debug, PartialEq, Eq, Structural)]
pub struct DrawLocation {
    pub x: u16,
    pub y: u16,
    pub width: u16,
    pub height: u16,
}

/// The state of a table that cannot be sorted.
#[derive(Clone, Copy, Debug)]
pub struct Unsortable;

/// What can put the records of a table in the order of one of its columns.
pub trait SortsRow<DataType> {
    /// Sorts `data`: the same records, in ascending or in descending order.
    fn sort_data(&self, data: &mut [DataType], ascending: bool)
        ensures
            final(data)@.to_multiset() == old(data)@.to_multiset(),
    ;
}

/// What is known of one column of a sortable table.
#[derive(Debug)]
pub struct SortColumnInfo {
    /// The cells of the header row that the column occupies.
    pub range: Range<u16>,
    /// A shortcut key, if set.
    pub shortcut: Option<char>,
    /// The order that the table takes when this column is newly selected.
    pub default_order: SortOrder,
}

impl Default for SortColumnInfo {
    fn default() -> (info: SortColumnInfo)
        ensures
            info.range.start == 0,
            info.range.end == 0,
            info.shortcut.is_none(),
            info.default_order == SortOrder::Ascending,
    {
        SortColumnInfo { range: 0..0, shortcut: None, default_order: SortOrder::Ascending }
    }
}

/// The state of a table that can be sorted.
pub struct Sortable {
    /// The line that the header row is drawn on.
    pub y_loc: u16,
    /// The index of the column that the table is sorted by.
    pub sort_index: usize,
    /// The current order.
    pub order: SortOrder,
    /// One entry for each column of the table.
    pub sort_col_info: Vec<SortColumnInfo>,
}

/// Whether a table can be sorted, and how it is sorted if it can.
pub enum SortType {
    Unsortable(Unsortable),
    Sortable(Sortable),
}

impl SortType {
    /// Builds the header row: the header of each column of non-zero
    /// calculated width, in the columns' order, cut to that width. It is the
    /// same row whether the table can be sorted or not.
    pub fn build_header(&self, columns: &[DataTableColumn]) -> (row: Row<'static>)
        ensures
            row == row_of(header_cells(columns@, columns@.len())),
    {
        new_row(build_header_cells(columns))
    }
}

/// A column of a sortable table, as given when the table is made.
pub struct SortDataTableColumn {
    pub inner: DataTableColumn,
    pub shortcut: Option<char>,
    pub default_order: SortOrder,
}

impl SortDataTableColumn {
    /// A column without a shortcut that is sorted ascending by default.
    pub fn new(inner: DataTableColumn) -> (column: Self)
        ensures
            column.inner == inner,
            column.shortcut.is_none(),
            column.default_order == SortOrder::Ascending,
    {
        Self { inner, shortcut: None, default_order: SortOrder::Ascending }
    }

    /// The same column with `shortcut` in place of its shortcut.
    pub fn shortcut(self, shortcut: Option<char>) -> (column: Self)
        ensures
            column.inner == self.inner,
            column.shortcut == shortcut,
            column.default_order == self.default_order,
    {
        Self { inner: self.inner, shortcut, default_order: self.default_order }
    }

    /// The same column with `default_order` in place of its default order.
    pub fn default_order(self, default_order: SortOrder) -> (column: Self)
        ensures
            column.inner == self.inner,
            column.shortcut == self.shortcut,
            column.default_order == default_order,
    {
        Self { inner: self.inner, shortcut: self.shortcut, default_order }
    }
}

/// How a sortable table is displayed and sorted at first.
pub struct SortDataTableProps {
    pub inner: DataTableProps,
    pub sort_index: usize,
    pub order: SortOrder,
}

/// The first cell of column `index` in a header row that starts at `origin`,
/// where each column is followed by one cell of gap.
pub open spec fn header_start(origin: int, widths: Seq<u16>, index: nat) -> int
    decreases index,
{
    if index == 0 {
        origin
    } else {
        header_start(origin, widths, (index - 1) as nat) + widths[index - 1] as int + 1
    }
}

/// The greatest index below `len` of a column that starts at `x` or before
/// it; -1 if there is none.
pub open spec fn last_start_up_to(infos: Seq<SortColumnInfo>, x: int, len: nat) -> int
    decreases len,
{
    if len == 0 {
        -1
    } else if infos[len - 1].range.start as int <= x {
        len - 1
    } else {
        last_start_up_to(infos, x, (len - 1) as nat)
    }
}

/// The column that the cell `x` of the header row belongs to: the last one
/// that starts at `x` or before it, if it also ends after `x`.
pub open spec fn locate(infos: Seq<SortColumnInfo>, x: int) -> Option<int> {
    let index = last_start_up_to(infos, x, infos.len());
    if index >= 0 && x < infos[index].range.end as int {
        Some(index)
    } else {
        None
    }
}

/// Where every column from `from` on starts after `x`, the search below
/// `len` is the search below `from`.
pub proof fn lemma_later_starts_skipped(infos: Seq<SortColumnInfo>, x: int, from: nat, len: nat)
    requires
        from <= len <= infos.len(),
        forall|i: int| from <= i < len ==> infos[i].range.start as int > x,
    ensures
        last_start_up_to(infos, x, len) == last_start_up_to(infos, x, from),
    decreases len,
{
    if len > from {
        lemma_later_starts_skipped(infos, x, from, (len - 1) as nat);
    }
}

impl Sortable {
    /// The ranges are in order: each column ends at or after its start, and
    /// at or before the start of every later one.
    pub open spec fn ranges_sorted(&self) -> bool {
        &&& forall|i: int|
            0 <= i < self.sort_col_info@.len() ==> (#[trigger] self.sort_col_info@[i]).range.start
                <= self.sort_col_info@[i].range.end
        &&& forall|i: int, j: int|
            0 <= i < j < self.sort_col_info@.len() ==> (#[trigger] self.sort_col_info@[i]).range.end
                <= (#[trigger] self.sort_col_info@[j]).range.start
    }

    /// Between each column and the next lies exactly one cell of gap.
    pub open spec fn gap_separated(&self) -> bool {
        forall|i: int|
            0 <= i && i + 1 < self.sort_col_info@.len() ==> (#[trigger] self.sort_col_info@[i
                + 1]).range.start == self.sort_col_info@[i].range.end + 1
    }

    /// The selected column exists and the ranges are in order.
    pub open spec fn wf(&self) -> bool {
        &&& self.sort_index < self.sort_col_info@.len()
        &&& self.ranges_sorted()
    }

    /// The state after the order was toggled.
    pub open spec fn toggled(self) -> Sortable {
        Sortable { order: self.order.flipped(), ..self }
    }

    /// The state after column `index` was chosen: the order flips where it is
    /// the selected column; another column is selected with its own default
    /// order; an index that names no column changes nothing.
    pub open spec fn selected(self, index: int) -> Sortable {
        if index == self.sort_index {
            self.toggled()
        } else if 0 <= index < self.sort_col_info@.len() {
            Sortable {
                sort_index: index as usize,
                order: self.sort_col_info@[index].default_order,
                ..self
            }
        } else {
            self
        }
    }

    /// The column under the cell `(x, y)`, if it lies on the header row and
    /// inside a column.
    pub open spec fn hit(&self, x: u16, y: u16) -> Option<int> {
        if y == self.y_loc {
            locate(self.sort_col_info@, x as int)
        } else {
            None
        }
    }

    /// Whether this is `before` with its header laid out at `draw_loc`:
    /// column `i` starts where `header_start` says and is `row_widths[i]`
    /// cells long, and nothing else differs.
    pub open spec fn located(
        &self,
        before: Sortable,
        draw_loc: DrawLocation,
        row_widths: Seq<u16>,
    ) -> bool {
        &&& self.y_loc == draw_loc.y
        &&& self.sort_index == before.sort_index
        &&& self.order == before.order
        &&& self.sort_col_info@.len() == before.sort_col_info@.len()
        &&& forall|i: int|
            0 <= i < self.sort_col_info@.len() ==> {
                let info = #[trigger] self.sort_col_info@[i];
                &&& info.range.start as int == header_start(draw_loc.x as int, row_widths, i as nat)
                &&& info.range.end as int == info.range.start + row_widths[i]
                &&& info.shortcut == before.sort_col_info@[i].shortcut
                &&& info.default_order == before.sort_col_info@[i].default_order
            }
    }

    /// Toggles the current sort order.
    pub fn toggle_order(&mut self)
        ensures
            *final(self) == old(self).toggled(),
    {
        self.order = match self.order {
            SortOrder::Ascending => SortOrder::Descending,
            SortOrder::Descending => SortOrder::Ascending,
        };
    }

    /// Selects the column at `index`, and sets the order to suit.
    pub fn set_sort_index(&mut self, index: usize)
        ensures
            *final(self) == old(self).selected(index as int),
            old(self).ranges_sorted() ==> final(self).ranges_sorted(),
            old(self).wf() ==> final(self).wf(),
    {
        if self.sort_index == index {
            self.toggle_order();
        } else if index < self.sort_col_info.len() {
            self.sort_index = index;
            self.order = self.sort_col_info[index].default_order;
        }
    }

    /// The column that the cell `needle` of the header row belongs to.
    pub fn get_range(&self, needle: u16) -> (found: Option<usize>)
        requires
            self.ranges_sorted(),
        ensures
            match found {
                Some(index) => index < self.sort_col_info@.len() && locate(
                    self.sort_col_info@,
                    needle as int,
                ) == Some(index as int),
                None => locate(self.sort_col_info@, needle as int).is_none(),
            },
    {
        let mut low: usize = 0;
        let mut high: usize = self.sort_col_info.len();
        while low < high
            invariant
                low <= high <= self.sort_col_info@.len(),
                self.ranges_sorted(),
                forall|i: int| 0 <= i < low ==> self.sort_col_info@[i].range.start <= needle,
                forall|i: int|
                    high <= i < self.sort_col_info@.len() ==> self.sort_col_info@[i].range.start
                        > needle,
            decreases high - low,
        {
            let middle: usize = low + (high - low) / 2;
            if self.sort_col_info[middle].range.start <= needle {
                assert forall|i: int| 0 <= i < middle + 1 implies self.sort_col_info@[i].range.start
                    <= needle by {
                    if i < middle {
                        assert(self.sort_col_info@[i].range.end
                            <= self.sort_col_info@[middle as int].range.start);
                    }
                }
                low = middle + 1;
            } else {
                assert forall|i: int|
                    middle <= i < self.sort_col_info@.len() implies self.sort_col_info@[i].range.start
                    > needle by {
                    if i > middle {
                        assert(self.sort_col_info@[middle as int].range.end
                            <= self.sort_col_info@[i].range.start);
                    }
                }
                high = middle;
            }
        }
        proof {
            lemma_later_starts_skipped(
                self.sort_col_info@,
                needle as int,
                low as nat,
                self.sort_col_info@.len(),
            );
        }
        if low > 0 && needle < self.sort_col_info[low - 1].range.end {
            Some(low - 1)
        } else {
            None
        }
    }

    /// Selects the column under the cell `(x, y)`, if there is one, and
    /// returns the index that is then selected.
    pub fn try_select_location(&mut self, x: u16, y: u16) -> (chosen: Option<usize>)
        requires
            old(self).ranges_sorted(),
        ensures
            final(self).ranges_sorted(),
            old(self).wf() ==> final(self).wf(),
            match old(self).hit(x, y) {
                Some(index) => {
                    &&& *final(self) == old(self).selected(index)
                    &&& chosen.is_some()
                    &&& chosen.unwrap() as int == index
                },
                None => *final(self) == *old(self) && chosen.is_none(),
            },
    {
        if self.y_loc == y {
            match self.get_range(x) {
                Some(index) => {
                    self.set_sort_index(index);
                    Some(self.sort_index)
                },
                None => None,
            }
        } else {
            None
        }
    }

    /// Lays the columns' ranges out from the left edge of `draw_loc`, each
    /// as wide as `row_widths` says and followed by one cell of gap, and
    /// takes the header's line from `draw_loc`.
    pub fn update_header_locations(&mut self, draw_loc: DrawLocation, row_widths: &[u16])
        requires
            row_widths@.len() == old(self).sort_col_info@.len(),
            header_start(draw_loc.x as int, row_widths@, row_widths@.len()) <= u16::MAX + 1,
        ensures
            final(self).located(*old(self), draw_loc, row_widths@),
            final(self).ranges_sorted(),
            final(self).gap_separated(),
            old(self).wf() ==> final(self).wf(),
    {
        let n = row_widths.len();
        let ghost origin = draw_loc.x as int;
        let ghost before = self.sort_col_info@;
        let mut start: u16 = draw_loc.x;
        let mut i: usize = 0;
        while i < n
            invariant
                n == row_widths@.len(),
                self.sort_col_info@.len() == n,
                origin == draw_loc.x as int,
                i <= n,
                self.y_loc == old(self).y_loc,
                self.sort_index == old(self).sort_index,
                self.order == old(self).order,
                before == old(self).sort_col_info@,
                before.len() == n,
                header_start(origin, row_widths@, n as nat) <= u16::MAX + 1,
                i < n ==> start as int == header_start(origin, row_widths@, i as nat),
                forall|k: int|
                    0 <= k < i ==> {
                        let info = #[trigger] self.sort_col_info@[k];
                        &&& info.range.start as int == header_start(origin, row_widths@, k as nat)
                        &&& info.range.end as int == info.range.start + row_widths@[k]
                    },
                forall|k: int|
                    0 <= k < n ==> {
                        let info = #[trigger] self.sort_col_info@[k];
                        &&& info.shortcut == before[k].shortcut
                        &&& info.default_order == before[k].default_order
                    },
            decreases n - i,
        {
            proof {
                lemma_header_start_increases(origin, row_widths@, (i + 1) as nat, n as nat);
                if i + 1 < n {
                    lemma_header_start_increases(origin, row_widths@, (i + 2) as nat, n as nat);
                }
            }
            let end: u16 = start + row_widths[i];
            self.sort_col_info[i].range = start..end;
            if i + 1 < n {
                start = end + 1;
            }
            i += 1;
        }
        self.y_loc = draw_loc.y;
        proof {
            assert forall|k: int| 0 <= k && k + 1 < n implies (#[trigger] self.sort_col_info@[k
                + 1]).range.start == self.sort_col_info@[k].range.end + 1 by {
                assert(self.sort_col_info@[k].range.start as int == header_start(
                    origin,
                    row_widths@,
                    k as nat,
                ));
            }
            assert forall|a: int, b: int| 0 <= a < b < n implies (#[trigger] self.sort_col_info@[a])
                .range.end <= (#[trigger] self.sort_col_info@[b]).range.start by {
                lemma_header_start_increases(origin, row_widths@, (a + 1) as nat, b as nat);
            }
        }
    }
}

/// Choosing the selected column twice brings the first state back.
pub proof fn lemma_select_twice_restores(state: Sortable)
    ensures
        state.selected(state.sort_index as int).selected(state.sort_index as int) == state,
{
}

/// Choosing another column selects it with that column's own default order,
/// whatever the order was before.
pub proof fn lemma_select_other_takes_default(state: Sortable, index: int)
    requires
        0 <= index < state.sort_col_info@.len(),
        index != state.sort_index,
    ensures
        state.selected(index).sort_index == index,
        state.selected(index).order == state.sort_col_info@[index].default_order,
        state.selected(index).sort_col_info == state.sort_col_info,
        state.selected(index).y_loc == state.y_loc,
{
    assert(state.sort_col_info.len() == state.sort_col_info@.len());
}

/// Choosing an index that names no column changes nothing.
pub proof fn lemma_select_invalid_keeps(state: Sortable, index: int)
    requires
        state.wf(),
        index < 0 || index >= state.sort_col_info@.len(),
    ensures
        state.selected(index) == state,
{
}

/// With the ranges in order, a cell lies in column `index` exactly if the
/// hit test finds that column for it: a cell in a gap finds none.
pub proof fn lemma_locate_finds_range(state: Sortable, x: int, index: int)
    requires
        state.ranges_sorted(),
        0 <= index < state.sort_col_info@.len(),
    ensures
        locate(state.sort_col_info@, x) == Some(index) <==> state.sort_col_info@[index].range.start
            <= x < state.sort_col_info@[index].range.end,
{
    let infos = state.sort_col_info@;
    let found = last_start_up_to(infos, x, infos.len());
    lemma_last_start_bounds(infos, x, infos.len());
    if infos[index].range.start <= x < infos[index].range.end {
        assert forall|i: int| index + 1 <= i < infos.len() implies infos[i].range.start as int
            > x by {
            assert(infos[index].range.end <= infos[i].range.start);
        }
        lemma_later_starts_skipped(infos, x, (index + 1) as nat, infos.len());
    }
}

/// With the ranges in order and one cell of gap between neighbours, the
/// cell behind a column belongs to no column.
pub proof fn lemma_gap_cell_misses(state: Sortable, index: int)
    requires
        state.ranges_sorted(),
        state.gap_separated(),
        0 <= index < state.sort_col_info@.len(),
    ensures
        locate(state.sort_col_info@, state.sort_col_info@[index].range.end as int).is_none(),
{
    let infos = state.sort_col_info@;
    let x = infos[index].range.end as int;
    assert forall|i: int| index + 1 <= i < infos.len() implies infos[i].range.start as int
        > x by {
        assert(infos[index + 1].range.start == infos[index].range.end + 1);
        if i > index + 1 {
            assert(infos[index + 1].range.end <= infos[i].range.start);
        }
    }
    lemma_later_starts_skipped(infos, x, (index + 1) as nat, infos.len());
}

/// The search finds a column that starts at `x` or before it, or -1.
pub proof fn lemma_last_start_bounds(infos: Seq<SortColumnInfo>, x: int, len: nat)
    requires
        len <= infos.len(),
    ensures
        -1 <= last_start_up_to(infos, x, len) < len,
        last_start_up_to(infos, x, len) >= 0 ==> infos[last_start_up_to(
            infos,
            x,
            len,
        )].range.start as int <= x,
    decreases len,
{
    if len > 0 {
        lemma_last_start_bounds(infos, x, (len - 1) as nat);
    }
}

/// The columns' first cells go up along the row.
pub proof fn lemma_header_start_increases(origin: int, widths: Seq<u16>, earlier: nat, later: nat)
    requires
        earlier <= later,
    ensures
        header_start(origin, widths, earlier) <= header_start(origin, widths, later),
    decreases later,
{
    if earlier < later {
        lemma_header_start_increases(origin, widths, earlier, (later - 1) as nat);
    }
}

} // verus!
