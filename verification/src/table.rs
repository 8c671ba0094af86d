//! The table itself: its columns, how it is displayed, and its sort state.

use crate::columns::{
    allocated_width, allocation, as_ints, lemma_allocation_of_alike, CalculateColumnWidth,
    ColumnWidthBounds, DataTableColumn,
};
use crate::data_type::{header_cells, row_of};
use crate::sort::{
    DataTableProps, DrawLocation, SortColumnInfo, SortDataTableColumn, SortDataTableProps,
    SortType, Sortable, Unsortable,
};
use crate::sort::{header_start, locate};
use tui::widgets::Row;
use vstd::prelude::*;

verus! {

/// A table of columns, sortable or not.
pub struct DataTable {
    /// The columns, in the order in which they are drawn.
    pub columns: Vec<DataTableColumn>,
    /// How the table is displayed.
    pub props: DataTableProps,
    /// Whether the table can be sorted, and how it is sorted if it can.
    pub sort_type: SortType,
}

impl DataTable {
    /// A sortable table has one entry of sort information for each column,
    /// selects one of its columns, and keeps the columns' ranges in order.
    pub open spec fn wf(&self) -> bool {
        match self.sort_type {
            SortType::Unsortable(_) => true,
            SortType::Sortable(state) => state.wf() && state.sort_col_info@.len()
                == self.columns@.len(),
        }
    }

    /// The ranges of a sortable table's columns are in order.
    pub open spec fn ranges_sorted(&self) -> bool {
        match self.sort_type {
            SortType::Unsortable(_) => true,
            SortType::Sortable(state) => state.ranges_sorted(),
        }
    }

    /// The table after its order was toggled; one that cannot be sorted
    /// stays as it is.
    pub open spec fn toggled(self) -> DataTable {
        match self.sort_type {
            SortType::Unsortable(_) => self,
            SortType::Sortable(state) => DataTable {
                sort_type: SortType::Sortable(state.toggled()),
                ..self
            },
        }
    }

    /// The table after column `index` was chosen; one that cannot be sorted
    /// stays as it is.
    pub open spec fn selected(self, index: int) -> DataTable {
        match self.sort_type {
            SortType::Unsortable(_) => self,
            SortType::Sortable(state) => DataTable {
                sort_type: SortType::Sortable(state.selected(index)),
                ..self
            },
        }
    }

    /// The column under the cell `(x, y)`, if the table can be sorted and
    /// the cell lies in a column of its header row.
    pub open spec fn hit(&self, x: u16, y: u16) -> Option<int> {
        match self.sort_type {
            SortType::Unsortable(_) => None,
            SortType::Sortable(state) => state.hit(x, y),
        }
    }

    /// A table that cannot be sorted.
    pub fn new(columns: Vec<DataTableColumn>, props: DataTableProps) -> (table: Self)
        ensures
            table.columns == columns,
            table.props == props,
            table.sort_type is Unsortable,
            table.wf(),
    {
        Self { columns, props, sort_type: SortType::Unsortable(Unsortable) }
    }

    /// Builds the header row: the header of each column of non-zero
    /// calculated width, in the columns' order, cut to that width.
    pub fn build_header(&self) -> (row: Row<'static>)
        ensures
            row == row_of(header_cells(self.columns@, self.columns@.len())),
    {
        self.sort_type.build_header(self.columns.as_slice())
    }

    /// Lays the columns out in `total_width`, in the direction that the
    /// table's properties give, and records each column's width in it.
    pub fn update_calculated_widths(&mut self, total_width: u16)
        ensures
            final(self).props == old(self).props,
            final(self).sort_type == old(self).sort_type,
            final(self).columns@.len() == old(self).columns@.len(),
            forall|i: int|
                0 <= i < old(self).columns@.len() ==> {
                    let column = #[trigger] final(self).columns@[i];
                    &&& column.calculated_width as int == allocated_width(
                        old(self).columns@,
                        total_width as int,
                        old(self).props.left_to_right,
                        i,
                    )
                    &&& column.header == old(self).columns@[i].header
                    &&& column.width_bounds == old(self).columns@[i].width_bounds
                    &&& column.is_hidden == old(self).columns@[i].is_hidden
                    &&& column.is_hidden ==> column.calculated_width == 0
                },
            allocation(final(self).columns@, total_width as int, final(self).props.left_to_right)
                == allocation(
                old(self).columns@,
                total_width as int,
                old(self).props.left_to_right,
            ),
            old(self).wf() ==> final(self).wf(),
    {
        let widths = self.columns.as_slice().calculate_column_widths(
            total_width,
            self.props.left_to_right,
        );
        let n = self.columns.len();
        let mut i: usize = 0;
        while i < n
            invariant
                n == old(self).columns@.len(),
                self.columns@.len() == n,
                widths@.len() == n,
                i <= n,
                self.props == old(self).props,
                self.sort_type == old(self).sort_type,
                forall|k: int|
                    0 <= k < n ==> {
                        let column = #[trigger] self.columns@[k];
                        &&& column.header == old(self).columns@[k].header
                        &&& column.width_bounds == old(self).columns@[k].width_bounds
                        &&& column.is_hidden == old(self).columns@[k].is_hidden
                        &&& k < i ==> column.calculated_width == widths@[k]
                    },
            decreases n - i,
        {
            self.columns[i].calculated_width = widths[i];
            i += 1;
        }
        assert forall|k: int| 0 <= k < n implies widths@[k] as int == allocated_width(
            old(self).columns@,
            total_width as int,
            old(self).props.left_to_right,
            k,
        ) by {
            assert(as_ints(widths@)[k] == widths@[k] as int);
        }
        proof {
            lemma_allocation_of_alike(
                old(self).columns@,
                self.columns@,
                total_width as int,
                self.props.left_to_right,
            );
        }
    }

    /// Takes the widths that the data asks for as the desired widths of the
    /// soft columns, column by column, as far as both go. Hard columns keep
    /// their width.
    pub fn set_desired_widths(&mut self, desired_widths: &[u16])
        ensures
            final(self).props == old(self).props,
            final(self).sort_type == old(self).sort_type,
            final(self).columns@.len() == old(self).columns@.len(),
            forall|i: int|
                0 <= i < old(self).columns@.len() ==> {
                    let before = old(self).columns@[i];
                    let column = #[trigger] final(self).columns@[i];
                    &&& column.header == before.header
                    &&& column.is_hidden == before.is_hidden
                    &&& column.calculated_width == before.calculated_width
                    &&& column.width_bounds == match before.width_bounds {
                        ColumnWidthBounds::Soft { desired, max_percentage } => {
                            ColumnWidthBounds::Soft {
                                desired: if i < desired_widths@.len() {
                                    desired_widths@[i]
                                } else {
                                    desired
                                },
                                max_percentage,
                            }
                        },
                        ColumnWidthBounds::Hard(width) => ColumnWidthBounds::Hard(width),
                    }
                },
            old(self).wf() ==> final(self).wf(),
    {
        let n = if self.columns.len() <= desired_widths.len() {
            self.columns.len()
        } else {
            desired_widths.len()
        };
        let mut i: usize = 0;
        while i < n
            invariant
                n <= desired_widths@.len(),
                n <= self.columns@.len(),
                self.columns@.len() == old(self).columns@.len(),
                i <= n,
                self.props == old(self).props,
                self.sort_type == old(self).sort_type,
                forall|k: int|
                    0 <= k < self.columns@.len() ==> {
                        let before = old(self).columns@[k];
                        let column = #[trigger] self.columns@[k];
                        &&& column.header == before.header
                        &&& column.is_hidden == before.is_hidden
                        &&& column.calculated_width == before.calculated_width
                        &&& column.width_bounds == match before.width_bounds {
                            ColumnWidthBounds::Soft { desired, max_percentage } => {
                                ColumnWidthBounds::Soft {
                                    desired: if k < i {
                                        desired_widths@[k]
                                    } else {
                                        desired
                                    },
                                    max_percentage,
                                }
                            },
                            ColumnWidthBounds::Hard(width) => ColumnWidthBounds::Hard(width),
                        }
                    },
            decreases n - i,
        {
            match self.columns[i].width_bounds {
                ColumnWidthBounds::Soft { desired: _, max_percentage } => {
                    self.columns[i].width_bounds = ColumnWidthBounds::Soft {
                        desired: desired_widths[i],
                        max_percentage,
                    };
                },
                ColumnWidthBounds::Hard(_) => {},
            }
            i += 1;
        }
    }

    /// Returns the header at `index`, if it exists.
    pub fn get_header(&self, index: usize) -> (header: Option<&String>)
        ensures
            match header {
                Some(text) => index < self.columns@.len() && *text == self.columns@[index as int].header,
                None => index >= self.columns@.len(),
            },
    {
        if index < self.columns.len() {
            Some(&self.columns[index].header)
        } else {
            None
        }
    }

    /// A table that can be sorted, with the selection and the order that
    /// `props` gives. The columns' ranges are empty until the header is laid
    /// out. The table is well-formed if `props` selects one of the columns.
    pub fn new_sortable(columns: Vec<SortDataTableColumn>, props: SortDataTableProps) -> (table:
        Self)
        ensures
            table.ranges_sorted(),
            props.sort_index < columns@.len() ==> table.wf(),
            table.props == props.inner,
            table.columns@.len() == columns@.len(),
            forall|i: int|
                0 <= i < columns@.len() ==> #[trigger] table.columns@[i] == columns@[i].inner,
            match table.sort_type {
                SortType::Unsortable(_) => false,
                SortType::Sortable(state) => {
                    &&& state.y_loc == 0
                    &&& state.sort_index == props.sort_index
                    &&& state.order == props.order
                    &&& state.sort_col_info@.len() == columns@.len()
                    &&& forall|i: int|
                        0 <= i < columns@.len() ==> {
                            let info = #[trigger] state.sort_col_info@[i];
                            &&& info.range.start == 0
                            &&& info.range.end == 0
                            &&& info.shortcut == columns@[i].shortcut
                            &&& info.default_order == columns@[i].default_order
                        }
                },
            },
    {
        let ghost given = columns@;
        let mut rest = columns;
        let mut inner: Vec<DataTableColumn> = Vec::new();
        let mut sort_col_info: Vec<SortColumnInfo> = Vec::new();
        while rest.len() > 0
            invariant
                inner@.len() + rest@.len() == given.len(),
                sort_col_info@.len() == inner@.len(),
                forall|i: int| 0 <= i < rest@.len() ==> rest@[i] == given[inner@.len() + i],
                forall|i: int| 0 <= i < inner@.len() ==> #[trigger] inner@[i] == given[i].inner,
                forall|i: int|
                    0 <= i < inner@.len() ==> {
                        let info = #[trigger] sort_col_info@[i];
                        &&& info.range.start == 0
                        &&& info.range.end == 0
                        &&& info.shortcut == given[i].shortcut
                        &&& info.default_order == given[i].default_order
                    },
            decreases rest@.len(),
        {
            let column = rest.remove(0);
            sort_col_info.push(
                SortColumnInfo {
                    range: 0..0,
                    shortcut: column.shortcut,
                    default_order: column.default_order,
                },
            );
            inner.push(column.inner);
        }
        Self {
            columns: inner,
            props: props.inner,
            sort_type: SortType::Sortable(
                Sortable { y_loc: 0, sort_index: props.sort_index, order: props.order, sort_col_info },
            ),
        }
    }

    /// Sets the draw locations of the columns' headers; a table that cannot
    /// be sorted keeps none.
    pub fn update_header_locations(&mut self, draw_loc: DrawLocation, row_widths: &[u16])
        requires
            match old(self).sort_type {
                SortType::Unsortable(_) => true,
                SortType::Sortable(state) => {
                    &&& row_widths@.len() == state.sort_col_info@.len()
                    &&& header_start(draw_loc.x as int, row_widths@, row_widths@.len()) <= u16::MAX
                        + 1
                },
            },
        ensures
            final(self).columns == old(self).columns,
            final(self).props == old(self).props,
            match (old(self).sort_type, final(self).sort_type) {
                (SortType::Unsortable(_), SortType::Unsortable(_)) => true,
                (SortType::Sortable(before), SortType::Sortable(after)) => {
                    &&& after.located(before, draw_loc, row_widths@)
                    &&& after.ranges_sorted()
                    &&& after.gap_separated()
                },
                _ => false,
            },
            old(self).wf() ==> final(self).wf(),
    {
        match &mut self.sort_type {
            SortType::Unsortable(_) => {},
            SortType::Sortable(state) => {
                state.update_header_locations(draw_loc, row_widths);
            },
        }
    }

    /// Given a cell `(x, y)`, selects the column whose header it lies in, or
    /// toggles the order if that column is already selected. Returns the
    /// index that is then selected, or `None` if the cell lies in no header.
    pub fn try_select_location(&mut self, x: u16, y: u16) -> (chosen: Option<usize>)
        requires
            old(self).ranges_sorted(),
        ensures
            final(self).ranges_sorted(),
            old(self).wf() ==> final(self).wf(),
            match old(self).hit(x, y) {
                Some(index) => {
                    &&& *final(self) == old(self).selected(index)
                    &&& chosen.is_some()
                    &&& chosen.unwrap() as int == index
                },
                None => *final(self) == *old(self) && chosen.is_none(),
            },
    {
        match &mut self.sort_type {
            SortType::Unsortable(_) => None,
            SortType::Sortable(state) => state.try_select_location(x, y),
        }
    }

    /// Updates the sort index, and sets the sort order to suit: the selected
    /// column's order is toggled, another column is selected with its own
    /// default order, and an index that names no column changes nothing.
    pub fn set_sort_index(&mut self, index: usize)
        ensures
            *final(self) == old(self).selected(index as int),
            old(self).ranges_sorted() ==> final(self).ranges_sorted(),
            old(self).wf() ==> final(self).wf(),
    {
        match &mut self.sort_type {
            SortType::Unsortable(_) => {},
            SortType::Sortable(state) => {
                state.set_sort_index(index);
            },
        }
    }

    /// The column whose header holds the cell `needle` of the header row.
    pub fn get_range(&self, needle: u16) -> (found: Option<usize>)
        requires
            self.ranges_sorted(),
        ensures
            match self.sort_type {
                SortType::Unsortable(_) => found.is_none(),
                SortType::Sortable(state) => match found {
                    Some(index) => index < state.sort_col_info@.len() && locate(
                        state.sort_col_info@,
                        needle as int,
                    ) == Some(index as int),
                    None => locate(state.sort_col_info@, needle as int).is_none(),
                },
            },
    {
        match &self.sort_type {
            SortType::Unsortable(_) => None,
            SortType::Sortable(state) => state.get_range(needle),
        }
    }

    /// Toggles the current sort order; a table that cannot be sorted has
    /// none.
    pub fn toggle_order(&mut self)
        ensures
            *final(self) == old(self).toggled(),
            old(self).ranges_sorted() ==> final(self).ranges_sorted(),
            old(self).wf() ==> final(self).wf(),
    {
        match &mut self.sort_type {
            SortType::Unsortable(_) => {},
            SortType::Sortable(state) => {
                state.toggle_order();
            },
        }
    }
}

} // verus!
