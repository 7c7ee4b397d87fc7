//! Column layout and the navigation state of the interactive table view.

use vstd::prelude::*;
use crate::csv_data::CSVData;

verus! {

/// Height of one rendered table row; scales the scroll indicator position.
/// The renderer must draw rows at this height for the indicator to track the
/// selection, so it is a shared contract constant.
pub const ITEM_HEIGHT: usize = 4;

/// The number of column slots of a table: the maximum field count observed
/// across its content rows (the header does not widen the grid).
pub open spec fn slot_count(rows: Seq<Seq<Seq<char>>>) -> nat
    decreases rows.len(),
{
    if rows.len() == 0 {
        0
    } else {
        let rest = slot_count(rows.drop_last());
        if rows.last().len() > rest {
            rows.last().len()
        } else {
            rest
        }
    }
}

/// The display width a cell of `len` characters asks for: the text plus fixed
/// padding, saturated at `usize::MAX`.
pub open spec fn cell_width(len: nat) -> nat {
    if len + 2 <= usize::MAX {
        len + 2
    } else {
        usize::MAX as nat
    }
}

/// What the header asks of slot `i`: the width of its field there, nothing
/// when it has no field there.
pub open spec fn header_width(header: Seq<Seq<char>>, i: int) -> nat {
    if 0 <= i < header.len() {
        cell_width(header[i].len())
    } else {
        0
    }
}

/// What the content rows ask of slot `i`: the widest cell any row has there.
pub open spec fn content_width(rows: Seq<Seq<Seq<char>>>, i: int) -> nat
    decreases rows.len(),
{
    if rows.len() == 0 {
        0
    } else {
        let rest = content_width(rows.drop_last(), i);
        let last = if 0 <= i < rows.last().len() {
            cell_width(rows.last()[i].len())
        } else {
            0
        };
        if last > rest {
            last
        } else {
            rest
        }
    }
}

/// The computed width of column slot `i`: wide enough for the header's field
/// and for every content cell in that slot — except that the last slot is
/// never widened by content, only by the header; this boundary is kept
/// exactly as the view has always drawn it.
pub open spec fn col_width(header: Seq<Seq<char>>, rows: Seq<Seq<Seq<char>>>, i: int) -> nat {
    let hw = header_width(header, i);
    let cw = if i + 1 < slot_count(rows) {
        content_width(rows, i)
    } else {
        0
    };
    if cw > hw {
        cw
    } else {
        hw
    }
}

/// Returns the width of `s` plus fixed padding, saturated at `usize::MAX`.
fn padded_width(s: &String) -> (w: usize)
    ensures
        w == cell_width(s@.len()),
{
    let len = s.as_str().unicode_len();
    if len <= usize::MAX - 2 {
        len + 2
    } else {
        usize::MAX
    }
}

/// The navigation state of the interactive table view: the loaded table, its
/// column widths, and the current selection with its scroll position.
pub struct TableTUI {
    pub items: CSVData,
    pub column_widths: Vec<usize>,
    pub selected_row: usize,
    pub selected_column: usize,
    pub scroll_offset: usize,
}

impl TableTUI {
    /// The selection is valid for the current table: indices stay inside the
    /// live extents, resting at zero when the table gives them no room, and
    /// there is one width per column slot.
    pub open spec fn wf(&self) -> bool {
        &&& if self.items.content@.len() == 0 {
            self.selected_row == 0
        } else {
            self.selected_row < self.items.content@.len()
        }
        &&& if self.column_widths@.len() == 0 {
            self.selected_column == 0
        } else {
            self.selected_column < self.column_widths@.len()
        }
        &&& self.column_widths@.len() == slot_count(self.items.rows_view())
    }

    /// Computes the per-slot display widths of a table: one slot per field of
    /// its widest content row, each wide enough for the header text and for
    /// every content cell it must show — the last slot only as wide as its
    /// header text.
    pub fn max_col_width(data: &CSVData) -> (widths: Vec<usize>)
        ensures
            widths@.len() == slot_count(data.rows_view()),
            forall|i: int|
                0 <= i < widths@.len() ==> widths@[i] == col_width(
                    data.header_view(),
                    data.rows_view(),
                    i,
                ),
    {
        let rows = &data.content;
        let ghost rv = data.rows_view();
        let mut max_col: usize = 0;
        let mut r: usize = 0;
        while r < rows.len()
            invariant
                r <= rows@.len(),
                rv == rows.deep_view(),
                rv.len() == rows@.len(),
                max_col == slot_count(rv.take(r as int)),
            decreases rows.len() - r,
        {
            proof {
                assert(rv.take(r + 1).drop_last() =~= rv.take(r as int));
                assert(rv.take(r + 1).last() == rv[r as int]);
                assert(rv[r as int] == rows@[r as int].deep_view());
                assert(rows@[r as int].deep_view().len() == rows@[r as int]@.len());
            }
            if rows[r].len() > max_col {
                max_col = rows[r].len();
            }
            r = r + 1;
        }
        proof {
            assert(rv.take(rows@.len() as int) =~= rv);
        }
        let mut widths: Vec<usize> = Vec::new();
        while widths.len() < max_col
            invariant
                widths@.len() <= max_col,
                forall|i: int| 0 <= i < widths@.len() ==> widths@[i] == 0,
            decreases max_col - widths.len(),
        {
            widths.push(0);
        }
        let ghost hv = data.header_view();
        let header = &data.header;
        let mut idx: usize = 0;
        while idx < header.len() && idx < widths.len()
            invariant
                hv == header.deep_view(),
                hv.len() == header@.len(),
                widths@.len() == slot_count(rv),
                idx <= header@.len(),
                forall|i: int|
                    0 <= i < widths@.len() ==> widths@[i] == (if i < idx {
                        header_width(hv, i)
                    } else {
                        0nat
                    }),
            decreases header.len() - idx,
        {
            proof {
                assert(hv[idx as int] == header@[idx as int]@);
            }
            let w = padded_width(&header[idx]);
            if w > widths[idx] {
                widths.set(idx, w);
            }
            idx = idx + 1;
        }
        proof {
            assert(forall|i: int|
                0 <= i < widths@.len() ==> widths@[i] == header_width(hv, i));
        }
        let mut r: usize = 0;
        while r < rows.len()
            invariant
                rv == rows.deep_view(),
                hv == data.header_view(),
                rv.len() == rows@.len(),
                r <= rows@.len(),
                widths@.len() == slot_count(rv),
                forall|i: int|
                    0 <= i < widths@.len() ==> widths@[i] == ({
                        let hw = header_width(hv, i);
                        let cw = if i + 1 < widths@.len() {
                            content_width(rv.take(r as int), i)
                        } else {
                            0nat
                        };
                        if cw > hw {
                            cw
                        } else {
                            hw
                        }
                    }),
            decreases rows.len() - r,
        {
            let row = &rows[r];
            let ghost row_v = rv[r as int];
            proof {
                assert(row_v == rows@[r as int].deep_view());
                assert(row_v.len() == rows@[r as int]@.len());
            }
            let mut idx: usize = 0;
            while idx < row.len()
                invariant
                    rv == rows.deep_view(),
                    hv == data.header_view(),
                    rv.len() == rows@.len(),
                    r < rows@.len(),
                    row == rows@[r as int],
                    row_v == rv[r as int],
                    row_v.len() == row@.len(),
                    idx <= row@.len(),
                    widths@.len() == slot_count(rv),
                    forall|i: int|
                        0 <= i < widths@.len() ==> widths@[i] == ({
                            let hw = header_width(hv, i);
                            let prev = if i + 1 < widths@.len() {
                                content_width(rv.take(r as int), i)
                            } else {
                                0nat
                            };
                            let cur = if i < idx && i + 1 < widths@.len() {
                                cell_width(row_v[i].len())
                            } else {
                                0nat
                            };
                            let cw = if cur > prev {
                                cur
                            } else {
                                prev
                            };
                            if cw > hw {
                                cw
                            } else {
                                hw
                            }
                        }),
                decreases row.len() - idx,
            {
                proof {
                    assert(row_v[idx as int] == row@[idx as int]@);
                }
                if idx + 1 < widths.len() {
                    let w = padded_width(&row[idx]);
                    if w > widths[idx] {
                        widths.set(idx, w);
                    }
                }
                idx = idx + 1;
            }
            proof {
                assert(rv.take(r + 1).drop_last() =~= rv.take(r as int));
                assert(rv.take(r + 1).last() == rv[r as int]);
            }
            r = r + 1;
        }
        proof {
            assert(rv.take(rows@.len() as int) =~= rv);
        }
        widths
    }
}

/// The scroll indicator position for a selected row: the row index scaled by
/// the rendered row height, saturated at `usize::MAX`.
pub open spec fn scroll_position(row: nat) -> nat {
    if row * ITEM_HEIGHT <= usize::MAX {
        (row * ITEM_HEIGHT) as nat
    } else {
        usize::MAX as nat
    }
}

/// The state after one forward row move: the selection advances one row,
/// wrapping from the last row to the first, and the scroll position follows;
/// on an empty table nothing changes.
pub open spec fn spec_next_row(s: TableTUI) -> TableTUI {
    let n = s.items.content@.len();
    if n == 0 {
        s
    } else {
        let row: usize = if s.selected_row + 1 >= n {
            0
        } else {
            (s.selected_row + 1) as usize
        };
        TableTUI { selected_row: row, scroll_offset: scroll_position(row as nat) as usize, ..s }
    }
}

/// The state after one backward row move: the selection retreats one row,
/// wrapping from the first row to the last, and the scroll position follows;
/// on an empty table nothing changes.
pub open spec fn spec_previous_row(s: TableTUI) -> TableTUI {
    let n = s.items.content@.len();
    if n == 0 {
        s
    } else {
        let row: usize = if s.selected_row == 0 {
            (n - 1) as usize
        } else {
            (s.selected_row - 1) as usize
        };
        TableTUI { selected_row: row, scroll_offset: scroll_position(row as nat) as usize, ..s }
    }
}

/// The state after one forward column move: the selection advances one column
/// slot, wrapping from the last slot to the first; with no slots nothing
/// changes.
pub open spec fn spec_next_column(s: TableTUI) -> TableTUI {
    let n = s.column_widths@.len();
    if n == 0 {
        s
    } else {
        let col: usize = if s.selected_column + 1 >= n {
            0
        } else {
            (s.selected_column + 1) as usize
        };
        TableTUI { selected_column: col, ..s }
    }
}

/// The state after one backward column move: the selection retreats one
/// column slot, wrapping from the first slot to the last; with no slots
/// nothing changes.
pub open spec fn spec_previous_column(s: TableTUI) -> TableTUI {
    let n = s.column_widths@.len();
    if n == 0 {
        s
    } else {
        let col: usize = if s.selected_column == 0 {
            (n - 1) as usize
        } else {
            (s.selected_column - 1) as usize
        };
        TableTUI { selected_column: col, ..s }
    }
}

/// The state after a sequence of `n` forward row moves.
pub open spec fn forward_rows(s: TableTUI, n: nat) -> TableTUI
    decreases n,
{
    if n == 0 {
        s
    } else {
        spec_next_row(forward_rows(s, (n - 1) as nat))
    }
}

/// On a non-empty table, any sequence of `n` forward row moves lands the
/// selection on `(start + n) mod rows.len()`, and touches nothing else of the
/// state but the scroll position.
pub proof fn lemma_forward_rows_mod(s: TableTUI, n: nat)
    requires
        s.wf(),
        s.items.content@.len() > 0,
    ensures
        forward_rows(s, n).selected_row == (s.selected_row + n) % (s.items.content@.len() as int),
        forward_rows(s, n).items == s.items,
        forward_rows(s, n).column_widths == s.column_widths,
        forward_rows(s, n).selected_column == s.selected_column,
        forward_rows(s, n).wf(),
    decreases n,
{
    let len = s.items.content@.len() as int;
    assert(s.items.content.len() == s.items.content@.len());
    if n == 0 {
        vstd::arithmetic::div_mod::lemma_small_mod(s.selected_row as nat, len as nat);
    } else {
        lemma_forward_rows_mod(s, (n - 1) as nat);
        let t = forward_rows(s, (n - 1) as nat);
        let a = s.selected_row + n - 1;
        vstd::arithmetic::div_mod::lemma_add_mod_noop(a, 1, len);
        if len == 1 {
            vstd::arithmetic::div_mod::lemma_mod_bound(a + 1, 1);
        } else {
            vstd::arithmetic::div_mod::lemma_small_mod(1, len as nat);
            if t.selected_row + 1 >= len {
                vstd::arithmetic::div_mod::lemma_mod_self_0(len);
            } else {
                vstd::arithmetic::div_mod::lemma_small_mod((t.selected_row + 1) as nat, len as nat);
            }
        }
    }
}

/// A backward row move from the first row wraps to the last row.
pub proof fn lemma_backward_wraps_to_last(s: TableTUI)
    requires
        s.wf(),
        s.items.content@.len() > 0,
        s.selected_row == 0,
    ensures
        spec_previous_row(s).selected_row == s.items.content@.len() - 1,
{
    assert(s.items.content.len() == s.items.content@.len());
}

/// On an empty table, no navigation transition changes the state.
pub proof fn lemma_empty_table_navigation_noop(s: TableTUI)
    requires
        s.wf(),
        s.items.content@.len() == 0,
    ensures
        spec_next_row(s) == s,
        spec_previous_row(s) == s,
        spec_next_column(s) == s,
        spec_previous_column(s) == s,
{
}

/// A keyboard event as the terminal hands it in, reduced to what the view
/// reacts to.
pub enum KeyInput {
    Char(char),
    Up,
    Down,
    Left,
    Right,
    Esc,
    Other,
}

/// The discrete navigation commands of the view.
pub enum NavCommand {
    MoveRowForward,
    MoveRowBackward,
    MoveColumnForward,
    MoveColumnBackward,
    Quit,
}

/// The command a key is bound to: q/Esc quit, j/Down and k/Up move the row,
/// l/Right and h/Left move the column; everything else is ignored.
pub open spec fn command_of(key: KeyInput) -> Option<NavCommand> {
    match key {
        KeyInput::Char(c) => if c == 'q' {
            Some(NavCommand::Quit)
        } else if c == 'j' {
            Some(NavCommand::MoveRowForward)
        } else if c == 'k' {
            Some(NavCommand::MoveRowBackward)
        } else if c == 'l' {
            Some(NavCommand::MoveColumnForward)
        } else if c == 'h' {
            Some(NavCommand::MoveColumnBackward)
        } else {
            None
        },
        KeyInput::Esc => Some(NavCommand::Quit),
        KeyInput::Down => Some(NavCommand::MoveRowForward),
        KeyInput::Up => Some(NavCommand::MoveRowBackward),
        KeyInput::Right => Some(NavCommand::MoveColumnForward),
        KeyInput::Left => Some(NavCommand::MoveColumnBackward),
        KeyInput::Other => None,
    }
}

impl TableTUI {
    /// Builds the view state for a freshly loaded table: widths computed from
    /// the table, selection and scroll at the initial position.
    pub fn new(data: &CSVData) -> (t: TableTUI)
        ensures
            t.wf(),
            t.items.header_view() == data.header_view(),
            t.items.rows_view() == data.rows_view(),
            t.column_widths@.len() == slot_count(data.rows_view()),
            forall|i: int|
                0 <= i < t.column_widths@.len() ==> t.column_widths@[i] == col_width(
                    data.header_view(),
                    data.rows_view(),
                    i,
                ),
            t.selected_row == 0,
            t.selected_column == 0,
            t.scroll_offset == 0,
    {
        let column_widths = Self::max_col_width(data);
        TableTUI {
            items: data.clone_data(),
            column_widths,
            selected_row: 0,
            selected_column: 0,
            scroll_offset: 0,
        }
    }

    /// Moves the selection one row forward, wrapping past the last row; a
    /// no-op on an empty table.
    pub fn next_row(&mut self)
        requires
            old(self).wf(),
        ensures
            *final(self) == spec_next_row(*old(self)),
            final(self).wf(),
    {
        let n = self.items.content.len();
        if n == 0 {
            return ;
        }
        let row = if self.selected_row + 1 >= n {
            0
        } else {
            self.selected_row + 1
        };
        self.selected_row = row;
        self.scroll_offset = if row <= usize::MAX / ITEM_HEIGHT {
            row * ITEM_HEIGHT
        } else {
            usize::MAX
        };
    }

    /// Moves the selection one row backward, wrapping from the first row to
    /// the last; a no-op on an empty table.
    pub fn previous_row(&mut self)
        requires
            old(self).wf(),
        ensures
            *final(self) == spec_previous_row(*old(self)),
            final(self).wf(),
    {
        let n = self.items.content.len();
        if n == 0 {
            return ;
        }
        let row = if self.selected_row == 0 {
            n - 1
        } else {
            self.selected_row - 1
        };
        self.selected_row = row;
        self.scroll_offset = if row <= usize::MAX / ITEM_HEIGHT {
            row * ITEM_HEIGHT
        } else {
            usize::MAX
        };
    }

    /// Moves the selection one column slot forward, wrapping past the last
    /// slot; a no-op when there are no slots.
    pub fn next_column(&mut self)
        requires
            old(self).wf(),
        ensures
            *final(self) == spec_next_column(*old(self)),
            final(self).wf(),
    {
        let n = self.column_widths.len();
        if n == 0 {
            return ;
        }
        self.selected_column = if self.selected_column + 1 >= n {
            0
        } else {
            self.selected_column + 1
        };
    }

    /// Moves the selection one column slot backward, wrapping from the first
    /// slot to the last; a no-op when there are no slots.
    pub fn previous_column(&mut self)
        requires
            old(self).wf(),
        ensures
            *final(self) == spec_previous_column(*old(self)),
            final(self).wf(),
    {
        let n = self.column_widths.len();
        if n == 0 {
            return ;
        }
        self.selected_column = if self.selected_column == 0 {
            n - 1
        } else {
            self.selected_column - 1
        };
    }

    /// Applies the command a key is bound to, quit checked first: returns
    /// whether the session ends, otherwise performs at most one navigation
    /// transition.
    pub fn handle_key(&mut self, key: KeyInput) -> (quit: bool)
        requires
            old(self).wf(),
        ensures
            final(self).wf(),
            quit == (command_of(key) == Some(NavCommand::Quit)),
            (match command_of(key) {
                Some(NavCommand::MoveRowForward) => *final(self) == spec_next_row(*old(self)),
                Some(NavCommand::MoveRowBackward) => *final(self) == spec_previous_row(
                    *old(self),
                ),
                Some(NavCommand::MoveColumnForward) => *final(self) == spec_next_column(
                    *old(self),
                ),
                Some(NavCommand::MoveColumnBackward) => *final(self) == spec_previous_column(
                    *old(self),
                ),
                _ => *final(self) == *old(self),
            }),
    {
        match key {
            KeyInput::Char(c) => {
                if c == 'q' {
                    true
                } else if c == 'j' {
                    self.next_row();
                    false
                } else if c == 'k' {
                    self.previous_row();
                    false
                } else if c == 'l' {
                    self.next_column();
                    false
                } else if c == 'h' {
                    self.previous_column();
                    false
                } else {
                    false
                }
            },
            KeyInput::Esc => true,
            KeyInput::Down => {
                self.next_row();
                false
            },
            KeyInput::Up => {
                self.previous_row();
                false
            },
            KeyInput::Right => {
                self.next_column();
                false
            },
            KeyInput::Left => {
                self.previous_column();
                false
            },
            KeyInput::Other => false,
        }
    }
}

} // verus!
