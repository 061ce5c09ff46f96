//! Plain list and table values handed to the presentation layer, with a
//! verified selection cursor for the table.

use vstd::prelude::*;

verus! {

/// A record that can render itself as a table with a selection cursor.
pub trait TuiTableCreator {
    fn to_tui_table(&self) -> TuiTable;
}

/// A record that can render itself as a list of display lines.
pub trait TuiListCreator {
    fn to_tui_list(&self) -> TuiList;
}

/// Rows of display cells with a selection cursor that wraps around.
pub struct TuiTable {
    pub selected: Option<usize>,
    pub items: Vec<Vec<String>>,
}

impl TuiTable {
    /// A table over the given rows with nothing selected.
    pub fn new(items: Vec<Vec<String>>) -> (r: TuiTable)
        ensures
            r.items == items,
            r.selected is None,
    {
        TuiTable { selected: None, items }
    }

    /// Moves the selection one row down, wrapping to the first row past the
    /// end; with nothing selected it starts at the first row. An empty table
    /// keeps an empty selection.
    pub fn next(&mut self)
        ensures
            final(self).items == old(self).items,
            old(self).items@.len() == 0 ==> final(self).selected is None,
            old(self).items@.len() > 0 ==> final(self).selected == Some(
                match old(self).selected {
                    Some(i) => if i + 1 < old(self).items@.len() {
                        (i + 1) as usize
                    } else {
                        0usize
                    },
                    None => 0usize,
                },
            ),
    {
        if self.items.len() == 0 {
            self.selected = None;
            return ;
        }
        let i: usize = match self.selected {
            Some(i) => {
                if i >= self.items.len() - 1 {
                    0
                } else {
                    i + 1
                }
            },
            None => 0,
        };
        self.selected = Some(i);
    }

    /// Moves the selection one row up, wrapping to the last row before the
    /// start; with nothing selected it starts at the first row. An empty
    /// table keeps an empty selection.
    pub fn previous(&mut self)
        ensures
            final(self).items == old(self).items,
            old(self).items@.len() == 0 ==> final(self).selected is None,
            old(self).items@.len() > 0 ==> final(self).selected == Some(
                match old(self).selected {
                    Some(i) => if i == 0 {
                        (old(self).items@.len() - 1) as usize
                    } else {
                        (i - 1) as usize
                    },
                    None => 0usize,
                },
            ),
    {
        if self.items.len() == 0 {
            self.selected = None;
            return ;
        }
        let i: usize = match self.selected {
            Some(i) => {
                if i == 0 {
                    self.items.len() - 1
                } else {
                    i - 1
                }
            },
            None => 0,
        };
        self.selected = Some(i);
    }
}

/// A flat list of display lines.
pub struct TuiList {
    pub items: Vec<String>,
}

impl TuiList {
    /// The empty list.
    pub fn new() -> (r: TuiList)
        ensures
            r.items@.len() == 0,
    {
        TuiList { items: Vec::new() }
    }

    /// A list over the given lines.
    pub fn with_items(items: Vec<String>) -> (r: TuiList)
        ensures
            r.items == items,
    {
        TuiList { items }
    }
}

} // verus!
