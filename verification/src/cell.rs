//! A single position of the grid.

use vstd::prelude::*;

verus! {

/// Value of a cell that holds a mine.
pub const MINE: u8 = 0xff;

/// Value of the mine that ended the game.
pub const DETONATED: u8 = 0xfe;

/// How a cell presents itself to the player.
#[derive(Debug, PartialEq, Eq, Clone, Copy, Structural)]
pub enum CellType {
    Hidden,
    Visible,
    Flag,
    WrongFlag,
}

/// One cell of the board.
///
/// `value` is the number of mines around the cell (0 to 8), `MINE` for a
/// mine, or `DETONATED` for the mine that was stepped on.
#[derive(Debug, PartialEq, Eq, Clone, Copy, Structural)]
pub struct Cell {
    pub value: u8,
    pub cell_type: CellType,
    pub sel: bool,
}

impl Cell {
    /// A hidden cell with no mines around it and no highlight.
    pub open spec fn blank() -> Cell {
        Cell { value: 0, cell_type: CellType::Hidden, sel: false }
    }

    /// The cell with its value replaced.
    pub open spec fn with_value(self, value: u8) -> Cell {
        Cell { value, ..self }
    }

    /// The cell with its presentation replaced.
    pub open spec fn with_type(self, cell_type: CellType) -> Cell {
        Cell { cell_type, ..self }
    }

    /// The cell after one more mine was counted next to it; the count
    /// stops at the largest byte.
    pub open spec fn incremented(self) -> Cell {
        self.with_value(
            if self.value == u8::MAX {
                u8::MAX
            } else {
                (self.value + 1) as u8
            },
        )
    }

    /// The cell after an attempt to open it: a flag keeps it closed.
    pub open spec fn shown(self) -> Cell {
        if self.cell_type == CellType::Flag {
            self
        } else {
            self.with_type(CellType::Visible)
        }
    }

    /// The cell after the flag key: hidden cells gain a flag, flagged
    /// cells lose it, anything else stays.
    pub open spec fn flag_toggled(self) -> Cell {
        match self.cell_type {
            CellType::Flag => self.with_type(CellType::Hidden),
            CellType::Hidden => self.with_type(CellType::Flag),
            _ => self,
        }
    }

    /// The cell as shown after a lost game: a mine is open whatever
    /// covered it, and a flag on a safe cell is marked as wrong.
    pub open spec fn uncovered(self) -> Cell {
        if self.mine() {
            self.with_type(CellType::Visible)
        } else if self.flagged() {
            self.with_type(CellType::WrongFlag)
        } else {
            self
        }
    }

    /// The cell with its highlight flipped.
    pub open spec fn sel_toggled(self) -> Cell {
        Cell { sel: !self.sel, ..self }
    }

    /// Whether the cell holds a mine, detonated or not.
    pub open spec fn mine(self) -> bool {
        self.value == MINE || self.value == DETONATED
    }

    /// Whether the cell has been opened.
    pub open spec fn visible(self) -> bool {
        self.cell_type == CellType::Visible
    }

    /// Whether the cell carries a flag.
    pub open spec fn flagged(self) -> bool {
        self.cell_type == CellType::Flag
    }

    /// Whether a cascade stops at the cell: it is already open, or a flag
    /// protects it.
    pub open spec fn blocked(self) -> bool {
        self.visible() || self.flagged()
    }

    /// Creates a hidden, unselected cell with the given value.
    pub fn new(value: u8) -> (cell: Cell)
        ensures
            cell == Cell::blank().with_value(value),
    {
        Cell { value, cell_type: CellType::Hidden, sel: false }
    }

    /// Replaces the value.
    pub fn set(&mut self, value: u8)
        ensures
            *final(self) == old(self).with_value(value),
    {
        self.value = value;
    }

    /// Counts one more neighbouring mine, saturating at the largest byte.
    pub fn inc(&mut self)
        ensures
            *final(self) == old(self).incremented(),
    {
        if self.value < u8::MAX {
            self.value = self.value + 1;
        }
    }

    /// The value.
    pub fn get(&self) -> (value: u8)
        ensures
            value == self.value,
    {
        self.value
    }

    /// Opens the cell unless it is flagged.
    pub fn show(&mut self)
        ensures
            *final(self) == old(self).shown(),
    {
        match self.cell_type {
            CellType::Flag => {},
            _ => {
                self.cell_type = CellType::Visible;
            },
        }
    }

    /// Toggles the flag and returns the new number of flags on the board,
    /// given the number before.
    pub fn flag(&mut self, flags: usize) -> (count: usize)
        requires
            old(self).flagged() ==> flags > 0,
            old(self).cell_type == CellType::Hidden ==> flags < usize::MAX,
        ensures
            *final(self) == old(self).flag_toggled(),
            count == match old(self).cell_type {
                CellType::Flag => flags - 1,
                CellType::Hidden => flags + 1,
                _ => flags as int,
            },
    {
        match self.cell_type {
            CellType::Flag => {
                self.cell_type = CellType::Hidden;
                flags - 1
            },
            CellType::Hidden => {
                self.cell_type = CellType::Flag;
                flags + 1
            },
            _ => flags,
        }
    }

    /// Flips the highlight.
    pub fn sel(&mut self)
        ensures
            *final(self) == old(self).sel_toggled(),
    {
        self.sel = !self.sel;
    }

    /// Whether the cell holds a mine.
    pub fn is_mine(&self) -> (b: bool)
        ensures
            b == self.mine(),
    {
        self.value == MINE || self.value == DETONATED
    }

    /// Whether the cell has been opened.
    pub fn is_visible(&self) -> (b: bool)
        ensures
            b == self.visible(),
    {
        self.cell_type == CellType::Visible
    }

    /// Whether the cell carries a flag.
    pub fn is_flag(&self) -> (b: bool)
        ensures
            b == self.flagged(),
    {
        self.cell_type == CellType::Flag
    }
}

} // verus!
