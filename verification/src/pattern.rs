//! Pattern and cell types for tracker sequences.
use vstd::prelude::*;
use crate::effects::{Effect, VolumeCommand};

verus! {

/// A note value in a pattern cell.
#[derive(Clone, Copy, Debug, Default, PartialEq, Eq, Structural)]
pub enum Note {
    /// No note
    #[default]
    Empty,
    /// Note on with MIDI note number (0-119, where 60 = C-5, 48 = C-4 here)
    On(u8),
    /// Note off / key release
    Off,
    /// Note fade (IT-specific)
    Fade,
}

impl Note {
    /// Create a note from octave and semitone.
    pub fn from_octave_semitone(octave: u8, semitone: u8) -> (r: Self)
        requires
            octave * 12 + semitone <= u8::MAX,
        ensures
            r == Note::On((octave * 12 + semitone) as u8),
    {
        Note::On(octave * 12 + semitone)
    }

    /// The octave if this is a note on.
    pub fn octave(self) -> (r: Option<u8>)
        ensures
            r == (match self {
                Note::On(n) => Some((n / 12) as u8),
                _ => None,
            }),
    {
        match self {
            Note::On(n) => Some(n / 12),
            _ => None,
        }
    }

    /// The semitone (0-11) if this is a note on.
    pub fn semitone(self) -> (r: Option<u8>)
        ensures
            r == (match self {
                Note::On(n) => Some((n % 12) as u8),
                _ => None,
            }),
    {
        match self {
            Note::On(n) => Some(n % 12),
            _ => None,
        }
    }
}

/// A single cell in a pattern.
#[derive(Clone, Copy, Debug, Default, PartialEq, Eq, Structural)]
pub struct Cell {
    /// Note value
    pub note: Note,
    /// Instrument number (0 = none, 1-255 = instrument index + 1)
    pub instrument: u8,
    /// Volume column command
    pub volume: VolumeCommand,
    /// Effect column command
    pub effect: Effect,
}

/// The empty cell: no note, no instrument, no commands.
pub open spec fn empty_cell() -> Cell {
    Cell { note: Note::Empty, instrument: 0, volume: VolumeCommand::Empty, effect: Effect::Empty }
}

impl Cell {
    /// Create an empty cell.
    pub fn empty() -> (r: Self)
        ensures
            r == empty_cell(),
    {
        Self { note: Note::Empty, instrument: 0, volume: VolumeCommand::Empty, effect: Effect::Empty }
    }

    /// Returns true if the cell is completely empty.
    pub fn is_empty(&self) -> (r: bool)
        ensures
            r == (*self == empty_cell()),
    {
        let note_empty = match self.note {
            Note::Empty => true,
            _ => false,
        };
        let volume_empty = match self.volume {
            VolumeCommand::Empty => true,
            _ => false,
        };
        let effect_empty = match self.effect {
            Effect::Empty => true,
            _ => false,
        };
        note_empty && self.instrument == 0 && volume_empty && effect_empty
    }
}

/// A pattern: rows of cells across channels, stored row-major
/// (`data[row * channels + channel]`).
#[derive(Clone, Debug)]
pub struct Pattern {
    /// Number of rows (typically 64, can be 1-256)
    pub rows: u16,
    /// Number of channels
    pub channels: u8,
    /// Ticks per row (default 6; 0 means "use the song speed")
    pub ticks_per_row: u8,
    /// Rows per beat for this pattern (`None` = use the song's value)
    pub rows_per_beat: Option<u8>,
    /// Pattern data, row-major
    pub data: Vec<Cell>,
}

impl Pattern {
    /// The cell storage matches the declared shape.
    pub open spec fn wf(&self) -> bool {
        self.data@.len() == self.rows * self.channels
    }

    /// Index of a cell in the row-major storage.
    pub open spec fn index_of(&self, row: int, channel: int) -> int {
        row * self.channels + channel
    }

    /// The cell at `row`, `channel`.
    pub open spec fn cell_at(&self, row: int, channel: int) -> Cell {
        self.data@[self.index_of(row, channel)]
    }

    /// Create a pattern of empty cells.
    pub fn new(rows: u16, channels: u8) -> (r: Self)
        ensures
            r.wf(),
            r.rows == rows,
            r.channels == channels,
            r.ticks_per_row == 6,
            r.rows_per_beat.is_none(),
            forall|i: int| 0 <= i < r.data@.len() ==> r.data@[i] == empty_cell(),
    {
        proof { lemma_small_product(rows as int, channels as int); }
        let n = rows as usize * channels as usize;
        let mut data: Vec<Cell> = Vec::new();
        while data.len() < n
            invariant
                data@.len() <= n,
                forall|i: int| 0 <= i < data@.len() ==> data@[i] == empty_cell(),
            decreases n - data@.len(),
        {
            data.push(Cell::empty());
        }
        Self { rows, channels, ticks_per_row: 6, rows_per_beat: None, data }
    }

    /// A copy of this pattern with the same shape, settings and cells.
    pub fn duplicate(&self) -> (r: Self)
        ensures
            r.rows == self.rows,
            r.channels == self.channels,
            r.ticks_per_row == self.ticks_per_row,
            r.rows_per_beat == self.rows_per_beat,
            r.data@ == self.data@,
    {
        let mut data: Vec<Cell> = Vec::new();
        let mut i: usize = 0;
        while i < self.data.len()
            invariant
                i <= self.data@.len(),
                data@ == self.data@.subrange(0, i as int),
            decreases self.data@.len() - i,
        {
            data.push(self.data[i]);
            i = i + 1;
        }
        Self {
            rows: self.rows,
            channels: self.channels,
            ticks_per_row: self.ticks_per_row,
            rows_per_beat: self.rows_per_beat,
            data,
        }
    }

    /// Get a reference to a cell.
    pub fn cell(&self, row: u16, channel: u8) -> (r: &Cell)
        requires
            self.wf(),
            row < self.rows,
            channel < self.channels,
        ensures
            *r == self.cell_at(row as int, channel as int),
    {
        proof {
            lemma_cell_index_in_bounds(row as int, channel as int, self.rows as int, self.channels as int);
            lemma_small_product(row as int, self.channels as int);
        }
        &self.data[row as usize * self.channels as usize + channel as usize]
    }

    /// Get a mutable reference to a cell.
    pub fn cell_mut(&mut self, row: u16, channel: u8) -> (r: &mut Cell)
        requires
            old(self).wf(),
            row < old(self).rows,
            channel < old(self).channels,
        ensures
            *r == old(self).cell_at(row as int, channel as int),
            final(self).rows == old(self).rows,
            final(self).channels == old(self).channels,
            final(self).ticks_per_row == old(self).ticks_per_row,
            final(self).rows_per_beat == old(self).rows_per_beat,
            final(self).data@ == old(self).data@.update(old(self).index_of(row as int, channel as int), *final(r)),
    {
        proof {
            lemma_cell_index_in_bounds(row as int, channel as int, self.rows as int, self.channels as int);
            lemma_small_product(row as int, self.channels as int);
        }
        let idx = row as usize * self.channels as usize + channel as usize;
        &mut self.data[idx]
    }

    /// Overwrite one cell.
    pub fn set_cell(&mut self, row: u16, channel: u8, cell: Cell)
        requires
            old(self).wf(),
            row < old(self).rows,
            channel < old(self).channels,
        ensures
            final(self).wf(),
            final(self).rows == old(self).rows,
            final(self).channels == old(self).channels,
            final(self).ticks_per_row == old(self).ticks_per_row,
            final(self).rows_per_beat == old(self).rows_per_beat,
            final(self).data@ == old(self).data@.update(old(self).index_of(row as int, channel as int), cell),
    {
        proof {
            lemma_cell_index_in_bounds(row as int, channel as int, self.rows as int, self.channels as int);
            lemma_small_product(row as int, self.channels as int);
        }
        let idx = row as usize * self.channels as usize + channel as usize;
        self.data.set(idx, cell);
    }

    /// The cells of one row.
    pub fn row(&self, row: u16) -> (r: &[Cell])
        requires
            self.wf(),
            row < self.rows,
        ensures
            r@ == self.data@.subrange(row * self.channels, row * self.channels + self.channels),
    {
        proof {
            lemma_small_product(row as int, self.channels as int);
            assert((row + 1) * self.channels <= self.rows * self.channels) by (nonlinear_arith)
                requires row < self.rows, self.channels >= 0;
        }
        let start = row as usize * self.channels as usize;
        let all = self.data.as_slice();
        assert(start + self.channels <= all@.len()) by (nonlinear_arith)
            requires start == row * self.channels, row < self.rows, all@.len() == self.rows * self.channels, self.channels >= 0;
        &all[start..start + self.channels as usize]
    }

    /// Total number of ticks in this pattern.
    pub fn total_ticks(&self) -> (r: u64)
        ensures
            r == self.rows * self.ticks_per_row,
    {
        proof { lemma_small_product(self.rows as int, self.ticks_per_row as int); }
        self.rows as u64 * self.ticks_per_row as u64
    }
}

/// Products of a row count and a channel count stay far below any machine limit.
pub proof fn lemma_small_product(a: int, b: int)
    requires
        0 <= a <= 0xffff,
        0 <= b <= 0xff,
    ensures
        0 <= a * b <= 0xffff * 0xff,
        0 <= a * b + b <= 0xffff * 0xff + 0xff,
{
    assert(0 <= a * b <= 0xffff * 0xff) by (nonlinear_arith) requires 0 <= a <= 0xffff, 0 <= b <= 0xff;
}

/// A cell index computed from an in-range row and channel lies inside the storage.
pub proof fn lemma_cell_index_in_bounds(row: int, channel: int, rows: int, channels: int)
    requires
        0 <= row < rows,
        0 <= channel < channels,
    ensures
        0 <= row * channels + channel < rows * channels,
{
    assert(0 <= row * channels + channel < rows * channels) by (nonlinear_arith)
        requires 0 <= row < rows, 0 <= channel < channels;
}

/// A cell written with `set_cell` is read back by `cell`, and every other
/// cell reads as before: `q` is `p` after writing `cell` at `row`, `channel`.
pub proof fn lemma_set_cell_read_back(p: Pattern, q: Pattern, row: int, channel: int, cell: Cell, r2: int, c2: int)
    requires
        p.wf(),
        0 <= row < p.rows,
        0 <= channel < p.channels,
        0 <= r2 < p.rows,
        0 <= c2 < p.channels,
        q.rows == p.rows,
        q.channels == p.channels,
        q.data@ == p.data@.update(p.index_of(row, channel), cell),
    ensures
        q.wf(),
        q.cell_at(r2, c2) == (if r2 == row && c2 == channel { cell } else { p.cell_at(r2, c2) }),
{
    lemma_cell_index_in_bounds(row, channel, p.rows as int, p.channels as int);
    lemma_cell_index_in_bounds(r2, c2, p.rows as int, p.channels as int);
    if !(r2 == row && c2 == channel) {
        crate::mod_format::lemma_index_injective(r2, c2, row, channel, p.channels as int);
    }
}

} // verus!
