use vstd::prelude::*;

verus! {

/// Cells per row of the character picker.
pub const CHAR_GRID_COLS: usize = 32;

/// Cells per row of the palette picker.
pub const PALETTE_GRID_COLS: usize = 8;

/// The state of the character map editor: the character and colour being
/// drawn with, a scratch screen of (character, colour) cells to try glyphs
/// on, and the glyph cell last toggled by a drag.
pub struct CharmapEditor {
    pub current_char: usize,
    pub current_color: usize,
    pub scratch: Vec<(u8, u8)>,
    pub scratch_cols: usize,
    pub scratch_rows: usize,
    pub glyph_drag_last: Option<(usize, usize)>,
}

impl Default for CharmapEditor {
    /// Character 65 (`A`) in colour 0, no scratch screen yet.
    fn default() -> (e: Self)
        ensures
            e.current_char == 65,
            e.current_color == 0,
            e.scratch@.len() == 0,
            e.scratch_cols == 0,
            e.scratch_rows == 0,
            e.glyph_drag_last is None,
    {
        CharmapEditor {
            current_char: 65,
            current_color: 0,
            scratch: Vec::new(),
            scratch_cols: 0,
            scratch_rows: 0,
            glyph_drag_last: None,
        }
    }
}

impl CharmapEditor {
    /// Resizes the scratch screen to `cols × rows` cells, cleared, when its
    /// size changed; otherwise it is kept as it is.
    pub fn sync_scratch_size(&mut self, screen_size: (u32, u32))
        requires
            screen_size.0 * screen_size.1 <= usize::MAX,
        ensures
            final(self).scratch_cols == screen_size.0,
            final(self).scratch_rows == screen_size.1,
            (screen_size.0 != old(self).scratch_cols || screen_size.1 != old(self).scratch_rows)
                ==> final(self).scratch@ == Seq::new(
                (screen_size.0 * screen_size.1) as nat,
                |i: int| (0u8, 0u8),
            ),
            (screen_size.0 == old(self).scratch_cols && screen_size.1 == old(self).scratch_rows)
                ==> final(self).scratch@ == old(self).scratch@,
            final(self).current_char == old(self).current_char,
            final(self).current_color == old(self).current_color,
            final(self).glyph_drag_last == old(self).glyph_drag_last,
    {
        let cols = screen_size.0 as usize;
        let rows = screen_size.1 as usize;
        if cols != self.scratch_cols || rows != self.scratch_rows {
            let n = cols * rows;
            let mut cells: Vec<(u8, u8)> = Vec::new();
            let mut i: usize = 0;
            while i < n
                invariant
                    i <= n,
                    cells@ == Seq::new(i as nat, |k: int| (0u8, 0u8)),
                decreases n - i,
            {
                cells.push((0, 0));
                assert(cells@ =~= Seq::new((i + 1) as nat, |k: int| (0u8, 0u8)));
                i = i + 1;
            }
            self.scratch = cells;
            self.scratch_cols = cols;
            self.scratch_rows = rows;
        }
    }

    /// After a new charmap is loaded, a character or colour that no longer
    /// exists is reset to 0.
    pub fn clamp_selection(&mut self, num_chars: usize, num_colors: usize)
        ensures
            final(self).current_char == if old(self).current_char >= num_chars {
                0
            } else {
                old(self).current_char
            },
            final(self).current_color == if old(self).current_color >= num_colors {
                0
            } else {
                old(self).current_color
            },
            final(self).scratch@ == old(self).scratch@,
            final(self).scratch_cols == old(self).scratch_cols,
            final(self).scratch_rows == old(self).scratch_rows,
            final(self).glyph_drag_last == old(self).glyph_drag_last,
    {
        if self.current_char >= num_chars {
            self.current_char = 0;
        }
        if self.current_color >= num_colors {
            self.current_color = 0;
        }
    }

    /// A click on cell (`col`, `row`) of the character picker selects that
    /// character when it exists.
    pub fn pick_char(&mut self, col: usize, row: usize, num_chars: usize)
        requires
            row * CHAR_GRID_COLS + col <= usize::MAX,
        ensures
            final(self).current_char == if row * CHAR_GRID_COLS + col < num_chars {
                (row * CHAR_GRID_COLS + col) as usize
            } else {
                old(self).current_char
            },
            final(self).current_color == old(self).current_color,
            final(self).scratch@ == old(self).scratch@,
            final(self).glyph_drag_last == old(self).glyph_drag_last,
    {
        let index = row * CHAR_GRID_COLS + col;
        if index < num_chars {
            self.current_char = index;
        }
    }

    /// A click on cell (`col`, `row`) of the palette picker selects that
    /// colour when it exists.
    pub fn pick_color(&mut self, col: usize, row: usize, num_colors: usize)
        requires
            row * PALETTE_GRID_COLS + col <= usize::MAX,
        ensures
            final(self).current_color == if row * PALETTE_GRID_COLS + col < num_colors {
                (row * PALETTE_GRID_COLS + col) as usize
            } else {
                old(self).current_color
            },
            final(self).current_char == old(self).current_char,
            final(self).scratch@ == old(self).scratch@,
            final(self).glyph_drag_last == old(self).glyph_drag_last,
    {
        let index = row * PALETTE_GRID_COLS + col;
        if index < num_colors {
            self.current_color = index;
        }
    }

    /// Paints scratch cell (`col`, `row`) with the current character and
    /// colour, each kept to its low byte.
    pub fn stamp(&mut self, col: usize, row: usize)
        requires
            col < old(self).scratch_cols,
            row * old(self).scratch_cols + col < old(self).scratch@.len(),
        ensures
            final(self).scratch@ == old(self).scratch@.update(
                row * old(self).scratch_cols + col,
                ((old(self).current_char % 256) as u8, (old(self).current_color % 256) as u8),
            ),
            final(self).current_char == old(self).current_char,
            final(self).current_color == old(self).current_color,
            final(self).scratch_cols == old(self).scratch_cols,
            final(self).scratch_rows == old(self).scratch_rows,
            final(self).glyph_drag_last == old(self).glyph_drag_last,
    {
        let n = self.scratch.len();
        let index = row * self.scratch_cols + col;
        let ch = (self.current_char % 256) as u8;
        let co = (self.current_color % 256) as u8;
        self.scratch.set(index, (ch, co));
    }

    /// Pointer input on the glyph editor. A click or the start of a drag
    /// toggles the cell under the pointer; during a drag, a cell other than
    /// the last one toggled is toggled; the end of a drag forgets the last
    /// cell. The result is the glyph pixel to toggle: the cell's column, and
    /// its row within the current character's rows of the glyph data.
    pub fn glyph_input(
        &mut self,
        pressed: bool,
        dragged: bool,
        drag_stopped: bool,
        pointer_cell: Option<(usize, usize)>,
        char_height: usize,
    ) -> (toggle: Option<(usize, usize)>)
        requires
            pointer_cell matches Some(c) ==> char_height * old(self).current_char + c.1
                <= usize::MAX,
        ensures
            ({
                let cell = if pressed {
                    pointer_cell
                } else if dragged && pointer_cell is Some && pointer_cell
                    != old(self).glyph_drag_last {
                    pointer_cell
                } else {
                    None
                };
                &&& cell matches Some(c) ==> final(self).glyph_drag_last == Some(c) && toggle
                    == Some((c.0, (char_height * old(self).current_char + c.1) as usize))
                &&& cell is None ==> toggle is None && final(self).glyph_drag_last == if drag_stopped {
                    None
                } else {
                    old(self).glyph_drag_last
                }
            }),
            final(self).current_char == old(self).current_char,
            final(self).current_color == old(self).current_color,
            final(self).scratch@ == old(self).scratch@,
    {
        let mut cell_to_toggle: Option<(usize, usize)> = None;
        if pressed {
            cell_to_toggle = pointer_cell;
        } else if dragged {
            if let Some(c) = pointer_cell {
                let same = match self.glyph_drag_last {
                    Some(l) => l.0 == c.0 && l.1 == c.1,
                    None => false,
                };
                if !same {
                    cell_to_toggle = Some(c);
                }
            }
        }
        if drag_stopped {
            self.glyph_drag_last = None;
        }
        match cell_to_toggle {
            Some(c) => {
                self.glyph_drag_last = Some(c);
                let global_y = char_height * self.current_char + c.1;
                Some((c.0, global_y))
            },
            None => None,
        }
    }
}

} // verus!
