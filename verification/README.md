# icmc_gui

A desktop IDE for ICMC assembly: a code editor with find/replace and go-to-line,
a file explorer for the workspace, a character-map editor, a memory editor, and
the controls and screen of the ICMC emulator.

The crate is in two parts.

- `src/` is the library, verified with Verus. It holds the logic of the IDE:
  the character map and its RGBA atlas, text search and replacement, line
  offsets and the line gutter, numeric field parsing and formatting for the
  memory editor, the file tree (sorting, merging a new directory listing,
  in-place rename/create/delete decisions), the log, the dock placement of
  panels, and the state machines behind the editor overlays. Every public
  function carries a contract, and the laws the library keeps (toggling a
  glyph pixel twice restores it, search results are sound and ordered, a
  formatted memory field reads back as the value shown, the log stays within
  its capacity, ...) are proved as lemmas.
- `app/` is the egui/eframe program around it: windows, widgets, OpenGL
  drawing of the emulator screen, file I/O, the emulator's run
  loop and the settings file.

The program reads its bundled resources (`example.asm`, `icmc.toml`,
`doc.toml`, `charmap.bin`, `8bit.json`, `syntax/`, `shaders/`) from a `res/`
directory beside the executable or under the working directory.
