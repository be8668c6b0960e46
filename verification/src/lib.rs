//! Verified core of the ICMC assembly IDE: the character-map model, text
//! search and editing helpers, and the state machines behind the editor panels.

pub mod charmap;
pub mod charmap_editor;
pub mod documentation;
pub mod dock;
pub mod editor;
pub mod file_explorer;
pub mod find_replace;
pub mod goto_line;
pub mod gutter;
pub mod log;
pub mod memory_editor;
pub mod numtext;
pub mod order;
pub mod paths;
pub mod radix;
pub mod search;
pub mod state_panel;
pub mod text;
pub mod workspace;
