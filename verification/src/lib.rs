//! A small sticky-note library: the notes and their identifiers, the text
//! shown on note cards, clipboard-style edits of a note's body, date and
//! "time ago" rendering, and the auto-save bookkeeping of the editor.

pub mod clock;
pub mod datetime;
pub mod editing;
pub mod icon;
pub mod listing;
pub mod note;
pub mod state;
pub mod text;
