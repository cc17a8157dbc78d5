//! Inline, viewport-based terminal UIs that keep native scrollback intact.
//!
//! The library decides what a terminal is told; what it is told is carried out by the caller.
//! `terminal`, `history`, `layout`, `inline` and `session` hold the parts a program uses, on top
//! of `geometry`, `style`, `text`, `buffer`, `diff`, `draw` and `command`. `display` says what a
//! screen shows as a terminal carries out what it is told, and `showing`, `rows`, `drawing`,
//! `insertion`, `tail`, `updates`, `seen`, `cursor` and `known` hold the laws that follow.

pub mod geometry;
pub mod style;
pub mod text;
pub mod buffer;
pub mod command;
pub mod diff;
pub mod draw;
pub mod terminal;
pub mod history;
pub mod layout;
pub mod inline;
pub mod session;
pub mod trace;
pub mod display;
pub mod showing;
pub mod rows;
pub mod drawing;
pub mod insertion;
pub mod tail;
pub mod updates;
pub mod seen;
pub mod cursor;
pub mod known;

pub use crate::history::insert_history_lines;
pub use crate::inline::InlineViewport;
pub use crate::inline::ScrollbackTailState;
pub use crate::layout::LayoutFrame;
pub use crate::layout::Region;
pub use crate::session::restore;
pub use crate::session::set_modes;
pub use crate::session::Session;
pub use crate::terminal::Frame;
pub use crate::terminal::Terminal;
