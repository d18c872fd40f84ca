//! Clipboard history: the verified core of a menu-bar clipboard manager.
pub mod actions;
pub mod autostart;
pub mod clock;
pub mod glyph;
pub mod history;
pub mod item;
pub mod menu;
pub mod panel;
pub mod storage;
pub mod text;
pub mod thumbs;
pub mod updater;
pub mod watcher;
