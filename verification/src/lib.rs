//! Column layouts and crash recovery for a tiling window manager.

pub mod cloak_journal;
pub mod columns;
pub mod events;
pub mod state;
pub mod text;
