//! Editor workbench logic for Soyuz Studio.

pub mod terminal;
pub mod text;
pub mod undo;
pub mod editor;
pub mod pane;
pub mod paths;
pub mod settings;
pub mod strings;
pub mod workbench;
pub mod launch;
pub mod highlight;
pub mod session;
pub mod markdown;
pub mod palette;
pub mod tree;
pub mod export;
pub mod preview;
pub mod commands;
pub mod settings_panel;
pub mod shortcuts;
pub mod drag;
pub mod status;
