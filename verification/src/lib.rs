//! Verified core of a desktop mod manager for 3DMigoto-based games.

pub mod text;
pub mod ini;
pub mod ini_files;
pub mod keys;
pub mod sorting;
pub mod paths;
pub mod mods;
pub mod gamebanana;
pub mod downloads;
pub mod presets;
pub mod restore_points;
pub mod update_tracking;
pub mod state;
pub mod migration;
pub mod install;
pub mod hotkeys;
pub mod watcher;
