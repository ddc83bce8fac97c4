//! Stratagem macros for Helldivers 2: key tables, game data, builds, settings
//! and the decisions of the macro engine, with their contracts.

pub mod text;
pub mod data;
pub mod keys;
pub mod settings;
pub mod shared;
pub mod loadouts;
pub mod hooks;
mod chance;
pub mod engine;
pub mod builds;
pub mod data_sync;
pub mod equipment_sync;
pub mod equipment_order;
pub mod game_config;
pub mod meta_stats;
pub mod panel;
pub mod focus;
pub mod diag;
pub mod i18n;
pub mod overlay;
pub mod equipment_api;
pub mod tray;
pub mod images;
pub mod bitmap_cache;
pub mod bench;
