//! Verified core of a Wayland status bar: compositor snapshots and the
//! per-monitor queries over them, configuration, and the parsing and
//! decision logic of the bar's background services.
pub mod order;
pub mod compositor;
pub mod config;
pub mod text;
pub mod network;
pub mod weather;
pub mod tray;
pub mod custom;
pub mod bar;
pub mod labels;
pub mod backend;
pub mod audio;
pub mod live;
pub mod icons;
pub mod startup;
pub mod debounce;
pub mod fonts;
pub mod sys;
pub mod watch;
