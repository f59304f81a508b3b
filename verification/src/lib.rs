pub mod cli;
pub mod command;
pub mod config;
pub mod display;
pub mod event_loop;
pub mod events;
pub mod glob;
pub mod info;
pub mod input;
pub mod launch;
pub mod layout;
pub mod metadata;
pub mod snapshot;
pub mod state;
pub mod order;
pub mod paths;
pub mod report;
pub mod scan;
pub mod scan_handle;
pub mod text;
pub mod theme;
pub mod sums;
pub mod tree;
pub mod view;
pub mod walk;
pub mod treemap;
pub mod ui_cache;
