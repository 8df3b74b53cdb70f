//! The logic of a live status view over `cargo build`, `cargo run` and `cargo test`.

pub mod commands;
pub mod compile;
pub mod ending;
pub mod events;
pub mod json;
pub mod metadata;
pub mod metrics;
pub mod names;
pub mod screen;
pub mod setup;
pub mod state;
pub mod stdout;
pub mod table;
pub mod test;
pub mod text;
pub mod ui;
