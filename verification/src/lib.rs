//! Adaptive practice scheduling for kana-to-romaji recall drills.
//!
//! A learner is shown a character and types its romanization. The library
//! keeps running statistics for every character, weighs each character by
//! how error-prone, how stale and how slow it is, and draws the next one
//! with a chance proportional to its weight.
//!
//! All quantities are integers: shares and weights are counted in
//! millionths, times in milliseconds. Each type has a mathematical model,
//! and every function states in its contract what it returns or changes in
//! terms of that model.
//!
//! - `model`: the model of the statistics of one character, and its laws.
//! - `stats`: the statistics themselves.
//! - `history`: the store of statistics, keyed by character.
//! - `selector`: weights, their rescaling, and the draw.
//! - `app`: the practice session as a state machine over key presses.
//! - `report`, `trend`, `mistakes`, `order`: the statistics columns, the
//!   trend of the response time and the latest mistakes of the progress
//!   display, and the ordering that they share.
//! - `kana`: the catalog of characters.
//! - `cli`: the command line.
//! - `fixed`, `text`, `clock`, `types`, `error`: what the others share.

pub mod app;
pub mod cli;
pub mod clock;
pub mod error;
pub mod fixed;
pub mod history;
pub mod kana;
pub mod mistakes;
pub mod model;
pub mod order;
pub mod report;
pub mod selector;
pub mod stats;
pub mod text;
pub mod trend;
pub mod types;
