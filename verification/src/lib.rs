//! A Gomoku/Pente-style board-game engine.
//!
//! Two players alternately place stones on a square grid. A move may capture
//! bracketed pairs of enemy stones; the match ends by five-in-a-row, by a
//! capture-count threshold, or by a full board (draw).
//!
//! The crate is organised bottom-up:
//! - [`types`] holds the data model shared by every component;
//! - [`goban`] owns the grid: move validation, placement and capture resolution;
//! - [`victory`] scans the board for five-in-a-row runs;
//! - [`engine`] drives the match: turn alternation, counters and termination;
//! - [`display`] holds the one pure helper of the text renderer.

pub mod display;
pub mod engine;
pub mod goban;
pub mod types;
pub mod victory;
