//! A verified Minesweeper engine: difficulty settings, the grid/game-state
//! machine (deferred mine placement, flood-fill reveal, chording, win/loss
//! detection), pure view-model helpers for a renderer, and browser-storage
//! persistence of preferences and best times.

pub mod difficulty;
pub mod engine;
pub mod persistence;
pub mod ui_model;
