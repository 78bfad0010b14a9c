//! Verified core of a terminal leaderboard browser: the data model of the
//! boards, their ordering and filtering, and the interactive state machine.

pub mod aa;
pub mod board;
pub mod clipboard;
pub mod columns;
pub mod display;
pub mod filter;
pub mod highlight;
pub mod input;
pub mod laws;
pub mod metric;
pub mod order;
pub mod palette;
pub mod sort;
pub mod state;
pub mod text;
