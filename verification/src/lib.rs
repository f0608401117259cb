//! A multi-day elimination simulation among a fixed roster of tributes.
//!
//! Each round, a scheduler classifies the round's category and computes a
//! severity parameter; a resolver then draws narrative actions from a
//! data-driven catalog, assigns randomly drawn tributes to them, and applies
//! deaths and kill credit to the roster. The library owns the round
//! classification, the catalog validation, the event resolution and the
//! roster bookkeeping; reading rosters and catalogs from disk, pacing,
//! text templating and image rendering are left to the surrounding program.

pub mod catalog;
pub mod engine;
pub mod numtext;
pub mod parse;
pub mod resolver;
pub mod roster;
pub mod scheduler;
mod rng;
pub mod tribute;
