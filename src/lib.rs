//! Gcalc: a calculator for repeated independent trials (gacha pulls, loot boxes).
//!
//! It answers three questions about a sequence of trials: the cumulative
//! chance of at least one success after each trial (a range), the trial at
//! which a target chance or a budget is passed (a conditional run), and a
//! one-line summary of the latter (a qualification). Per-trial probability,
//! bonus and cost may come from a reference table, which makes "pity"
//! schedules possible.
//!
//! All probabilities, bonuses and costs are fixed-point decimals with nine
//! fractional digits (see [`fixed::ONE`]); the engine works on exact integers,
//! so the conservation of probability mass holds without rounding drift.
use vstd::prelude::*;

pub mod calc;
pub mod error;
pub mod fixed;
pub mod formatter;
pub mod laws;
pub mod models;
pub mod sci;
pub mod source;
pub mod state;
pub mod table;
pub mod text;
pub mod utils;

pub use calc::Calculator;
pub use error::{GcalcError, GcalcResult};
pub use models::{ProbType, TableFormat};

verus! {

} // verus!
