//! A progression engine that turns commit activity into a persistent,
//! multi-stat experience game: a scanner that reads each new commit's
//! line statistics since a saved checkpoint, a durable experience
//! ledger with per-stat pools and per-repository checkpoints, a
//! leveling calculator built on an integer logistic-then-linear curve,
//! and a reward composer that weighs a scan's statistics by the
//! current stat levels.

pub mod codec;
pub mod git;
pub mod progress;
pub mod scaling;
pub mod state;
