//! Verified parts of a chat application for coding agents.
//!
//! Three things stand here, each with what it promises as its contract.
//!
//! - The harvest of a background subagent: [`spawn`] sees which tool calls
//!   spawn one, [`store`] says where its files are, [`transcript`] and [`tail`]
//!   turn what is read of its transcript into [`event`]s, [`lifecycle`] decides
//!   when it is finished, and [`harvest`] runs all of that step by step.
//! - The account pill: [`account_usage`] decides what is shown of a login and
//!   its plan, with the numbers of [`fraction`].
//! - Identity tiles: [`identity`] derives a color and a letter.
//!
//! [`json`] and [`text`] are what the harvest reads with.

pub mod account_usage;
pub mod event;
pub mod fraction;
pub mod harvest;
pub mod identity;
pub mod json;
pub mod lifecycle;
pub mod spawn;
pub mod store;
pub mod tail;
pub mod text;
pub mod transcript;
