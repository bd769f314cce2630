//! Lottery draws: history, honest statistics, and rows that few others play.
//!
//! Every draw is independent and every row has the same chance, so nothing
//! here predicts a draw. What a player can influence is how many others share
//! the prize: the "best rows" are the ones that few people pick.

pub mod spill;
pub mod historikk;
pub mod historikk_lover;
pub mod rekker;
pub mod analyse;
pub mod tolk;
pub mod side;
pub mod henting;
pub mod jakt;
pub mod valg;
pub mod visning;
pub mod kupong;
