//! Analysis of a flat history of football match results: a typed record
//! collection loaded from comma-delimited text, aggregate statistics
//! (win rates, result rates, appearance counts, goal averages, largest
//! winning margins) over arbitrary season ranges and team subsets, and
//! leaderboards ranking teams by such statistics.

pub mod count;
pub mod game;
pub mod parse;
pub mod query;
pub mod rank;
pub mod rate;
pub mod stats;
pub mod wins;
