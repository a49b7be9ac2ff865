//! Verified core of a World Cup odds desk: result parsing, team-name
//! matching, settlement of picks against final scores, and the small
//! classifiers and SQL builders around them.
pub mod text;
pub mod numbers;
pub mod line;
pub mod settlement;
pub mod teams;
pub mod results;
pub mod markets;
pub mod fixtures;
pub mod snapshot;
pub mod health;
pub mod laws;
pub mod autosettle;
pub mod feeds;
pub mod training;
pub mod odds;
pub mod audit;
pub mod players;
pub mod upset_lab;
