//! A Monte Carlo tree search engine for a four-player hex-board trading and
//! building game, with the rules engine and search tree verified.

pub mod cli;
pub mod topology;
pub mod types;
pub mod bits;
pub mod player_state;
pub mod board;
pub mod rng;
pub mod graph;
pub mod game_state;
pub mod apply;
pub mod game_data;
pub mod mcts;
pub mod legality;
pub mod uci;
