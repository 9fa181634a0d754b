//! The command line of the engine: its subcommands and their options.

use std::path::PathBuf;
use vstd::prelude::*;

verus! {

/// A filesystem path, carried through unchanged.
#[verifier::external_type_specification]
#[verifier::external_body]
pub struct ExPathBuf(PathBuf);

/// The parsed command line.
#[derive(Debug)]
pub struct Args {
    pub command: Option<Commands>,
}

/// The subcommands of the engine.
#[derive(Debug)]
pub enum Commands {
    /// Start the UCI console interface (default)
    Uci,
    /// Watch the engine play a single game against itself
    Play {
        /// Optional RNG seed
        seed: Option<u64>,
    },
    /// Run an SPRT gainer test against another engine
    Sprt {
        /// Path to the other engine executable
        exe: PathBuf,
        /// Number of concurrent threads to run
        threads: u16,
        /// Number of playouts to run for each move during a game
        playouts: u64,
        /// Initial number of won games (use to resume a previous incomplete test)
        init_wins: u64,
        /// Initial number of lost games (use to resume a previous incomplete test)
        init_losses: u64,
    },
    /// Test the move selection heuristic against a baseline
    HTest {
        seed: u64,
    },
}

} // verus!
