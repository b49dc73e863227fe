//! Deterministic replay engine for a 9-cell board game played against a
//! pseudo-random opponent.
//!
//! A completed game is summarised by a transcript: the 64-bit seed of the
//! opponent's generator plus the ordered list of the human side's moves.
//! Replaying a transcript regenerates the whole game deterministically and
//! decides one boolean: did the recorded side complete a winning line.

pub mod board;
pub mod codec;
pub mod replay;
pub mod rng;

pub use board::Board;
pub use board::Cell;
pub use board::Player;
pub use board::render_board;
pub use codec::GameRound;
pub use codec::ParseError;
pub use codec::deserialize;
pub use codec::format_seed_and_moves;
pub use replay::Game;
pub use replay::GameStatus;
pub use replay::get_computer_move;
pub use replay::verify_player_win;
pub use rng::SimpleRNG;
