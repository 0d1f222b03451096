//! A verified solver core for the "bulls and cows" deduction game.
//!
//! A secret is a four-digit code with pairwise-distinct digits.  Each round
//! the solver proposes a code and receives feedback: the number of digits
//! matching in value and position (bulls) and the number matching in value
//! only (cows).  The engine keeps the set of codes consistent with all
//! feedback seen so far and picks the next guess from it.

pub mod code;
pub mod digits;
pub mod engine;
pub mod universe;

pub use code::BullsAndCows;
pub use code::Guess;
pub use code::Number;
pub use digits::ExcludeAll;
pub use digits::generate_number_random;
pub use digits::try_exclude;
pub use engine::bench;
pub use engine::count_guesses;
pub use engine::filter_candidates;
pub use engine::generate_number_smart;
pub use engine::generate_number_to_guess;
pub use universe::generate_universe;
