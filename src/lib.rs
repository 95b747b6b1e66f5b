//! The story execution engine of a branching interactive-fiction game: the script model,
//! the variable store that scripted actions write and pre-conditions read, and the
//! executor that walks the script as the player answers.

pub mod model;
pub mod variables;
pub mod executor;
pub mod laws;
