//! Core of an interactive command-prefix shell: a classifier that turns one
//! line of input into a typed action, and the prefix token sequence that the
//! actions operate on.

pub mod chars;
pub mod text;
pub mod input;
pub mod prefix;
pub mod prompt;
