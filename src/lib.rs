//! A byte view of one command-line argument that a generic option parser can
//! split into long options, short option clusters and operands, whether or
//! not the argument is valid Unicode.
pub mod argument;
pub mod laws;
pub mod utf8_bs;

pub use argument::{OsArgument, ShortOpt};
pub use utf8_bs::{next_code_point, utf8_char_width};
