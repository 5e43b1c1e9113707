//! Line search over text: the lines of a file that contain a query, exactly
//! or ignoring case, and the reading of the command-line arguments that ask
//! for such a search.

pub mod config;
pub mod laws;
pub mod search;
pub mod text;
