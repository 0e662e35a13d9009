//! A minimal line-oriented text search library.
//!
//! Given a query string and the full contents of a file, the library returns
//! every line that contains the query, in original file order, optionally
//! ignoring case. Configuration is validated from positional arguments and
//! one environment toggle; reading the file and printing the results are the
//! caller's job.

pub mod config;
pub mod lines;
pub mod search;
pub mod subseq;
pub mod text;

pub use config::Config;
pub use search::search;
pub use search::search_case_insensitive;
pub use search::search_with_config;
pub use text::contains_substring;
