//! Named project directories for an interactive shell: a line-oriented store
//! of `name:path` records, the rules for adding, listing, removing and
//! resolving them, and the text of the shell integration that performs the
//! actual directory change.

pub mod error;
pub mod host;
pub mod laws;
pub mod paths;
pub mod shell;
pub mod store;
pub mod switch;
pub mod text;
