//! A localization message engine: it parses a textual resource of named
//! messages, compiles them into an immutable bundle keyed by message id, and
//! renders a message's pattern against caller-supplied string arguments,
//! collecting non-fatal resolution problems instead of aborting on them.
//!
//! - [`text`]: character classes and scanning shared by the grammars.
//! - [`ast`]: patterns, messages, and their mathematical models.
//! - [`errors`]: hard failures and collected resolution problems.
//! - [`parser`]: the resource grammar and the verified parser.
//! - [`args`]: the per-call argument mapping.
//! - [`resolver`]: rendering a pattern against arguments.
//! - [`bundle`]: locale tags, the bundle, and the render entry point.

pub mod args;
pub mod ast;
pub mod bundle;
pub mod errors;
pub mod parser;
pub mod resolver;
pub mod text;
