//! A verified core for a small shell-utility toolbox: a restricted
//! pattern-matching engine (literal characters, a single-character wildcard,
//! and positional start/end anchors), plus the pure helpers the commands
//! share (argument/flag splitting, symbolic permission strings).

pub mod matcher;
pub mod options;
pub mod passwd;
pub mod paths;
pub mod perms;
pub mod text;

pub use matcher::Atom;
pub use matcher::Pattern;
pub use matcher::compile_expr;
pub use matcher::match_expr;
pub use matcher::match_substr;
