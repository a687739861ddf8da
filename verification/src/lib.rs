//! Expansion of compact hostlist expressions.
//!
//! A hostlist is a hostname stem combined with bracketed numeric range
//! syntax, such as `node[001-003]` or `host[6,7]-[9-11].x`.  The library
//! parses such an expression and expands it into the explicit, ordered
//! list of concrete names it denotes: [`expand`] is the entry point,
//! with the parsing and expansion stages also exposed one by one.
//!
//! The grammar is stated once, as specification functions over
//! character sequences, in [`grammar`]; what a parsed expression
//! denotes — zero-padded decimal formatting and ordered cartesian
//! concatenation — is stated in [`eval`].  The executable scanner in
//! [`parse`] and the engine in [`engine`] are verified to return
//! exactly that: the contract of [`expand`] pins its result, success or
//! error, to [`eval::expand_spec`] applied to the input.  [`laws`]
//! proves the output-counting law and determinism on top of that.
//!
//! Failures are total and atomic: a grammar violation yields
//! [`HostlistError::Syntax`], a numeric endpoint beyond 32 bits
//! [`HostlistError::Overflow`], and no partial list is ever produced.

pub mod ast;
pub mod engine;
pub mod eval;
pub mod grammar;
pub mod laws;
pub mod parse;

pub use ast::HostlistError;
pub use ast::RangeList;
pub use ast::Segment;
pub use engine::cartesian;
pub use engine::expand;
pub use engine::expand_parsed;
pub use engine::format_padded;
pub use engine::group_expand;
pub use parse::hnrangepair;
pub use parse::hostlist;
pub use parse::hostname_part;
pub use parse::listexpr;
pub use parse::range;
