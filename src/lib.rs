//! Reader and writer for BTOR2, the line-oriented format of word-level
//! transition systems.
//!
//! - [`parse::Parser`] reads BTOR2 text into a [`system::Btor`]: sorts, a table
//!   of structurally shared terms, inputs, latches with their initial values
//!   and transitions, bad properties and constraints. Its result is stated in
//!   full by [`model::parse_spec`], one line at a time.
//! - [`deparse::Deparser`] writes a system back as canonical BTOR2 text, as
//!   [`deparse::deparse_spec`] states.
//! - [`literal`] decodes constant tokens in radix 2, 10 and 16.
//! - [`ywb`] aligns a system with a witness description of its signals.

pub mod deparse;
pub mod literal;
pub mod model;
pub mod op;
pub mod parse;
pub mod sort;
pub mod system;
pub mod term;
pub mod text;
pub mod ywb;

pub use deparse::Deparser;
pub use literal::ConstType;
pub use model::ParseError;
pub use op::{BiOpType, TriOpType, UniOpType};
pub use parse::Parser;
pub use sort::Sort;
pub use system::Btor;
pub use term::{Term, TermTable};
pub use text::{parse_id, parse_signed_id, ErrorKind};
pub use ywb::{Clock, SignalPart, YosysWitnessBTOR};
