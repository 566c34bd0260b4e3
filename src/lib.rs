//! Generation of string parsers for data-less enumerations.
//!
//! Given the variant names of an enumeration and a small set of matching
//! directives (`trim`, `lowercase`, `truncate(N)`), this crate computes the
//! match table and the input normalization of a parser from text to variant,
//! and runs that parser. Every step carries a verified contract.

pub mod error;
pub mod generate;
pub mod laws;
pub mod normalize;
pub mod options;
pub mod schema;
pub mod table;
pub mod text;

pub use error::GenerateError;
pub use generate::{derive_fromstr, error_type_name, Generated, ParseError};
pub use normalize::{normalize, transform_of, Transform};
pub use options::{parse_options, Config, Directive, DirectiveArg};
pub use schema::{validate_schema, EnumSchema, VariantDecl};
pub use table::{build_table, MatchEntry};
