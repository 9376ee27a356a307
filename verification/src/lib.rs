//! A verified argument-parsing runtime: a tokenizer that classifies raw
//! argument strings, a field binder that drives token-by-token dispatch
//! against a table of declared fields, and wrappers that let meta flags such
//! as `--help` and `--version` be layered over any field table.

pub mod bind;
pub mod error;
pub mod field;
pub mod numbers;
pub mod tokens;
pub mod values;
pub mod wrappers;

pub use bind::bind_tokens;
pub use bind::parse;
pub use bind::Field;
pub use bind::FieldKind;
pub use error::IntParseError;
pub use error::SchmargsError;
pub use error::StrippedSchmargsError;
pub use field::split_commas;
pub use field::SchmargsField;
pub use tokens::tokenize;
pub use tokens::DumbArgument;
pub use tokens::DumbIterator;
pub use values::Ty;
pub use values::Value;
pub use wrappers::intercept;
pub use wrappers::ArgsWithHelp;
pub use wrappers::ArgsWithVersion;
pub use wrappers::Wrapper;
