//! A line-oriented env-file reader that turns `KEY=value` text into typed
//! declaration units and hands each unit, with the comments written above it,
//! to a caller-supplied transformer that renders the final output.

pub mod classify;
pub mod numfmt;
pub mod parser;
pub mod text;
pub mod to_lazy_static;
pub mod value;

pub use parser::{read_env, DeclarationUnit, EnvError, EnvReader, Transform};
pub use value::{CustomMap, CustomValue, EnvType};
