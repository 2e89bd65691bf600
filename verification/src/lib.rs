//! Layered build configuration: structured documents, canonical text and
//! context resolution.
//!
//! A document is read from its text into a `Full`, which can be written back
//! in one canonical way, and resolved for a target, a kind of build and a
//! platform into a `Contextualized`: the shared keys with the keys of the
//! kind of build, of the target and of the platform put over them.

pub mod contextualized;
pub mod decimal;
pub mod error;
pub mod format;
pub mod full;
mod parser;
pub mod round_trip;
mod serializer;
pub mod soundness;
pub mod source;
pub mod syntax;
pub mod table;
pub mod text;
pub mod value;
pub mod version;
pub mod views;

pub use crate::source::SeL4Source;
pub use crate::value::SingleValue;
