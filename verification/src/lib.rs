//! Parses the usage snippet of a CI task documentation page into a typed
//! parameter model: a structural line parser, a documentation-annotation
//! parser with type inference, and a default-value formatter.

pub mod annotation;
pub mod casing;
pub mod formatting;
pub mod numeric;
pub mod snippet;
pub mod text;
