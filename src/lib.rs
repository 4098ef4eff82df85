//! Reading, editing, merging and writing `types.xml` documents: the spawn
//! types of a game server, each keyed by its name.
use vstd::prelude::*;

pub mod actions;
pub mod display;
pub mod error;
pub mod field_value;
pub mod flags;
pub mod laws;
pub mod named;
pub mod number;
pub mod order;
pub mod pattern;
pub mod raw;
pub mod record;
pub mod tier;
pub mod types;
pub mod util;
pub mod value;
pub mod xml;

pub use error::Error;
pub use field_value::{FieldValue, FlagValues};
pub use flags::Flags;
pub use named::Named;
pub use record::Type;
pub use tier::Tier;
pub use types::Types;
pub use value::Value;

verus! {

/// The character that indents XML written for people.
pub const XML_INDENT_CHAR: char = ' ';

/// How many of `XML_INDENT_CHAR` make one level of indentation.
pub const XML_INDENT_SIZE: usize = 4;

} // verus!
