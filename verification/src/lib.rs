//! A small JSON-like value library.
//!
//! A value is one of seven closed variants: null, the two booleans, a string,
//! a number, an array, or an object.  The library renders a value tree to a
//! deterministic textual form (capitalized `Null` / `True` / `False`,
//! comma-space separated arrays, tab-indented multi-line objects) and parses
//! numeric literals, trying a 64-bit signed integer first.  Every rendering
//! function carries a contract that pins the produced text down exactly.

/// The value model and the serializer.
pub mod json;

/// Decimal numerals: rendering a 64-bit signed integer and parsing one.
pub mod num;

pub use crate::json::JArray;
pub use crate::json::JNumber;
pub use crate::json::JObject;
pub use crate::json::JString;
pub use crate::json::Json;
pub use crate::json::JsonValue;
pub use crate::json::Number;
pub use crate::json::ParseError;
pub use crate::json::array_to_string;
pub use crate::json::hashmap_to_string;
pub use crate::num::i64_to_string;
pub use crate::num::parse_i64;
