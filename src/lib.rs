//! A codec between structured program values and the tagged attribute values
//! of a key-value document store's wire protocol.
//!
//! - [`value`]: the tagged wire value and the attributes mapping of a record.
//! - [`data`]: structured values and the shapes a decoder is asked to rebuild.
//! - [`ser`] and [`de`]: the writer and the reader, with their errors.
//! - [`convert`]: converters for single types, and taking one field out of a record.
//! - [`laws`]: what holds between writing and reading.
//! - [`number`]: decimal text for the `number` payload.
//! - [`split_by`]: splitting a run of items at a separator.
pub mod convert;
pub mod data;
pub mod de;
pub mod laws;
pub mod number;
pub mod ser;
pub mod split_by;
pub mod value;

pub use convert::{extract, AttributeError, FromAttributeValue, IntoAttributeValue};
pub use data::{IntKind, Shape, Value, VariantShape};
pub use de::{from_av, Error};
pub use ser::{to_av, SerError};
pub use value::{AttributeValue, Attributes};
