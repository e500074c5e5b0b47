//! A verified bidirectional codec between self-described in-memory values and
//! the tagged-union wire representation of a remote key/attribute store.

pub mod de;
pub mod error;
pub mod numbers;
pub mod roundtrip;
pub mod ser;
pub mod value;
pub mod wire;

pub use de::from_attribute_value;
pub use error::Error;
pub use ser::to_attribute_value;
pub use value::{Shape, Value, ValueModel, VariantShape};
pub use wire::{AttrModel, AttributeValue};
