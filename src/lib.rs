//! Codec for the Boiler-System-Bus (BSB) wire protocol: frames, typed
//! payload values and the registry of known fields.

pub mod calendar;
mod checksum;
pub mod error;
pub mod field;
pub mod field_value;
pub mod fixed;
pub mod frame;
pub mod named_value;
pub mod text;
pub mod typed_value;
pub mod value;

pub use calendar::DateTime;
pub use error::BsbError;
pub use field::{Field, FieldError};
pub use field_value::FieldValue;
pub use frame::{Frame, FrameParser, FrameSerializer, PacketType, ParseErrorKind, ParseResult};
pub use named_value::NamedValue;
pub use typed_value::{TypedValue, TypedValueError};
pub use value::{Datatype, Value, ValueError};
