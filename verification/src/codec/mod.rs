//! Binary wire codec: primitives, values, operations and edits.

pub mod primitives;
pub mod value;
pub mod op;
pub mod edit;

pub use edit::{decode_edit, encode_edit, encode_edit_compressed};
pub use op::{decode_op, encode_op};
pub use primitives::{Reader, Writer};
pub use value::{decode_property_value, decode_value, encode_property_value, encode_value};
