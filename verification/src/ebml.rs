//! EBML primitives: variable length integers, element headers, and a small
//! in-memory element tree. It round-trips byte for byte, but for padding, which
//! is dropped, and checksums, which are made anew.

pub mod bytes;
pub mod crc;
pub mod crc_laws;
pub mod element;
pub mod field_laws;
pub mod id;
pub mod laws;
pub mod node;
pub mod track_type;
pub mod tree;
pub mod value;
pub mod vint;
pub mod vint_laws;
pub mod void;

pub use crc::crc32;
pub use element::{Body, Element};
pub use node::is_master;
pub use track_type::track_type_name;
pub use tree::parse_children;
pub use value::{read_float, read_string, read_uint, uint_bytes, uint_bytes_fixed, FloatBits};
pub use vint::{
    id_len, id_len_from_first, read_id, read_size, size_len, vint_len_from_first, write_id, write_size,
    write_size_with_len, UNKNOWN,
};
pub use void::void_of;
