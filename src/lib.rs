//! Typed access to the values of a hierarchical key-value store laid out as
//! the Windows Registry lays them out: each value carries a numeric type tag
//! and a raw byte buffer, which the codec in [`value`] turns into a typed
//! [`Data`] and back. Strings are held as [`WideString`]s, NUL-free and
//! well-formed UTF-16; [`laws`] states what encoding and decoding guarantee
//! together.
pub mod display;
mod hive;
pub mod laws;
pub mod text;
pub mod util;
pub mod value;

pub use hive::{hive_name, join_key_path, key_display, Hive};
pub use text::WideString;
pub use util::U16AlignedU8Vec;
pub use value::Data;
