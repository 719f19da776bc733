//! Generic numbers: integers and characters of any primitive size, how they
//! are read out of a byte buffer, and how they are rendered as text.

pub mod character;
pub mod context;
pub mod digits;
pub mod format;
pub mod integer;
pub mod integer_bits;
pub mod integer_reader;
pub mod integer_text;
pub mod renderer;

pub use integer::Integer;
