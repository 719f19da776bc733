//! Reading, decoding and rendering the primitive values found in binary
//! data, and the datatype definitions built on top of them.

pub mod data;
pub mod error;
pub mod number;
pub mod types;

pub use error::Error;
