//! Datatypes: descriptions of how a value is laid out in binary data and
//! how it is displayed.

pub mod alignment;
pub mod h2type;
pub mod layout;
pub mod named;
pub mod network;
pub mod numeric;
pub mod resolved;
pub mod simple;
pub mod strings;
